use gouache::buffer::RowBuffer;
use gouache::geom::Vec2;

#[test]
fn vec2_arithmetic() {
    let a = Vec2::new(3, 4);
    let b = Vec2::new(-2, 5);
    assert_eq!(a.dot(b), 3 * -2 + 4 * 5);
    assert_eq!(a.cross(b), 3 * 5 - 4 * -2);
    assert_eq!(a.min(b), Vec2::new(-2, 4));
    assert_eq!(a.max(b), Vec2::new(3, 5));
}

#[test]
fn row_buffer_grows_by_single_rows() {
    let mut b = RowBuffer::new(4);
    assert_eq!(b.capacity(), 0);
    assert_eq!(b.len(), 0);
    b.push(10);
    assert_eq!(b.capacity(), 4);
    assert_eq!(b.len(), 1);
    b.push(11);
    b.push(12);
    b.push(13);
    assert_eq!(b.capacity(), 4);
    b.push(14);
    assert_eq!(b.capacity(), 8);
    assert_eq!(b.len(), 5);
    for i in 0..5 {
        assert_eq!(b.get(i), 10 + i as u16);
    }
    // the invariant: capacity is a multiple of the row width and at least
    // the used length
    assert_eq!(b.capacity() % b.row_width(), 0);
    assert!(b.len() <= b.capacity());
}

#[test]
fn row_buffer_with_row_width_one_never_wastes() {
    let mut b = RowBuffer::new(1);
    for i in 0..7 {
        b.push(i);
    }
    assert_eq!(b.capacity(), 7);
    assert_eq!(b.len(), 7);
}

#[test]
fn vec2_add_sub_lerp() {
    let a = Vec2::new(10, 20);
    let b = Vec2::new(30, -20);
    assert_eq!(a.add(b), Vec2::new(40, 0));
    assert_eq!(b.sub(a), Vec2::new(20, -40));
    assert_eq!(Vec2::lerp(0, 4, a, b), a);
    assert_eq!(Vec2::lerp(4, 4, a, b), b);
    assert_eq!(Vec2::lerp(1, 4, a, b), Vec2::new(15, 10));
    // the midpoint is exact, no rounding needed
    assert_eq!(Vec2::lerp(2, 4, a, b), Vec2::new(20, 0));
}

#[test]
fn vec2_scalar_multiplication() {
    let a = Vec2::new(7, -3);
    assert_eq!(a.mul(6), Vec2::new(42, -18));
    assert_eq!(a.mul(-2), Vec2::new(-14, 6));
    assert_eq!(a.mul(0), Vec2::new(0, 0));
}
