use gouache::geom::Vec2;
use gouache::path::{PathBuilder, PathCommand};

#[test]
fn move_and_line_record_points() {
    let mut b = PathBuilder::new();
    b.move_to(Vec2::new(1, 2));
    b.line_to(Vec2::new(3, 4));
    assert_eq!(b.len(), 3);
    assert_eq!(b.contour_count(), 1);
    assert_eq!(b.point_at(0), Vec2::new(1, 2));
    // a straight edge is a degenerate quadratic: endpoint recorded twice
    assert_eq!(b.point_at(1), Vec2::new(3, 4));
    assert_eq!(b.point_at(2), Vec2::new(3, 4));
}

#[test]
fn quadratic_records_control_then_endpoint() {
    let mut b = PathBuilder::new();
    b.move_to(Vec2::new(0, 0));
    b.quadratic_to(Vec2::new(5, 9), Vec2::new(10, 0));
    assert_eq!(b.len(), 3);
    assert_eq!(b.point_at(1), Vec2::new(5, 9));
    assert_eq!(b.point_at(2), Vec2::new(10, 0));
}

#[test]
fn close_repeats_first_point_when_open() {
    let mut b = PathBuilder::new();
    b.move_to(Vec2::new(0, 0));
    b.line_to(Vec2::new(100, 0));
    b.close();
    assert_eq!(b.len(), 5);
    assert_eq!(b.point_at(3), Vec2::new(0, 0));
    assert_eq!(b.point_at(4), Vec2::new(0, 0));
    // closure invariant: first and last recorded points of the contour agree
    assert_eq!(b.point_at(0), b.point_at(b.len() - 1));
}

#[test]
fn close_leaves_closed_contour_alone() {
    let mut b = PathBuilder::new();
    b.move_to(Vec2::new(7, 7));
    b.line_to(Vec2::new(20, 7));
    b.line_to(Vec2::new(7, 7));
    let before = b.len();
    b.close();
    assert_eq!(b.len(), before);
    assert_eq!(b.point_at(0), b.point_at(b.len() - 1));
}

#[test]
fn close_on_empty_builder_is_a_no_op() {
    let mut b = PathBuilder::new();
    b.close();
    assert_eq!(b.len(), 0);
    assert_eq!(b.contour_count(), 0);
}

#[test]
fn degenerate_cubic_emits_one_quadratic() {
    // 3*P2 - 3*P3 - P1 + P4 == 0: the cubic is exactly a quadratic
    let mut b = PathBuilder::new();
    b.move_to(Vec2::new(0, 0));
    b.cubic_to(Vec2::new(1, 0), Vec2::new(2, 0), Vec2::new(3, 0));
    assert_eq!(b.len(), 3);
    // control = (3*P2 + 3*P3 - P1 - P4) / 4 = 6/4, rounded half away = 2
    assert_eq!(b.point_at(1), Vec2::new(2, 0));
    assert_eq!(b.point_at(2), Vec2::new(3, 0));
}

#[test]
fn large_cubic_subdivides_within_tolerance() {
    // |e| = 200000, max_dim = 100000: the smallest n with
    // 250000 * e^2 <= 27 * n^6 * md^2 is 6, so 6 quadratics come out.
    let mut b = PathBuilder::new();
    b.move_to(Vec2::new(0, 0));
    b.cubic_to(
        Vec2::new(0, 100000),
        Vec2::new(100000, 100000),
        Vec2::new(100000, 0),
    );
    assert_eq!(b.len(), 1 + 12);
    // the final endpoint is exact
    assert_eq!(b.point_at(12), Vec2::new(100000, 0));
    // the first segment's endpoint is the cubic at t = 1/6, rounded:
    // x = (3*5*1*100000 + 100000) / 216, y = (7500000 + 1500000) / 216
    assert_eq!(b.point_at(2), Vec2::new(7407, 41667));
}

#[test]
fn cubic_without_move_starts_at_origin() {
    let mut b = PathBuilder::new();
    b.cubic_to(Vec2::new(1, 0), Vec2::new(2, 0), Vec2::new(3, 0));
    assert_eq!(b.len(), 2);
    assert_eq!(b.point_at(1), Vec2::new(3, 0));
}

#[test]
fn build_quantizes_to_unorm16() {
    let mut b = PathBuilder::new();
    b.move_to(Vec2::new(0, 0));
    b.line_to(Vec2::new(33, 0));
    b.line_to(Vec2::new(100, 0));
    let p = b.build();
    assert_eq!(p.min, Vec2::new(0, 0));
    assert_eq!(p.max, Vec2::new(100, 0));
    // x: round(65535 * v / 100); y has zero extent and quantizes to 0
    assert_eq!(p.points, vec![0, 0, 21627, 0, 21627, 0, 65535, 0, 65535, 0]);
    assert_eq!(p.components, vec![0, 5]);
    // round trip: dequantized 21627 is within half a step of 33
    let v: i64 = 33;
    let q: i64 = 21627;
    let span: i64 = 100;
    assert!(2 * (65535 * v - q * span).abs() <= span);
}

#[test]
fn build_empty_builder_yields_zero_box() {
    let b = PathBuilder::new();
    let p = b.build();
    assert_eq!(p.min, Vec2::new(0, 0));
    assert_eq!(p.max, Vec2::new(0, 0));
    assert!(p.points.is_empty());
    assert!(p.components.is_empty());
}

#[test]
fn build_degenerate_single_point() {
    // a single point has a zero-extent box on both axes; the clamped
    // denominator keeps the quantization defined
    let mut b = PathBuilder::new();
    b.move_to(Vec2::new(42, -17));
    let p = b.build();
    assert_eq!(p.min, Vec2::new(42, -17));
    assert_eq!(p.max, Vec2::new(42, -17));
    assert_eq!(p.points, vec![0, 0]);
}

#[test]
fn two_contours_have_disjoint_ranges() {
    let mut b = PathBuilder::new();
    b.move_to(Vec2::new(0, 0));
    b.line_to(Vec2::new(10, 0));
    b.close();
    b.move_to(Vec2::new(20, 20));
    b.line_to(Vec2::new(30, 20));
    b.close();
    let p = b.build();
    assert_eq!(p.components, vec![0, 5, 5, 10]);
}

#[test]
fn commands_apply_like_direct_calls() {
    let mut direct = PathBuilder::new();
    direct.move_to(Vec2::new(0, 0));
    direct.line_to(Vec2::new(50, 60));
    direct.close();

    let cmds = vec![
        PathCommand::MoveTo(Vec2::new(0, 0)),
        PathCommand::LineTo(Vec2::new(50, 60)),
        PathCommand::Close,
    ];
    let mut replayed = PathBuilder::new();
    for c in &cmds {
        replayed.apply(c);
    }
    assert_eq!(replayed.len(), direct.len());
    for i in 0..direct.len() {
        assert_eq!(replayed.point_at(i), direct.point_at(i));
    }
}

#[test]
fn quantization_handles_negative_coordinates() {
    let mut b = PathBuilder::new();
    b.move_to(Vec2::new(-50, -10));
    b.line_to(Vec2::new(50, 10));
    let p = b.build();
    assert_eq!(p.min, Vec2::new(-50, -10));
    assert_eq!(p.max, Vec2::new(50, 10));
    // v == min quantizes to 0, v == max to 65535
    assert_eq!(p.points[0], 0);
    assert_eq!(p.points[1], 0);
    assert_eq!(p.points[2], 65535);
    assert_eq!(p.points[3], 65535);
}

#[test]
fn every_quantized_point_round_trips_within_half_a_step() {
    let mut b = PathBuilder::new();
    b.move_to(Vec2::new(-321, 77));
    b.quadratic_to(Vec2::new(13, -999), Vec2::new(1000, 444));
    b.cubic_to(Vec2::new(1200, 800), Vec2::new(-400, 1500), Vec2::new(0, 0));
    b.close();
    let n = b.len();
    let p = b.build();
    let span_x = (p.max.x - p.min.x).max(1);
    let span_y = (p.max.y - p.min.y).max(1);
    for i in 0..n {
        let v = b.point_at(i);
        let qx = p.points[2 * i] as i64;
        let qy = p.points[2 * i + 1] as i64;
        assert!(2 * (65535 * (v.x - p.min.x) - qx * span_x).abs() <= span_x);
        assert!(2 * (65535 * (v.y - p.min.y) - qy * span_y).abs() <= span_y);
    }
}
