use gouache::cache::{CacheError, GlyphCache};
use gouache::font::Font;
use gouache::geom::Vec2;
use gouache::path::PathCommand;

fn test_font() -> Font {
    let mut f = Font::new(1000, 800, 1000, 90).unwrap();
    f.add_glyph(
        1,
        600,
        vec![
            PathCommand::MoveTo(Vec2::new(0, 0)),
            PathCommand::LineTo(Vec2::new(700, 0)),
            PathCommand::LineTo(Vec2::new(700, 700)),
            PathCommand::LineTo(Vec2::new(0, 700)),
            PathCommand::Close,
        ],
    )
    .unwrap();
    f.add_glyph(2, 550, vec![
        PathCommand::MoveTo(Vec2::new(0, 0)),
        PathCommand::LineTo(Vec2::new(500, 250)),
        PathCommand::Close,
    ])
    .unwrap();
    f
}

#[test]
fn resolve_caches_and_is_idempotent() {
    let f = test_font();
    let mut cache = GlyphCache::new(64, 64);
    let e1 = cache.resolve(&f, 1).unwrap();
    assert_eq!(cache.len(), 1);
    let e2 = cache.resolve(&f, 1).unwrap();
    assert_eq!(cache.len(), 1);
    // bit-identical quantized data on the second resolution
    assert_eq!(e1.path.min, e2.path.min);
    assert_eq!(e1.path.max, e2.path.max);
    assert_eq!(e1.path.points, e2.path.points);
    assert_eq!(e1.path.components, e2.path.components);
    assert_eq!(e1.components_start, e2.components_start);
    assert_eq!(e1.components_end, e2.components_end);
    assert_eq!(e1.points_start, e2.points_start);
    assert_eq!(e1.points_end, e2.points_end);
}

#[test]
fn resolve_packs_ranges_in_logical_units() {
    let f = test_font();
    let mut cache = GlyphCache::new(64, 64);
    let e1 = cache.resolve(&f, 1).unwrap();
    // square: move + 3 lines + close = 1 + 6 + 2 = 9 points, one contour
    assert_eq!(e1.path.points.len(), 18);
    assert_eq!(e1.path.components.len(), 2);
    assert_eq!(e1.components_start, 0);
    assert_eq!(e1.components_end, 1);
    assert_eq!(e1.points_start, 0);
    assert_eq!(e1.points_end, 9);
    let e2 = cache.resolve(&f, 2).unwrap();
    // triangle: move + line + close = 1 + 2 + 2 = 5 points, one contour
    assert_eq!(e2.components_start, 1);
    assert_eq!(e2.components_end, 2);
    assert_eq!(e2.points_start, 9);
    assert_eq!(e2.points_end, 14);
    // the packed buffers hold exactly the entries' data
    for (i, &v) in e1.path.points.iter().enumerate() {
        assert_eq!(cache.points().get(2 * e1.points_start + i), v);
    }
    for (i, &v) in e2.path.points.iter().enumerate() {
        assert_eq!(cache.points().get(2 * e2.points_start + i), v);
    }
    for (i, &v) in e2.path.components.iter().enumerate() {
        assert_eq!(cache.components().get(2 * e2.components_start + i), v);
    }
}

#[test]
fn buffers_stay_row_aligned() {
    let f = test_font();
    let mut cache = GlyphCache::new(4, 6);
    cache.resolve(&f, 1).unwrap();
    cache.resolve(&f, 2).unwrap();
    // allocated length is a non-negative multiple of the row width and at
    // least the used length
    assert_eq!(cache.points().capacity() % cache.points().row_width(), 0);
    assert_eq!(cache.components().capacity() % cache.components().row_width(), 0);
    assert!(cache.points().len() <= cache.points().capacity());
    assert!(cache.components().len() <= cache.components().capacity());
    // growth is by single rows: never a full unused row left over
    assert!(cache.points().capacity() < cache.points().len() + cache.points().row_width());
}

#[test]
fn unknown_glyph_yields_empty_path() {
    let f = test_font();
    let mut cache = GlyphCache::new(64, 64);
    let e = cache.resolve(&f, 77).unwrap();
    assert_eq!(e.path.min, Vec2::new(0, 0));
    assert_eq!(e.path.max, Vec2::new(0, 0));
    assert!(e.path.points.is_empty());
    assert_eq!(e.points_start, e.points_end);
}

#[test]
fn oversized_outline_is_rejected() {
    let mut f = Font::new(1000, 800, 1000, 90).unwrap();
    let mut outline = vec![PathCommand::MoveTo(Vec2::new(0, 0))];
    for i in 0..32768 {
        outline.push(PathCommand::LineTo(Vec2::new((i % 1000) + 1, 0)));
    }
    f.add_glyph(1, 600, outline).unwrap();
    let mut cache = GlyphCache::new(64, 64);
    assert_eq!(cache.resolve(&f, 1).unwrap_err(), CacheError::GlyphTooComplex);
    assert_eq!(cache.len(), 0);
}
