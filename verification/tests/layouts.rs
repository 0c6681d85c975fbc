use gouache::font::Font;
use gouache::geom::Vec2;
use gouache::layout::layout;
use gouache::path::PathCommand;

fn test_font() -> Font {
    // unitsPerEm 1000, ascender 800, height 1000, line gap 90;
    // 'A' advances 600, 'B' advances 550
    let mut f = Font::new(1000, 800, 1000, 90).unwrap();
    f.add_glyph(
        1,
        600,
        vec![
            PathCommand::MoveTo(Vec2::new(0, 0)),
            PathCommand::LineTo(Vec2::new(700, 0)),
            PathCommand::LineTo(Vec2::new(700, 700)),
            PathCommand::LineTo(Vec2::new(0, 700)),
            PathCommand::Close,
        ],
    )
    .unwrap();
    f.add_glyph(2, 550, Vec::new()).unwrap();
    f.map_char('A', 1).unwrap();
    f.map_char('B', 2).unwrap();
    f
}

#[test]
fn layout_positions_and_metrics_are_exact() {
    // layout("AB", size 100): scale = 100/1000 = 0.1; glyph A at x = 0,
    // glyph B at x = 60; width = 115; height = 0.1 * (fontHeight + lineGap).
    // All coordinates are numerators over units_per_em = 1000.
    let f = test_font();
    let text: Vec<char> = "AB".chars().collect();
    let l = layout(&f, 100, &text);
    assert_eq!(l.units_per_em, 1000);
    assert_eq!(l.size, 100);
    assert_eq!(l.placements.len(), 2);
    assert_eq!(l.placements[0].glyph, 1);
    assert_eq!(l.placements[0].x, 0);
    assert_eq!(l.placements[0].y, 100 * 800); // pen starts at scale * ascender
    assert_eq!(l.placements[1].glyph, 2);
    assert_eq!(l.placements[1].x, 60 * 1000); // 60.0 after dividing by upem
    assert_eq!(l.width, 115 * 1000); // 115.0
    assert_eq!(l.height, 100 * (1000 + 90));
}

#[test]
fn newline_resets_pen_and_adds_line_height() {
    let f = test_font();
    let text: Vec<char> = "A\nB".chars().collect();
    let l = layout(&f, 100, &text);
    let line_height = 100 * (1000 + 90);
    assert_eq!(l.height, 2 * line_height);
    assert_eq!(l.placements.len(), 2);
    // pen.x resets to 0 after the newline
    assert_eq!(l.placements[1].x, 0);
    // pen.y decreases by one line height
    assert_eq!(l.placements[1].y, l.placements[0].y - line_height);
}

#[test]
fn empty_text_has_zero_width_one_line_height() {
    let f = test_font();
    let text: Vec<char> = Vec::new();
    let l = layout(&f, 100, &text);
    assert_eq!(l.width, 0);
    assert_eq!(l.height, 100 * (1000 + 90));
    assert!(l.placements.is_empty());
}

#[test]
fn unmapped_characters_are_skipped_silently() {
    let f = test_font();
    let text: Vec<char> = "AZB".chars().collect();
    let l = layout(&f, 100, &text);
    // 'Z' emits no placement and consumes no advance
    assert_eq!(l.placements.len(), 2);
    assert_eq!(l.placements[1].x, 60 * 1000);
    assert_eq!(l.width, 115 * 1000);
}

#[test]
fn size_zero_collapses_everything() {
    let f = test_font();
    let text: Vec<char> = "AB".chars().collect();
    let l = layout(&f, 0, &text);
    assert_eq!(l.width, 0);
    assert_eq!(l.height, 0);
    assert_eq!(l.placements.len(), 2);
    assert_eq!(l.placements[1].x, 0);
}
