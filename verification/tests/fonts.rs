use gouache::font::{Font, FontError};
use gouache::geom::Vec2;
use gouache::path::PathCommand;

fn square_outline(side: i64) -> Vec<PathCommand> {
    vec![
        PathCommand::MoveTo(Vec2::new(0, 0)),
        PathCommand::LineTo(Vec2::new(side, 0)),
        PathCommand::LineTo(Vec2::new(side, side)),
        PathCommand::LineTo(Vec2::new(0, side)),
        PathCommand::Close,
    ]
}

#[test]
fn font_new_validates_metrics() {
    assert!(Font::new(1000, 800, 1000, 90).is_ok());
    assert_eq!(Font::new(0, 800, 1000, 90).unwrap_err(), FontError::OutOfRange);
    assert_eq!(Font::new(1000, 70000, 1000, 90).unwrap_err(), FontError::OutOfRange);
    assert_eq!(Font::new(1000, 800, -70000, 90).unwrap_err(), FontError::OutOfRange);
}

#[test]
fn add_glyph_rejects_duplicates_and_bad_data() {
    let mut f = Font::new(1000, 800, 1000, 90).unwrap();
    assert!(f.add_glyph(1, 600, square_outline(700)).is_ok());
    assert_eq!(
        f.add_glyph(1, 550, square_outline(700)).unwrap_err(),
        FontError::DuplicateGlyph
    );
    assert_eq!(
        f.add_glyph(2, 70000, square_outline(700)).unwrap_err(),
        FontError::OutOfRange
    );
    assert_eq!(
        f.add_glyph(2, 550, square_outline(300000)).unwrap_err(),
        FontError::OutOfRange
    );
}

#[test]
fn map_char_checks_glyph_and_uniqueness() {
    let mut f = Font::new(1000, 800, 1000, 90).unwrap();
    f.add_glyph(1, 600, square_outline(700)).unwrap();
    assert_eq!(f.map_char('A', 9).unwrap_err(), FontError::UnknownGlyph);
    assert!(f.map_char('A', 1).is_ok());
    assert_eq!(f.map_char('A', 1).unwrap_err(), FontError::DuplicateChar);
}

#[test]
fn lookups_follow_the_tables() {
    let mut f = Font::new(1000, 800, 1000, 90).unwrap();
    f.add_glyph(1, 600, square_outline(700)).unwrap();
    f.add_glyph(2, 550, Vec::new()).unwrap();
    f.map_char('A', 1).unwrap();
    f.map_char('B', 2).unwrap();
    assert_eq!(f.glyph_of_char('A'), Some(1));
    assert_eq!(f.glyph_of_char('B'), Some(2));
    assert_eq!(f.glyph_of_char('C'), None);
    assert_eq!(f.advance_of(1), Some(600));
    assert_eq!(f.advance_of(2), Some(550));
    assert_eq!(f.advance_of(3), None);
}
