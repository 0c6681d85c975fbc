use gouache::cache::GlyphCache;
use gouache::font::Font;
use gouache::geom::Vec2;
use gouache::layout::layout;
use gouache::mesh::{assemble_mesh, MeshError};
use gouache::path::PathCommand;

fn test_font() -> Font {
    let mut f = Font::new(1000, 800, 1000, 90).unwrap();
    f.add_glyph(
        1,
        600,
        vec![
            PathCommand::MoveTo(Vec2::new(0, 0)),
            PathCommand::LineTo(Vec2::new(700, 0)),
            PathCommand::LineTo(Vec2::new(700, 700)),
            PathCommand::LineTo(Vec2::new(0, 700)),
            PathCommand::Close,
        ],
    )
    .unwrap();
    f.add_glyph(
        2,
        550,
        vec![
            PathCommand::MoveTo(Vec2::new(100, 0)),
            PathCommand::LineTo(Vec2::new(600, 0)),
            PathCommand::LineTo(Vec2::new(350, 500)),
            PathCommand::Close,
        ],
    )
    .unwrap();
    f.map_char('A', 1).unwrap();
    f.map_char('B', 2).unwrap();
    f
}

#[test]
fn mesh_emits_one_quad_per_placement() {
    let f = test_font();
    let mut cache = GlyphCache::new(64, 64);
    let text: Vec<char> = "AB".chars().collect();
    let l = layout(&f, 100, &text);
    let m = assemble_mesh(&mut cache, &f, &l, 0, 0).unwrap();
    assert_eq!(m.units_per_em, 1000);
    assert_eq!(m.vertices.len(), 8);
    assert_eq!(m.indices.len(), 12);
    assert_eq!(m.indices, vec![0, 1, 2, 0, 2, 3, 4, 5, 6, 4, 6, 7]);

    // glyph A: bbox (0,0)..(700,700), pen (0, 80000), size 100:
    // corners at pen + 100 * bound, numerators over 1000
    assert_eq!(m.vertices[0].x, 0);
    assert_eq!(m.vertices[0].y, 80000);
    assert_eq!(m.vertices[2].x, 70000);
    assert_eq!(m.vertices[2].y, 80000 + 70000);
    // glyph B: bbox (100,0)..(600,500), pen (60000, 80000)
    assert_eq!(m.vertices[4].x, 60000 + 100 * 100);
    assert_eq!(m.vertices[4].y, 80000);
    assert_eq!(m.vertices[6].x, 60000 + 100 * 600);
    assert_eq!(m.vertices[6].y, 80000 + 100 * 500);
}

#[test]
fn mesh_indices_stay_within_vertex_count() {
    let f = test_font();
    let mut cache = GlyphCache::new(64, 64);
    let text: Vec<char> = "ABABAB".chars().collect();
    let l = layout(&f, 100, &text);
    let m = assemble_mesh(&mut cache, &f, &l, 5, -3).unwrap();
    assert_eq!(m.vertices.len(), 24);
    for &ix in &m.indices {
        assert!((ix as usize) < m.vertices.len());
    }
}

#[test]
fn mesh_applies_the_pixel_offset() {
    let f = test_font();
    let mut cache = GlyphCache::new(64, 64);
    let text: Vec<char> = "A".chars().collect();
    let l = layout(&f, 100, &text);
    let m = assemble_mesh(&mut cache, &f, &l, 10, 20).unwrap();
    // offset numerator is offset * units_per_em
    assert_eq!(m.vertices[0].x, 10 * 1000);
    assert_eq!(m.vertices[0].y, 20 * 1000 + 80000);
}

#[test]
fn too_many_quads_is_an_explicit_error() {
    let f = test_font();
    let mut cache = GlyphCache::new(64, 64);
    let text: Vec<char> = std::iter::repeat('A').take(16385).collect();
    let l = layout(&f, 10, &text);
    assert_eq!(
        assemble_mesh(&mut cache, &f, &l, 0, 0).unwrap_err(),
        MeshError::TooManyGlyphs
    );
}

#[test]
fn mesh_reuses_cached_glyphs() {
    let f = test_font();
    let mut cache = GlyphCache::new(64, 64);
    let text: Vec<char> = "AAAA".chars().collect();
    let l = layout(&f, 100, &text);
    let m = assemble_mesh(&mut cache, &f, &l, 0, 0).unwrap();
    assert_eq!(cache.len(), 1);
    assert_eq!(m.vertices.len(), 16);
    // repeated characters reuse the same packed data, so the buffers hold
    // exactly one glyph's worth
    assert_eq!(cache.points().len(), 18);
    assert_eq!(cache.components().len(), 2);
}

#[test]
fn mesh_accepts_the_largest_index_range() {
    let f = test_font();
    let mut cache = GlyphCache::new(64, 64);
    let text: Vec<char> = std::iter::repeat('A').take(16384).collect();
    let l = layout(&f, 10, &text);
    let m = assemble_mesh(&mut cache, &f, &l, 0, 0).unwrap();
    assert_eq!(m.vertices.len(), 65536);
    assert_eq!(m.indices.len(), 6 * 16384);
    for &ix in &m.indices {
        assert!((ix as usize) < m.vertices.len());
    }
}
