//! Mesh assembly: one textured quad per placed glyph.
//!
//! For each placement the mesh gets four vertices forming the glyph's
//! scaled-and-translated bounding-box quad and six indices forming two
//! counter-clockwise triangles based at the vertex count so far. Vertex
//! coordinates are numerators over `units_per_em`, like layout positions:
//! `x = offset * units_per_em + pen + size * bound`. The index type is
//! 16-bit, so a mesh can hold at most 16384 glyph quads; exceeding that is
//! surfaced as an explicit error rather than wrapping indices.

use vstd::prelude::*;

use crate::cache::{
    cache_coherent, cache_has_room, cache_wf, entry_coherent, entry_pos, glyph_fits,
    glyph_model, has_entry, CacheError, CacheModel, GlyphCache,
};
use crate::font::{font_wf, Font};
use crate::geom::{Vec2, POINT_MAX};
use crate::layout::{layout_in_range, TextLayout};
use crate::num::lemma_mul_le;
use crate::path::bbox_of;

verus! {

/// One mesh vertex: a position, as numerators over `units_per_em`.
#[derive(Copy, Clone, Debug, PartialEq, Eq, Structural)]
pub struct Vertex {
    pub x: i64,
    pub y: i64,
}

/// Vertex and index arrays ready for upload to the GPU layer.
#[derive(Debug)]
pub struct Mesh {
    pub vertices: Vec<Vertex>,
    pub indices: Vec<u16>,
    pub units_per_em: u32,
}

/// Errors raised while assembling a mesh.
#[derive(Copy, Clone, Debug, PartialEq, Eq, Structural)]
pub enum MeshError {
    /// More glyph quads than a 16-bit index space permits.
    TooManyGlyphs,
    /// A glyph's flattened outline is too large to cache.
    GlyphTooComplex,
    /// A packing buffer is too close to the address-space limit.
    BuffersFull,
}

/// The bounding box of a glyph's built path.
pub open spec fn glyph_bbox(f: &Font, id: u16) -> (Vec2, Vec2) {
    bbox_of(glyph_model(f, id).points, glyph_model(f, id).points.len() as int)
}

/// The expected vertex `c` (corner 0..3, counter-clockwise from min/min) of
/// quad `q`.
pub open spec fn quad_vertex(f: &Font, l: &TextLayout, ox: int, oy: int, q: int, c: int) -> (
    int,
    int,
) {
    let p = l.placements@[q];
    let bb = glyph_bbox(f, p.glyph);
    let x0 = ox * l.units_per_em + p.x + l.size * bb.0.x;
    let x1 = ox * l.units_per_em + p.x + l.size * bb.1.x;
    let y0 = oy * l.units_per_em + p.y + l.size * bb.0.y;
    let y1 = oy * l.units_per_em + p.y + l.size * bb.1.y;
    if c == 0 {
        (x0, y0)
    } else if c == 1 {
        (x1, y0)
    } else if c == 2 {
        (x1, y1)
    } else {
        (x0, y1)
    }
}

/// The expected index at position `k`: two triangles
/// `(0, 1, 2)` and `(0, 2, 3)` per quad, based at the quad's first vertex.
pub open spec fn quad_index(k: int) -> int {
    let q = k / 6;
    let r = k % 6;
    4 * q + if r == 0 {
        0int
    } else if r == 1 {
        1int
    } else if r == 2 {
        2int
    } else if r == 3 {
        0int
    } else if r == 4 {
        2int
    } else {
        3int
    }
}

/// What `assemble_mesh` returns on success.
pub open spec fn mesh_matches(m: &Mesh, f: &Font, l: &TextLayout, ox: int, oy: int) -> bool {
    &&& m.vertices@.len() == 4 * l.placements@.len()
    &&& m.indices@.len() == 6 * l.placements@.len()
    &&& forall|k: int|
        0 <= k < m.vertices@.len() ==> (#[trigger] m.vertices@[k]).x == quad_vertex(
            f,
            l,
            ox,
            oy,
            k / 4,
            k % 4,
        ).0 && m.vertices@[k].y == quad_vertex(f, l, ox, oy, k / 4, k % 4).1
    &&& forall|k: int| 0 <= k < m.indices@.len() ==> (#[trigger] m.indices@[k]) as int == quad_index(k)
    &&& m.units_per_em == l.units_per_em
}

/// Both packing buffers have room for `count` more glyphs' worth of data.
pub open spec fn mesh_room(cm: CacheModel, count: int) -> bool {
    &&& cm.components.used + 131072 * count + 365536 <= usize::MAX
    &&& cm.points.used + 131072 * count + 365536 <= usize::MAX
}

/// Assembles the draw mesh for a layout, resolving every placed glyph
/// through the cache (filling it on first use).
#[verifier::rlimit(100)]
pub fn assemble_mesh(
    cache: &mut GlyphCache,
    font: &Font,
    layout: &TextLayout,
    offset_x: i64,
    offset_y: i64,
) -> (r: Result<Mesh, MeshError>)
    requires
        font_wf(font),
        cache_wf(old(cache)@),
        cache_coherent(old(cache)@, font),
        layout_in_range(layout),
        layout.units_per_em == font.units_per_em,
        -0x80000000 <= offset_x <= 0x80000000,
        -0x80000000 <= offset_y <= 0x80000000,
    ensures
        cache_wf(final(cache)@),
        cache_coherent(final(cache)@, font),
        r matches Ok(m) ==> mesh_matches(&m, font, layout, offset_x as int, offset_y as int),
        r matches Ok(m) ==> forall|k: int|
            0 <= k < m.indices@.len() ==> ((#[trigger] m.indices@[k]) as int)
                < m.vertices@.len(),
        r is Err ==> ((r == Err::<Mesh, MeshError>(MeshError::TooManyGlyphs)) <==> 4
            * layout.placements@.len() > 65536),
        r == Err::<Mesh, MeshError>(MeshError::GlyphTooComplex) ==> exists|q: int|
            0 <= q < layout.placements@.len() && !glyph_fits(
                font,
                (#[trigger] layout.placements@[q]).glyph,
            ),
        (4 * layout.placements@.len() <= 65536 && mesh_room(
            old(cache)@,
            layout.placements@.len() as int,
        ) && (forall|q: int|
            0 <= q < layout.placements@.len() ==> glyph_fits(
                font,
                (#[trigger] layout.placements@[q]).glyph,
            ))) ==> r is Ok,
{
    let n = layout.placements.len();
    if n > 16384 {
        return Err(MeshError::TooManyGlyphs);
    }
    let ghost cm0 = cache@;
    let mut vertices: Vec<Vertex> = Vec::new();
    let mut indices: Vec<u16> = Vec::new();
    let mut q: usize = 0;
    while q < n
        invariant
            0 <= q <= n,
            n <= 16384,
            n == layout.placements@.len(),
            font_wf(font),
            layout_in_range(layout),
            layout.units_per_em == font.units_per_em,
            -0x80000000 <= offset_x <= 0x80000000,
            -0x80000000 <= offset_y <= 0x80000000,
            cache_wf(cache@),
            cache_coherent(cache@, font),
            cm0 == old(cache)@,
            cache@.components.used <= cm0.components.used + 131072 * (q as int),
            cache@.points.used <= cm0.points.used + 131072 * (q as int),
            vertices@.len() == 4 * q,
            indices@.len() == 6 * q,
            forall|k: int|
                0 <= k < 4 * q ==> (#[trigger] vertices@[k]).x == quad_vertex(
                    font,
                    layout,
                    offset_x as int,
                    offset_y as int,
                    k / 4,
                    k % 4,
                ).0 && vertices@[k].y == quad_vertex(
                    font,
                    layout,
                    offset_x as int,
                    offset_y as int,
                    k / 4,
                    k % 4,
                ).1,
            forall|k: int| 0 <= k < 6 * q ==> (#[trigger] indices@[k]) as int == quad_index(k),
            mesh_room(cm0, n as int) ==> cache_has_room(cache@),
        decreases n - q,
    {
        let p = layout.placements[q];
        let ghost cmb = cache@;
        let e = match cache.resolve(font, p.glyph) {
            Ok(e) => e,
            Err(CacheError::GlyphTooComplex) => {
                proof {
                    assert(!glyph_fits(font, layout.placements@[q as int].glyph));
                }
                return Err(MeshError::GlyphTooComplex);
            },
            Err(CacheError::BuffersFull) => {
                return Err(MeshError::BuffersFull);
            },
        };
        proof {
            let cmq = cache@;
            let w = entry_pos(cmq.entries, p.glyph);
            assert(entry_coherent(&cmq.entries[w].1, cmq.entries[w].0, font, cmq));
            if !has_entry(cmb.entries, p.glyph) {
                let k0 = cmb.entries.len() as int;
                assert(entry_coherent(&cmq.entries[k0].1, cmq.entries[k0].0, font, cmq));
                assert(cmq.points.used == cmb.points.used
                    + cmq.entries[k0].1.path.points@.len());
                assert(cmq.components.used == cmb.components.used
                    + cmq.entries[k0].1.path.components@.len());
            }
            assert(131072 * (q as int + 1) == 131072 * (q as int) + 131072) by (nonlinear_arith);
            assert(e.path.min == glyph_bbox(font, p.glyph).0);
            assert(e.path.max == glyph_bbox(font, p.glyph).1);
            assert(e.path.min.in_range(POINT_MAX) && e.path.max.in_range(POINT_MAX));
            lemma_mul_le(
                layout.size as int,
                65535,
                e.path.min.x as int,
                POINT_MAX as int,
            );
            lemma_mul_le(layout.size as int, 65535, e.path.min.y as int, POINT_MAX as int);
            lemma_mul_le(layout.size as int, 65535, e.path.max.x as int, POINT_MAX as int);
            lemma_mul_le(layout.size as int, 65535, e.path.max.y as int, POINT_MAX as int);
            crate::geom::lemma_mul_bound(
                offset_x as int,
                layout.units_per_em as int,
                0x80000000,
            );
            crate::geom::lemma_mul_bound(
                offset_y as int,
                layout.units_per_em as int,
                0x80000000,
            );
        }
        let upem = layout.units_per_em as i64;
        let size = layout.size as i64;
        let base_x = offset_x * upem + p.x;
        let base_y = offset_y * upem + p.y;
        let x0 = base_x + size * e.path.min.x;
        let x1 = base_x + size * e.path.max.x;
        let y0 = base_y + size * e.path.min.y;
        let y1 = base_y + size * e.path.max.y;
        let base = vertices.len() as u16;
        vertices.push(Vertex { x: x0, y: y0 });
        vertices.push(Vertex { x: x1, y: y0 });
        vertices.push(Vertex { x: x1, y: y1 });
        vertices.push(Vertex { x: x0, y: y1 });
        indices.push(base);
        indices.push(base + 1);
        indices.push(base + 2);
        indices.push(base);
        indices.push(base + 2);
        indices.push(base + 3);
        proof {
            let qi = q as int;
            assert forall|k: int|
                4 * qi <= k < 4 * (qi + 1) implies ((#[trigger] vertices@[k]).x == quad_vertex(
                font,
                layout,
                offset_x as int,
                offset_y as int,
                k / 4,
                k % 4,
            ).0 && vertices@[k].y == quad_vertex(
                font,
                layout,
                offset_x as int,
                offset_y as int,
                k / 4,
                k % 4,
            ).1) by {
                assert(k / 4 == qi && (k == 4 * qi + k % 4)) by (nonlinear_arith)
                    requires
                        4 * qi <= k < 4 * (qi + 1);
            }
            assert forall|k: int|
                6 * qi <= k < 6 * (qi + 1) implies (#[trigger] indices@[k]) as int == quad_index(
                k,
            ) by {
                assert(k / 6 == qi && (k == 6 * qi + k % 6)) by (nonlinear_arith)
                    requires
                        6 * qi <= k < 6 * (qi + 1);
            }
            assert(131072 * (qi + 1) == 131072 * qi + 131072) by (nonlinear_arith);
        }
        q = q + 1;
    }
    let m = Mesh { vertices, indices, units_per_em: layout.units_per_em };
    proof {
        assert forall|k: int|
            0 <= k < m.indices@.len() implies ((#[trigger] m.indices@[k]) as int)
            < m.vertices@.len() by {
            assert(0 <= k / 6 < n && 0 <= k % 6 < 6) by (nonlinear_arith)
                requires
                    0 <= k < 6 * (n as int);
            assert(quad_index(k) < 4 * (n as int)) by (nonlinear_arith)
                requires
                    0 <= k / 6 < n as int,
                    quad_index(k) <= 4 * (k / 6) + 3;
        }
    }
    Ok(m)
}

} // verus!
