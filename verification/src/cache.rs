//! The glyph cache and its packing discipline.
//!
//! A [`GlyphCache`] maps glyph identifiers to built [`Path`]s plus the
//! ranges their packed data occupies inside two shared row-aligned buffers
//! (one for contour ranges, one for quantized points). On a hit, `resolve`
//! returns the existing entry unchanged; on a miss it builds the glyph's
//! path from its outline commands, appends the quantized data to the
//! buffers, and records the new entry. Entry ranges are in logical texel
//! units: two packed scalars per element.

use vstd::prelude::*;

use crate::buffer::{buffer_contents, buffer_wf, BufferModel, RowBuffer};
use crate::font::{font_wf, glyph_outline, glyph_ok, has_glyph, Font};
use crate::path::{
    builder_wf, cmd_in_range, last_point_in_range, model_run, path_matches, path_wf,
    BuilderModel, Path, PathBuilder, PathCommand,
};

verus! {

/// Spare capacity each packing buffer must keep so that one glyph's data
/// (at most 131070 scalars plus one row of growth) can always be appended.
pub const APPEND_MARGIN: usize = 300000;

/// Errors raised while resolving a glyph.
#[derive(Copy, Clone, Debug, PartialEq, Eq, Structural)]
pub enum CacheError {
    /// The glyph's flattened outline has more points than the quantized
    /// contour ranges can index.
    GlyphTooComplex,
    /// A packing buffer is too close to the address-space limit to accept
    /// another glyph.
    BuffersFull,
}

/// A cached glyph: its built path, plus the half-open ranges its packed
/// contour and point data occupy inside the shared buffers.
#[derive(Debug)]
pub struct GlyphEntry {
    pub path: Path,
    pub components_start: usize,
    pub components_end: usize,
    pub points_start: usize,
    pub points_end: usize,
}

/// Mathematical state of a glyph cache.
#[verifier::ext_equal]
pub ghost struct CacheModel {
    pub entries: Seq<(u16, GlyphEntry)>,
    pub components: BufferModel,
    pub points: BufferModel,
}

/// Maps glyph identifiers to cached paths and buffer ranges.
pub struct GlyphCache {
    entries: Vec<(u16, GlyphEntry)>,
    components: RowBuffer,
    points: RowBuffer,
}

impl View for GlyphCache {
    type V = CacheModel;

    closed spec fn view(&self) -> CacheModel {
        CacheModel { entries: self.entries@, components: self.components@, points: self.points@ }
    }
}

/// Some entry has this identifier.
pub open spec fn has_entry(es: Seq<(u16, GlyphEntry)>, id: u16) -> bool {
    exists|i: int| 0 <= i < es.len() && (#[trigger] es[i]).0 == id
}

/// The index of the entry with this identifier (identifiers are unique).
pub open spec fn entry_pos(es: Seq<(u16, GlyphEntry)>, id: u16) -> int {
    choose|i: int| 0 <= i < es.len() && (#[trigger] es[i]).0 == id
}

/// The outline commands of a glyph; a glyph the font does not know yields
/// an empty outline (and hence an empty path).
pub open spec fn glyph_cmds(f: &Font, id: u16) -> Seq<PathCommand> {
    if has_glyph(f.glyphs@, id) {
        glyph_outline(f.glyphs@, id)
    } else {
        Seq::empty()
    }
}

/// The builder state a glyph's outline produces.
pub open spec fn glyph_model(f: &Font, id: u16) -> BuilderModel {
    model_run(glyph_cmds(f, id), glyph_cmds(f, id).len() as int)
}

/// The glyph's flattened outline is small enough to build: its contour
/// ranges must fit the 16-bit indices of the packed representation.
pub open spec fn glyph_fits(f: &Font, id: u16) -> bool {
    glyph_model(f, id).points.len() <= 65535
}

/// Two entries carry bit-identical data.
pub open spec fn entry_like(a: &GlyphEntry, b: &GlyphEntry) -> bool {
    &&& a.path.min == b.path.min
    &&& a.path.max == b.path.max
    &&& a.path.components@ == b.path.components@
    &&& a.path.points@ == b.path.points@
    &&& a.components_start == b.components_start
    &&& a.components_end == b.components_end
    &&& a.points_start == b.points_start
    &&& a.points_end == b.points_end
}

/// The entry's path is the one its glyph's outline builds, and the entry's
/// ranges address exactly that path's packed data inside the buffers.
pub open spec fn entry_coherent(e: &GlyphEntry, id: u16, f: &Font, cm: CacheModel) -> bool {
    &&& path_matches(e.path, glyph_model(f, id))
    &&& path_wf(&e.path)
    &&& e.components_start <= e.components_end
    &&& 2 * e.components_end <= cm.components.used
    &&& e.points_start <= e.points_end
    &&& 2 * e.points_end <= cm.points.used
    &&& buffer_contents(cm.components).subrange(
        2 * e.components_start,
        2 * e.components_end,
    ) == e.path.components@
    &&& buffer_contents(cm.points).subrange(2 * e.points_start, 2 * e.points_end)
        == e.path.points@
}

/// Structural invariant of a cache: sound row buffers with an even used
/// length (two packed scalars per logical element) and unique entry keys.
pub open spec fn cache_wf(cm: CacheModel) -> bool {
    &&& buffer_wf(cm.components)
    &&& buffer_wf(cm.points)
    &&& cm.components.row_width <= 65536
    &&& cm.points.row_width <= 65536
    &&& cm.components.used % 2 == 0
    &&& cm.points.used % 2 == 0
    &&& forall|i: int, j: int|
        0 <= i < j < cm.entries.len() ==> (#[trigger] cm.entries[i]).0 != (
        #[trigger] cm.entries[j]).0
}

/// Every cached entry agrees with the font it was filled from.
pub open spec fn cache_coherent(cm: CacheModel, f: &Font) -> bool {
    forall|i: int|
        0 <= i < cm.entries.len() ==> entry_coherent(
            &(#[trigger] cm.entries[i]).1,
            cm.entries[i].0,
            f,
            cm,
        )
}

/// Both packing buffers can still take one glyph's worth of data.
pub open spec fn cache_has_room(cm: CacheModel) -> bool {
    &&& cm.components.data.len() + APPEND_MARGIN <= usize::MAX
    &&& cm.points.data.len() + APPEND_MARGIN <= usize::MAX
}

/// What every successful `resolve` guarantees: afterwards the glyph is
/// cached, the returned entry carries the cached entry's exact data, and a
/// call that found the glyph already cached changed nothing.
pub open spec fn resolve_post(cm0: CacheModel, cm1: CacheModel, id: u16, e: GlyphEntry) -> bool {
    &&& has_entry(cm1.entries, id)
    &&& entry_like(&e, &cm1.entries[entry_pos(cm1.entries, id)].1)
    &&& has_entry(cm0.entries, id) ==> cm1 == cm0
}

/// Cache idempotence: resolving the same glyph identifier twice returns
/// bit-identical data, and the second resolution leaves the cache untouched.
/// The premises are exactly what `resolve`'s contract grants each successful
/// call.
pub proof fn lemma_resolve_idempotent(
    cm0: CacheModel,
    cm1: CacheModel,
    cm2: CacheModel,
    id: u16,
    e1: GlyphEntry,
    e2: GlyphEntry,
)
    requires
        resolve_post(cm0, cm1, id, e1),
        resolve_post(cm1, cm2, id, e2),
    ensures
        cm2 == cm1,
        entry_like(&e1, &e2),
{
}

impl GlyphEntry {
    /// A bit-identical copy of the entry.
    pub fn duplicate(&self) -> (r: GlyphEntry)
        ensures
            entry_like(&r, self),
    {
        GlyphEntry {
            path: self.path.duplicate(),
            components_start: self.components_start,
            components_end: self.components_end,
            points_start: self.points_start,
            points_end: self.points_end,
        }
    }
}

impl GlyphCache {
    /// Creates an empty cache whose packing buffers have the given row
    /// widths.
    pub fn new(components_row_width: usize, points_row_width: usize) -> (r: GlyphCache)
        requires
            1 <= components_row_width <= 65536,
            1 <= points_row_width <= 65536,
        ensures
            cache_wf(r@),
            r@.entries.len() == 0,
            r@.components.used == 0,
            r@.points.used == 0,
            r@.components.row_width == components_row_width,
            r@.points.row_width == points_row_width,
    {
        GlyphCache {
            entries: Vec::new(),
            components: RowBuffer::new(components_row_width),
            points: RowBuffer::new(points_row_width),
        }
    }

    /// Number of cached glyphs.
    pub fn len(&self) -> (r: usize)
        ensures
            r == self@.entries.len(),
    {
        self.entries.len()
    }

    /// The shared contour-range packing buffer.
    pub fn components(&self) -> (r: &RowBuffer)
        ensures
            r@ == self@.components,
    {
        &self.components
    }

    /// The shared point packing buffer.
    pub fn points(&self) -> (r: &RowBuffer)
        ensures
            r@ == self@.points,
    {
        &self.points
    }

    /// Resolves a glyph: returns the cached entry on a hit (leaving the
    /// cache untouched), and otherwise builds the glyph's path, packs its
    /// data into the shared buffers, and records the new entry.
    #[verifier::rlimit(100)]
    pub fn resolve(&mut self, font: &Font, glyph_id: u16) -> (r: Result<GlyphEntry, CacheError>)
        requires
            font_wf(font),
            cache_wf(old(self)@),
            cache_coherent(old(self)@, font),
        ensures
            cache_wf(final(self)@),
            cache_coherent(final(self)@, font),
            r is Ok <==> (has_entry(old(self)@.entries, glyph_id) || (cache_has_room(old(self)@)
                && glyph_fits(font, glyph_id))),
            has_entry(old(self)@.entries, glyph_id) ==> final(self)@ == old(self)@ && (r matches
                Ok(e) && entry_like(
                &e,
                &old(self)@.entries[entry_pos(old(self)@.entries, glyph_id)].1,
            )),
            r is Ok ==> has_entry(final(self)@.entries, glyph_id) && (r matches Ok(e)
                && entry_like(&e, &final(self)@.entries[entry_pos(final(self)@.entries, glyph_id)].1)),
            (!has_entry(old(self)@.entries, glyph_id) && cache_has_room(old(self)@) && glyph_fits(
                font,
                glyph_id,
            )) ==> {
                &&& final(self)@.entries.len() == old(self)@.entries.len() + 1
                &&& final(self)@.entries[old(self)@.entries.len() as int].0 == glyph_id
                &&& buffer_contents(final(self)@.points) == buffer_contents(old(self)@.points)
                    + final(self)@.entries[old(self)@.entries.len() as int].1.path.points@
                &&& buffer_contents(final(self)@.components) == buffer_contents(
                    old(self)@.components,
                ) + final(self)@.entries[old(self)@.entries.len() as int].1.path.components@
                &&& final(self)@.points.used == old(self)@.points.used + final(self)@.entries[old(
                    self,
                )@.entries.len() as int].1.path.points@.len()
                &&& final(self)@.components.used == old(self)@.components.used
                    + final(self)@.entries[old(self)@.entries.len() as int].1.path.components@.len()
                &&& forall|i: int|
                    0 <= i < old(self)@.entries.len() ==> (#[trigger] final(self)@.entries[i]).0
                        == old(self)@.entries[i].0 && entry_like(
                        &final(self)@.entries[i].1,
                        &old(self)@.entries[i].1,
                    )
            },
            r is Err ==> final(self)@ == old(self)@,
            r matches Err(e) ==> (e == CacheError::BuffersFull <==> !cache_has_room(old(self)@)),
            r matches Ok(e) ==> resolve_post(old(self)@, final(self)@, glyph_id, e),
    {
        let ghost cm0 = self@;
        let n = self.entries.len();
        let mut i: usize = 0;
        while i < n
            invariant
                0 <= i <= n,
                n == self@.entries.len(),
                self@ == cm0,
                cache_wf(cm0),
                cache_coherent(cm0, font),
                font_wf(font),
                forall|k: int| 0 <= k < i ==> (#[trigger] cm0.entries[k]).0 != glyph_id,
            decreases n - i,
        {
            if self.entries[i].0 == glyph_id {
                proof {
                    assert(has_entry(cm0.entries, glyph_id));
                    let w = entry_pos(cm0.entries, glyph_id);
                    assert(cm0.entries[w].0 == glyph_id);
                    if w < i {
                        assert(false);
                    } else if w > i {
                        assert(cm0.entries[i as int].0 != cm0.entries[w].0);
                        assert(false);
                    }
                }
                return Ok(self.entries[i].1.duplicate());
            }
            i = i + 1;
        }
        proof {
            assert(!has_entry(cm0.entries, glyph_id));
        }

        if self.components.capacity() > usize::MAX - APPEND_MARGIN || self.points.capacity()
            > usize::MAX - APPEND_MARGIN {
            return Err(CacheError::BuffersFull);
        }

        let empty_outline: Vec<PathCommand> = Vec::new();
        let cmds: &Vec<PathCommand> = match self.find_outline(font, glyph_id) {
            Some(o) => o,
            None => &empty_outline,
        };
        proof {
            assert(cmds@ == glyph_cmds(font, glyph_id));
        }
        let mut builder = PathBuilder::new();
        let m = cmds.len();
        let mut j: usize = 0;
        proof {
            assert(builder@ =~= model_run(cmds@, 0));
        }
        while j < m
            invariant
                0 <= j <= m,
                m == cmds@.len(),
                builder_wf(builder@),
                last_point_in_range(builder@),
                builder@ == model_run(cmds@, j as int),
                forall|k: int| 0 <= k < m ==> cmd_in_range(#[trigger] cmds@[k]),
            decreases m - j,
        {
            builder.apply(&cmds[j]);
            j = j + 1;
        }
        proof {
            assert(builder@ == glyph_model(font, glyph_id));
        }
        if builder.len() > 65535 {
            return Err(CacheError::GlyphTooComplex);
        }
        proof {
            crate::path::lemma_components_bounded(builder@);
        }
        let path = builder.build();
        proof {
            assert(path.components@.len() <= 131070);
            assert(path.points@.len() <= 131070);
        }

        let components_start = self.components.len() / 2;
        let points_start = self.points.len() / 2;
        self.components.append(&path.components);
        self.points.append(&path.points);
        let components_end = self.components.len() / 2;
        let points_end = self.points.len() / 2;
        let entry = GlyphEntry { path, components_start, components_end, points_start, points_end };
        let result = entry.duplicate();
        let ghost ge = entry;
        self.entries.push((glyph_id, entry));
        proof {
            let cmF = self@;
            let k = cm0.entries.len() as int;
            let gm = glyph_model(font, glyph_id);
            assert(cmF.entries == cm0.entries.push((glyph_id, ge)));
            assert(cm0.components.used % 2 == 0 && cm0.points.used % 2 == 0);
            assert(2 * (ge.components_start as int) == cm0.components.used);
            assert(2 * (ge.points_start as int) == cm0.points.used);
            assert(2 * (ge.components_end as int) == cmF.components.used);
            assert(2 * (ge.points_end as int) == cmF.points.used);

            assert forall|a: int, b: int|
                0 <= a < b < cmF.entries.len() implies (#[trigger] cmF.entries[a]).0 != (
            #[trigger] cmF.entries[b]).0 by {
                if b == k {
                    if cm0.entries[a].0 == glyph_id {
                        assert(has_entry(cm0.entries, glyph_id));
                    }
                } else {
                    assert(cm0.entries[a].0 != cm0.entries[b].0);
                }
            }

            assert forall|t: int| 0 <= t < cmF.entries.len() implies entry_coherent(
                &(#[trigger] cmF.entries[t]).1,
                cmF.entries[t].0,
                font,
                cmF,
            ) by {
                if t < k {
                    assert(entry_coherent(&cm0.entries[t].1, cm0.entries[t].0, font, cm0));
                    let e = cm0.entries[t].1;
                    assert(buffer_contents(cmF.components).subrange(
                        2 * e.components_start,
                        2 * e.components_end,
                    ) =~= buffer_contents(cm0.components).subrange(
                        2 * e.components_start,
                        2 * e.components_end,
                    ));
                    assert(buffer_contents(cmF.points).subrange(
                        2 * e.points_start,
                        2 * e.points_end,
                    ) =~= buffer_contents(cm0.points).subrange(2 * e.points_start, 2 * e.points_end));
                } else {
                    assert(cmF.entries[t].1 == ge);
                    assert(path_matches(ge.path, gm));
                    assert(buffer_contents(cmF.components).subrange(
                        2 * ge.components_start,
                        2 * ge.components_end,
                    ) =~= ge.path.components@);
                    assert(buffer_contents(cmF.points).subrange(
                        2 * ge.points_start,
                        2 * ge.points_end,
                    ) =~= ge.path.points@);
                }
            }

            assert(cmF.entries[k].0 == glyph_id);
            assert(has_entry(cmF.entries, glyph_id));
            let w = entry_pos(cmF.entries, glyph_id);
            assert(cmF.entries[w].0 == glyph_id);
            if w < k {
                assert(has_entry(cm0.entries, glyph_id));
                assert(false);
            }
            assert(w == k);
            assert(entry_like(&result, &cmF.entries[k].1));

            assert forall|i: int|
                0 <= i < k implies (#[trigger] cmF.entries[i]).0 == cm0.entries[i].0 && entry_like(
                &cmF.entries[i].1,
                &cm0.entries[i].1,
            ) by {
                assert(cmF.entries[i] == cm0.entries[i]);
            }
        }
        Ok(result)
    }

    /// The outline commands of the glyph, if the font has the glyph.
    fn find_outline<'a>(&self, font: &'a Font, glyph_id: u16) -> (r: Option<&'a Vec<PathCommand>>)
        requires
            font_wf(font),
        ensures
            r is Some <==> has_glyph(font.glyphs@, glyph_id),
            r matches Some(o) ==> o@ == glyph_outline(font.glyphs@, glyph_id) && (forall|k: int|
                0 <= k < o@.len() ==> cmd_in_range(#[trigger] o@[k])),
            r is None ==> !has_glyph(font.glyphs@, glyph_id),
    {
        match font.glyph_index(glyph_id) {
            Some(gi) => {
                proof {
                    assert(glyph_ok(&font.glyphs@[gi as int]));
                }
                Some(&font.glyphs[gi].outline)
            },
            None => None,
        }
    }

}

} // verus!
