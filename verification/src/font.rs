//! The decoded font a text pipeline works from.
//!
//! The outline decoder is an external collaborator: it turns raw font bytes
//! into per-glyph outline commands, horizontal advances, and font-wide
//! metrics. A [`Font`] holds that decoded data as plain values — integer
//! font units throughout — so everything downstream of the decoder can be
//! reasoned about exactly.

use vstd::prelude::*;

use crate::path::{cmd_in_range, PathCommand};

verus! {

/// One glyph: its identifier, horizontal advance, and outline commands.
#[derive(Debug)]
pub struct Glyph {
    pub id: u16,
    pub advance: u32,
    pub outline: Vec<PathCommand>,
}

/// Decoded font data: font-wide metrics, the glyph table, and the
/// character-to-glyph mapping.
#[derive(Debug)]
pub struct Font {
    pub units_per_em: u32,
    pub ascender: i32,
    pub height: i32,
    pub line_gap: i32,
    pub glyphs: Vec<Glyph>,
    pub chars: Vec<(u32, u16)>,
}

/// Errors raised while assembling a font.
#[derive(Copy, Clone, Debug, PartialEq, Eq, Structural)]
pub enum FontError {
    /// A metric, advance, or outline coordinate is out of the supported
    /// range.
    OutOfRange,
    /// A glyph with this identifier already exists.
    DuplicateGlyph,
    /// The referenced glyph does not exist.
    UnknownGlyph,
    /// The character is already mapped.
    DuplicateChar,
}

/// A glyph record with a bounded advance and in-range outline coordinates.
pub open spec fn glyph_ok(g: &Glyph) -> bool {
    &&& g.advance <= 65535
    &&& forall|j: int| 0 <= j < g.outline@.len() ==> cmd_in_range(#[trigger] g.outline@[j])
}

/// Some glyph in the table has this identifier.
pub open spec fn has_glyph(gs: Seq<Glyph>, id: u16) -> bool {
    exists|i: int| 0 <= i < gs.len() && (#[trigger] gs[i]).id == id
}

/// The index of the glyph with this identifier (identifiers are unique in a
/// well-formed font).
pub open spec fn glyph_pos(gs: Seq<Glyph>, id: u16) -> int {
    choose|i: int| 0 <= i < gs.len() && (#[trigger] gs[i]).id == id
}

/// Some mapping entry covers this character code.
pub open spec fn has_char(cs: Seq<(u32, u16)>, code: u32) -> bool {
    exists|i: int| 0 <= i < cs.len() && (#[trigger] cs[i]).0 == code
}

/// The glyph a character code maps to, if any.
pub open spec fn char_glyph(cs: Seq<(u32, u16)>, code: u32) -> Option<u16> {
    if has_char(cs, code) {
        Some(cs[choose|i: int| 0 <= i < cs.len() && (#[trigger] cs[i]).0 == code].1)
    } else {
        None
    }
}

/// Well-formedness of decoded font data: metrics within font-unit range,
/// every glyph record sound, identifiers and mapped characters unique, and
/// every mapping pointing at an existing glyph.
pub open spec fn font_wf(f: &Font) -> bool {
    &&& 1 <= f.units_per_em <= 65535
    &&& -65535 <= f.ascender <= 65535
    &&& -65535 <= f.height <= 65535
    &&& -65535 <= f.line_gap <= 65535
    &&& forall|i: int| 0 <= i < f.glyphs@.len() ==> glyph_ok(#[trigger] &f.glyphs@[i])
    &&& forall|i: int, j: int|
        0 <= i < j < f.glyphs@.len() ==> (#[trigger] f.glyphs@[i]).id != (
        #[trigger] f.glyphs@[j]).id
    &&& forall|i: int, j: int|
        0 <= i < j < f.chars@.len() ==> (#[trigger] f.chars@[i]).0 != (#[trigger] f.chars@[j]).0
    &&& forall|i: int|
        0 <= i < f.chars@.len() ==> has_glyph(f.glyphs@, (#[trigger] f.chars@[i]).1)
}

impl Font {
    /// Creates a font with the given font-wide metrics and no glyphs.
    /// Fails exactly when a metric is outside the supported font-unit range.
    pub fn new(units_per_em: u32, ascender: i32, height: i32, line_gap: i32) -> (r: Result<
        Font,
        FontError,
    >)
        ensures
            r is Ok <==> (1 <= units_per_em <= 65535 && -65535 <= ascender <= 65535 && -65535
                <= height <= 65535 && -65535 <= line_gap <= 65535),
            r matches Ok(f) ==> {
                &&& font_wf(&f)
                &&& f.units_per_em == units_per_em
                &&& f.ascender == ascender
                &&& f.height == height
                &&& f.line_gap == line_gap
                &&& f.glyphs@.len() == 0
                &&& f.chars@.len() == 0
            },
            r matches Err(e) ==> e == FontError::OutOfRange,
    {
        if units_per_em < 1 || units_per_em > 65535 {
            return Err(FontError::OutOfRange);
        }
        if ascender < -65535 || ascender > 65535 {
            return Err(FontError::OutOfRange);
        }
        if height < -65535 || height > 65535 {
            return Err(FontError::OutOfRange);
        }
        if line_gap < -65535 || line_gap > 65535 {
            return Err(FontError::OutOfRange);
        }
        Ok(Font { units_per_em, ascender, height, line_gap, glyphs: Vec::new(), chars: Vec::new() })
    }

    /// Adds one glyph record. Fails with `DuplicateGlyph` when the identifier
    /// is taken, and with `OutOfRange` when the advance exceeds the font-unit
    /// range or an outline coordinate is out of range.
    pub fn add_glyph(&mut self, id: u16, advance: u32, outline: Vec<PathCommand>) -> (r: Result<
        (),
        FontError,
    >)
        requires
            font_wf(old(self)),
        ensures
            font_wf(final(self)),
            r is Ok <==> (!has_glyph(old(self).glyphs@, id) && advance <= 65535 && (forall|j: int|
                0 <= j < outline@.len() ==> cmd_in_range(#[trigger] outline@[j]))),
            r is Ok ==> {
                &&& final(self).glyphs@ == old(self).glyphs@.push(
                    Glyph { id, advance, outline: outline },
                )
                &&& final(self).chars@ == old(self).chars@
                &&& final(self).units_per_em == old(self).units_per_em
                &&& final(self).ascender == old(self).ascender
                &&& final(self).height == old(self).height
                &&& final(self).line_gap == old(self).line_gap
            },
            r is Err ==> *final(self) == *old(self),
            r matches Err(e) ==> (e == FontError::DuplicateGlyph <==> has_glyph(
                old(self).glyphs@,
                id,
            )),
    {
        if self.glyph_index(id).is_some() {
            return Err(FontError::DuplicateGlyph);
        }
        if advance > 65535 {
            return Err(FontError::OutOfRange);
        }
        let n = outline.len();
        let mut j: usize = 0;
        while j < n
            invariant
                0 <= j <= n,
                n == outline@.len(),
                *self == *old(self),
                font_wf(self),
                !has_glyph(old(self).glyphs@, id),
                forall|k: int| 0 <= k < j ==> cmd_in_range(#[trigger] outline@[k]),
            decreases n - j,
        {
            if !cmd_in_range_exec(&outline[j]) {
                return Err(FontError::OutOfRange);
            }
            j = j + 1;
        }
        let ghost old_glyphs = self.glyphs@;
        self.glyphs.push(Glyph { id, advance, outline });
        proof {
            assert forall|i: int| 0 <= i < self.glyphs@.len() implies glyph_ok(
                #[trigger] &self.glyphs@[i],
            ) by {
                if i < old_glyphs.len() {
                    assert(glyph_ok(&old_glyphs[i]));
                }
            }
            assert forall|i: int|
                0 <= i < self.chars@.len() implies has_glyph(
                self.glyphs@,
                (#[trigger] self.chars@[i]).1,
            ) by {
                assert(has_glyph(old_glyphs, self.chars@[i].1));
                let w = choose|k: int|
                    0 <= k < old_glyphs.len() && (#[trigger] old_glyphs[k]).id
                        == self.chars@[i].1;
                assert(self.glyphs@[w].id == self.chars@[i].1);
            }
        }
        Ok(())
    }

    /// Maps a character to a glyph. Fails with `DuplicateChar` when the
    /// character is already mapped and with `UnknownGlyph` when no glyph has
    /// the identifier.
    pub fn map_char(&mut self, c: char, glyph: u16) -> (r: Result<(), FontError>)
        requires
            font_wf(old(self)),
        ensures
            font_wf(final(self)),
            r is Ok <==> (!has_char(old(self).chars@, c as u32) && has_glyph(
                old(self).glyphs@,
                glyph,
            )),
            r is Ok ==> {
                &&& final(self).chars@ == old(self).chars@.push((c as u32, glyph))
                &&& final(self).glyphs@ == old(self).glyphs@
                &&& final(self).units_per_em == old(self).units_per_em
                &&& final(self).ascender == old(self).ascender
                &&& final(self).height == old(self).height
                &&& final(self).line_gap == old(self).line_gap
            },
            r is Err ==> *final(self) == *old(self),
            r matches Err(e) ==> (e == FontError::DuplicateChar <==> has_char(
                old(self).chars@,
                c as u32,
            )),
    {
        if self.glyph_of_char_code(c as u32).is_some() {
            return Err(FontError::DuplicateChar);
        }
        if self.glyph_index(glyph).is_none() {
            return Err(FontError::UnknownGlyph);
        }
        self.chars.push((c as u32, glyph));
        Ok(())
    }

    /// The index of the glyph with the given identifier, if any.
    pub fn glyph_index(&self, id: u16) -> (r: Option<usize>)
        requires
            font_wf(self),
        ensures
            r is Some <==> has_glyph(self.glyphs@, id),
            r matches Some(i) ==> i < self.glyphs@.len() && self.glyphs@[i as int].id == id && i
                == glyph_pos(self.glyphs@, id),
    {
        let n = self.glyphs.len();
        let mut i: usize = 0;
        while i < n
            invariant
                0 <= i <= n,
                n == self.glyphs@.len(),
                font_wf(self),
                forall|k: int| 0 <= k < i ==> (#[trigger] self.glyphs@[k]).id != id,
            decreases n - i,
        {
            if self.glyphs[i].id == id {
                proof {
                    assert(has_glyph(self.glyphs@, id));
                    let w = glyph_pos(self.glyphs@, id);
                    assert(self.glyphs@[w].id == id);
                    if w < i {
                        assert(false);
                    } else if w > i {
                        assert(self.glyphs@[i as int].id != self.glyphs@[w].id);
                        assert(false);
                    }
                }
                return Some(i);
            }
            i = i + 1;
        }
        None
    }

    /// The glyph a character maps to, if any. Unmapped characters have no
    /// fallback: callers skip them.
    pub fn glyph_of_char(&self, c: char) -> (r: Option<u16>)
        requires
            font_wf(self),
        ensures
            r == char_glyph(self.chars@, c as u32),
    {
        self.glyph_of_char_code(c as u32)
    }

    fn glyph_of_char_code(&self, code: u32) -> (r: Option<u16>)
        requires
            font_wf(self),
        ensures
            r == char_glyph(self.chars@, code),
    {
        let n = self.chars.len();
        let mut i: usize = 0;
        while i < n
            invariant
                0 <= i <= n,
                n == self.chars@.len(),
                font_wf(self),
                forall|k: int| 0 <= k < i ==> (#[trigger] self.chars@[k]).0 != code,
            decreases n - i,
        {
            if self.chars[i].0 == code {
                proof {
                    assert(has_char(self.chars@, code));
                    let w = choose|k: int|
                        0 <= k < self.chars@.len() && (#[trigger] self.chars@[k]).0 == code;
                    if w < i {
                        assert(false);
                    } else if w > i {
                        assert(self.chars@[i as int].0 != self.chars@[w].0);
                        assert(false);
                    }
                }
                return Some(self.chars[i].1);
            }
            i = i + 1;
        }
        None
    }

    /// The horizontal advance of a glyph, in font units.
    pub fn advance_of(&self, id: u16) -> (r: Option<u32>)
        requires
            font_wf(self),
        ensures
            r is Some <==> has_glyph(self.glyphs@, id),
            r matches Some(a) ==> a == glyph_advance(self.glyphs@, id) && a <= 65535,
    {
        match self.glyph_index(id) {
            Some(i) => Some(self.glyphs[i].advance),
            None => None,
        }
    }
}

/// The advance of the glyph with this identifier.
pub open spec fn glyph_advance(gs: Seq<Glyph>, id: u16) -> u32 {
    gs[glyph_pos(gs, id)].advance
}

/// The outline of the glyph with this identifier.
pub open spec fn glyph_outline(gs: Seq<Glyph>, id: u16) -> Seq<PathCommand> {
    gs[glyph_pos(gs, id)].outline@
}

/// Decides `cmd_in_range`.
pub(crate) fn cmd_in_range_exec(c: &PathCommand) -> (r: bool)
    ensures
        r == cmd_in_range(*c),
{
    match c {
        PathCommand::MoveTo(p) => coord_ok(p),
        PathCommand::LineTo(p) => coord_ok(p),
        PathCommand::QuadraticTo(q, p) => coord_ok(q) && coord_ok(p),
        PathCommand::CubicTo(c1, c2, p) => coord_ok(c1) && coord_ok(c2) && coord_ok(p),
        PathCommand::Close => true,
    }
}

fn coord_ok(p: &crate::geom::Vec2) -> (r: bool)
    ensures
        r == p.in_range(crate::geom::COORD_MAX),
{
    -crate::geom::COORD_MAX <= p.x && p.x <= crate::geom::COORD_MAX
        && -crate::geom::COORD_MAX <= p.y && p.y <= crate::geom::COORD_MAX
}

} // verus!
