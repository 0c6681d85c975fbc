//! Text layout: from a string to positioned glyphs and metrics.
//!
//! Layout positions are exact rationals: a coordinate is stored as the
//! integer numerator of `value = numerator / units_per_em`, with the pen
//! advancing by `size * advance` numerator units per glyph (the rational
//! value `size * advance / units_per_em` is the scaled advance). A `'\n'`
//! resets the pen to the left margin, moves it down one line height, and
//! adds one line height to the accumulated height. A character the font
//! does not map is skipped silently: no placeholder glyph, no advance.

use vstd::prelude::*;

use crate::font::{char_glyph, font_wf, glyph_advance, has_glyph, Font};

verus! {

/// One glyph placement: the glyph and the pen position at which it is
/// drawn, as numerators over `units_per_em`.
#[derive(Copy, Clone, Debug, PartialEq, Eq, Structural)]
pub struct Placement {
    pub glyph: u16,
    pub x: i64,
    pub y: i64,
}

/// Ordered glyph placements plus the layout's scale and overall metrics.
/// `width` and `height` are numerators over `units_per_em` as well.
pub struct TextLayout {
    pub placements: Vec<Placement>,
    pub width: i64,
    pub height: i64,
    pub size: u32,
    pub units_per_em: u32,
}

/// Mathematical layout state: placements as plain triples
/// `(glyph, x, y)`, the pen position, and the running metrics.
#[verifier::ext_equal]
pub ghost struct LayoutState {
    pub placements: Seq<(u16, int, int)>,
    pub pen_x: int,
    pub pen_y: int,
    pub width: int,
    pub height: int,
}

/// The line height numerator: `size * (height + line_gap)`.
pub open spec fn line_height_num(f: &Font, size: u32) -> int {
    size * (f.height + f.line_gap)
}

/// The state before any character: pen at `(0, size * ascender)`, zero
/// width, one line height of height.
pub open spec fn layout_init(f: &Font, size: u32) -> LayoutState {
    LayoutState {
        placements: Seq::empty(),
        pen_x: 0,
        pen_y: size * f.ascender,
        width: 0,
        height: line_height_num(f, size),
    }
}

/// One character of layout.
pub open spec fn layout_step(f: &Font, size: u32, st: LayoutState, c: char) -> LayoutState {
    if c == '\n' {
        LayoutState {
            placements: st.placements,
            pen_x: 0,
            pen_y: st.pen_y - line_height_num(f, size),
            width: st.width,
            height: st.height + line_height_num(f, size),
        }
    } else {
        match char_glyph(f.chars@, c as u32) {
            Some(g) => {
                let nx = st.pen_x + size * glyph_advance(f.glyphs@, g);
                LayoutState {
                    placements: st.placements.push((g, st.pen_x, st.pen_y)),
                    pen_x: nx,
                    pen_y: st.pen_y,
                    width: if nx > st.width {
                        nx
                    } else {
                        st.width
                    },
                    height: st.height,
                }
            },
            None => st,
        }
    }
}

/// The state after the first `n` characters.
pub open spec fn layout_run(f: &Font, size: u32, chars: Seq<char>, n: int) -> LayoutState
    decreases n,
{
    if n <= 0 {
        layout_init(f, size)
    } else {
        layout_step(f, size, layout_run(f, size, chars, n - 1), chars[n - 1])
    }
}

/// The executable placements carry exactly the model's triples.
pub open spec fn placements_match(ps: Seq<Placement>, qs: Seq<(u16, int, int)>) -> bool {
    &&& ps.len() == qs.len()
    &&& forall|i: int|
        0 <= i < ps.len() ==> (#[trigger] ps[i]).glyph == qs[i].0 && ps[i].x == qs[i].1
            && ps[i].y == qs[i].2
}

/// Bound on any single step's contribution to a layout coordinate.
pub const STEP_BOUND: i64 = 17179869184;

/// Every produced coordinate is small enough for downstream arithmetic.
pub open spec fn layout_in_range(l: &TextLayout) -> bool {
    &&& l.size <= 65535
    &&& 1 <= l.units_per_em <= 65535
    &&& forall|i: int|
        0 <= i < l.placements@.len() ==> -0x40000000000000 <= (#[trigger] l.placements@[i]).x
            <= 0x40000000000000 && -0x40000000000000 <= l.placements@[i].y <= 0x40000000000000
    &&& -0x40000000000000 <= l.width <= 0x40000000000000
    &&& -0x40000000000000 <= l.height <= 0x40000000000000
}

/// What `layout` returns for the given font, size, and text.
pub open spec fn layout_matches(r: &TextLayout, f: &Font, size: u32, chars: Seq<char>) -> bool {
    let st = layout_run(f, size, chars, chars.len() as int);
    &&& placements_match(r.placements@, st.placements)
    &&& r.width == st.width
    &&& r.height == st.height
    &&& r.size == size
    &&& r.units_per_em == f.units_per_em
}

/// Walks the characters in order and produces ordered placements and
/// metrics; see the module description for the pen discipline.
pub fn layout(font: &Font, size: u32, text: &[char]) -> (r: TextLayout)
    requires
        font_wf(font),
        size <= 65535,
        text@.len() <= 1000000,
    ensures
        layout_matches(&r, font, size, text@),
        layout_in_range(&r),
{
    let mut placements: Vec<Placement> = Vec::new();
    let mut pen_x: i64 = 0;
    proof {
        assert(-17179869184 <= (size as int) * (font.ascender as int) <= 17179869184
            && -17179869184 <= (size as int) * ((font.height as int) + (font.line_gap as int))
            <= 17179869184) by (nonlinear_arith)
            requires
                size <= 65535,
                -65535 <= font.ascender <= 65535,
                -65535 <= font.height <= 65535,
                -65535 <= font.line_gap <= 65535;
    }
    let mut pen_y: i64 = (size as i64) * (font.ascender as i64);
    let lh: i64 = (size as i64) * ((font.height as i64) + (font.line_gap as i64));
    let mut width: i64 = 0;
    let mut height: i64 = lh;
    let n = text.len();
    let mut i: usize = 0;
    while i < n
        invariant
            0 <= i <= n,
            n == text@.len(),
            n <= 1000000,
            font_wf(font),
            size <= 65535,
            lh == line_height_num(font, size),
            -STEP_BOUND <= lh <= STEP_BOUND,
            placements_match(placements@, layout_run(font, size, text@, i as int).placements),
            pen_x == layout_run(font, size, text@, i as int).pen_x,
            pen_y == layout_run(font, size, text@, i as int).pen_y,
            width == layout_run(font, size, text@, i as int).width,
            height == layout_run(font, size, text@, i as int).height,
            0 <= pen_x <= STEP_BOUND * (i as int),
            0 <= width <= STEP_BOUND * (i as int),
            -(STEP_BOUND * (i as int + 1)) <= pen_y <= STEP_BOUND * (i as int + 1),
            -(STEP_BOUND * (i as int + 1)) <= height <= STEP_BOUND * (i as int + 1),
        decreases n - i,
    {
        let ghost st = layout_run(font, size, text@, i as int);
        let ghost st1 = layout_run(font, size, text@, i as int + 1);
        proof {
            assert(st1 == layout_step(font, size, st, text@[i as int]));
            assert(STEP_BOUND * (i as int + 1) == STEP_BOUND * (i as int) + STEP_BOUND && STEP_BOUND
                * (i as int + 2) == STEP_BOUND * (i as int + 1) + STEP_BOUND && STEP_BOUND * (
            i as int + 2) <= 0x7fffffffffffffff) by (nonlinear_arith)
                requires
                    0 <= i <= 1000000,
                    STEP_BOUND == 17179869184;
        }
        let c = text[i];
        if c == '\n' {
            pen_x = 0;
            pen_y = pen_y - lh;
            height = height + lh;
        } else {
            match font.glyph_of_char(c) {
                Some(g) => {
                    proof {
                        let w = choose|k: int|
                            0 <= k < font.chars@.len() && (#[trigger] font.chars@[k]).0 == (
                            c as u32);
                        assert(has_glyph(font.glyphs@, font.chars@[w].1));
                    }
                    let a = font.advance_of(g).unwrap();
                    placements.push(Placement { glyph: g, x: pen_x, y: pen_y });
                    proof {
                        assert(0 <= (size as int) * (a as int) <= STEP_BOUND) by (nonlinear_arith)
                            requires
                                size <= 65535,
                                a <= 65535,
                                STEP_BOUND == 17179869184;
                    }
                    pen_x = pen_x + (size as i64) * (a as i64);
                    if pen_x > width {
                        width = pen_x;
                    }
                    proof {
                        assert(placements_match(placements@, st1.placements));
                    }
                },
                None => {
                },
            }
        }
        i = i + 1;
    }
    let r = TextLayout { placements, width, height, size, units_per_em: font.units_per_em };
    proof {
        assert(STEP_BOUND * (n as int) <= 0x40000000000000 && STEP_BOUND * (n as int + 1)
            <= 0x40000000000000) by (nonlinear_arith)
            requires
                0 <= n <= 1000000,
                STEP_BOUND == 17179869184;
        assert forall|k: int|
            0 <= k < r.placements@.len() implies -0x40000000000000 <= (
        #[trigger] r.placements@[k]).x <= 0x40000000000000 && -0x40000000000000
            <= r.placements@[k].y <= 0x40000000000000 by {
            lemma_placement_bounds(font, size, text@, n as int, k);
        }
    }
    r
}

/// Number of newline characters among the first `n`.
pub open spec fn newline_count(chars: Seq<char>, n: int) -> int
    decreases n,
{
    if n <= 0 {
        0
    } else {
        newline_count(chars, n - 1) + if chars[n - 1] == '\n' {
            1int
        } else {
            0int
        }
    }
}

/// Layout determinism, height: after any prefix, the accumulated height is
/// exactly one line height per line begun — `(1 + newlines) * lineHeight`.
pub proof fn lemma_layout_height(f: &Font, size: u32, chars: Seq<char>, n: int)
    requires
        0 <= n <= chars.len(),
    ensures
        layout_run(f, size, chars, n).height == (1 + newline_count(chars, n)) * line_height_num(
            f,
            size,
        ),
    decreases n,
{
    if n == 0 {
        assert((1 + 0) * line_height_num(f, size) == line_height_num(f, size)) by (nonlinear_arith);
    } else {
        lemma_layout_height(f, size, chars, n - 1);
        let c = newline_count(chars, n - 1);
        assert((1 + c + 1) * line_height_num(f, size) == (1 + c) * line_height_num(f, size)
            + line_height_num(f, size)) by (nonlinear_arith);
    }
}

/// Layout determinism, newline: the character after a `'\n'` starts at the
/// left margin, one line height lower.
pub proof fn lemma_newline_resets_pen(f: &Font, size: u32, chars: Seq<char>, i: int)
    requires
        0 <= i < chars.len(),
        chars[i] == '\n',
    ensures
        layout_run(f, size, chars, i + 1).pen_x == 0,
        layout_run(f, size, chars, i + 1).pen_y == layout_run(f, size, chars, i).pen_y
            - line_height_num(f, size),
        layout_run(f, size, chars, i + 1).height == layout_run(f, size, chars, i).height
            + line_height_num(f, size),
{
}

/// Empty input yields width zero and exactly one line height.
pub proof fn lemma_layout_empty(f: &Font, size: u32, chars: Seq<char>)
    ensures
        layout_run(f, size, chars, 0).width == 0,
        layout_run(f, size, chars, 0).height == line_height_num(f, size),
        layout_run(f, size, chars, 0).placements.len() == 0,
{
}

/// Every placement coordinate of a bounded text is bounded.
proof fn lemma_placement_bounds(f: &Font, size: u32, chars: Seq<char>, n: int, k: int)
    requires
        font_wf(f),
        size <= 65535,
        0 <= n <= chars.len(),
        chars.len() <= 1000000,
        0 <= k < layout_run(f, size, chars, n).placements.len(),
    ensures
        -0x40000000000000 <= layout_run(f, size, chars, n).placements[k].1 <= 0x40000000000000,
        -0x40000000000000 <= layout_run(f, size, chars, n).placements[k].2 <= 0x40000000000000,
    decreases n,
{
    lemma_pen_bounds(f, size, chars, n);
    if n > 0 {
        let st = layout_run(f, size, chars, n - 1);
        if k < st.placements.len() {
            lemma_placement_bounds(f, size, chars, n - 1, k);
        } else {
            lemma_pen_bounds(f, size, chars, n - 1);
        }
    }
}

/// The pen and metrics stay within `STEP_BOUND` per character processed.
proof fn lemma_pen_bounds(f: &Font, size: u32, chars: Seq<char>, n: int)
    requires
        font_wf(f),
        size <= 65535,
        0 <= n <= chars.len(),
        chars.len() <= 1000000,
    ensures
        0 <= layout_run(f, size, chars, n).pen_x <= 0x40000000000000,
        -0x40000000000000 <= layout_run(f, size, chars, n).pen_y <= 0x40000000000000,
    decreases n,
{
    assert(0 <= STEP_BOUND * n && STEP_BOUND * (n + 1) <= 0x40000000000000 && (
    forall|m: int| 0 <= m <= n ==> #[trigger] (STEP_BOUND * m) <= STEP_BOUND * n)) by (
    nonlinear_arith)
        requires
            0 <= n <= 1000000;
    lemma_pen_bounds_rec(f, size, chars, n);
}

proof fn lemma_pen_bounds_rec(f: &Font, size: u32, chars: Seq<char>, n: int)
    requires
        font_wf(f),
        size <= 65535,
        0 <= n <= chars.len(),
        chars.len() <= 1000000,
    ensures
        0 <= layout_run(f, size, chars, n).pen_x <= STEP_BOUND * n,
        -(STEP_BOUND * (n + 1)) <= layout_run(f, size, chars, n).pen_y <= STEP_BOUND * (n + 1),
    decreases n,
{
    if n == 0 {
        assert(-STEP_BOUND <= (size as int) * (f.ascender as int) <= STEP_BOUND && STEP_BOUND * 0
            == 0 && STEP_BOUND * 1 == STEP_BOUND) by (nonlinear_arith)
            requires
                size <= 65535,
                -65535 <= f.ascender <= 65535;
    } else {
        lemma_pen_bounds_rec(f, size, chars, n - 1);
        let st = layout_run(f, size, chars, n - 1);
        let c = chars[n - 1];
        assert(-STEP_BOUND <= line_height_num(f, size) <= STEP_BOUND) by (nonlinear_arith)
            requires
                size <= 65535,
                -65535 <= f.height <= 65535,
                -65535 <= f.line_gap <= 65535;
        if c != '\n' && char_glyph(f.chars@, c as u32) is Some {
            let g = char_glyph(f.chars@, c as u32).unwrap();
            let w = choose|k: int|
                0 <= k < f.chars@.len() && (#[trigger] f.chars@[k]).0 == (c as u32);
            assert(has_glyph(f.glyphs@, f.chars@[w].1));
            let gp = crate::font::glyph_pos(f.glyphs@, g);
            assert(crate::font::glyph_ok(&f.glyphs@[gp]));
            assert(0 <= (size as int) * (glyph_advance(f.glyphs@, g) as int) <= STEP_BOUND) by (
            nonlinear_arith)
                requires
                    size <= 65535,
                    0 <= glyph_advance(f.glyphs@, g) <= 65535;
        }
        assert(STEP_BOUND * n == STEP_BOUND * (n - 1) + STEP_BOUND && STEP_BOUND * (n + 1)
            == STEP_BOUND * n + STEP_BOUND) by (nonlinear_arith);
    }
}

} // verus!
