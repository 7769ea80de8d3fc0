//! Plain-value description of the text layout collaborator's output, and
//! the pixel-to-offset translations the core performs on it.
//!
//! A shaping collaborator turns buffer content, font and wrap width into
//! positioned glyphs; the core never recomputes shaping. This module models
//! that output as integers: each glyph carries its left edge and width in
//! content space, its buffer line, and its character offset. Vertical
//! geometry is derived from the line index and the uniform line height.

use vstd::prelude::*;

use crate::text::Cursor;
use crate::text::TextBuffer;
use crate::text::cursor_le;
use crate::text::cursor_ok;
use crate::text::lines_wf;

verus! {

/// A glyph's rectangle inside its texture atlas.
#[derive(Clone, Copy, Debug, PartialEq, Eq, Structural)]
pub struct GlyphRect {
    pub x: u32,
    pub y: u32,
    pub w: u32,
    pub h: u32,
}

/// Where a glyph's raster lives: a texture atlas and a rectangle within it.
#[derive(Clone, Copy, Debug)]
pub struct GlyphAtlas {
    pub texture: u64,
    pub rect: GlyphRect,
}

/// One positioned glyph of the shaped layout.
#[derive(Clone, Copy, Debug)]
pub struct TextInputGlyph {
    /// Left edge in content space.
    pub x: i32,
    /// Advance width in pixels.
    pub width: u32,
    /// Buffer line the glyph comes from.
    pub line: usize,
    /// Character offset of the glyph within its line.
    pub index: usize,
    /// Raster location, if the glyph's atlas is available.
    pub atlas: Option<GlyphAtlas>,
}

/// The shaped layout of one widget's content: its glyphs in reading order
/// and the uniform line height.
#[derive(Clone, Debug)]
pub struct TextInputLayoutInfo {
    pub glyphs: Vec<TextInputGlyph>,
    pub line_height: u32,
}

/// An axis-aligned pixel rectangle, in the coordinate space named by its
/// context.
#[derive(Clone, Copy, Debug, PartialEq, Eq, Structural)]
pub struct RectPx {
    pub x: i64,
    pub y: i64,
    pub w: i64,
    pub h: i64,
}

/// The horizontal midpoint of a glyph: clicks left of it resolve before the
/// glyph, clicks right of it after.
pub open spec fn glyph_mid(g: TextInputGlyph) -> int {
    g.x + (g.width + 1) / 2
}

/// Layout output consistent with the buffer it was shaped from: every glyph
/// names an existing character, and within one line glyphs advance strictly
/// left to right in offset order without overlapping.
pub open spec fn layout_glyphs_wf(glyphs: Seq<TextInputGlyph>, lines: Seq<Seq<char>>) -> bool {
    &&& forall|i: int|
        0 <= i < glyphs.len() ==> {
            let g = #[trigger] glyphs[i];
            &&& (g.line as int) < lines.len()
            &&& (g.index as int) < lines[g.line as int].len()
            &&& g.width >= 1
        }
    &&& forall|i: int, j: int|
        0 <= i < j < glyphs.len() && #[trigger] glyphs[i].line == #[trigger] glyphs[j].line ==> {
            &&& glyphs[i].x + glyphs[i].width <= glyphs[j].x
            &&& glyphs[i].index < glyphs[j].index
        }
}

/// A layout usable for pixel translation against the given buffer content.
pub open spec fn layout_wf(layout: TextInputLayoutInfo, lines: Seq<Seq<char>>) -> bool {
    &&& layout.line_height >= 1
    &&& layout_glyphs_wf(layout.glyphs@, lines)
}

/// The buffer line a click at height `y` lands on: the line band containing
/// `y`, clamped to the existing lines.
pub open spec fn click_line(n_lines: int, line_height: int, y: int) -> int {
    if line_height <= 0 || y <= 0 {
        0
    } else if y / line_height >= n_lines {
        n_lines - 1
    } else {
        y / line_height
    }
}

/// The character offset a click at `x` resolves to on `line`: the offset of
/// the first of the line's glyphs whose midpoint lies right of the click, or
/// none when the click falls past them all.
pub open spec fn click_index(glyphs: Seq<TextInputGlyph>, line: int, x: int) -> Option<usize>
    decreases glyphs.len(),
{
    if glyphs.len() == 0 {
        Option::None
    } else if glyphs[0].line == line && x < glyph_mid(glyphs[0]) {
        Option::Some(glyphs[0].index)
    } else {
        click_index(glyphs.drop_first(), line, x)
    }
}

/// The cursor a click resolves to: its line by the vertical band, its offset
/// by glyph midpoints, and end of line when the click falls past the last
/// glyph; always clamped to a valid boundary.
pub open spec fn spec_resolve_click(
    glyphs: Seq<TextInputGlyph>,
    lines: Seq<Seq<char>>,
    line_height: int,
    x: int,
    y: int,
) -> Cursor {
    let l = click_line(lines.len() as int, line_height, y);
    let end = lines[l].len();
    let idx = match click_index(glyphs, l, x) {
        Option::Some(i) => if i <= end {
            i as nat
        } else {
            end
        },
        Option::None => end,
    };
    Cursor { line: l as usize, index: idx as usize }
}

/// The left edge of the first glyph sitting exactly at the given boundary.
pub open spec fn find_exact(glyphs: Seq<TextInputGlyph>, c: Cursor) -> Option<int>
    decreases glyphs.len(),
{
    if glyphs.len() == 0 {
        Option::None
    } else if glyphs[0].line == c.line && glyphs[0].index == c.index {
        Option::Some(glyphs[0].x as int)
    } else {
        find_exact(glyphs.drop_first(), c)
    }
}

/// The right edge of the first glyph ending exactly at the given boundary.
pub open spec fn find_trailing(glyphs: Seq<TextInputGlyph>, c: Cursor) -> Option<int>
    decreases glyphs.len(),
{
    if glyphs.len() == 0 {
        Option::None
    } else if glyphs[0].line == c.line && glyphs[0].index + 1 == c.index {
        Option::Some(glyphs[0].x + glyphs[0].width)
    } else {
        find_trailing(glyphs.drop_first(), c)
    }
}

/// The horizontal pixel position of a boundary: the left edge of the glyph
/// at it, else the right edge of the glyph before it, else the line origin.
pub open spec fn spec_cursor_x(glyphs: Seq<TextInputGlyph>, c: Cursor) -> int {
    match find_exact(glyphs, c) {
        Option::Some(x) => x,
        Option::None => match find_trailing(glyphs, c) {
            Option::Some(x) => x,
            Option::None => 0,
        },
    }
}

/// Every boundary's horizontal position lies within one glyph span of the
/// 32-bit coordinate range.
pub proof fn lemma_cursor_x_range(glyphs: Seq<TextInputGlyph>, c: Cursor)
    ensures
        -0x8000_0000 <= spec_cursor_x(glyphs, c) <= 0x1_7fff_fffe,
    decreases glyphs.len(),
{
    if glyphs.len() > 0 {
        lemma_cursor_x_range(glyphs.drop_first(), c);
    }
}

/// The content-space pixel position of a boundary: its horizontal position
/// and the top of its line band. Lines beyond the 32-bit range have no
/// representable position.
pub open spec fn spec_cursor_pos(
    glyphs: Seq<TextInputGlyph>,
    line_height: int,
    c: Cursor,
) -> Option<(int, int)> {
    if c.line > 0x7fff_ffff {
        Option::None
    } else {
        Option::Some((spec_cursor_x(glyphs, c), c.line * line_height))
    }
}

/// The raw highlight rectangle of one line of a selection from `a` to `b`:
/// from the selection's start boundary on that line to its end boundary,
/// one line band tall.
pub open spec fn sel_rect_for(
    glyphs: Seq<TextInputGlyph>,
    lines: Seq<Seq<char>>,
    line_height: int,
    a: Cursor,
    b: Cursor,
    l: int,
) -> RectPx {
    let s = if l == a.line {
        a.index as int
    } else {
        0
    };
    let e = if l == b.line {
        b.index as int
    } else {
        lines[l].len() as int
    };
    let x0 = spec_cursor_x(glyphs, Cursor { line: l as usize, index: s as usize });
    let x1 = spec_cursor_x(glyphs, Cursor { line: l as usize, index: e as usize });
    let w = if x1 > x0 {
        x1 - x0
    } else {
        0
    };
    RectPx { x: x0 as i64, y: (l * line_height) as i64, w: w as i64, h: line_height as i64 }
}

/// The raw highlight rectangles of a selection from `a` to `b`: one per
/// buffer line the selection touches, in line order.
pub open spec fn spec_selection_rects(
    glyphs: Seq<TextInputGlyph>,
    lines: Seq<Seq<char>>,
    line_height: int,
    a: Cursor,
    b: Cursor,
) -> Seq<RectPx> {
    Seq::new(
        (b.line - a.line + 1) as nat,
        |i: int| sel_rect_for(glyphs, lines, line_height, a, b, a.line + i),
    )
}

impl TextInputLayoutInfo {
    /// Translate a content-space pixel position to the buffer boundary it
    /// selects.
    pub fn resolve_click(&self, buf: &TextBuffer, x: i32, y: i32) -> (c: Cursor)
        requires
            lines_wf(buf@),
        ensures
            c == spec_resolve_click(self.glyphs@, buf@, self.line_height as int, x as int, y as int),
            cursor_ok(buf@, c),
    {
        let n = buf.line_count();
        let lh = self.line_height;
        let l: usize = if lh == 0 || y <= 0 {
            0
        } else {
            let q = (y as u64) / (lh as u64);
            if q >= n as u64 {
                n - 1
            } else {
                q as usize
            }
        };
        proof {
            assert(l as int == click_line(buf@.len() as int, self.line_height as int, y as int));
        }
        let end = buf.line_len(l);
        let total = self.glyphs.len();
        proof {
            assert(self.glyphs@.skip(0) =~= self.glyphs@);
        }
        let mut i: usize = 0;
        while i < total
            invariant
                i <= total,
                total == self.glyphs@.len(),
                (l as int) < buf@.len(),
                l as int == click_line(buf@.len() as int, self.line_height as int, y as int),
                end == buf@[l as int].len(),
                click_index(self.glyphs@, l as int, x as int) == click_index(
                    self.glyphs@.skip(i as int),
                    l as int,
                    x as int,
                ),
            decreases total - i,
        {
            let g = self.glyphs[i];
            proof {
                assert(self.glyphs@.skip(i as int)[0] == g);
                assert(self.glyphs@.skip(i as int).drop_first() =~= self.glyphs@.skip(i + 1));
            }
            if g.line == l {
                let half = (g.width as u64 + 1) / 2;
                let mid: i64 = g.x as i64 + half as i64;
                proof {
                    assert(mid == glyph_mid(g));
                }
                if (x as i64) < mid {
                    let idx = if g.index <= end {
                        g.index
                    } else {
                        end
                    };
                    proof {
                        assert(click_index(self.glyphs@.skip(i as int), l as int, x as int)
                            == Option::Some(g.index));
                    }
                    return Cursor { line: l, index: idx };
                }
            }
            i = i + 1;
        }
        proof {
            assert(self.glyphs@.skip(total as int) =~= Seq::<TextInputGlyph>::empty());
        }
        Cursor { line: l, index: end }
    }

    /// The horizontal pixel position of a boundary.
    pub fn cursor_x_px(&self, c: Cursor) -> (x: i64)
        ensures
            x == spec_cursor_x(self.glyphs@, c),
    {
        let total = self.glyphs.len();
        proof {
            assert(self.glyphs@.skip(0) =~= self.glyphs@);
        }
        let mut i: usize = 0;
        while i < total
            invariant
                i <= total,
                total == self.glyphs@.len(),
                find_exact(self.glyphs@, c) == find_exact(self.glyphs@.skip(i as int), c),
            decreases total - i,
        {
            let g = self.glyphs[i];
            proof {
                assert(self.glyphs@.skip(i as int)[0] == g);
                assert(self.glyphs@.skip(i as int).drop_first() =~= self.glyphs@.skip(i + 1));
            }
            if g.line == c.line && g.index == c.index {
                return g.x as i64;
            }
            i = i + 1;
        }
        proof {
            assert(self.glyphs@.skip(total as int) =~= Seq::<TextInputGlyph>::empty());
            assert(self.glyphs@.skip(0) =~= self.glyphs@);
        }
        let mut j: usize = 0;
        while j < total
            invariant
                j <= total,
                total == self.glyphs@.len(),
                find_exact(self.glyphs@, c) is None,
                find_trailing(self.glyphs@, c) == find_trailing(self.glyphs@.skip(j as int), c),
            decreases total - j,
        {
            let g = self.glyphs[j];
            proof {
                assert(self.glyphs@.skip(j as int)[0] == g);
                assert(self.glyphs@.skip(j as int).drop_first() =~= self.glyphs@.skip(j + 1));
            }
            if g.line == c.line && c.index > 0 && g.index == c.index - 1 {
                return g.x as i64 + g.width as i64;
            }
            j = j + 1;
        }
        proof {
            assert(self.glyphs@.skip(total as int) =~= Seq::<TextInputGlyph>::empty());
        }
        0
    }

    /// The content-space pixel position of a boundary, when its line lies
    /// within the representable coordinate range.
    pub fn cursor_pixel_position(&self, c: Cursor) -> (r: Option<(i64, i64)>)
        ensures
            (r is Some <==> c.line <= 0x7fff_ffff),
            (match r {
                Option::Some(p) => p.0 == spec_cursor_x(self.glyphs@, c) && p.1 == c.line
                    * self.line_height,
                Option::None => true,
            }),
    {
        if c.line > 0x7fff_ffff {
            return Option::None;
        }
        let x = self.cursor_x_px(c);
        proof {
            assert(0 <= (c.line as int) * (self.line_height as int) <= 0x7fff_ffff
                * 0xffff_ffff) by (nonlinear_arith)
                requires
                    c.line <= 0x7fff_ffff,
                    self.line_height <= 0xffff_ffff,
            ;
        }
        let y = (c.line as i64) * (self.line_height as i64);
        Option::Some((x, y))
    }

    /// The raw highlight rectangles of the selection from `a` to `b`: one
    /// per touched buffer line.
    pub fn compute_selection_rects(&self, buf: &TextBuffer, a: Cursor, b: Cursor) -> (r: Vec<
        RectPx,
    >)
        requires
            lines_wf(buf@),
            cursor_ok(buf@, a),
            cursor_ok(buf@, b),
            cursor_le(a, b),
            b.line <= 0x7fff_ffff,
        ensures
            r@ == spec_selection_rects(self.glyphs@, buf@, self.line_height as int, a, b),
    {
        let mut out: Vec<RectPx> = Vec::new();
        let k = b.line - a.line;
        let mut i: usize = 0;
        while i <= k
            invariant
                i <= k + 1,
                k == b.line - a.line,
                b.line <= 0x7fff_ffff,
                cursor_ok(buf@, a),
                cursor_ok(buf@, b),
                cursor_le(a, b),
                out@ =~= spec_selection_rects(
                    self.glyphs@,
                    buf@,
                    self.line_height as int,
                    a,
                    b,
                ).take(i as int),
            decreases k + 1 - i,
        {
            let l = a.line + i;
            let s: usize = if l == a.line {
                a.index
            } else {
                0
            };
            let e: usize = if l == b.line {
                b.index
            } else {
                buf.line_len(l)
            };
            let x0 = self.cursor_x_px(Cursor { line: l, index: s });
            let x1 = self.cursor_x_px(Cursor { line: l, index: e });
            proof {
                lemma_cursor_x_range(self.glyphs@, Cursor { line: l, index: s });
                lemma_cursor_x_range(self.glyphs@, Cursor { line: l, index: e });
            }
            let w: i64 = if x1 > x0 {
                x1 - x0
            } else {
                0
            };
            proof {
                assert(0 <= (l as int) * (self.line_height as int) <= 0x7fff_ffff
                    * 0xffff_ffff) by (nonlinear_arith)
                    requires
                        l <= 0x7fff_ffff,
                        self.line_height <= 0xffff_ffff,
                ;
            }
            let y = (l as i64) * (self.line_height as i64);
            let rect = RectPx { x: x0, y, w, h: self.line_height as i64 };
            out.push(rect);
            proof {
                assert(rect == sel_rect_for(
                    self.glyphs@,
                    buf@,
                    self.line_height as int,
                    a,
                    b,
                    l as int,
                ));
                assert(out@ =~= spec_selection_rects(
                    self.glyphs@,
                    buf@,
                    self.line_height as int,
                    a,
                    b,
                ).take(i + 1));
            }
            i = i + 1;
        }
        proof {
            let full = spec_selection_rects(self.glyphs@, buf@, self.line_height as int, a, b);
            assert(full.take(k + 1) =~= full);
        }
        out
    }
}

/// When every glyph of the line up to position `k` ends at or before the
/// click and glyph `k` extends past it, the click resolves to glyph `k`'s
/// offset.
proof fn lemma_click_index_hits(glyphs: Seq<TextInputGlyph>, line: int, x: int, k: int)
    requires
        0 <= k < glyphs.len(),
        glyphs[k].line == line,
        x < glyph_mid(glyphs[k]),
        forall|i: int|
            0 <= i < k && (#[trigger] glyphs[i]).line == line ==> glyph_mid(glyphs[i]) <= x,
    ensures
        click_index(glyphs, line, x) == Option::Some(glyphs[k].index),
    decreases k,
{
    if k == 0 {
    } else {
        assert(glyphs[0].line == line ==> glyph_mid(glyphs[0]) <= x);
        let rest = glyphs.drop_first();
        assert(rest[k - 1] == glyphs[k]);
        assert(forall|i: int|
            0 <= i < k - 1 && (#[trigger] rest[i]).line == line ==> glyph_mid(rest[i]) <= x);
        lemma_click_index_hits(rest, line, x, k - 1);
    }
}

/// When every glyph of the line ends at or before the click, the click
/// resolves past them all.
proof fn lemma_click_index_past(glyphs: Seq<TextInputGlyph>, line: int, x: int)
    requires
        forall|i: int|
            0 <= i < glyphs.len() && (#[trigger] glyphs[i]).line == line ==> glyph_mid(glyphs[i])
                <= x,
    ensures
        (click_index(glyphs, line, x) is None),
    decreases glyphs.len(),
{
    if glyphs.len() > 0 {
        let rest = glyphs.drop_first();
        assert(forall|i: int|
            0 <= i < rest.len() && (#[trigger] rest[i]).line == line ==> glyph_mid(rest[i]) <= x);
        lemma_click_index_past(rest, line, x);
    }
}

/// Click round trip: in a well-formed layout, resolving a click at the
/// pixel position of a glyph's top-left corner yields a cursor at that
/// glyph's offset.
pub proof fn lemma_click_glyph_roundtrip(
    glyphs: Seq<TextInputGlyph>,
    lines: Seq<Seq<char>>,
    line_height: int,
    k: int,
)
    requires
        layout_glyphs_wf(glyphs, lines),
        line_height >= 1,
        lines.len() >= 1,
        0 <= k < glyphs.len(),
    ensures
        (spec_resolve_click(glyphs, lines, line_height, glyphs[k].x as int, glyphs[k].line
            * line_height) == Cursor { line: glyphs[k].line, index: glyphs[k].index }),
{
    let g = glyphs[k];
    let y = g.line * line_height;
    let x = g.x as int;
    assert((g.line * line_height) / line_height == g.line as int) by (nonlinear_arith)
        requires
            line_height >= 1,
    ;
    assert(g.line * line_height >= 0) by (nonlinear_arith)
        requires
            line_height >= 1,
    ;
    if y <= 0 {
        assert(g.line == 0) by (nonlinear_arith)
            requires
                line_height >= 1,
                g.line * line_height <= 0,
        ;
    }
    assert(click_line(lines.len() as int, line_height, y) == g.line as int);

    assert((g.width + 1) / 2 >= 1);
    assert(x < glyph_mid(g));
    assert forall|i: int|
        0 <= i < k && (#[trigger] glyphs[i]).line == g.line as int implies glyph_mid(glyphs[i])
        <= x by {
        assert(glyphs[i].x + glyphs[i].width <= g.x);
        assert((glyphs[i].width + 1) / 2 <= glyphs[i].width);
    }
    lemma_click_index_hits(glyphs, g.line as int, x, k);
}

/// Clicking past the last glyph of a line resolves to that line's
/// end-of-line boundary.
pub proof fn lemma_click_past_line_end(
    glyphs: Seq<TextInputGlyph>,
    lines: Seq<Seq<char>>,
    line_height: int,
    line: usize,
    x: int,
)
    requires
        layout_glyphs_wf(glyphs, lines),
        line_height >= 1,
        (line as int) < lines.len(),
        forall|i: int|
            0 <= i < glyphs.len() && (#[trigger] glyphs[i]).line == line ==> glyph_mid(glyphs[i])
                <= x,
        lines[line as int].len() <= usize::MAX,
    ensures
        (spec_resolve_click(glyphs, lines, line_height, x, line * line_height) == Cursor {
            line,
            index: lines[line as int].len() as usize,
        }),
{
    let y = line * line_height;
    assert((line * line_height) / line_height == line as int) by (nonlinear_arith)
        requires
            line_height >= 1,
    ;
    assert(line * line_height >= 0) by (nonlinear_arith)
        requires
            line_height >= 1,
    ;
    if y <= 0 {
        assert(line == 0) by (nonlinear_arith)
            requires
                line_height >= 1,
                line * line_height <= 0,
        ;
    }
    assert(click_line(lines.len() as int, line_height, y) == line as int);
    lemma_click_index_past(glyphs, line as int, x);
}

} // verus!
