//! The behavioural laws of the edit engine, each proved once and for all
//! against the engine's own definition of what an edit does.

use vstd::prelude::*;

use crate::actions::TextInputEdit;
use crate::edit::EditorModel;
use crate::edit::TextInputFilter;
use crate::edit::backspace_applied;
use crate::edit::click_applied;
use crate::edit::delete_applied;
use crate::edit::edit_applied;
use crate::edit::filter_admits;
use crate::edit::insert_applied;
use crate::edit::lemma_insert_at_flat;
use crate::edit::lemma_insert_text_flat;
use crate::edit::model_wf;
use crate::edit::paste_applied;
use crate::edit::sel_bounds;
use crate::edit::selection_deleted;
use crate::layout::TextInputGlyph;
use crate::layout::layout_glyphs_wf;
use crate::layout::lemma_click_glyph_roundtrip;
use crate::text::Cursor;
use crate::text::char_count;
use crate::text::flat_pos;
use crate::text::lemma_flat_pos_in_range;
use crate::text::lemma_flat_pos_le;
use crate::text::lemma_remove_span_flat;
use crate::text::text_of;

verus! {

/// Insertion limit, kept: with a maximum of `mx` configured and no active
/// selection, an insert never pushes the character count above `mx`.
pub proof fn law_insert_limit_holds(
    m: EditorModel,
    ch: char,
    overwrite: bool,
    mx: usize,
    filter: Option<TextInputFilter>,
)
    requires
        model_wf(m),
        m.selection is None,
        char_count(m.lines) <= mx,
        char_count(m.lines) < usize::MAX,
    ensures
        char_count(insert_applied(m, ch, overwrite, Option::Some(mx), filter).lines) <= mx,
        model_wf(insert_applied(m, ch, overwrite, Option::Some(mx), filter)),
        insert_applied(m, ch, overwrite, Option::Some(mx), filter).selection is None,
{
    if filter_admits(filter, ch) {
        let c = m.cursor;
        if overwrite && (c.index as int) < m.lines[c.line as int].len() {
            crate::text::lemma_cursor_le_count(m.lines, c);
            let b = Cursor { line: c.line, index: (c.index + 1) as usize };
            lemma_remove_span_flat(m.lines, c, b);
            let lines1 = crate::text::remove_span_lines(m.lines, c, b);
            assert(char_count(lines1) == char_count(m.lines) - 1);
            lemma_insert_at_flat(lines1, c, ch);
        } else if char_count(m.lines) < mx {
            lemma_insert_at_flat(m.lines, c, ch);
        }
    }
}

/// Insertion limit, at the limit: with the buffer already holding `mx`
/// characters and no active selection, a plain (non-overwrite) insert is a
/// no-op — the state after the call is identical to the state before it.
pub proof fn law_insert_at_limit_noop(
    m: EditorModel,
    ch: char,
    mx: usize,
    filter: Option<TextInputFilter>,
)
    requires
        model_wf(m),
        m.selection is None,
        char_count(m.lines) >= mx,
    ensures
        insert_applied(m, ch, false, Option::Some(mx), filter) == m,
{
}

/// Selection replace: with selection bounds `[a, b)` active, inserting any
/// admitted character (in either overwrite mode) yields exactly the text
/// before the selection, then the character, then the text after the
/// selection — and the selection is consumed.
pub proof fn law_selection_replace(
    m: EditorModel,
    ch: char,
    overwrite: bool,
    max_chars: Option<usize>,
    filter: Option<TextInputFilter>,
    a: Cursor,
    b: Cursor,
)
    requires
        model_wf(m),
        sel_bounds(m) == Option::Some((a, b)),
        filter_admits(filter, ch),
        char_count(m.lines) < usize::MAX,
    ensures
        ({
            let r = insert_applied(m, ch, overwrite, max_chars, filter);
            let t = text_of(m.lines);
            let pa = flat_pos(m.lines, a);
            let pb = flat_pos(m.lines, b);
            &&& text_of(r.lines) == t.take(pa) + seq![ch] + t.skip(pb)
            &&& r.selection is None
        }),
{
    let t = text_of(m.lines);
    let pa = flat_pos(m.lines, a);
    let pb = flat_pos(m.lines, b);
    lemma_remove_span_flat(m.lines, a, b);
    let lines1 = crate::text::remove_span_lines(m.lines, a, b);
    lemma_flat_pos_le(m.lines, a, b);
    lemma_flat_pos_in_range(m.lines, a);
    lemma_flat_pos_in_range(m.lines, b);
    assert(flat_pos(lines1, a) == pa);
    lemma_insert_at_flat(lines1, a, ch);
    let t1 = text_of(lines1);
    assert(t1 == t.take(pa) + t.skip(pb));
    assert(t1.take(pa) =~= t.take(pa));
    assert(t1.skip(pa) =~= t.skip(pb));
    let r = insert_applied(m, ch, overwrite, max_chars, filter);
    assert(text_of(r.lines) =~= t.take(pa) + seq![ch] + t.skip(pb));
}

/// Backspace/Delete selection priority: while a selection is active, both
/// delete exactly the selected span — regardless of which end the live
/// cursor is at — and the two edits are equivalent to each other.
pub proof fn law_backspace_delete_selection(m: EditorModel, a: Cursor, b: Cursor)
    requires
        model_wf(m),
        sel_bounds(m) == Option::Some((a, b)),
    ensures
        backspace_applied(m) == delete_applied(m),
        backspace_applied(m) == selection_deleted(m, a, b),
        ({
            let t = text_of(m.lines);
            text_of(backspace_applied(m).lines) == t.take(flat_pos(m.lines, a)) + t.skip(
                flat_pos(m.lines, b),
            )
        }),
        backspace_applied(m).cursor == a,
        backspace_applied(m).selection is None,
{
    lemma_remove_span_flat(m.lines, a, b);
}

/// Idempotent Escape: with no selection active, `Escape` leaves the whole
/// state — buffer, cursor, selection and scroll — unchanged.
pub proof fn law_escape_idempotent(
    m: EditorModel,
    glyphs: Seq<TextInputGlyph>,
    line_height: int,
    max_chars: Option<usize>,
    filter: Option<TextInputFilter>,
)
    requires
        m.selection is None,
    ensures
        edit_applied(m, TextInputEdit::Escape, glyphs, line_height, max_chars, filter) == m,
{
    assert(edit_applied(m, TextInputEdit::Escape, glyphs, line_height, max_chars, filter)
        =~~= m);
}

/// Click round trip at the engine level: in a layout consistent with the
/// buffer, a click at the pixel position of a glyph's top-left corner
/// places the cursor exactly at that glyph's offset and clears the
/// selection.
pub proof fn law_click_roundtrip(
    m: EditorModel,
    glyphs: Seq<TextInputGlyph>,
    line_height: int,
    k: int,
)
    requires
        model_wf(m),
        layout_glyphs_wf(glyphs, m.lines),
        line_height >= 1,
        0 <= k < glyphs.len(),
    ensures
        ({
            let r = click_applied(m, glyphs, line_height, glyphs[k].x as int, glyphs[k].line
                * line_height);
            &&& r.cursor == (Cursor { line: glyphs[k].line, index: glyphs[k].index })
            &&& r.selection is None
            &&& r.lines == m.lines
        }),
{
    lemma_click_glyph_roundtrip(glyphs, m.lines, line_height, k);
}

/// Click round trip, boundary case: a click past the last glyph of a line
/// resolves to that line's end-of-line boundary.
pub proof fn law_click_past_line_end(
    m: EditorModel,
    glyphs: Seq<TextInputGlyph>,
    line_height: int,
    line: usize,
    x: int,
)
    requires
        model_wf(m),
        crate::text::lines_fit(m.lines),
        layout_glyphs_wf(glyphs, m.lines),
        line_height >= 1,
        (line as int) < m.lines.len(),
        forall|i: int|
            0 <= i < glyphs.len() && (#[trigger] glyphs[i]).line == line
                ==> crate::layout::glyph_mid(glyphs[i]) <= x,
    ensures
        ({
            let r = click_applied(m, glyphs, line_height, x, line * line_height);
            &&& r.cursor == (Cursor { line, index: m.lines[line as int].len() as usize })
            &&& r.selection is None
        }),
{
    crate::layout::lemma_click_past_line_end(glyphs, m.lines, line_height, line, x);
}

/// Paste, all or nothing — the nothing half: a paste that would push the
/// character count above the configured maximum leaves the state
/// completely unchanged; not a single character is inserted.
pub proof fn law_paste_rejected(m: EditorModel, text: Seq<char>, mx: usize)
    requires
        model_wf(m),
        ({
            let ab = match sel_bounds(m) {
                Option::Some(ab) => ab,
                Option::None => (m.cursor, m.cursor),
            };
            char_count(m.lines) - (flat_pos(m.lines, ab.1) - flat_pos(m.lines, ab.0))
                + text.len() > mx
        }),
    ensures
        paste_applied(m, text, Option::Some(mx)) == m,
{
}

/// Paste, all or nothing — the all half: a paste that fits lands
/// atomically, replacing any selection: the result is the text before the
/// selection, the pasted text as one block, then the text after it.
pub proof fn law_paste_fits(m: EditorModel, text: Seq<char>, max_chars: Option<usize>)
    requires
        model_wf(m),
        char_count(m.lines) + text.len() <= usize::MAX,
        ({
            let ab = match sel_bounds(m) {
                Option::Some(ab) => ab,
                Option::None => (m.cursor, m.cursor),
            };
            match max_chars {
                Option::Some(mx) => char_count(m.lines) - (flat_pos(m.lines, ab.1) - flat_pos(
                    m.lines,
                    ab.0,
                )) + text.len() <= mx,
                Option::None => true,
            }
        }),
    ensures
        ({
            let ab = match sel_bounds(m) {
                Option::Some(ab) => ab,
                Option::None => (m.cursor, m.cursor),
            };
            let r = paste_applied(m, text, max_chars);
            let t = text_of(m.lines);
            &&& text_of(r.lines) == t.take(flat_pos(m.lines, ab.0)) + text + t.skip(
                flat_pos(m.lines, ab.1),
            )
            &&& r.selection is None
        }),
{
    let ab = match sel_bounds(m) {
        Option::Some(ab) => ab,
        Option::None => (m.cursor, m.cursor),
    };
    let a = ab.0;
    let b = ab.1;
    let t = text_of(m.lines);
    let pa = flat_pos(m.lines, a);
    let pb = flat_pos(m.lines, b);
    lemma_flat_pos_le(m.lines, a, b);
    lemma_flat_pos_in_range(m.lines, a);
    lemma_flat_pos_in_range(m.lines, b);
    lemma_remove_span_flat(m.lines, a, b);
    let lines1 = crate::text::remove_span_lines(m.lines, a, b);
    assert(flat_pos(lines1, a) == pa);
    lemma_insert_text_flat(lines1, a, text);
    let t1 = text_of(lines1);
    assert(t1 == t.take(pa) + t.skip(pb));
    assert(t1.take(pa) =~= t.take(pa));
    assert(t1.skip(pa) =~= t.skip(pb));
    let r = paste_applied(m, text, max_chars);
    assert(text_of(r.lines) =~= t.take(pa) + text + t.skip(pb));
}

} // verus!
