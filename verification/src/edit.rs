//! The edit engine: applies one user edit at a time to a widget's buffer,
//! cursor and selection state, enforcing the configured character limit and
//! input filter.

use vstd::prelude::*;

use crate::actions::Motion;
use crate::actions::TextInputEdit;
use crate::layout::TextInputGlyph;
use crate::layout::TextInputLayoutInfo;
use crate::layout::spec_resolve_click;
use crate::text::Cursor;
use crate::text::TextBuffer;
use crate::text::char_count;
use crate::text::cursor_le;
use crate::text::cursor_ok;
use crate::text::flat_pos;
use crate::text::insert_char_lines;
use crate::text::lemma_buffer_view_bounds;
use crate::text::lemma_flat_pos_in_range;
use crate::text::lemma_flat_pos_le;
use crate::text::lemma_insert_char_flat;
use crate::text::lemma_remove_span_flat;
use crate::text::lemma_split_flat;
use crate::text::lines_fit;
use crate::text::lines_wf;
use crate::text::text_of;
use crate::text::remove_span_lines;
use crate::text::split_lines;

verus! {

/// A restriction on which characters may be typed into a widget, checked on
/// every insertion.
#[derive(Clone, Debug)]
pub enum TextInputFilter {
    /// Only the decimal digits.
    Numeric,
    /// Decimal digits and Latin letters.
    Alphanumeric,
    /// Only characters from the given list.
    Allowed(Vec<char>),
}

/// A decimal digit.
pub open spec fn is_digit_char(c: char) -> bool {
    48 <= c as u32 <= 57
}

/// A Latin letter.
pub open spec fn is_letter_char(c: char) -> bool {
    (65 <= c as u32 <= 90) || (97 <= c as u32 <= 122)
}

impl TextInputFilter {
    /// Whether the filter admits the character.
    pub open spec fn spec_allows(&self, ch: char) -> bool {
        match self {
            TextInputFilter::Numeric => is_digit_char(ch),
            TextInputFilter::Alphanumeric => is_digit_char(ch) || is_letter_char(ch),
            TextInputFilter::Allowed(list) => list@.contains(ch),
        }
    }

    /// Whether the filter admits the character.
    pub fn allows(&self, ch: char) -> (r: bool)
        ensures
            r == self.spec_allows(ch),
    {
        match self {
            TextInputFilter::Numeric => {
                let u = ch as u32;
                48 <= u && u <= 57
            },
            TextInputFilter::Alphanumeric => {
                let u = ch as u32;
                (48 <= u && u <= 57) || (65 <= u && u <= 90) || (97 <= u && u <= 122)
            },
            TextInputFilter::Allowed(list) => contains_char(list, ch),
        }
    }
}

/// Whether the list holds the character.
fn contains_char(list: &Vec<char>, ch: char) -> (r: bool)
    ensures
        r == list@.contains(ch),
{
    let n = list.len();
    let mut i: usize = 0;
    while i < n
        invariant
            i <= n,
            n == list@.len(),
            forall|j: int| 0 <= j < i ==> list@[j] != ch,
        decreases n - i,
    {
        if list[i] == ch {
            proof {
                assert(list@[i as int] == ch);
            }
            return true;
        }
        i = i + 1;
    }
    false
}

/// Whether an optional filter admits the character; no filter admits all.
pub open spec fn filter_admits(filter: Option<TextInputFilter>, ch: char) -> bool {
    match filter {
        Option::Some(f) => f.spec_allows(ch),
        Option::None => true,
    }
}

/// The full editing state of one widget: buffer content, cursor, selection
/// anchor, and the visible-line scroll offset.
pub struct EditorState {
    pub buffer: TextBuffer,
    pub cursor: Cursor,
    /// Selection anchor; the live cursor is the selection's other end.
    pub selection: Option<Cursor>,
    /// First visible line of the view.
    pub scroll_lines: i32,
}

/// The mathematical value of an editing state.
#[verifier::ext_equal]
pub ghost struct EditorModel {
    pub lines: Seq<Seq<char>>,
    pub cursor: Cursor,
    pub selection: Option<Cursor>,
    pub scroll: int,
}

impl View for EditorState {
    type V = EditorModel;

    open spec fn view(&self) -> EditorModel {
        EditorModel {
            lines: self.buffer@,
            cursor: self.cursor,
            selection: self.selection,
            scroll: self.scroll_lines as int,
        }
    }
}

/// Well-formed editing state: well-formed buffer content, and cursor and
/// anchor at valid boundaries within it.
pub open spec fn model_wf(m: EditorModel) -> bool {
    &&& lines_wf(m.lines)
    &&& cursor_ok(m.lines, m.cursor)
    &&& match m.selection {
        Option::Some(anchor) => cursor_ok(m.lines, anchor),
        Option::None => true,
    }
}

/// The canonical bounds of the active selection: anchor and live cursor in
/// reading order. An anchored selection with both ends equal still has
/// (empty) bounds.
pub open spec fn sel_bounds(m: EditorModel) -> Option<(Cursor, Cursor)> {
    match m.selection {
        Option::None => Option::None,
        Option::Some(anchor) => if cursor_le(anchor, m.cursor) {
            Option::Some((anchor, m.cursor))
        } else {
            Option::Some((m.cursor, anchor))
        },
    }
}

/// A character that continues a word: a digit, a letter, an underscore, or
/// anything beyond the ASCII range.
pub open spec fn is_word_char(c: char) -> bool {
    is_digit_char(c) || is_letter_char(c) || c == '_' || c as u32 > 0x7f
}

/// A character that continues a word.
pub fn word_char(c: char) -> (r: bool)
    ensures
        r == is_word_char(c),
{
    let u = c as u32;
    (48 <= u && u <= 57) || (65 <= u && u <= 90) || (97 <= u && u <= 122) || u == 95 || u > 0x7f
}

/// The end of the run of word characters starting at `i`.
pub open spec fn run_end(l: Seq<char>, i: int) -> int
    decreases l.len() - i,
{
    if i < 0 || i >= l.len() {
        l.len() as int
    } else if is_word_char(l[i]) {
        run_end(l, i + 1)
    } else {
        i
    }
}

/// The first word end strictly after `i`, or the line end when no word
/// follows.
pub open spec fn next_word_end(l: Seq<char>, i: int) -> int
    decreases l.len() - i,
{
    if i < 0 || i >= l.len() {
        l.len() as int
    } else if is_word_char(l[i]) {
        run_end(l, i)
    } else {
        next_word_end(l, i + 1)
    }
}

/// The start of the run of word characters ending at `i`.
pub open spec fn back_run_start(l: Seq<char>, i: int) -> int
    decreases i,
{
    if i <= 0 || i > l.len() {
        0
    } else if is_word_char(l[i - 1]) {
        back_run_start(l, i - 1)
    } else {
        i
    }
}

/// The last word start strictly before `i`, or the line start when no word
/// precedes.
pub open spec fn prev_word_start(l: Seq<char>, i: int) -> int
    decreases i,
{
    if i <= 0 || i > l.len() {
        0
    } else if is_word_char(l[i - 1]) {
        back_run_start(l, i)
    } else {
        prev_word_start(l, i - 1)
    }
}

/// Forward word scans stay within the line and never move backwards.
pub proof fn lemma_word_scan_forward(l: Seq<char>, i: int)
    requires
        0 <= i <= l.len(),
    ensures
        i <= run_end(l, i) <= l.len(),
        i <= next_word_end(l, i) <= l.len(),
    decreases l.len() - i,
{
    if i < l.len() {
        lemma_word_scan_forward(l, i + 1);
    }
}

/// Backward word scans stay within the line and never move forwards.
pub proof fn lemma_word_scan_backward(l: Seq<char>, i: int)
    requires
        0 <= i <= l.len(),
    ensures
        0 <= back_run_start(l, i) <= i,
        0 <= prev_word_start(l, i) <= i,
    decreases i,
{
    if i > 0 {
        lemma_word_scan_backward(l, i - 1);
    }
}

/// Word scans stay within the line and move in the promised direction.
pub proof fn lemma_word_scan_ranges(l: Seq<char>, i: int)
    requires
        0 <= i <= l.len(),
    ensures
        i <= run_end(l, i) <= l.len(),
        i <= next_word_end(l, i) <= l.len(),
        0 <= back_run_start(l, i) <= i,
        0 <= prev_word_start(l, i) <= i,
{
    lemma_word_scan_forward(l, i);
    lemma_word_scan_backward(l, i);
}

/// The target of a cursor motion over the buffer content. The model works on
/// logical lines: vertical motions clamp the offset to the target line.
pub open spec fn motion_target(lines: Seq<Seq<char>>, c: Cursor, m: Motion) -> Cursor {
    match m {
        Motion::Left => if c.index > 0 {
            Cursor { line: c.line, index: (c.index - 1) as usize }
        } else if c.line > 0 {
            Cursor { line: (c.line - 1) as usize, index: lines[c.line - 1].len() as usize }
        } else {
            c
        },
        Motion::Right => if (c.index as int) < lines[c.line as int].len() {
            Cursor { line: c.line, index: (c.index + 1) as usize }
        } else if (c.line + 1) < lines.len() {
            Cursor { line: (c.line + 1) as usize, index: 0 }
        } else {
            c
        },
        Motion::Up => if c.line > 0 {
            let len = lines[c.line - 1].len();
            Cursor {
                line: (c.line - 1) as usize,
                index: if c.index <= len {
                    c.index
                } else {
                    len as usize
                },
            }
        } else {
            c
        },
        Motion::Down => if (c.line + 1) < lines.len() {
            let len = lines[c.line + 1].len();
            Cursor {
                line: (c.line + 1) as usize,
                index: if c.index <= len {
                    c.index
                } else {
                    len as usize
                },
            }
        } else {
            c
        },
        Motion::Home => Cursor { line: c.line, index: 0 },
        Motion::End => Cursor { line: c.line, index: lines[c.line as int].len() as usize },
        Motion::WordLeft => if c.index == 0 {
            if c.line > 0 {
                Cursor { line: (c.line - 1) as usize, index: lines[c.line - 1].len() as usize }
            } else {
                c
            }
        } else {
            Cursor {
                line: c.line,
                index: prev_word_start(lines[c.line as int], c.index as int) as usize,
            }
        },
        Motion::WordRight => if c.index >= lines[c.line as int].len() {
            if (c.line + 1) < lines.len() {
                Cursor { line: (c.line + 1) as usize, index: 0 }
            } else {
                c
            }
        } else {
            Cursor {
                line: c.line,
                index: next_word_end(lines[c.line as int], c.index as int) as usize,
            }
        },
        Motion::BufferStart => Cursor { line: 0, index: 0 },
        Motion::BufferEnd => Cursor {
            line: (lines.len() - 1) as usize,
            index: lines[lines.len() - 1].len() as usize,
        },
    }
}

/// Every motion lands on a valid boundary.
pub proof fn lemma_motion_target_ok(lines: Seq<Seq<char>>, c: Cursor, m: Motion)
    requires
        lines_wf(lines),
        lines_fit(lines),
        cursor_ok(lines, c),
    ensures
        cursor_ok(lines, motion_target(lines, c, m)),
{
    match m {
        Motion::WordLeft => {
            if c.index > 0 {
                lemma_word_scan_ranges(lines[c.line as int], c.index as int);
            }
        },
        Motion::WordRight => {
            if (c.index as int) < lines[c.line as int].len() {
                lemma_word_scan_ranges(lines[c.line as int], c.index as int);
            }
        },
        _ => {},
    }
}

impl TextBuffer {
    /// The end of the word at or after offset `i` on line `l`.
    fn word_end_from(&self, l: usize, i: usize) -> (r: usize)
        requires
            (l as int) < self@.len(),
            i <= self@[l as int].len(),
        ensures
            r == next_word_end(self@[l as int], i as int),
            i <= r <= self@[l as int].len(),
    {
        proof {
            lemma_word_scan_ranges(self@[l as int], i as int);
        }
        let n = self.line_len(l);
        let mut j: usize = i;
        while j < n && !self.word_char_at(l, j)
            invariant
                i <= j <= n,
                (l as int) < self@.len(),
                n == self@[l as int].len(),
                next_word_end(self@[l as int], i as int) == next_word_end(self@[l as int], j as int),
            decreases n - j,
        {
            j = j + 1;
        }
        if j == n {
            return n;
        }
        while j < n && self.word_char_at(l, j)
            invariant
                i <= j <= n,
                (l as int) < self@.len(),
                n == self@[l as int].len(),
                next_word_end(self@[l as int], i as int) == run_end(self@[l as int], j as int),
            decreases n - j,
        {
            j = j + 1;
        }
        j
    }

    /// The start of the word at or before offset `i` on line `l`.
    fn word_start_before(&self, l: usize, i: usize) -> (r: usize)
        requires
            (l as int) < self@.len(),
            i <= self@[l as int].len(),
        ensures
            r == prev_word_start(self@[l as int], i as int),
            r <= i,
    {
        proof {
            lemma_word_scan_ranges(self@[l as int], i as int);
        }
        let mut j: usize = i;
        while j > 0 && !self.word_char_at(l, j - 1)
            invariant
                j <= i,
                (l as int) < self@.len(),
                i <= self@[l as int].len(),
                prev_word_start(self@[l as int], i as int) == prev_word_start(
                    self@[l as int],
                    j as int,
                ),
            decreases j,
        {
            j = j - 1;
        }
        if j == 0 {
            return 0;
        }
        let ghost anchor = j as int;
        proof {
            assert(prev_word_start(self@[l as int], anchor) == back_run_start(
                self@[l as int],
                anchor,
            ));
        }
        while j > 0 && self.word_char_at(l, j - 1)
            invariant
                0 <= j <= anchor,
                (l as int) < self@.len(),
                anchor <= self@[l as int].len(),
                back_run_start(self@[l as int], anchor) == back_run_start(self@[l as int], j as int),
            decreases j,
        {
            j = j - 1;
        }
        j
    }

    /// Whether the character at the given position is a plain space.
    fn space_at(&self, l: usize, i: usize) -> (r: bool)
        requires
            (l as int) < self@.len(),
            (i as int) < self@[l as int].len(),
        ensures
            r == (self@[l as int][i as int] == ' '),
    {
        self.lines[l][i] == ' '
    }

    /// Whether the character at the given position continues a word.
    fn word_char_at(&self, l: usize, i: usize) -> (r: bool)
        requires
            (l as int) < self@.len(),
            (i as int) < self@[l as int].len(),
        ensures
            r == is_word_char(self@[l as int][i as int]),
    {
        word_char(self.lines[l][i])
    }
}

/// The buffer and cursor after one character lands at a boundary: a line
/// break splits the line, any other character is spliced in.
pub open spec fn insert_at_model(lines: Seq<Seq<char>>, c: Cursor, ch: char) -> (
    Seq<Seq<char>>,
    Cursor,
) {
    if ch == '\n' {
        (split_lines(lines, c), Cursor { line: (c.line + 1) as usize, index: 0 })
    } else {
        (insert_char_lines(lines, c, ch), Cursor { line: c.line, index: (c.index + 1) as usize })
    }
}

/// The buffer and cursor after a text lands character by character at a
/// boundary.
pub open spec fn insert_text_model(lines: Seq<Seq<char>>, c: Cursor, text: Seq<char>) -> (
    Seq<Seq<char>>,
    Cursor,
)
    decreases text.len(),
{
    if text.len() == 0 {
        (lines, c)
    } else {
        let step = insert_at_model(lines, c, text[0]);
        insert_text_model(step.0, step.1, text.drop_first())
    }
}

/// Whether the configured maximum still admits one more character.
pub open spec fn under_limit(lines: Seq<Seq<char>>, max_chars: Option<usize>) -> bool {
    match max_chars {
        Option::Some(mx) => char_count(lines) < mx,
        Option::None => true,
    }
}

/// The state after a motion: the cursor moves to the motion's target; with
/// extension the pre-motion cursor becomes the anchor of a new selection,
/// without it any selection is cleared.
pub open spec fn motion_applied(m: EditorModel, mo: Motion, with_select: bool) -> EditorModel {
    let sel = if with_select {
        match m.selection {
            Option::Some(anchor) => Option::Some(anchor),
            Option::None => Option::Some(m.cursor),
        }
    } else {
        Option::None
    };
    EditorModel {
        lines: m.lines,
        cursor: motion_target(m.lines, m.cursor, mo),
        selection: sel,
        scroll: m.scroll,
    }
}

/// The state after the active selection is deleted: the span between its
/// bounds goes, the cursor lands at the start, the selection clears.
pub open spec fn selection_deleted(m: EditorModel, a: Cursor, b: Cursor) -> EditorModel {
    EditorModel {
        lines: remove_span_lines(m.lines, a, b),
        cursor: a,
        selection: Option::None,
        scroll: m.scroll,
    }
}

/// The state after `Insert(ch, overwrite)`. A configured filter gates every
/// insertion. With a selection active the character replaces the selected
/// span. In overwrite mode away from the line end, the next character is
/// deleted first. Otherwise the character is inserted only while the
/// character count is strictly under the configured maximum; at the limit
/// the edit is silently dropped.
pub open spec fn insert_applied(
    m: EditorModel,
    ch: char,
    overwrite: bool,
    max_chars: Option<usize>,
    filter: Option<TextInputFilter>,
) -> EditorModel {
    if !filter_admits(filter, ch) {
        m
    } else {
        match sel_bounds(m) {
            Option::Some(ab) => {
                let lines1 = remove_span_lines(m.lines, ab.0, ab.1);
                let st = insert_at_model(lines1, ab.0, ch);
                EditorModel { lines: st.0, cursor: st.1, selection: Option::None, scroll: m.scroll }
            },
            Option::None => {
                if overwrite && (m.cursor.index as int) < m.lines[m.cursor.line as int].len() {
                    let b = Cursor { line: m.cursor.line, index: (m.cursor.index + 1) as usize };
                    let lines1 = remove_span_lines(m.lines, m.cursor, b);
                    let st = insert_at_model(lines1, m.cursor, ch);
                    EditorModel {
                        lines: st.0,
                        cursor: st.1,
                        selection: Option::None,
                        scroll: m.scroll,
                    }
                } else if under_limit(m.lines, max_chars) {
                    let st = insert_at_model(m.lines, m.cursor, ch);
                    EditorModel {
                        lines: st.0,
                        cursor: st.1,
                        selection: Option::None,
                        scroll: m.scroll,
                    }
                } else {
                    m
                }
            },
        }
    }
}

/// The state after `Enter`: any selection is replaced by the line break.
pub open spec fn enter_applied(m: EditorModel) -> EditorModel {
    match sel_bounds(m) {
        Option::Some(ab) => {
            let lines1 = remove_span_lines(m.lines, ab.0, ab.1);
            let st = insert_at_model(lines1, ab.0, '\n');
            EditorModel { lines: st.0, cursor: st.1, selection: Option::None, scroll: m.scroll }
        },
        Option::None => {
            let st = insert_at_model(m.lines, m.cursor, '\n');
            EditorModel { lines: st.0, cursor: st.1, selection: Option::None, scroll: m.scroll }
        },
    }
}

/// The state after `Backspace`: the selection if one is active, else one
/// character behind the cursor, joining lines at a line start; a no-op at
/// the buffer start.
pub open spec fn backspace_applied(m: EditorModel) -> EditorModel {
    match sel_bounds(m) {
        Option::Some(ab) => selection_deleted(m, ab.0, ab.1),
        Option::None => {
            if m.cursor.index > 0 {
                let a = Cursor { line: m.cursor.line, index: (m.cursor.index - 1) as usize };
                EditorModel {
                    lines: remove_span_lines(m.lines, a, m.cursor),
                    cursor: a,
                    selection: Option::None,
                    scroll: m.scroll,
                }
            } else if m.cursor.line > 0 {
                let a = Cursor {
                    line: (m.cursor.line - 1) as usize,
                    index: m.lines[m.cursor.line - 1].len() as usize,
                };
                EditorModel {
                    lines: remove_span_lines(m.lines, a, m.cursor),
                    cursor: a,
                    selection: Option::None,
                    scroll: m.scroll,
                }
            } else {
                m
            }
        },
    }
}

/// The state after `Delete`: the selection if one is active, else one
/// character ahead of the cursor, joining lines at a line end; a no-op at
/// the buffer end.
pub open spec fn delete_applied(m: EditorModel) -> EditorModel {
    match sel_bounds(m) {
        Option::Some(ab) => selection_deleted(m, ab.0, ab.1),
        Option::None => {
            if (m.cursor.index as int) < m.lines[m.cursor.line as int].len() {
                let b = Cursor { line: m.cursor.line, index: (m.cursor.index + 1) as usize };
                EditorModel {
                    lines: remove_span_lines(m.lines, m.cursor, b),
                    cursor: m.cursor,
                    selection: Option::None,
                    scroll: m.scroll,
                }
            } else if (m.cursor.line + 1) < m.lines.len() {
                let b = Cursor { line: (m.cursor.line + 1) as usize, index: 0 };
                EditorModel {
                    lines: remove_span_lines(m.lines, m.cursor, b),
                    cursor: m.cursor,
                    selection: Option::None,
                    scroll: m.scroll,
                }
            } else {
                m
            }
        },
    }
}

/// The lines the cursor or selection touches: the selection's line range,
/// or the cursor's own line.
pub open spec fn touched_lines(m: EditorModel) -> (int, int) {
    match sel_bounds(m) {
        Option::Some(ab) => (ab.0.line as int, ab.1.line as int),
        Option::None => (m.cursor.line as int, m.cursor.line as int),
    }
}

/// One indentation unit.
pub open spec fn indent_seq() -> Seq<char> {
    seq![' ', ' ', ' ', ' ']
}

/// The state after `Indent`: one indentation unit lands at the start of
/// every touched line; cursor and anchor shift with their lines.
pub open spec fn indent_applied(m: EditorModel) -> EditorModel {
    let r = touched_lines(m);
    let lines2 = Seq::new(
        m.lines.len(),
        |l: int|
            if r.0 <= l <= r.1 {
                indent_seq() + m.lines[l]
            } else {
                m.lines[l]
            },
    );
    let cursor2 = Cursor { line: m.cursor.line, index: (m.cursor.index + 4) as usize };
    let sel2 = match m.selection {
        Option::Some(anchor) => Option::Some(
            Cursor { line: anchor.line, index: (anchor.index + 4) as usize },
        ),
        Option::None => Option::None,
    };
    EditorModel { lines: lines2, cursor: cursor2, selection: sel2, scroll: m.scroll }
}

/// The end of the run of leading spaces, scanning from `i`.
pub open spec fn lead_spaces(l: Seq<char>, i: int) -> int
    decreases l.len() - i,
{
    if i < 0 || i >= l.len() || l[i] != ' ' {
        i
    } else {
        lead_spaces(l, i + 1)
    }
}

/// How many characters `Unindent` removes from a line: its leading spaces,
/// at most one indentation unit.
pub open spec fn unindent_amount(l: Seq<char>) -> int {
    let r = lead_spaces(l, 0);
    if r > 4 {
        4
    } else {
        r
    }
}

/// An offset pulled back by `k`, stopping at the line start.
pub open spec fn pull_back(i: usize, k: int) -> usize {
    if i >= k {
        (i - k) as usize
    } else {
        0
    }
}

/// The state after `Unindent`: up to one indentation unit of leading spaces
/// leaves every touched line; cursor and anchor shift with their lines.
pub open spec fn unindent_applied(m: EditorModel) -> EditorModel {
    let r = touched_lines(m);
    let lines2 = Seq::new(
        m.lines.len(),
        |l: int|
            if r.0 <= l <= r.1 {
                m.lines[l].skip(unindent_amount(m.lines[l]))
            } else {
                m.lines[l]
            },
    );
    let cursor2 = Cursor {
        line: m.cursor.line,
        index: pull_back(m.cursor.index, unindent_amount(m.lines[m.cursor.line as int])),
    };
    let sel2 = match m.selection {
        Option::Some(anchor) => Option::Some(
            Cursor {
                line: anchor.line,
                index: pull_back(anchor.index, unindent_amount(m.lines[anchor.line as int])),
            },
        ),
        Option::None => Option::None,
    };
    EditorModel { lines: lines2, cursor: cursor2, selection: sel2, scroll: m.scroll }
}

/// The word the given boundary falls in: the run of word characters around
/// it, the run just before it, or the empty span at the boundary.
pub open spec fn word_bounds(l: Seq<char>, i: int) -> (int, int) {
    if 0 <= i < l.len() && is_word_char(l[i]) {
        (back_run_start(l, i), run_end(l, i))
    } else if 0 < i <= l.len() && is_word_char(l[i - 1]) {
        (back_run_start(l, i), i)
    } else {
        (i, i)
    }
}

/// The state after a single click: the cursor lands at the resolved
/// boundary and the selection clears.
pub open spec fn click_applied(
    m: EditorModel,
    glyphs: Seq<TextInputGlyph>,
    line_height: int,
    x: int,
    y: int,
) -> EditorModel {
    EditorModel {
        lines: m.lines,
        cursor: spec_resolve_click(glyphs, m.lines, line_height, x, y),
        selection: Option::None,
        scroll: m.scroll,
    }
}

/// The state after a double click: the word at the resolved boundary is
/// selected, anchored at its start.
pub open spec fn double_click_applied(
    m: EditorModel,
    glyphs: Seq<TextInputGlyph>,
    line_height: int,
    x: int,
    y: int,
) -> EditorModel {
    let r = spec_resolve_click(glyphs, m.lines, line_height, x, y);
    let wb = word_bounds(m.lines[r.line as int], r.index as int);
    EditorModel {
        lines: m.lines,
        cursor: Cursor { line: r.line, index: wb.1 as usize },
        selection: Option::Some(Cursor { line: r.line, index: wb.0 as usize }),
        scroll: m.scroll,
    }
}

/// The state after a triple click: the whole resolved line is selected,
/// anchored at its start.
pub open spec fn triple_click_applied(
    m: EditorModel,
    glyphs: Seq<TextInputGlyph>,
    line_height: int,
    x: int,
    y: int,
) -> EditorModel {
    let r = spec_resolve_click(glyphs, m.lines, line_height, x, y);
    EditorModel {
        lines: m.lines,
        cursor: Cursor { line: r.line, index: m.lines[r.line as int].len() as usize },
        selection: Option::Some(Cursor { line: r.line, index: 0 }),
        scroll: m.scroll,
    }
}

/// The state after a drag: the live end of the selection follows the
/// resolved boundary; a drag with no selection starts one at the cursor.
pub open spec fn drag_applied(
    m: EditorModel,
    glyphs: Seq<TextInputGlyph>,
    line_height: int,
    x: int,
    y: int,
) -> EditorModel {
    let sel = match m.selection {
        Option::Some(anchor) => Option::Some(anchor),
        Option::None => Option::Some(m.cursor),
    };
    EditorModel {
        lines: m.lines,
        cursor: spec_resolve_click(glyphs, m.lines, line_height, x, y),
        selection: sel,
        scroll: m.scroll,
    }
}

/// The state after a scroll: the visible-line offset moves by the given
/// number of lines, clamped to the representable non-negative range; the
/// cursor does not move.
pub open spec fn scroll_applied(m: EditorModel, lines: int) -> EditorModel {
    let s = m.scroll + lines;
    let s2: int = if s < 0 {
        0
    } else if s > i32::MAX {
        i32::MAX as int
    } else {
        s
    };
    EditorModel { lines: m.lines, cursor: m.cursor, selection: m.selection, scroll: s2 }
}

/// The state after `Paste(text)`: all or nothing. When the resulting
/// character count would stay within the configured maximum, the text
/// replaces the selection (or lands at the cursor); otherwise the state is
/// left completely unchanged.
pub open spec fn paste_applied(m: EditorModel, text: Seq<char>, max_chars: Option<usize>) -> EditorModel {
    let ab = match sel_bounds(m) {
        Option::Some(ab) => ab,
        Option::None => (m.cursor, m.cursor),
    };
    let removed = flat_pos(m.lines, ab.1) - flat_pos(m.lines, ab.0);
    let ok = match max_chars {
        Option::Some(mx) => char_count(m.lines) - removed + text.len() <= mx,
        Option::None => true,
    };
    if ok {
        let lines1 = remove_span_lines(m.lines, ab.0, ab.1);
        let st = insert_text_model(lines1, ab.0, text);
        EditorModel { lines: st.0, cursor: st.1, selection: Option::None, scroll: m.scroll }
    } else {
        m
    }
}

/// The state after `SelectAll`: the cursor lands at the buffer end with the
/// anchor pinned at the buffer start.
pub open spec fn select_all_applied(m: EditorModel) -> EditorModel {
    EditorModel {
        lines: m.lines,
        cursor: Cursor {
            line: (m.lines.len() - 1) as usize,
            index: m.lines[m.lines.len() - 1].len() as usize,
        },
        selection: Option::Some(Cursor { line: 0, index: 0 }),
        scroll: m.scroll,
    }
}

/// What one edit does to a widget's state: the single definition every
/// engine function is proved against.
pub open spec fn edit_applied(
    m: EditorModel,
    edit: TextInputEdit,
    glyphs: Seq<TextInputGlyph>,
    line_height: int,
    max_chars: Option<usize>,
    filter: Option<TextInputFilter>,
) -> EditorModel {
    match edit {
        TextInputEdit::Motion(mo, with_select) => motion_applied(m, mo, with_select),
        TextInputEdit::Escape => EditorModel {
            lines: m.lines,
            cursor: m.cursor,
            selection: Option::None,
            scroll: m.scroll,
        },
        TextInputEdit::Insert(ch, overwrite) => insert_applied(m, ch, overwrite, max_chars, filter),
        TextInputEdit::Enter => enter_applied(m),
        TextInputEdit::Backspace => backspace_applied(m),
        TextInputEdit::Delete => delete_applied(m),
        TextInputEdit::Indent => indent_applied(m),
        TextInputEdit::Unindent => unindent_applied(m),
        TextInputEdit::Click { x, y } => click_applied(m, glyphs, line_height, x as int, y as int),
        TextInputEdit::DoubleClick { x, y } => double_click_applied(
            m,
            glyphs,
            line_height,
            x as int,
            y as int,
        ),
        TextInputEdit::TripleClick { x, y } => triple_click_applied(
            m,
            glyphs,
            line_height,
            x as int,
            y as int,
        ),
        TextInputEdit::Drag { x, y } => drag_applied(m, glyphs, line_height, x as int, y as int),
        TextInputEdit::Scroll { lines } => scroll_applied(m, lines as int),
        TextInputEdit::Paste(text) => paste_applied(m, text@, max_chars),
        TextInputEdit::Undo => m,
        TextInputEdit::Redo => m,
        TextInputEdit::SelectAll => select_all_applied(m),
    }
}

/// Scanning over known spaces does not change where the leading-space run
/// ends.
proof fn lemma_lead_spaces_step(l: Seq<char>, k: int)
    requires
        0 <= k <= l.len(),
        forall|j: int| 0 <= j < k ==> l[j] == ' ',
    ensures
        lead_spaces(l, 0) == lead_spaces(l, k),
    decreases k,
{
    if k > 0 {
        lemma_lead_spaces_step(l, k - 1);
    }
}

/// The leading-space scan stays within the line and never moves backwards.
proof fn lemma_lead_spaces_range(l: Seq<char>, i: int)
    requires
        0 <= i <= l.len(),
    ensures
        i <= lead_spaces(l, i) <= l.len(),
    decreases l.len() - i,
{
    if i < l.len() {
        lemma_lead_spaces_range(l, i + 1);
    }
}

impl TextBuffer {
    /// Insert one character at a boundary; a line break splits the line.
    fn insert_at(&mut self, c: Cursor, ch: char) -> (nc: Cursor)
        requires
            lines_wf(old(self)@),
            cursor_ok(old(self)@, c),
        ensures
            final(self)@ == insert_at_model(old(self)@, c, ch).0,
            nc == insert_at_model(old(self)@, c, ch).1,
            lines_wf(final(self)@),
            cursor_ok(final(self)@, nc),
    {
        proof {
            lemma_buffer_view_bounds(self);
        }
        if ch == '\n' {
            let nl = c.line + 1;
            proof {
                lemma_split_flat(self@, c);
            }
            self.split_line(c);
            Cursor { line: nl, index: 0 }
        } else {
            let old_len = self.line_len(c.line);
            proof {
                lemma_insert_char_flat(self@, c, ch);
            }
            self.insert_char(c, ch);
            let idx = if c.index < old_len {
                c.index + 1
            } else {
                self.line_len(c.line)
            };
            Cursor { line: c.line, index: idx }
        }
    }

    /// Insert a text at a boundary, character by character.
    fn insert_text_at(&mut self, c: Cursor, text: &Vec<char>) -> (nc: Cursor)
        requires
            lines_wf(old(self)@),
            cursor_ok(old(self)@, c),
        ensures
            final(self)@ == insert_text_model(old(self)@, c, text@).0,
            nc == insert_text_model(old(self)@, c, text@).1,
            lines_wf(final(self)@),
            cursor_ok(final(self)@, nc),
    {
        let n = text.len();
        let mut cur = c;
        let mut i: usize = 0;
        proof {
            assert(text@.skip(0) =~= text@);
        }
        while i < n
            invariant
                i <= n,
                n == text@.len(),
                lines_wf(self@),
                cursor_ok(self@, cur),
                insert_text_model(old(self)@, c, text@) == insert_text_model(
                    self@,
                    cur,
                    text@.skip(i as int),
                ),
            decreases n - i,
        {
            proof {
                assert(text@.skip(i as int)[0] == text@[i as int]);
                assert(text@.skip(i as int).drop_first() =~= text@.skip(i + 1));
            }
            let nc2 = self.insert_at(cur, text[i]);
            cur = nc2;
            i = i + 1;
        }
        proof {
            assert(text@.skip(n as int) =~= Seq::<char>::empty());
        }
        cur
    }

    /// The end of the run of word characters starting at `i` on line `l`.
    fn run_end_at(&self, l: usize, i: usize) -> (r: usize)
        requires
            (l as int) < self@.len(),
            i <= self@[l as int].len(),
        ensures
            r == run_end(self@[l as int], i as int),
            i <= r <= self@[l as int].len(),
    {
        proof {
            lemma_word_scan_forward(self@[l as int], i as int);
        }
        let n = self.line_len(l);
        let mut j: usize = i;
        while j < n && self.word_char_at(l, j)
            invariant
                i <= j <= n,
                (l as int) < self@.len(),
                n == self@[l as int].len(),
                run_end(self@[l as int], i as int) == run_end(self@[l as int], j as int),
            decreases n - j,
        {
            j = j + 1;
        }
        j
    }

    /// The start of the run of word characters ending at `i` on line `l`.
    fn back_run_start_at(&self, l: usize, i: usize) -> (r: usize)
        requires
            (l as int) < self@.len(),
            i <= self@[l as int].len(),
        ensures
            r == back_run_start(self@[l as int], i as int),
            r <= i,
    {
        let mut j: usize = i;
        while j > 0 && self.word_char_at(l, j - 1)
            invariant
                j <= i,
                (l as int) < self@.len(),
                i <= self@[l as int].len(),
                back_run_start(self@[l as int], i as int) == back_run_start(
                    self@[l as int],
                    j as int,
                ),
            decreases j,
        {
            j = j - 1;
        }
        j
    }
}

/// The target of a motion, computed over the buffer.
fn motion_target_px(buf: &TextBuffer, c: Cursor, m: Motion) -> (nc: Cursor)
    requires
        lines_wf(buf@),
        cursor_ok(buf@, c),
    ensures
        nc == motion_target(buf@, c, m),
        cursor_ok(buf@, nc),
{
    proof {
        lemma_buffer_view_bounds(buf);
        lemma_motion_target_ok(buf@, c, m);
    }
    match m {
        Motion::Left => {
            if c.index > 0 {
                Cursor { line: c.line, index: c.index - 1 }
            } else if c.line > 0 {
                Cursor { line: c.line - 1, index: buf.line_len(c.line - 1) }
            } else {
                c
            }
        },
        Motion::Right => {
            let len = buf.line_len(c.line);
            if c.index < len {
                Cursor { line: c.line, index: c.index + 1 }
            } else {
                let n = buf.line_count();
                if c.line + 1 < n {
                    Cursor { line: c.line + 1, index: 0 }
                } else {
                    c
                }
            }
        },
        Motion::Up => {
            if c.line > 0 {
                let len = buf.line_len(c.line - 1);
                Cursor {
                    line: c.line - 1,
                    index: if c.index <= len {
                        c.index
                    } else {
                        len
                    },
                }
            } else {
                c
            }
        },
        Motion::Down => {
            let n = buf.line_count();
            if c.line + 1 < n {
                let len = buf.line_len(c.line + 1);
                Cursor {
                    line: c.line + 1,
                    index: if c.index <= len {
                        c.index
                    } else {
                        len
                    },
                }
            } else {
                c
            }
        },
        Motion::Home => Cursor { line: c.line, index: 0 },
        Motion::End => Cursor { line: c.line, index: buf.line_len(c.line) },
        Motion::WordLeft => {
            if c.index == 0 {
                if c.line > 0 {
                    Cursor { line: c.line - 1, index: buf.line_len(c.line - 1) }
                } else {
                    c
                }
            } else {
                Cursor { line: c.line, index: buf.word_start_before(c.line, c.index) }
            }
        },
        Motion::WordRight => {
            let len = buf.line_len(c.line);
            if c.index >= len {
                let n = buf.line_count();
                if c.line + 1 < n {
                    Cursor { line: c.line + 1, index: 0 }
                } else {
                    c
                }
            } else {
                Cursor { line: c.line, index: buf.word_end_from(c.line, c.index) }
            }
        },
        Motion::BufferStart => Cursor { line: 0, index: 0 },
        Motion::BufferEnd => {
            let n = buf.line_count();
            Cursor { line: n - 1, index: buf.line_len(n - 1) }
        },
    }
}

/// Move the cursor with a motion; with `with_select` the pre-motion cursor
/// becomes the anchor of a selection, without it any selection is cleared.
pub fn apply_motion(state: &mut EditorState, with_select: bool, motion: Motion)
    requires
        model_wf(old(state)@),
    ensures
        final(state)@ == motion_applied(old(state)@, motion, with_select),
        model_wf(final(state)@),
{
    if with_select {
        match state.selection {
            Option::Some(_) => {},
            Option::None => {
                state.selection = Option::Some(state.cursor);
            },
        }
    } else {
        state.selection = Option::None;
    }
    let nc = motion_target_px(&state.buffer, state.cursor, motion);
    state.cursor = nc;
}

impl EditorState {
    /// A widget's initial state: one empty line, cursor at the start, no
    /// selection, no scroll.
    pub fn new() -> (r: EditorState)
        ensures
            r@.lines =~= seq![Seq::<char>::empty()],
            r@.cursor == (Cursor { line: 0, index: 0 }),
            r@.selection is None,
            r@.scroll == 0,
            model_wf(r@),
    {
        EditorState {
            buffer: TextBuffer::new(),
            cursor: Cursor { line: 0, index: 0 },
            selection: Option::None,
            scroll_lines: 0,
        }
    }

    /// The canonical bounds of the active selection.
    pub fn selection_bounds(&self) -> (r: Option<(Cursor, Cursor)>)
        ensures
            r == sel_bounds(self@),
    {
        match self.selection {
            Option::None => Option::None,
            Option::Some(anchor) => {
                if anchor.line < self.cursor.line || (anchor.line == self.cursor.line
                    && anchor.index <= self.cursor.index) {
                    Option::Some((anchor, self.cursor))
                } else {
                    Option::Some((self.cursor, anchor))
                }
            },
        }
    }

    fn apply_insert(
        &mut self,
        ch: char,
        overwrite: bool,
        max_chars: Option<usize>,
        filter_mode: &Option<TextInputFilter>,
    )
        requires
            model_wf(old(self)@),
        ensures
            final(self)@ == insert_applied(old(self)@, ch, overwrite, max_chars, *filter_mode),
            model_wf(final(self)@),
    {
        let admitted = match filter_mode {
            Option::Some(f) => f.allows(ch),
            Option::None => true,
        };
        if !admitted {
            return ;
        }
        match self.selection_bounds() {
            Option::Some((a, b)) => {
                proof {
                    lemma_remove_span_flat(self.buffer@, a, b);
                }
                self.buffer.remove_span(a, b);
                let nc = self.buffer.insert_at(a, ch);
                self.cursor = nc;
                self.selection = Option::None;
            },
            Option::None => {
                let len = self.buffer.line_len(self.cursor.line);
                if overwrite && self.cursor.index < len {
                    let b = Cursor { line: self.cursor.line, index: self.cursor.index + 1 };
                    proof {
                        lemma_remove_span_flat(self.buffer@, self.cursor, b);
                    }
                    let a = self.cursor;
                    self.buffer.remove_span(a, b);
                    let nc = self.buffer.insert_at(a, ch);
                    self.cursor = nc;
                } else {
                    let ok = match max_chars {
                        Option::Some(mx) => {
                            let total = self.buffer.char_total();
                            total < mx as u128
                        },
                        Option::None => true,
                    };
                    if ok {
                        let a = self.cursor;
                        let nc = self.buffer.insert_at(a, ch);
                        self.cursor = nc;
                    }
                }
            },
        }
    }

    fn apply_enter(&mut self)
        requires
            model_wf(old(self)@),
        ensures
            final(self)@ == enter_applied(old(self)@),
            model_wf(final(self)@),
    {
        match self.selection_bounds() {
            Option::Some((a, b)) => {
                proof {
                    lemma_remove_span_flat(self.buffer@, a, b);
                }
                self.buffer.remove_span(a, b);
                let nc = self.buffer.insert_at(a, '\n');
                self.cursor = nc;
                self.selection = Option::None;
            },
            Option::None => {
                let a = self.cursor;
                let nc = self.buffer.insert_at(a, '\n');
                self.cursor = nc;
                self.selection = Option::None;
            },
        }
    }

    fn apply_backspace(&mut self)
        requires
            model_wf(old(self)@),
        ensures
            final(self)@ == backspace_applied(old(self)@),
            model_wf(final(self)@),
    {
        match self.selection_bounds() {
            Option::Some((a, b)) => {
                proof {
                    lemma_remove_span_flat(self.buffer@, a, b);
                }
                self.buffer.remove_span(a, b);
                self.cursor = a;
                self.selection = Option::None;
            },
            Option::None => {
                if self.cursor.index > 0 {
                    let a = Cursor { line: self.cursor.line, index: self.cursor.index - 1 };
                    proof {
                        lemma_remove_span_flat(self.buffer@, a, self.cursor);
                    }
                    let b = self.cursor;
                    self.buffer.remove_span(a, b);
                    self.cursor = a;
                } else if self.cursor.line > 0 {
                    let pl = self.cursor.line - 1;
                    let a = Cursor { line: pl, index: self.buffer.line_len(pl) };
                    proof {
                        lemma_remove_span_flat(self.buffer@, a, self.cursor);
                    }
                    let b = self.cursor;
                    self.buffer.remove_span(a, b);
                    self.cursor = a;
                }
            },
        }
    }

    fn apply_delete(&mut self)
        requires
            model_wf(old(self)@),
        ensures
            final(self)@ == delete_applied(old(self)@),
            model_wf(final(self)@),
    {
        match self.selection_bounds() {
            Option::Some((a, b)) => {
                proof {
                    lemma_remove_span_flat(self.buffer@, a, b);
                }
                self.buffer.remove_span(a, b);
                self.cursor = a;
                self.selection = Option::None;
            },
            Option::None => {
                let len = self.buffer.line_len(self.cursor.line);
                if self.cursor.index < len {
                    let b = Cursor { line: self.cursor.line, index: self.cursor.index + 1 };
                    proof {
                        lemma_remove_span_flat(self.buffer@, self.cursor, b);
                    }
                    let a = self.cursor;
                    self.buffer.remove_span(a, b);
                } else {
                    let n = self.buffer.line_count();
                    if self.cursor.line + 1 < n {
                        let b = Cursor { line: self.cursor.line + 1, index: 0 };
                        proof {
                            lemma_remove_span_flat(self.buffer@, self.cursor, b);
                        }
                        let a = self.cursor;
                        self.buffer.remove_span(a, b);
                    }
                }
            },
        }
    }

    fn apply_click(&mut self, layout: &TextInputLayoutInfo, x: i32, y: i32)
        requires
            model_wf(old(self)@),
        ensures
            final(self)@ == click_applied(
                old(self)@,
                layout.glyphs@,
                layout.line_height as int,
                x as int,
                y as int,
            ),
            model_wf(final(self)@),
    {
        let c = layout.resolve_click(&self.buffer, x, y);
        self.cursor = c;
        self.selection = Option::None;
    }

    fn apply_double_click(&mut self, layout: &TextInputLayoutInfo, x: i32, y: i32)
        requires
            model_wf(old(self)@),
        ensures
            final(self)@ == double_click_applied(
                old(self)@,
                layout.glyphs@,
                layout.line_height as int,
                x as int,
                y as int,
            ),
            model_wf(final(self)@),
    {
        let r = layout.resolve_click(&self.buffer, x, y);
        let len = self.buffer.line_len(r.line);
        let at_word = r.index < len && self.buffer.word_char_at(r.line, r.index);
        let after_word = r.index > 0 && self.buffer.word_char_at(r.line, r.index - 1);
        let ws: usize;
        let we: usize;
        if at_word {
            ws = self.buffer.back_run_start_at(r.line, r.index);
            we = self.buffer.run_end_at(r.line, r.index);
        } else if after_word {
            ws = self.buffer.back_run_start_at(r.line, r.index);
            we = r.index;
        } else {
            ws = r.index;
            we = r.index;
        }
        self.selection = Option::Some(Cursor { line: r.line, index: ws });
        self.cursor = Cursor { line: r.line, index: we };
    }

    fn apply_triple_click(&mut self, layout: &TextInputLayoutInfo, x: i32, y: i32)
        requires
            model_wf(old(self)@),
        ensures
            final(self)@ == triple_click_applied(
                old(self)@,
                layout.glyphs@,
                layout.line_height as int,
                x as int,
                y as int,
            ),
            model_wf(final(self)@),
    {
        let r = layout.resolve_click(&self.buffer, x, y);
        let len = self.buffer.line_len(r.line);
        self.selection = Option::Some(Cursor { line: r.line, index: 0 });
        self.cursor = Cursor { line: r.line, index: len };
    }

    fn apply_drag(&mut self, layout: &TextInputLayoutInfo, x: i32, y: i32)
        requires
            model_wf(old(self)@),
        ensures
            final(self)@ == drag_applied(
                old(self)@,
                layout.glyphs@,
                layout.line_height as int,
                x as int,
                y as int,
            ),
            model_wf(final(self)@),
    {
        match self.selection {
            Option::Some(_) => {},
            Option::None => {
                self.selection = Option::Some(self.cursor);
            },
        }
        let c = layout.resolve_click(&self.buffer, x, y);
        self.cursor = c;
    }

    fn apply_scroll(&mut self, lines: i32)
        requires
            model_wf(old(self)@),
        ensures
            final(self)@ == scroll_applied(old(self)@, lines as int),
            model_wf(final(self)@),
    {
        let s = self.scroll_lines as i64 + lines as i64;
        let s2: i32 = if s < 0 {
            0
        } else if s > i32::MAX as i64 {
            i32::MAX
        } else {
            s as i32
        };
        self.scroll_lines = s2;
    }

    fn apply_select_all(&mut self)
        requires
            model_wf(old(self)@),
        ensures
            final(self)@ == select_all_applied(old(self)@),
            model_wf(final(self)@),
    {
        let n = self.buffer.line_count();
        let len = self.buffer.line_len(n - 1);
        self.selection = Option::Some(Cursor { line: 0, index: 0 });
        self.cursor = Cursor { line: n - 1, index: len };
    }

    fn apply_indent(&mut self)
        requires
            model_wf(old(self)@),
        ensures
            final(self)@ == indent_applied(old(self)@),
            model_wf(final(self)@),
    {
        let r = match self.selection_bounds() {
            Option::Some((a, b)) => (a.line, b.line),
            Option::None => (self.cursor.line, self.cursor.line),
        };
        let l0 = r.0;
        let l1 = r.1;
        let ghost orig = self.buffer@;
        let ghost m0 = self@;
        proof {
            lemma_buffer_view_bounds(&self.buffer);
            assert(self.buffer@ =~~= Seq::new(
                orig.len(),
                |j: int|
                    if l0 <= j < l0 {
                        indent_seq() + orig[j]
                    } else {
                        orig[j]
                    },
            ));
        }
        let mut l = l0;
        while l <= l1
            invariant
                l0 <= l <= l1 + 1,
                l0 <= l1,
                (l1 as int) < orig.len(),
                orig.len() <= usize::MAX,
                self.buffer@.len() == orig.len(),
                self.buffer@ == Seq::new(
                    orig.len(),
                    |j: int|
                        if l0 <= j < l {
                            indent_seq() + orig[j]
                        } else {
                            orig[j]
                        },
                ),
                self.cursor == m0.cursor,
                self.selection == m0.selection,
                self.scroll_lines as int == m0.scroll,
            decreases l1 + 1 - l,
        {
            let ghost entry = self.buffer@;
            let ghost s0 = self.buffer@[l as int];
            let line = &mut self.buffer.lines[l];
            line.insert(0, ' ');
            line.insert(0, ' ');
            line.insert(0, ' ');
            line.insert(0, ' ');
            l = l + 1;
            proof {
                let s1 = s0.insert(0, ' ');
                let s2 = s1.insert(0, ' ');
                let s3 = s2.insert(0, ' ');
                let s4 = s3.insert(0, ' ');
                assert(s1 =~= seq![' '] + s0);
                assert(s2 =~= seq![' '] + s1);
                assert(s3 =~= seq![' '] + s2);
                assert(s4 =~= seq![' '] + s3);
                assert(s4 =~= indent_seq() + s0);
                assert(self.buffer@[l - 1] == s4);
                assert(self.buffer@ =~~= entry.update(l - 1, s4));
                assert(self.buffer@ =~~= Seq::new(
                    orig.len(),
                    |j: int|
                        if l0 <= j < l {
                            indent_seq() + orig[j]
                        } else {
                            orig[j]
                        },
                ));
            }
        }
        let cl = self.cursor.line;
        let nl = self.buffer.line_len(cl);
        proof {
            assert(nl == orig[cl as int].len() + 4);
        }
        self.cursor = Cursor { line: cl, index: self.cursor.index + 4 };
        match self.selection {
            Option::Some(anchor) => {
                let nal = self.buffer.line_len(anchor.line);
                proof {
                    assert(nal == orig[anchor.line as int].len() + 4);
                }
                self.selection = Option::Some(
                    Cursor { line: anchor.line, index: anchor.index + 4 },
                );
            },
            Option::None => {},
        }
        proof {
            assert(self@ =~~= indent_applied(m0));
        }
    }

    fn apply_unindent(&mut self)
        requires
            model_wf(old(self)@),
        ensures
            final(self)@ == unindent_applied(old(self)@),
            model_wf(final(self)@),
    {
        let r = match self.selection_bounds() {
            Option::Some((a, b)) => (a.line, b.line),
            Option::None => (self.cursor.line, self.cursor.line),
        };
        let l0 = r.0;
        let l1 = r.1;
        let ghost orig = self.buffer@;
        let ghost m0 = self@;
        proof {
            lemma_buffer_view_bounds(&self.buffer);
            assert(self.buffer@ =~~= Seq::new(
                orig.len(),
                |j: int|
                    if l0 <= j < l0 {
                        orig[j].skip(unindent_amount(orig[j]))
                    } else {
                        orig[j]
                    },
            ));
        }
        let mut l = l0;
        let mut k_cursor: usize = 0;
        let mut k_anchor: usize = 0;
        while l <= l1
            invariant
                l0 <= l <= l1 + 1,
                l0 <= l1,
                (l1 as int) < orig.len(),
                orig.len() <= usize::MAX,
                self.buffer@.len() == orig.len(),
                self.buffer@ == Seq::new(
                    orig.len(),
                    |j: int|
                        if l0 <= j < l {
                            orig[j].skip(unindent_amount(orig[j]))
                        } else {
                            orig[j]
                        },
                ),
                self.cursor == m0.cursor,
                self.selection == m0.selection,
                self.scroll_lines as int == m0.scroll,
                k_cursor as int == (if l0 <= m0.cursor.line && (m0.cursor.line as int) < l {
                    unindent_amount(orig[m0.cursor.line as int])
                } else {
                    0
                }),
                k_anchor as int == (match m0.selection {
                    Option::Some(anchor) => if l0 <= anchor.line && (anchor.line as int) < l {
                        unindent_amount(orig[anchor.line as int])
                    } else {
                        0
                    },
                    Option::None => 0,
                }),
            decreases l1 + 1 - l,
        {
            let len = self.buffer.line_len(l);
            let mut k: usize = 0;
            while k < 4 && k < len && self.buffer.space_at(l, k)
                invariant
                    k <= 4,
                    k <= len,
                    l0 <= l <= l1,
                    (l1 as int) < orig.len(),
                    self.buffer@.len() == orig.len(),
                    self.buffer@[l as int] == orig[l as int],
                    len == orig[l as int].len(),
                    forall|j: int| 0 <= j < k ==> orig[l as int][j] == ' ',
                decreases 4 - k,
            {
                k = k + 1;
            }
            proof {
                let oline = orig[l as int];
                lemma_lead_spaces_step(oline, k as int);
                lemma_lead_spaces_range(oline, k as int);
                if k < 4 {
                    assert(lead_spaces(oline, k as int) == k);
                }
                assert(k as int == unindent_amount(oline));
            }
            let ghost before = self.buffer@;
            proof {
                assert(before[l as int].skip(0) =~= before[l as int]);
                assert(before.update(l as int, before[l as int].skip(0)) =~~= before);
            }
            let mut t: usize = 0;
            while t < k
                invariant
                    t <= k,
                    (l as int) < before.len(),
                    k <= before[l as int].len(),
                    self.buffer@.len() == before.len(),
                    self.buffer@ == before.update(l as int, before[l as int].skip(t as int)),
                    self.cursor == m0.cursor,
                    self.selection == m0.selection,
                    self.scroll_lines as int == m0.scroll,
                decreases k - t,
            {
                let ghost prev = self.buffer@;
                proof {
                    assert(prev[l as int] == before[l as int].skip(t as int));
                    assert(prev[l as int].len() == before[l as int].len() - t);
                    assert(self.buffer.lines@[l as int]@ == prev[l as int]);
                }
                let lref = &mut self.buffer.lines[l];
                lref.remove(0);
                t = t + 1;
                proof {
                    assert(prev[l as int].remove(0) =~= before[l as int].skip(t as int));
                    assert(self.buffer@ =~~= prev.update(l as int, prev[l as int].remove(0)));
                    assert(self.buffer@ =~~= before.update(
                        l as int,
                        before[l as int].skip(t as int),
                    ));
                }
            }
            if l == self.cursor.line {
                k_cursor = k;
            }
            match self.selection {
                Option::Some(anchor) => {
                    if anchor.line == l {
                        k_anchor = k;
                    }
                },
                Option::None => {},
            }
            l = l + 1;
            proof {
                assert(self.buffer@ =~~= Seq::new(
                    orig.len(),
                    |j: int|
                        if l0 <= j < l {
                            orig[j].skip(unindent_amount(orig[j]))
                        } else {
                            orig[j]
                        },
                ));
            }
        }
        let ci = if self.cursor.index >= k_cursor {
            self.cursor.index - k_cursor
        } else {
            0
        };
        self.cursor = Cursor { line: self.cursor.line, index: ci };
        match self.selection {
            Option::Some(anchor) => {
                let ai = if anchor.index >= k_anchor {
                    anchor.index - k_anchor
                } else {
                    0
                };
                self.selection = Option::Some(Cursor { line: anchor.line, index: ai });
            },
            Option::None => {},
        }
        proof {
            assert(self@ =~~= unindent_applied(m0));
            assert forall|j: int| 0 <= j < m0.lines.len() implies 0 <= unindent_amount(
                #[trigger] m0.lines[j],
            ) <= m0.lines[j].len() by {
                lemma_lead_spaces_range(m0.lines[j], 0);
            }
            assert(model_wf(self@));
        }
    }

    fn apply_paste(&mut self, text: &Vec<char>, max_chars: Option<usize>)
        requires
            model_wf(old(self)@),
        ensures
            final(self)@ == paste_applied(old(self)@, text@, max_chars),
            model_wf(final(self)@),
    {
        let ab = match self.selection_bounds() {
            Option::Some(ab) => ab,
            Option::None => (self.cursor, self.cursor),
        };
        let a = ab.0;
        let b = ab.1;
        proof {
            lemma_flat_pos_le(self.buffer@, a, b);
            lemma_flat_pos_in_range(self.buffer@, b);
        }
        let ok = match max_chars {
            Option::Some(mx) => {
                let total = self.buffer.char_total();
                let pa = self.buffer.flat_offset(a);
                let pb = self.buffer.flat_offset(b);
                total - (pb - pa) + (text.len() as u128) <= mx as u128
            },
            Option::None => true,
        };
        if ok {
            proof {
                lemma_remove_span_flat(self.buffer@, a, b);
            }
            self.buffer.remove_span(a, b);
            let nc = self.buffer.insert_text_at(a, text);
            self.cursor = nc;
            self.selection = Option::None;
        }
    }
}

/// Apply a single edit to a widget's state. The layout stands in for the
/// shaping collaborator's current output and is read only by the pointer
/// edits.
pub fn apply_text_input_edit(
    edit: TextInputEdit,
    state: &mut EditorState,
    layout: &TextInputLayoutInfo,
    max_chars: Option<usize>,
    filter_mode: &Option<TextInputFilter>,
)
    requires
        model_wf(old(state)@),
    ensures
        final(state)@ == edit_applied(
            old(state)@,
            edit,
            layout.glyphs@,
            layout.line_height as int,
            max_chars,
            *filter_mode,
        ),
        model_wf(final(state)@),
{
    match edit {
        TextInputEdit::Motion(mo, with_select) => apply_motion(state, with_select, mo),
        TextInputEdit::Escape => {
            state.selection = Option::None;
        },
        TextInputEdit::Insert(ch, overwrite) => state.apply_insert(
            ch,
            overwrite,
            max_chars,
            filter_mode,
        ),
        TextInputEdit::Enter => state.apply_enter(),
        TextInputEdit::Backspace => state.apply_backspace(),
        TextInputEdit::Delete => state.apply_delete(),
        TextInputEdit::Indent => state.apply_indent(),
        TextInputEdit::Unindent => state.apply_unindent(),
        TextInputEdit::Click { x, y } => state.apply_click(layout, x, y),
        TextInputEdit::DoubleClick { x, y } => state.apply_double_click(layout, x, y),
        TextInputEdit::TripleClick { x, y } => state.apply_triple_click(layout, x, y),
        TextInputEdit::Drag { x, y } => state.apply_drag(layout, x, y),
        TextInputEdit::Scroll { lines } => state.apply_scroll(lines),
        TextInputEdit::Paste(text) => state.apply_paste(&text, max_chars),
        TextInputEdit::Undo => {},
        TextInputEdit::Redo => {},
        TextInputEdit::SelectAll => state.apply_select_all(),
    }
}

/// A character that a visually empty buffer may still hold.
pub open spec fn is_space_char(c: char) -> bool {
    c == ' ' || c == '\t'
}

/// A buffer that shows as empty: it holds nothing but whitespace.
pub open spec fn buffer_visually_empty(lines: Seq<Seq<char>>) -> bool {
    forall|i: int, j: int|
        0 <= i < lines.len() && 0 <= j < lines[i].len() ==> is_space_char(#[trigger] lines[i][j])
}

/// Number of characters in the buffer, saturated at the size type's
/// maximum.
pub fn buffer_len(buf: &TextBuffer) -> (n: usize)
    requires
        lines_wf(buf@),
    ensures
        char_count(buf@) <= usize::MAX ==> n == char_count(buf@),
        char_count(buf@) > usize::MAX ==> n == usize::MAX,
{
    let total = buf.char_total();
    if total > usize::MAX as u128 {
        usize::MAX
    } else {
        total as usize
    }
}

/// Whether the cursor sits at the end of its line.
pub fn cursor_at_line_end(state: &EditorState) -> (r: bool)
    requires
        model_wf(state@),
    ensures
        r == (state@.cursor.index == state@.lines[state@.cursor.line as int].len()),
{
    let len = state.buffer.line_len(state.cursor.line);
    state.cursor.index == len
}

/// Whether the buffer shows as empty, whitespace-only content included.
pub fn is_buffer_empty(buf: &TextBuffer) -> (r: bool)
    ensures
        r == buffer_visually_empty(buf@),
{
    let n = buf.line_count();
    let mut i: usize = 0;
    while i < n
        invariant
            i <= n,
            n == buf@.len(),
            forall|p: int, q: int|
                0 <= p < i && 0 <= q < buf@[p].len() ==> is_space_char(#[trigger] buf@[p][q]),
        decreases n - i,
    {
        let m = buf.line_len(i);
        let mut j: usize = 0;
        while j < m
            invariant
                j <= m,
                i < n,
                n == buf@.len(),
                m == buf@[i as int].len(),
                forall|p: int, q: int|
                    0 <= p < i && 0 <= q < buf@[p].len() ==> is_space_char(#[trigger] buf@[p][q]),
                forall|q: int| 0 <= q < j ==> is_space_char(#[trigger] buf@[i as int][q]),
            decreases m - j,
        {
            let c = buf.char_at(Cursor { line: i, index: j });
            if !(c == ' ' || c == '\t') {
                return false;
            }
            j = j + 1;
        }
        i = i + 1;
    }
    true
}

/// One character landing at a boundary splices exactly that character into
/// the flat text, right at the boundary's flat position.
pub proof fn lemma_insert_at_flat(lines: Seq<Seq<char>>, c: Cursor, ch: char)
    requires
        lines_wf(lines),
        cursor_ok(lines, c),
        char_count(lines) < usize::MAX,
    ensures
        ({
            let st = insert_at_model(lines, c, ch);
            let p = flat_pos(lines, c);
            &&& lines_wf(st.0)
            &&& cursor_ok(st.0, st.1)
            &&& text_of(st.0) == text_of(lines).take(p) + seq![ch] + text_of(lines).skip(p)
            &&& flat_pos(st.0, st.1) == p + 1
            &&& char_count(st.0) == char_count(lines) + 1
        }),
{
    crate::text::lemma_cursor_le_count(lines, c);
    if ch == '\n' {
        crate::text::lemma_split_flat(lines, c);
    } else {
        lemma_insert_char_flat(lines, c, ch);
    }
}

/// A text landing at a boundary splices exactly that text into the flat
/// text, as one block at the boundary's flat position.
pub proof fn lemma_insert_text_flat(lines: Seq<Seq<char>>, c: Cursor, text: Seq<char>)
    requires
        lines_wf(lines),
        cursor_ok(lines, c),
        char_count(lines) + text.len() <= usize::MAX,
    ensures
        ({
            let st = insert_text_model(lines, c, text);
            let p = flat_pos(lines, c);
            &&& lines_wf(st.0)
            &&& cursor_ok(st.0, st.1)
            &&& text_of(st.0) == text_of(lines).take(p) + text + text_of(lines).skip(p)
            &&& flat_pos(st.0, st.1) == p + text.len()
            &&& char_count(st.0) == char_count(lines) + text.len()
        }),
    decreases text.len(),
{
    let st = insert_text_model(lines, c, text);
    let p = flat_pos(lines, c);
    let t = text_of(lines);
    crate::text::lemma_flat_pos_in_range(lines, c);
    if text.len() == 0 {
        assert(t.take(p) + text + t.skip(p) =~= t);
    } else {
        let step = insert_at_model(lines, c, text[0]);
        lemma_insert_at_flat(lines, c, text[0]);
        lemma_insert_text_flat(step.0, step.1, text.drop_first());
        let t1 = text_of(step.0);
        assert(t1 == t.take(p) + seq![text[0]] + t.skip(p));
        assert(t1.take(p + 1) =~= t.take(p) + seq![text[0]]);
        assert(t1.skip(p + 1) =~= t.skip(p));
        assert(text_of(st.0) =~= t.take(p) + text + t.skip(p));
    }
}

} // verus!
