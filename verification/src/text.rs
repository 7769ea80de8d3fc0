//! The text data model: a buffer of lines, cursor positions, selections, and
//! the mathematical view of a buffer as one flat character sequence.

use vstd::prelude::*;

verus! {

/// A position inside a text buffer: a line index and a character offset
/// within that line. Offset `len` (one past the last character) is the
/// end-of-line position.
#[derive(Clone, Copy, Debug, PartialEq, Eq, Structural)]
pub struct Cursor {
    pub line: usize,
    pub index: usize,
}

/// The text content of one widget, organized as lines. The buffer always
/// holds at least one line, and no line contains a line break character.
pub struct TextBuffer {
    pub lines: Vec<Vec<char>>,
}

impl View for TextBuffer {
    type V = Seq<Seq<char>>;

    open spec fn view(&self) -> Seq<Seq<char>> {
        Seq::new(self.lines@.len(), |i: int| self.lines@[i]@)
    }
}

/// A single line never contains a line break: breaks exist only between
/// lines.
pub open spec fn line_ok(l: Seq<char>) -> bool {
    forall|i: int| 0 <= i < l.len() ==> l[i] != '\n'
}

/// Well-formed buffer content: at least one line, and no line break inside
/// any line.
pub open spec fn lines_wf(lines: Seq<Seq<char>>) -> bool {
    &&& lines.len() >= 1
    &&& forall|i: int| 0 <= i < lines.len() ==> line_ok(#[trigger] lines[i])
}

/// The cursor names an existing line and a boundary within it.
pub open spec fn cursor_ok(lines: Seq<Seq<char>>, c: Cursor) -> bool {
    &&& (c.line as int) < lines.len()
    &&& c.index <= lines[c.line as int].len()
}

/// Machine-representable buffer content: the line count and each line's
/// length fit the platform's size type. Every buffer held in a `TextBuffer`
/// satisfies this; see `lemma_buffer_view_bounds`.
pub open spec fn lines_fit(lines: Seq<Seq<char>>) -> bool {
    &&& lines.len() <= usize::MAX
    &&& forall|i: int| 0 <= i < lines.len() ==> (#[trigger] lines[i]).len() <= usize::MAX
}

/// Position order: `a` comes no later than `b` in reading order.
pub open spec fn cursor_le(a: Cursor, b: Cursor) -> bool {
    a.line < b.line || (a.line == b.line && a.index <= b.index)
}

/// The buffer content as one flat character sequence, with one `'\n'`
/// between consecutive lines.
pub open spec fn text_of(lines: Seq<Seq<char>>) -> Seq<char>
    decreases lines.len(),
{
    if lines.len() == 0 {
        Seq::empty()
    } else if lines.len() == 1 {
        lines[0]
    } else {
        lines[0] + seq!['\n'] + text_of(lines.skip(1))
    }
}

/// The flat text of the first `i` lines, each followed by its `'\n'`.
pub open spec fn head_text(lines: Seq<Seq<char>>, i: int) -> Seq<char>
    decreases i,
{
    if i <= 0 {
        Seq::empty()
    } else {
        head_text(lines, i - 1) + lines[i - 1] + seq!['\n']
    }
}

/// A cursor position as an offset into the flat text.
pub open spec fn flat_pos(lines: Seq<Seq<char>>, c: Cursor) -> int {
    head_text(lines, c.line as int).len() + c.index
}

/// Number of characters in the buffer, counting one per line break.
pub open spec fn char_count(lines: Seq<Seq<char>>) -> int {
    text_of(lines).len() as int
}

/// The buffer after one character is inserted at a boundary (not a line
/// break; see `split_lines` for those).
pub open spec fn insert_char_lines(lines: Seq<Seq<char>>, c: Cursor, ch: char) -> Seq<Seq<char>> {
    lines.update(
        c.line as int,
        lines[c.line as int].take(c.index as int) + seq![ch] + lines[c.line as int].skip(
            c.index as int,
        ),
    )
}

/// The buffer after the line holding `c` is split at `c`: the tail of that
/// line becomes a new following line.
pub open spec fn split_lines(lines: Seq<Seq<char>>, c: Cursor) -> Seq<Seq<char>> {
    lines.take(c.line as int) + seq![
        lines[c.line as int].take(c.index as int),
        lines[c.line as int].skip(c.index as int),
    ] + lines.skip(c.line as int + 1)
}

/// The buffer after the span from `a` to `b` (with `a` no later than `b`) is
/// removed. When the span crosses lines, the remainder of `b`'s line is
/// joined onto the head of `a`'s line.
pub open spec fn remove_span_lines(lines: Seq<Seq<char>>, a: Cursor, b: Cursor) -> Seq<Seq<char>> {
    if a.line == b.line {
        lines.update(
            a.line as int,
            lines[a.line as int].take(a.index as int) + lines[a.line as int].skip(b.index as int),
        )
    } else {
        lines.take(a.line as int) + seq![
            lines[a.line as int].take(a.index as int) + lines[b.line as int].skip(b.index as int),
        ] + lines.skip(b.line as int + 1)
    }
}

/// `head_text` reads only the first `i` lines, so buffers that agree there
/// have the same head text.
pub proof fn lemma_head_text_agree(l1: Seq<Seq<char>>, l2: Seq<Seq<char>>, i: int)
    requires
        0 <= i <= l1.len(),
        i <= l2.len(),
        forall|j: int| 0 <= j < i ==> l1[j] == l2[j],
    ensures
        head_text(l1, i) == head_text(l2, i),
    decreases i,
{
    if i > 0 {
        lemma_head_text_agree(l1, l2, i - 1);
    }
}

/// The flat text splits at any line boundary: the text of the first `i`
/// lines, then the text of the rest.
pub proof fn lemma_text_split(lines: Seq<Seq<char>>, i: int)
    requires
        0 <= i < lines.len(),
    ensures
        text_of(lines) == head_text(lines, i) + text_of(lines.skip(i)),
    decreases i,
{
    if i == 0 {
        assert(lines.skip(0) =~= lines);
        assert(text_of(lines) =~= head_text(lines, 0) + text_of(lines.skip(0)));
    } else {
        lemma_text_split(lines, i - 1);
        let rest = lines.skip(i - 1);
        assert(rest.len() >= 2);
        assert(rest.skip(1) =~= lines.skip(i));
        assert(rest[0] == lines[i - 1]);
        assert(text_of(rest) == rest[0] + seq!['\n'] + text_of(rest.skip(1)));
        assert(text_of(lines) =~= head_text(lines, i) + text_of(lines.skip(i)));
    }
}

/// Head text lengths grow with the line index.
pub proof fn lemma_head_text_mono(lines: Seq<Seq<char>>, i: int, j: int)
    requires
        0 <= i <= j,
    ensures
        head_text(lines, i).len() <= head_text(lines, j).len(),
    decreases j - i,
{
    if i < j {
        lemma_head_text_mono(lines, i, j - 1);
    }
}

/// A valid cursor's flat position lies within the flat text, and the order
/// of cursors agrees with the order of their flat positions.
pub proof fn lemma_flat_pos_le(lines: Seq<Seq<char>>, a: Cursor, b: Cursor)
    requires
        cursor_ok(lines, a),
        cursor_ok(lines, b),
        cursor_le(a, b),
    ensures
        flat_pos(lines, a) <= flat_pos(lines, b),
{
    if a.line < b.line {
        assert(head_text(lines, a.line + 1) == head_text(lines, a.line as int) + lines[a.line as int]
            + seq!['\n']);
        lemma_head_text_mono(lines, a.line + 1, b.line as int);
    }
}

/// A valid cursor's flat position is within the flat text length.
pub proof fn lemma_flat_pos_in_range(lines: Seq<Seq<char>>, c: Cursor)
    requires
        lines_wf(lines),
        cursor_ok(lines, c),
    ensures
        0 <= flat_pos(lines, c) <= text_of(lines).len(),
        c.line as int == lines.len() - 1 && c.index == lines[c.line as int].len() ==> flat_pos(
            lines,
            c,
        ) == text_of(lines).len(),
{
    lemma_text_split(lines, c.line as int);
    let rest = lines.skip(c.line as int);
    assert(rest[0] == lines[c.line as int]);
    if rest.len() == 1 {
        assert(text_of(rest) == rest[0]);
    } else {
        assert(text_of(rest) == rest[0] + seq!['\n'] + text_of(rest.skip(1)));
    }
}

/// Each of the first `i` lines contributes at least its line break to the
/// head text.
pub proof fn lemma_head_text_ge(lines: Seq<Seq<char>>, i: int)
    requires
        0 <= i,
    ensures
        head_text(lines, i).len() >= i,
    decreases i,
{
    if i > 0 {
        lemma_head_text_ge(lines, i - 1);
    }
}

/// A valid boundary's coordinates are bounded by the character count.
pub proof fn lemma_cursor_le_count(lines: Seq<Seq<char>>, c: Cursor)
    requires
        lines_wf(lines),
        cursor_ok(lines, c),
    ensures
        c.index <= char_count(lines),
        c.line <= char_count(lines),
{
    lemma_text_split(lines, c.line as int);
    let rest = lines.skip(c.line as int);
    assert(rest[0] == lines[c.line as int]);
    if rest.len() == 1 {
        assert(text_of(rest) == rest[0]);
    } else {
        assert(text_of(rest) == rest[0] + seq!['\n'] + text_of(rest.skip(1)));
    }
    lemma_head_text_ge(lines, c.line as int);
}

/// Over a whole buffer, the head text is the flat text plus one trailing
/// line break.
pub proof fn lemma_head_text_full(lines: Seq<Seq<char>>)
    requires
        lines.len() >= 1,
    ensures
        head_text(lines, lines.len() as int) == text_of(lines) + seq!['\n'],
{
    let n = lines.len() as int;
    lemma_text_split(lines, n - 1);
    let rest = lines.skip(n - 1);
    assert(rest.len() == 1);
    assert(text_of(rest) == rest[0]);
    assert(rest[0] == lines[n - 1]);
    assert(head_text(lines, n) =~= text_of(lines) + seq!['\n']);
}

/// `head_text` unfolds at the front: the first line, a break, then the head
/// text of the remaining lines.
pub proof fn lemma_head_text_unfold_front(s: Seq<Seq<char>>, k: int)
    requires
        1 <= k <= s.len(),
    ensures
        head_text(s, k) == s[0] + seq!['\n'] + head_text(s.skip(1), k - 1),
    decreases k,
{
    if k == 1 {
        assert(head_text(s, 0) =~= Seq::<char>::empty());
        assert(head_text(s.skip(1), 0) =~= Seq::<char>::empty());
        assert(head_text(s, 1) =~= s[0] + seq!['\n'] + head_text(s.skip(1), 0));
    } else {
        lemma_head_text_unfold_front(s, k - 1);
        assert(s.skip(1)[k - 2] == s[k - 1]);
        assert(head_text(s, k) =~= s[0] + seq!['\n'] + head_text(s.skip(1), k - 1));
    }
}

/// `head_text` is additive across a split of the line range.
pub proof fn lemma_head_text_add(lines: Seq<Seq<char>>, i: int, k: int)
    requires
        0 <= i,
        0 <= k,
        i + k <= lines.len(),
    ensures
        head_text(lines, i + k) == head_text(lines, i) + head_text(lines.skip(i), k),
    decreases k,
{
    if k == 0 {
        assert(head_text(lines, i) =~= head_text(lines, i) + head_text(lines.skip(i), 0));
    } else {
        lemma_head_text_add(lines, i, k - 1);
        assert(lines.skip(i)[k - 1] == lines[i + k - 1]);
        assert(head_text(lines, i + k) =~= head_text(lines, i) + head_text(lines.skip(i), k));
    }
}

/// Inserting one ordinary character at a boundary splices that character
/// into the flat text at the cursor's flat position.
pub proof fn lemma_insert_char_flat(lines: Seq<Seq<char>>, c: Cursor, ch: char)
    requires
        lines_wf(lines),
        cursor_ok(lines, c),
        ch != '\n',
    ensures
        ({
            let nl = insert_char_lines(lines, c, ch);
            let p = flat_pos(lines, c);
            &&& lines_wf(nl)
            &&& nl.len() == lines.len()
            &&& nl[c.line as int].len() == lines[c.line as int].len() + 1
            &&& text_of(nl) == text_of(lines).take(p) + seq![ch] + text_of(lines).skip(p)
            &&& head_text(nl, c.line as int) == head_text(lines, c.line as int)
            &&& char_count(nl) == char_count(lines) + 1
        }),
{
    let l = c.line as int;
    let idx = c.index as int;
    let old_line = lines[l];
    let new_line = old_line.take(idx) + seq![ch] + old_line.skip(idx);
    let nl = insert_char_lines(lines, c, ch);
    let p = flat_pos(lines, c);
    let t = text_of(lines);

    assert(line_ok(new_line));
    assert(lines_wf(nl));

    lemma_head_text_agree(nl, lines, l);
    lemma_text_split(lines, l);
    lemma_text_split(nl, l);

    let h = head_text(lines, l);
    let rest = lines.skip(l);
    let nrest = nl.skip(l);
    assert(nrest[0] == new_line);
    assert(rest[0] == old_line);

    if rest.len() == 1 {
        assert(text_of(rest) == old_line);
        assert(text_of(nrest) == new_line);
        assert(t == h + old_line);
        assert(t.take(p) =~= h + old_line.take(idx));
        assert(t.skip(p) =~= old_line.skip(idx));
        assert(text_of(nl) =~= t.take(p) + seq![ch] + t.skip(p));
    } else {
        assert(nrest.skip(1) =~= rest.skip(1));
        assert(text_of(rest) == old_line + seq!['\n'] + text_of(rest.skip(1)));
        assert(text_of(nrest) == new_line + seq!['\n'] + text_of(rest.skip(1)));
        let tail = seq!['\n'] + text_of(rest.skip(1));
        assert(t =~= h + old_line + tail);
        assert(t.take(p) =~= h + old_line.take(idx));
        assert(t.skip(p) =~= old_line.skip(idx) + tail);
        assert(text_of(nl) =~= t.take(p) + seq![ch] + t.skip(p));
    }
}

/// Splitting a line at a boundary splices a line break into the flat text at
/// the cursor's flat position.
pub proof fn lemma_split_flat(lines: Seq<Seq<char>>, c: Cursor)
    requires
        lines_wf(lines),
        cursor_ok(lines, c),
    ensures
        ({
            let nl = split_lines(lines, c);
            let p = flat_pos(lines, c);
            &&& lines_wf(nl)
            &&& nl.len() == lines.len() + 1
            &&& nl[c.line as int + 1].len() == lines[c.line as int].len() - c.index
            &&& text_of(nl) == text_of(lines).take(p) + seq!['\n'] + text_of(lines).skip(p)
            &&& head_text(nl, c.line as int + 1) == head_text(lines, c.line as int).add(
                lines[c.line as int].take(c.index as int),
            ) + seq!['\n']
            &&& char_count(nl) == char_count(lines) + 1
        }),
{
    let l = c.line as int;
    let idx = c.index as int;
    let old_line = lines[l];
    let first = old_line.take(idx);
    let second = old_line.skip(idx);
    let nl = split_lines(lines, c);
    let p = flat_pos(lines, c);
    let t = text_of(lines);

    assert(forall|j: int| 0 <= j < l ==> nl[j] == lines[j]);
    assert(nl[l] == first);
    assert(nl[l + 1] == second);
    assert(forall|j: int| l + 2 <= j < nl.len() ==> nl[j] == lines[j - 1]);
    assert(lines_wf(nl));

    lemma_head_text_agree(nl, lines, l);
    lemma_text_split(lines, l);
    lemma_text_split(nl, l);

    let h = head_text(lines, l);
    let rest = lines.skip(l);
    let nrest = nl.skip(l);
    assert(nrest[0] == first);
    assert(nrest.skip(1) =~= seq![second] + lines.skip(l + 1));
    let brest = nrest.skip(1);
    assert(text_of(nrest) == first + seq!['\n'] + text_of(brest));
    assert(head_text(nl, l + 1) =~= h + first + seq!['\n']);

    if rest.len() == 1 {
        assert(text_of(rest) == old_line);
        assert(brest.len() == 1);
        assert(text_of(brest) == second);
        assert(t == h + old_line);
        assert(t.take(p) =~= h + first);
        assert(t.skip(p) =~= second);
        assert(text_of(nl) =~= t.take(p) + seq!['\n'] + t.skip(p));
    } else {
        assert(brest.skip(1) =~= rest.skip(1));
        assert(text_of(rest) == old_line + seq!['\n'] + text_of(rest.skip(1)));
        assert(text_of(brest) == second + seq!['\n'] + text_of(rest.skip(1)));
        let tail = seq!['\n'] + text_of(rest.skip(1));
        assert(t =~= h + old_line + tail);
        assert(t.take(p) =~= h + first);
        assert(t.skip(p) =~= second + tail);
        assert(text_of(nl) =~= t.take(p) + seq!['\n'] + t.skip(p));
    }
}

/// Removing the span between two ordered boundaries removes exactly that
/// span from the flat text.
#[verifier::rlimit(60)]
pub proof fn lemma_remove_span_flat(lines: Seq<Seq<char>>, a: Cursor, b: Cursor)
    requires
        lines_wf(lines),
        cursor_ok(lines, a),
        cursor_ok(lines, b),
        cursor_le(a, b),
    ensures
        ({
            let nl = remove_span_lines(lines, a, b);
            let pa = flat_pos(lines, a);
            let pb = flat_pos(lines, b);
            &&& lines_wf(nl)
            &&& nl.len() == lines.len() - (b.line - a.line)
            &&& text_of(nl) == text_of(lines).take(pa) + text_of(lines).skip(pb)
            &&& head_text(nl, a.line as int) == head_text(lines, a.line as int)
            &&& a.index <= nl[a.line as int].len()
            &&& char_count(nl) == char_count(lines) - (pb - pa)
        }),
{
    let la = a.line as int;
    let lb = b.line as int;
    let ia = a.index as int;
    let ib = b.index as int;
    let nl = remove_span_lines(lines, a, b);
    let pa = flat_pos(lines, a);
    let pb = flat_pos(lines, b);
    let t = text_of(lines);
    let aline = lines[la];
    let bline = lines[lb];

    lemma_flat_pos_le(lines, a, b);
    lemma_flat_pos_in_range(lines, a);
    lemma_flat_pos_in_range(lines, b);

    if la == lb {
        let new_line = aline.take(ia) + aline.skip(ib);
        assert(line_ok(new_line));
        assert(lines_wf(nl));
        lemma_head_text_agree(nl, lines, la);
        lemma_text_split(lines, la);
        lemma_text_split(nl, la);
        let h = head_text(lines, la);
        let rest = lines.skip(la);
        let nrest = nl.skip(la);
        assert(nrest[0] == new_line);
        if rest.len() == 1 {
            assert(text_of(rest) == aline);
            assert(text_of(nrest) == new_line);
            assert(t == h + aline);
            assert(t.take(pa) =~= h + aline.take(ia));
            assert(t.skip(pb) =~= aline.skip(ib));
            assert(text_of(nl) =~= t.take(pa) + t.skip(pb));
        } else {
            assert(nrest.skip(1) =~= rest.skip(1));
            assert(text_of(rest) == aline + seq!['\n'] + text_of(rest.skip(1)));
            assert(text_of(nrest) == new_line + seq!['\n'] + text_of(rest.skip(1)));
            let tail = seq!['\n'] + text_of(rest.skip(1));
            assert(t =~= h + aline + tail);
            assert(t.take(pa) =~= h + aline.take(ia));
            assert(t.skip(pb) =~= aline.skip(ib) + tail);
            assert(text_of(nl) =~= t.take(pa) + t.skip(pb));
        }
    } else {
        let joined = aline.take(ia) + bline.skip(ib);
        assert(forall|j: int| 0 <= j < la ==> nl[j] == lines[j]);
        assert(nl[la] == joined);
        assert(forall|j: int| la + 1 <= j < nl.len() ==> nl[j] == lines[j + (lb - la)]);
        assert(line_ok(joined));
        assert(lines_wf(nl));

        lemma_head_text_agree(nl, lines, la);
        lemma_text_split(lines, la);
        lemma_text_split(nl, la);

        let h = head_text(lines, la);
        let rest = lines.skip(la);
        let k = lb - la;
        lemma_text_split(rest, k);
        assert(rest.skip(k) =~= lines.skip(lb));
        lemma_head_text_add(lines, la, k);
        assert(head_text(lines, lb) == h + head_text(rest, k));

        lemma_head_text_unfold_front(rest, k);
        assert(rest[0] == aline);
        assert(rest.skip(1) =~= lines.skip(la + 1));
        let mid = head_text(lines.skip(la + 1), k - 1);
        assert(head_text(rest, k) == aline + seq!['\n'] + mid);

        let brest = lines.skip(lb);
        assert(brest[0] == bline);
        let nrest = nl.skip(la);
        assert(nrest[0] == joined);

        if brest.len() == 1 {
            assert(text_of(brest) == bline);
            assert(nrest.len() == 1);
            assert(text_of(nrest) == joined);
            assert(t =~= h + aline + seq!['\n'] + mid + bline);
            assert(pb == h.len() + aline.len() + 1 + mid.len() + ib);
            assert(t.take(pa) =~= h + aline.take(ia));
            assert(t.skip(pb) =~= bline.skip(ib));
            assert(text_of(nl) =~= t.take(pa) + t.skip(pb));
        } else {
            assert(text_of(brest) == bline + seq!['\n'] + text_of(brest.skip(1)));
            assert(nrest.skip(1) =~= brest.skip(1));
            assert(text_of(nrest) == joined + seq!['\n'] + text_of(brest.skip(1)));
            let tail = seq!['\n'] + text_of(brest.skip(1));
            assert(t =~= h + aline + seq!['\n'] + mid + bline + tail);
            assert(pb == h.len() + aline.len() + 1 + mid.len() + ib);
            assert(t.take(pa) =~= h + aline.take(ia));
            assert(t.skip(pb) =~= bline.skip(ib) + tail);
            assert(text_of(nl) =~= t.take(pa) + t.skip(pb));
        }
    }
}

/// The flat text between two ordered boundaries.
pub open spec fn span_text(lines: Seq<Seq<char>>, a: Cursor, b: Cursor) -> Seq<char> {
    text_of(lines).subrange(flat_pos(lines, a), flat_pos(lines, b))
}

/// The span between two ordered boundaries, written out by lines: the tail
/// of `a`'s line, the interior lines each with their break, and the head of
/// `b`'s line.
pub proof fn lemma_span_text(lines: Seq<Seq<char>>, a: Cursor, b: Cursor)
    requires
        lines_wf(lines),
        cursor_ok(lines, a),
        cursor_ok(lines, b),
        cursor_le(a, b),
    ensures
        a.line == b.line ==> span_text(lines, a, b) == lines[a.line as int].subrange(
            a.index as int,
            b.index as int,
        ),
        a.line < b.line ==> span_text(lines, a, b) == lines[a.line as int].skip(a.index as int)
            + seq!['\n'] + head_text(lines.skip(a.line + 1), b.line - a.line - 1)
            + lines[b.line as int].take(b.index as int),
{
    let la = a.line as int;
    let lb = b.line as int;
    let ia = a.index as int;
    let ib = b.index as int;
    let t = text_of(lines);
    let pa = flat_pos(lines, a);
    let pb = flat_pos(lines, b);
    let aline = lines[la];
    let bline = lines[lb];

    lemma_flat_pos_le(lines, a, b);
    lemma_flat_pos_in_range(lines, a);
    lemma_flat_pos_in_range(lines, b);
    lemma_text_split(lines, la);
    let h = head_text(lines, la);
    let rest = lines.skip(la);

    if la == lb {
        if rest.len() == 1 {
            assert(text_of(rest) == aline);
            assert(t == h + aline);
        } else {
            assert(text_of(rest) == aline + seq!['\n'] + text_of(rest.skip(1)));
        }
        assert(span_text(lines, a, b) =~= aline.subrange(ia, ib));
    } else {
        let k = lb - la;
        lemma_text_split(rest, k);
        assert(rest.skip(k) =~= lines.skip(lb));
        lemma_head_text_add(lines, la, k);
        lemma_head_text_unfold_front(rest, k);
        assert(rest[0] == aline);
        assert(rest.skip(1) =~= lines.skip(la + 1));
        let mid = head_text(lines.skip(la + 1), k - 1);
        let brest = lines.skip(lb);
        assert(brest[0] == bline);
        if brest.len() == 1 {
            assert(text_of(brest) == bline);
            assert(t =~= h + aline + seq!['\n'] + mid + bline);
        } else {
            assert(text_of(brest) == bline + seq!['\n'] + text_of(brest.skip(1)));
            assert(t =~= h + aline + seq!['\n'] + mid + bline + (seq!['\n'] + text_of(
                brest.skip(1),
            )));
        }
        assert(pb == h.len() + aline.len() + 1 + mid.len() + ib);
        assert(span_text(lines, a, b) =~= aline.skip(ia) + seq!['\n'] + mid + bline.take(ib));
    }
}

/// A buffer stored in vectors is machine-representable.
pub proof fn lemma_buffer_view_bounds(buf: &TextBuffer)
    ensures
        lines_fit(buf@),
{
    broadcast use vstd::std_specs::vec::axiom_spec_len;

    assert(vstd::std_specs::vec::spec_vec_len(&buf.lines) == buf.lines@.len());
    assert forall|i: int| 0 <= i < buf@.len() implies (#[trigger] buf@[i]).len()
        <= usize::MAX by {
        assert(vstd::std_specs::vec::spec_vec_len(&buf.lines@[i]) == buf.lines@[i]@.len());
    }
}

impl TextBuffer {
    /// A buffer holding one empty line.
    pub fn new() -> (r: TextBuffer)
        ensures
            r@ =~= seq![Seq::<char>::empty()],
            lines_wf(r@),
    {
        let mut lines: Vec<Vec<char>> = Vec::new();
        lines.push(Vec::new());
        let r = TextBuffer { lines };
        proof {
            assert(r@ =~= seq![Seq::<char>::empty()]);
        }
        r
    }

    pub fn line_count(&self) -> (n: usize)
        ensures
            n == self@.len(),
    {
        self.lines.len()
    }

    pub fn line_len(&self, l: usize) -> (n: usize)
        requires
            l < self@.len(),
        ensures
            n == self@[l as int].len(),
    {
        self.lines[l].len()
    }

    pub fn char_at(&self, c: Cursor) -> (ch: char)
        requires
            (c.line as int) < self@.len(),
            (c.index as int) < self@[c.line as int].len(),
        ensures
            ch == self@[c.line as int][c.index as int],
    {
        self.lines[c.line][c.index]
    }

    /// Reset the buffer to one empty line.
    pub fn clear(&mut self)
        ensures
            final(self)@ =~= seq![Seq::<char>::empty()],
    {
        self.lines.clear();
        self.lines.push(Vec::new());
        proof {
            assert(final(self)@ =~= seq![Seq::<char>::empty()]);
        }
    }

    /// Insert one ordinary character at a boundary.
    pub fn insert_char(&mut self, c: Cursor, ch: char)
        requires
            cursor_ok(old(self)@, c),
        ensures
            final(self)@ =~~= insert_char_lines(old(self)@, c, ch),
    {
        let line = &mut self.lines[c.line];
        line.insert(c.index, ch);
        proof {
            assert(final(self)@ =~~= insert_char_lines(old(self)@, c, ch));
        }
    }

    /// Split the line holding `c` at `c`; the tail becomes a new line.
    pub fn split_line(&mut self, c: Cursor)
        requires
            cursor_ok(old(self)@, c),
        ensures
            final(self)@ =~~= split_lines(old(self)@, c),
    {
        let n = self.lines.len();
        assert(c.line < n);
        let tail = self.lines[c.line].split_off(c.index);
        self.lines.insert(c.line + 1, tail);
        proof {
            assert(final(self)@ =~~= split_lines(old(self)@, c));
        }
    }

    /// Remove the span from `a` to `b`.
    pub fn remove_span(&mut self, a: Cursor, b: Cursor)
        requires
            cursor_ok(old(self)@, a),
            cursor_ok(old(self)@, b),
            cursor_le(a, b),
        ensures
            final(self)@ =~~= remove_span_lines(old(self)@, a, b),
    {
        if a.line == b.line {
            let line = &mut self.lines[a.line];
            let mut tail = line.split_off(b.index);
            line.truncate(a.index);
            line.append(&mut tail);
            proof {
                assert(final(self)@ =~~= remove_span_lines(old(self)@, a, b));
            }
        } else {
            let n0 = self.lines.len();
            let mut tail = self.lines[b.line].split_off(b.index);
            let first = &mut self.lines[a.line];
            first.truncate(a.index);
            first.append(&mut tail);
            let ghost mid = self@;
            let k = b.line - a.line;
            let mut j: usize = 0;
            while j < k
                invariant
                    j <= k,
                    mid.len() == n0,
                    a.line + 1 + k <= n0,
                    self@.len() == mid.len() - j,
                    self@ =~= mid.take(a.line + 1) + mid.skip(a.line + 1 + j),
                decreases k - j,
            {
                let ghost prev = self@;
                self.lines.remove(a.line + 1);
                j = j + 1;
                proof {
                    assert(self@ =~= prev.remove(a.line + 1));
                    assert(prev.remove(a.line + 1) =~= mid.take(a.line + 1) + mid.skip(
                        a.line + 1 + j,
                    ));
                }
            }
            proof {
                assert(final(self)@ =~~= remove_span_lines(old(self)@, a, b));
            }
        }
    }

    /// The buffer content as one flat character vector, with `'\n'` between
    /// lines.
    pub fn text_chars(&self) -> (t: Vec<char>)
        requires
            lines_wf(self@),
        ensures
            t@ == text_of(self@),
    {
        let mut out: Vec<char> = Vec::new();
        let n = self.lines.len();
        let mut i: usize = 0;
        while i < n
            invariant
                i <= n,
                n == self@.len(),
                out@ == head_text(self@, i as int),
            decreases n - i,
        {
            let m = self.lines[i].len();
            let mut j: usize = 0;
            while j < m
                invariant
                    j <= m,
                    i < n,
                    n == self@.len(),
                    m == self@[i as int].len(),
                    out@ == head_text(self@, i as int) + self@[i as int].take(j as int),
                decreases m - j,
            {
                out.push(self.lines[i][j]);
                j = j + 1;
            }
            proof {
                assert(self@[i as int].take(m as int) =~= self@[i as int]);
            }
            out.push('\n');
            i = i + 1;
        }
        proof {
            lemma_head_text_full(self@);
        }
        out.pop();
        proof {
            assert(out@ =~= text_of(self@));
        }
        out
    }

    /// The flat text between two ordered boundaries, as a character vector.
    pub fn span_chars(&self, a: Cursor, b: Cursor) -> (t: Vec<char>)
        requires
            lines_wf(self@),
            cursor_ok(self@, a),
            cursor_ok(self@, b),
            cursor_le(a, b),
        ensures
            t@ == span_text(self@, a, b),
    {
        proof {
            lemma_span_text(self@, a, b);
        }
        let mut out: Vec<char> = Vec::new();
        if a.line == b.line {
            let mut j: usize = a.index;
            while j < b.index
                invariant
                    a.index <= j <= b.index,
                    cursor_ok(self@, b),
                    a.line == b.line,
                    out@ == self@[a.line as int].subrange(a.index as int, j as int),
                decreases b.index - j,
            {
                out.push(self.lines[a.line][j]);
                j = j + 1;
            }
        } else {
            let la = a.line;
            let lb = b.line;
            let m0 = self.lines[la].len();
            let mut j: usize = a.index;
            while j < m0
                invariant
                    a.index <= j <= m0,
                    (la as int) < self@.len(),
                    m0 == self@[la as int].len(),
                    out@ == self@[la as int].subrange(a.index as int, j as int),
                decreases m0 - j,
            {
                out.push(self.lines[la][j]);
                j = j + 1;
            }
            out.push('\n');
            proof {
                assert(self@[la as int].subrange(a.index as int, m0 as int) =~= self@[
                    la as int].skip(a.index as int));
                assert(head_text(self@.skip(la + 1), 0) =~= Seq::<char>::empty());
                assert(out@ =~= self@[la as int].skip(a.index as int) + seq!['\n'] + head_text(
                    self@.skip(la + 1),
                    0,
                ));
            }
            let mut i: usize = la + 1;
            while i < lb
                invariant
                    la + 1 <= i <= lb,
                    (lb as int) < self@.len(),
                    out@ == self@[la as int].skip(a.index as int) + seq!['\n'] + head_text(
                        self@.skip(la + 1),
                        i - la - 1,
                    ),
                decreases lb - i,
            {
                let m = self.lines[i].len();
                let mut p: usize = 0;
                while p < m
                    invariant
                        p <= m,
                        la + 1 <= i < lb,
                        (lb as int) < self@.len(),
                        m == self@[i as int].len(),
                        out@ == self@[la as int].skip(a.index as int) + seq!['\n'] + head_text(
                            self@.skip(la + 1),
                            i - la - 1,
                        ) + self@[i as int].take(p as int),
                    decreases m - p,
                {
                    out.push(self.lines[i][p]);
                    p = p + 1;
                }
                out.push('\n');
                i = i + 1;
                proof {
                    assert(self@.skip(la + 1)[i - la - 2] == self@[i - 1]);
                    assert(self@[i - 1].take(m as int) =~= self@[i - 1]);
                    assert(out@ =~= self@[la as int].skip(a.index as int) + seq!['\n'] + head_text(
                        self@.skip(la + 1),
                        i - la - 1,
                    ));
                }
            }
            let mut q: usize = 0;
            while q < b.index
                invariant
                    q <= b.index,
                    (lb as int) < self@.len(),
                    b.index <= self@[lb as int].len(),
                    out@ == self@[la as int].skip(a.index as int) + seq!['\n'] + head_text(
                        self@.skip(la + 1),
                        lb - la - 1,
                    ) + self@[lb as int].take(q as int),
                decreases b.index - q,
            {
                out.push(self.lines[lb][q]);
                q = q + 1;
            }
        }
        out
    }

    /// Exact number of characters in the buffer, counting one per line
    /// break.
    pub fn char_total(&self) -> (n: u128)
        requires
            lines_wf(self@),
        ensures
            n == char_count(self@),
            n <= 0xffff_ffff_ffff_ffff_0000_0000_0000_0000u128,
    {
        let count = self.lines.len();
        let mut acc: u128 = 0;
        let mut i: usize = 0;
        while i < count
            invariant
                i <= count,
                count == self@.len(),
                acc == head_text(self@, i as int).len(),
                acc <= (i as int) * 0x1_0000_0000_0000_0000,
            decreases count - i,
        {
            let m = self.lines[i].len();
            proof {
                assert(acc + m + 1 <= (i as int) * 0x1_0000_0000_0000_0000
                    + 0x1_0000_0000_0000_0000) by (nonlinear_arith)
                    requires
                        acc <= (i as int) * 0x1_0000_0000_0000_0000,
                        m <= 0xffff_ffff_ffff_ffffu64,
                {}
                assert(((i as int) + 1) * 0x1_0000_0000_0000_0000 == (i as int)
                    * 0x1_0000_0000_0000_0000 + 0x1_0000_0000_0000_0000) by (nonlinear_arith)
                {}
                assert(((i as int) + 1) * 0x1_0000_0000_0000_0000 <= 0xffff_ffff_ffff_ffff
                    * 0x1_0000_0000_0000_0000) by (nonlinear_arith)
                    requires
                        (i as int) + 1 <= 0xffff_ffff_ffff_ffff,
                {}
            }
            acc = acc + (m as u128) + 1;
            i = i + 1;
        }
        proof {
            lemma_head_text_full(self@);
            assert(acc <= 0xffff_ffff_ffff_ffff * 0x1_0000_0000_0000_0000) by (nonlinear_arith)
                requires
                    acc <= (count as int) * 0x1_0000_0000_0000_0000,
                    count <= 0xffff_ffff_ffff_ffffu64,
            ;
        }
        acc - 1
    }

    /// A boundary's offset into the flat text.
    pub fn flat_offset(&self, c: Cursor) -> (n: u128)
        requires
            lines_wf(self@),
            cursor_ok(self@, c),
        ensures
            n == flat_pos(self@, c),
    {
        let mut acc: u128 = 0;
        let mut i: usize = 0;
        while i < c.line
            invariant
                i <= c.line,
                cursor_ok(self@, c),
                acc == head_text(self@, i as int).len(),
                acc <= (i as int) * 0x1_0000_0000_0000_0000,
            decreases c.line - i,
        {
            let m = self.lines[i].len();
            proof {
                assert(acc + m + 1 <= (i as int) * 0x1_0000_0000_0000_0000
                    + 0x1_0000_0000_0000_0000) by (nonlinear_arith)
                    requires
                        acc <= (i as int) * 0x1_0000_0000_0000_0000,
                        m <= 0xffff_ffff_ffff_ffffu64,
                {}
                assert(((i as int) + 1) * 0x1_0000_0000_0000_0000 == (i as int)
                    * 0x1_0000_0000_0000_0000 + 0x1_0000_0000_0000_0000) by (nonlinear_arith)
                {}
                assert(((i as int) + 1) * 0x1_0000_0000_0000_0000 <= 0xffff_ffff_ffff_ffff
                    * 0x1_0000_0000_0000_0000) by (nonlinear_arith)
                    requires
                        (i as int) + 1 <= 0xffff_ffff_ffff_ffff,
                {}
            }
            acc = acc + (m as u128) + 1;
            i = i + 1;
        }
        proof {
            assert(acc + c.index <= 0xffff_ffff_ffff_ffff * 0x1_0000_0000_0000_0000
                + 0xffff_ffff_ffff_ffff) by (nonlinear_arith)
                requires
                    acc <= (c.line as int) * 0x1_0000_0000_0000_0000,
                    c.line <= 0xffff_ffff_ffff_ffffu64,
                    c.index <= 0xffff_ffff_ffff_ffffu64,
            {}
        }
        acc + (c.index as u128)
    }
}

} // verus!
