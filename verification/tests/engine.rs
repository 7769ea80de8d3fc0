use text_input_core::actions::Motion;
use text_input_core::actions::TextInputEdit;
use text_input_core::edit::EditorState;
use text_input_core::edit::TextInputFilter;
use text_input_core::edit::apply_motion;
use text_input_core::edit::apply_text_input_edit;
use text_input_core::edit::buffer_len;
use text_input_core::edit::cursor_at_line_end;
use text_input_core::edit::is_buffer_empty;
use text_input_core::layout::TextInputLayoutInfo;
use text_input_core::text::Cursor;
use text_input_core::text::TextBuffer;

fn buffer_of(lines: &[&str]) -> TextBuffer {
    TextBuffer { lines: lines.iter().map(|l| l.chars().collect()).collect() }
}

fn state_of(lines: &[&str], cursor: (usize, usize)) -> EditorState {
    EditorState {
        buffer: buffer_of(lines),
        cursor: Cursor { line: cursor.0, index: cursor.1 },
        selection: None,
        scroll_lines: 0,
    }
}

fn no_layout() -> TextInputLayoutInfo {
    TextInputLayoutInfo { glyphs: Vec::new(), line_height: 16 }
}

fn text_string(state: &EditorState) -> String {
    state.buffer.text_chars().into_iter().collect()
}

fn chars(s: &str) -> Vec<char> {
    s.chars().collect()
}

#[test]
fn insert_plain_characters() {
    let mut state = state_of(&[""], (0, 0));
    let layout = no_layout();
    for ch in "abc".chars() {
        apply_text_input_edit(TextInputEdit::Insert(ch, false), &mut state, &layout, None, &None);
    }
    assert_eq!(text_string(&state), "abc");
    assert_eq!(state.cursor, Cursor { line: 0, index: 3 });
    assert_eq!(state.selection, None);
}

#[test]
fn insert_limit_is_enforced_per_character() {
    // P1: with a maximum of 3, the fourth insert is a no-op leaving the
    // state identical to before the call.
    let mut state = state_of(&[""], (0, 0));
    let layout = no_layout();
    for ch in "abcd".chars() {
        apply_text_input_edit(
            TextInputEdit::Insert(ch, false),
            &mut state,
            &layout,
            Some(3),
            &None,
        );
    }
    assert_eq!(text_string(&state), "abc");
    assert_eq!(state.cursor, Cursor { line: 0, index: 3 });
    assert_eq!(buffer_len(&state.buffer), 3);
}

#[test]
fn insert_replaces_selection() {
    // P2: with selection bounds [1, 4) on "hello", an insert yields
    // pre-selection text + the character + post-selection text.
    let mut state = state_of(&["hello"], (0, 4));
    state.selection = Some(Cursor { line: 0, index: 1 });
    let layout = no_layout();
    apply_text_input_edit(TextInputEdit::Insert('X', false), &mut state, &layout, None, &None);
    assert_eq!(text_string(&state), "hXo");
    assert_eq!(state.selection, None);
    assert_eq!(state.cursor, Cursor { line: 0, index: 2 });
}

#[test]
fn insert_replaces_selection_even_at_limit() {
    // The selection branch takes priority over the limit check.
    let mut state = state_of(&["hello"], (0, 5));
    state.selection = Some(Cursor { line: 0, index: 0 });
    let layout = no_layout();
    apply_text_input_edit(TextInputEdit::Insert('X', false), &mut state, &layout, Some(5), &None);
    assert_eq!(text_string(&state), "X");
}

#[test]
fn overwrite_mode_replaces_next_character() {
    let mut state = state_of(&["abc"], (0, 1));
    let layout = no_layout();
    apply_text_input_edit(TextInputEdit::Insert('X', true), &mut state, &layout, None, &None);
    assert_eq!(text_string(&state), "aXc");
    assert_eq!(state.cursor, Cursor { line: 0, index: 2 });
}

#[test]
fn overwrite_at_line_end_appends() {
    let mut state = state_of(&["ab"], (0, 2));
    let layout = no_layout();
    apply_text_input_edit(TextInputEdit::Insert('X', true), &mut state, &layout, None, &None);
    assert_eq!(text_string(&state), "abX");
}

#[test]
fn backspace_and_delete_remove_selection_identically() {
    // P3: with a selection active, Backspace and Delete both delete
    // exactly the selected span, wherever the live cursor sits.
    let layout = no_layout();

    let mut back = state_of(&["hello"], (0, 4));
    back.selection = Some(Cursor { line: 0, index: 1 });
    apply_text_input_edit(TextInputEdit::Backspace, &mut back, &layout, None, &None);

    let mut del = state_of(&["hello"], (0, 1));
    del.selection = Some(Cursor { line: 0, index: 4 });
    apply_text_input_edit(TextInputEdit::Delete, &mut del, &layout, None, &None);

    assert_eq!(text_string(&back), "ho");
    assert_eq!(text_string(&del), "ho");
    assert_eq!(back.cursor, del.cursor);
    assert_eq!(back.cursor, Cursor { line: 0, index: 1 });
    assert_eq!(back.selection, None);
    assert_eq!(del.selection, None);
}

#[test]
fn backspace_joins_lines() {
    let mut state = state_of(&["ab", "cd"], (1, 0));
    let layout = no_layout();
    apply_text_input_edit(TextInputEdit::Backspace, &mut state, &layout, None, &None);
    assert_eq!(text_string(&state), "abcd");
    assert_eq!(state.cursor, Cursor { line: 0, index: 2 });
}

#[test]
fn backspace_at_buffer_start_is_noop() {
    let mut state = state_of(&["ab"], (0, 0));
    let layout = no_layout();
    apply_text_input_edit(TextInputEdit::Backspace, &mut state, &layout, None, &None);
    assert_eq!(text_string(&state), "ab");
    assert_eq!(state.cursor, Cursor { line: 0, index: 0 });
}

#[test]
fn delete_joins_lines_at_line_end() {
    let mut state = state_of(&["ab", "cd"], (0, 2));
    let layout = no_layout();
    apply_text_input_edit(TextInputEdit::Delete, &mut state, &layout, None, &None);
    assert_eq!(text_string(&state), "abcd");
    assert_eq!(state.cursor, Cursor { line: 0, index: 2 });
}

#[test]
fn delete_at_buffer_end_is_noop() {
    let mut state = state_of(&["ab"], (0, 2));
    let layout = no_layout();
    apply_text_input_edit(TextInputEdit::Delete, &mut state, &layout, None, &None);
    assert_eq!(text_string(&state), "ab");
}

#[test]
fn escape_without_selection_changes_nothing() {
    // P4: applying Escape with no selection leaves buffer and cursor
    // untouched.
    let mut state = state_of(&["abc"], (0, 2));
    let layout = no_layout();
    apply_text_input_edit(TextInputEdit::Escape, &mut state, &layout, None, &None);
    assert_eq!(text_string(&state), "abc");
    assert_eq!(state.cursor, Cursor { line: 0, index: 2 });
    assert_eq!(state.selection, None);
}

#[test]
fn escape_clears_selection_only() {
    let mut state = state_of(&["abc"], (0, 2));
    state.selection = Some(Cursor { line: 0, index: 0 });
    let layout = no_layout();
    apply_text_input_edit(TextInputEdit::Escape, &mut state, &layout, None, &None);
    assert_eq!(text_string(&state), "abc");
    assert_eq!(state.cursor, Cursor { line: 0, index: 2 });
    assert_eq!(state.selection, None);
}

#[test]
fn paste_all_or_nothing() {
    // P6: a paste that would exceed the maximum leaves the buffer
    // completely unchanged; one that fits lands atomically.
    let layout = no_layout();
    let mut state = state_of(&["abc"], (0, 3));
    apply_text_input_edit(
        TextInputEdit::Paste(chars("xyz")),
        &mut state,
        &layout,
        Some(5),
        &None,
    );
    assert_eq!(text_string(&state), "abc");
    assert_eq!(state.cursor, Cursor { line: 0, index: 3 });

    apply_text_input_edit(TextInputEdit::Paste(chars("xy")), &mut state, &layout, Some(5), &None);
    assert_eq!(text_string(&state), "abcxy");
    assert_eq!(state.selection, None);
}

#[test]
fn paste_replaces_selection_and_counts_the_removal() {
    let layout = no_layout();
    let mut state = state_of(&["abcde"], (0, 4));
    state.selection = Some(Cursor { line: 0, index: 1 });
    // 5 - 3 + 3 = 5 <= 5: fits only because the selection is removed.
    apply_text_input_edit(
        TextInputEdit::Paste(chars("XYZ")),
        &mut state,
        &layout,
        Some(5),
        &None,
    );
    assert_eq!(text_string(&state), "aXYZe");
    assert_eq!(state.selection, None);
}

#[test]
fn paste_splits_lines_on_line_breaks() {
    let layout = no_layout();
    let mut state = state_of(&["ab"], (0, 1));
    apply_text_input_edit(TextInputEdit::Paste(chars("x\ny")), &mut state, &layout, None, &None);
    assert_eq!(state.buffer.lines.len(), 2);
    assert_eq!(text_string(&state), "ax\nyb");
    assert_eq!(state.cursor, Cursor { line: 1, index: 1 });
}

#[test]
fn enter_splits_the_line() {
    let mut state = state_of(&["ab"], (0, 1));
    let layout = no_layout();
    apply_text_input_edit(TextInputEdit::Enter, &mut state, &layout, None, &None);
    assert_eq!(text_string(&state), "a\nb");
    assert_eq!(state.cursor, Cursor { line: 1, index: 0 });
}

#[test]
fn enter_replaces_selection() {
    let mut state = state_of(&["hello"], (0, 4));
    state.selection = Some(Cursor { line: 0, index: 1 });
    let layout = no_layout();
    apply_text_input_edit(TextInputEdit::Enter, &mut state, &layout, None, &None);
    assert_eq!(text_string(&state), "h\no");
    assert_eq!(state.selection, None);
}

#[test]
fn word_right_then_select_all_then_backspace() {
    // P7: buffer "abc", cursor between 'a' and 'b', no selection.
    let mut state = state_of(&["abc"], (0, 1));
    let layout = no_layout();

    apply_text_input_edit(
        TextInputEdit::Motion(Motion::WordRight, false),
        &mut state,
        &layout,
        None,
        &None,
    );
    assert_eq!(state.cursor, Cursor { line: 0, index: 3 });
    assert_eq!(state.selection, None);

    apply_text_input_edit(TextInputEdit::SelectAll, &mut state, &layout, None, &None);
    assert_eq!(state.selection, Some(Cursor { line: 0, index: 0 }));
    assert_eq!(state.cursor, Cursor { line: 0, index: 3 });

    apply_text_input_edit(TextInputEdit::Backspace, &mut state, &layout, None, &None);
    assert_eq!(text_string(&state), "");
    assert_eq!(state.cursor, Cursor { line: 0, index: 0 });
    assert_eq!(state.selection, None);
}

#[test]
fn motions_move_and_clamp() {
    let mut state = state_of(&["abcd", "xy"], (0, 3));
    apply_motion(&mut state, false, Motion::Down);
    assert_eq!(state.cursor, Cursor { line: 1, index: 2 });
    apply_motion(&mut state, false, Motion::Up);
    assert_eq!(state.cursor, Cursor { line: 0, index: 2 });
    apply_motion(&mut state, false, Motion::Home);
    assert_eq!(state.cursor, Cursor { line: 0, index: 0 });
    apply_motion(&mut state, false, Motion::End);
    assert_eq!(state.cursor, Cursor { line: 0, index: 4 });
    apply_motion(&mut state, false, Motion::Right);
    assert_eq!(state.cursor, Cursor { line: 1, index: 0 });
    apply_motion(&mut state, false, Motion::Left);
    assert_eq!(state.cursor, Cursor { line: 0, index: 4 });
    apply_motion(&mut state, false, Motion::BufferStart);
    assert_eq!(state.cursor, Cursor { line: 0, index: 0 });
    apply_motion(&mut state, false, Motion::BufferEnd);
    assert_eq!(state.cursor, Cursor { line: 1, index: 2 });
}

#[test]
fn word_motions_scan_words() {
    let mut state = state_of(&["foo bar"], (0, 5));
    apply_motion(&mut state, false, Motion::WordLeft);
    assert_eq!(state.cursor, Cursor { line: 0, index: 4 });
    apply_motion(&mut state, false, Motion::WordLeft);
    assert_eq!(state.cursor, Cursor { line: 0, index: 0 });
    apply_motion(&mut state, false, Motion::WordRight);
    assert_eq!(state.cursor, Cursor { line: 0, index: 3 });
    apply_motion(&mut state, false, Motion::WordRight);
    assert_eq!(state.cursor, Cursor { line: 0, index: 7 });
}

#[test]
fn motion_with_extension_anchors_the_selection() {
    let mut state = state_of(&["abc"], (0, 1));
    apply_motion(&mut state, true, Motion::End);
    assert_eq!(state.selection, Some(Cursor { line: 0, index: 1 }));
    assert_eq!(state.cursor, Cursor { line: 0, index: 3 });
    // A second extending motion keeps the original anchor.
    apply_motion(&mut state, true, Motion::Home);
    assert_eq!(state.selection, Some(Cursor { line: 0, index: 1 }));
    assert_eq!(state.cursor, Cursor { line: 0, index: 0 });
    // A plain motion clears it.
    apply_motion(&mut state, false, Motion::Right);
    assert_eq!(state.selection, None);
}

#[test]
fn numeric_filter_rejects_letters() {
    let mut state = state_of(&[""], (0, 0));
    let layout = no_layout();
    let filter = Some(TextInputFilter::Numeric);
    apply_text_input_edit(TextInputEdit::Insert('a', false), &mut state, &layout, None, &filter);
    assert_eq!(text_string(&state), "");
    apply_text_input_edit(TextInputEdit::Insert('7', false), &mut state, &layout, None, &filter);
    assert_eq!(text_string(&state), "7");
}

#[test]
fn allow_list_filter_admits_only_listed_characters() {
    let mut state = state_of(&[""], (0, 0));
    let layout = no_layout();
    let filter = Some(TextInputFilter::Allowed(vec!['x', 'y']));
    apply_text_input_edit(TextInputEdit::Insert('z', false), &mut state, &layout, None, &filter);
    apply_text_input_edit(TextInputEdit::Insert('y', false), &mut state, &layout, None, &filter);
    assert_eq!(text_string(&state), "y");
}

#[test]
fn indent_shifts_touched_lines_and_cursor() {
    let mut state = state_of(&["ab", "cd"], (1, 1));
    state.selection = Some(Cursor { line: 0, index: 0 });
    let layout = no_layout();
    apply_text_input_edit(TextInputEdit::Indent, &mut state, &layout, None, &None);
    assert_eq!(text_string(&state), "    ab\n    cd");
    assert_eq!(state.cursor, Cursor { line: 1, index: 5 });
    assert_eq!(state.selection, Some(Cursor { line: 0, index: 4 }));
}

#[test]
fn unindent_removes_up_to_one_unit() {
    let mut state = state_of(&["      ab", "  cd", "ef"], (0, 7));
    state.selection = Some(Cursor { line: 2, index: 1 });
    let layout = no_layout();
    apply_text_input_edit(TextInputEdit::Unindent, &mut state, &layout, None, &None);
    assert_eq!(text_string(&state), "  ab\ncd\nef");
    assert_eq!(state.cursor, Cursor { line: 0, index: 3 });
    assert_eq!(state.selection, Some(Cursor { line: 2, index: 1 }));
}

#[test]
fn undo_and_redo_are_noops() {
    let mut state = state_of(&["abc"], (0, 1));
    let layout = no_layout();
    apply_text_input_edit(TextInputEdit::Undo, &mut state, &layout, None, &None);
    apply_text_input_edit(TextInputEdit::Redo, &mut state, &layout, None, &None);
    assert_eq!(text_string(&state), "abc");
    assert_eq!(state.cursor, Cursor { line: 0, index: 1 });
}

#[test]
fn scroll_moves_the_view_not_the_cursor() {
    let mut state = state_of(&["abc"], (0, 1));
    let layout = no_layout();
    apply_text_input_edit(TextInputEdit::Scroll { lines: 3 }, &mut state, &layout, None, &None);
    assert_eq!(state.scroll_lines, 3);
    assert_eq!(state.cursor, Cursor { line: 0, index: 1 });
    apply_text_input_edit(TextInputEdit::Scroll { lines: -5 }, &mut state, &layout, None, &None);
    assert_eq!(state.scroll_lines, 0);
}

#[test]
fn helper_queries_report_the_state() {
    let state = state_of(&["ab", ""], (0, 2));
    assert_eq!(buffer_len(&state.buffer), 3);
    assert!(cursor_at_line_end(&state));
    assert!(!is_buffer_empty(&buffer_of(&["a"])));
    assert!(is_buffer_empty(&buffer_of(&["  ", "\t"])));
    assert!(is_buffer_empty(&buffer_of(&[""])));
}

#[test]
fn span_chars_extracts_selected_text() {
    let buf = buffer_of(&["abc", "def", "gh"]);
    let t: String = buf
        .span_chars(Cursor { line: 0, index: 1 }, Cursor { line: 2, index: 1 })
        .into_iter()
        .collect();
    assert_eq!(t, "bc\ndef\ng");
}
