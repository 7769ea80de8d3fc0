use text_input_core::actions::ClipboardRead;
use text_input_core::actions::TextInputAction;
use text_input_core::actions::TextInputEdit;
use text_input_core::edit::EditorState;
use text_input_core::ime::CompositionState;
use text_input_core::ime::ImeEvent;
use text_input_core::layout::TextInputLayoutInfo;
use text_input_core::queue::HostRequest;
use text_input_core::queue::TextInputQueue;
use text_input_core::text::Cursor;
use text_input_core::text::TextBuffer;

fn buffer_of(lines: &[&str]) -> TextBuffer {
    TextBuffer { lines: lines.iter().map(|l| l.chars().collect()).collect() }
}

fn state_of(lines: &[&str], cursor: (usize, usize)) -> EditorState {
    EditorState {
        buffer: buffer_of(lines),
        cursor: Cursor { line: cursor.0, index: cursor.1 },
        selection: None,
        scroll_lines: 0,
    }
}

fn no_layout() -> TextInputLayoutInfo {
    TextInputLayoutInfo { glyphs: Vec::new(), line_height: 16 }
}

fn text_string(state: &EditorState) -> String {
    state.buffer.text_chars().into_iter().collect()
}

fn string_of(v: &Vec<char>) -> String {
    v.iter().collect()
}

#[test]
fn drain_applies_edits_in_order() {
    let mut queue = TextInputQueue::new();
    let mut state = state_of(&[""], (0, 0));
    queue.push(TextInputAction::Edit(TextInputEdit::Insert('a', false)));
    queue.push(TextInputAction::Edit(TextInputEdit::Insert('b', false)));
    let reqs = queue.drain(&mut state, &no_layout(), None, &None, false);
    assert_eq!(text_string(&state), "ab");
    assert!(reqs.is_empty());
    assert!(queue.actions.is_empty());
}

#[test]
fn paste_defers_without_blocking_later_actions() {
    let mut queue = TextInputQueue::new();
    let mut state = state_of(&[""], (0, 0));
    queue.push(TextInputAction::Edit(TextInputEdit::Insert('a', false)));
    queue.push(TextInputAction::Paste);
    queue.push(TextInputAction::Edit(TextInputEdit::Insert('b', false)));
    let reqs = queue.drain(&mut state, &no_layout(), None, &None, false);

    // The edit after the paste is not blocked behind it.
    assert_eq!(text_string(&state), "ab");
    assert_eq!(reqs.len(), 1);
    match &reqs[0] {
        HostRequest::ClipboardReadRequest(h) => assert_eq!(h.id, 0),
        _ => panic!("expected a clipboard read request"),
    }
    // The marker waits in the queue, in its place.
    assert_eq!(queue.actions.len(), 1);
    match &queue.actions[0] {
        TextInputAction::PasteDeferred(h) => assert_eq!(h.id, 0),
        _ => panic!("expected a deferred paste"),
    }

    // While the read is pending, draining skips the marker but applies
    // everything queued after it.
    queue.push(TextInputAction::Edit(TextInputEdit::Insert('c', false)));
    let reqs = queue.drain(&mut state, &no_layout(), None, &None, false);
    assert!(reqs.is_empty());
    assert_eq!(text_string(&state), "abc");
    assert_eq!(queue.actions.len(), 1);

    // Once resolved, the marker becomes an ordinary paste edit and is
    // applied on the next drain.
    assert!(queue.resolve_paste(0, "XY".chars().collect()));
    let reqs = queue.drain(&mut state, &no_layout(), None, &None, false);
    assert!(reqs.is_empty());
    assert_eq!(text_string(&state), "abcXY");
    assert!(queue.actions.is_empty());
}

#[test]
fn late_resolution_for_a_dead_handle_is_discarded() {
    let mut queue = TextInputQueue::new();
    assert!(!queue.resolve_paste(3, "XY".chars().collect()));
    assert!(queue.actions.is_empty());
}

#[test]
fn fresh_handles_count_up() {
    let mut queue = TextInputQueue::new();
    let mut state = state_of(&[""], (0, 0));
    queue.push(TextInputAction::Paste);
    queue.push(TextInputAction::Paste);
    let reqs = queue.drain(&mut state, &no_layout(), None, &None, false);
    assert_eq!(reqs.len(), 2);
    match (&reqs[0], &reqs[1]) {
        (HostRequest::ClipboardReadRequest(a), HostRequest::ClipboardReadRequest(b)) => {
            assert_eq!(a.id, 0);
            assert_eq!(b.id, 1);
        },
        _ => panic!("expected two clipboard read requests"),
    }
    assert_eq!(queue.next_read_id, 2);
}

#[test]
fn submit_reports_the_text_and_optionally_clears() {
    let mut queue = TextInputQueue::new();
    let mut state = state_of(&["hi"], (0, 2));
    queue.push(TextInputAction::Submit);
    let reqs = queue.drain(&mut state, &no_layout(), None, &None, false);
    assert_eq!(reqs.len(), 1);
    match &reqs[0] {
        HostRequest::Submitted(t) => assert_eq!(string_of(t), "hi"),
        _ => panic!("expected a submission"),
    }
    assert_eq!(text_string(&state), "hi");

    queue.push(TextInputAction::Submit);
    let reqs = queue.drain(&mut state, &no_layout(), None, &None, true);
    assert_eq!(reqs.len(), 1);
    assert_eq!(text_string(&state), "");
    assert_eq!(state.cursor, Cursor { line: 0, index: 0 });
}

#[test]
fn copy_requests_the_selection_and_keeps_it() {
    let mut queue = TextInputQueue::new();
    let mut state = state_of(&["abc", "de"], (1, 1));
    state.selection = Some(Cursor { line: 0, index: 1 });
    queue.push(TextInputAction::Copy);
    let reqs = queue.drain(&mut state, &no_layout(), None, &None, false);
    assert_eq!(reqs.len(), 1);
    match &reqs[0] {
        HostRequest::ClipboardWrite(t) => assert_eq!(string_of(t), "bc\nd"),
        _ => panic!("expected a clipboard write"),
    }
    assert_eq!(text_string(&state), "abc\nde");
    assert_eq!(state.selection, Some(Cursor { line: 0, index: 1 }));
}

#[test]
fn copy_without_selection_requests_nothing() {
    let mut queue = TextInputQueue::new();
    let mut state = state_of(&["abc"], (0, 1));
    queue.push(TextInputAction::Copy);
    let reqs = queue.drain(&mut state, &no_layout(), None, &None, false);
    assert!(reqs.is_empty());
}

#[test]
fn cut_requests_the_selection_then_deletes_it() {
    let mut queue = TextInputQueue::new();
    let mut state = state_of(&["abc"], (0, 3));
    state.selection = Some(Cursor { line: 0, index: 0 });
    queue.push(TextInputAction::Cut);
    let reqs = queue.drain(&mut state, &no_layout(), None, &None, false);
    assert_eq!(reqs.len(), 1);
    match &reqs[0] {
        HostRequest::ClipboardWrite(t) => assert_eq!(string_of(t), "abc"),
        _ => panic!("expected a clipboard write"),
    }
    assert_eq!(text_string(&state), "");
    assert_eq!(state.cursor, Cursor { line: 0, index: 0 });
    assert_eq!(state.selection, None);
}

#[test]
fn resolve_matches_the_first_waiting_handle_only() {
    let mut queue = TextInputQueue::new();
    queue.push(TextInputAction::PasteDeferred(ClipboardRead { id: 4 }));
    queue.push(TextInputAction::PasteDeferred(ClipboardRead { id: 5 }));
    assert!(queue.resolve_paste(5, "z".chars().collect()));
    match &queue.actions[0] {
        TextInputAction::PasteDeferred(h) => assert_eq!(h.id, 4),
        _ => panic!("expected the other handle to stay"),
    }
    match &queue.actions[1] {
        TextInputAction::Edit(TextInputEdit::Paste(t)) => assert_eq!(string_of(t), "z"),
        _ => panic!("expected the resolved paste"),
    }
}

#[test]
fn commit_turns_into_plain_inserts() {
    let mut comp = CompositionState::new();
    let edits = comp.ime_event(ImeEvent::Commit("hi".chars().collect()));
    assert_eq!(edits.len(), 2);
    match (&edits[0], &edits[1]) {
        (TextInputEdit::Insert(a, ao), TextInputEdit::Insert(b, bo)) => {
            assert_eq!((*a, *ao), ('h', false));
            assert_eq!((*b, *bo), ('i', false));
        },
        _ => panic!("expected two plain inserts"),
    }
    assert!(comp.preedit.is_empty());
}

#[test]
fn committed_text_honors_filter_and_limit_like_keystrokes() {
    let mut comp = CompositionState::new();
    let edits = comp.ime_event(ImeEvent::Commit("abcd".chars().collect()));
    let mut queue = TextInputQueue::new();
    for e in edits {
        queue.push(TextInputAction::Edit(e));
    }
    let mut state = state_of(&[""], (0, 0));
    queue.drain(&mut state, &no_layout(), Some(2), &None, false);
    assert_eq!(text_string(&state), "ab");
}

#[test]
fn preedit_is_display_state_only() {
    let mut comp = CompositionState::new();
    comp.ime_event(ImeEvent::Enabled);
    assert!(comp.active);
    let edits = comp.ime_event(ImeEvent::Preedit("ni".chars().collect(), Some(1)));
    assert!(edits.is_empty());
    assert_eq!(string_of(&comp.preedit), "ni");
    assert_eq!(comp.caret, 1);

    // A caret beyond the preedit clamps to its end.
    let edits = comp.ime_event(ImeEvent::Preedit("nih".chars().collect(), Some(9)));
    assert!(edits.is_empty());
    assert_eq!(comp.caret, 3);

    let edits = comp.ime_event(ImeEvent::Disabled);
    assert!(edits.is_empty());
    assert!(!comp.active);
    assert!(comp.preedit.is_empty());
}
