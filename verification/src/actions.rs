//! The closed set of user intents that a text-input widget understands: the
//! wire contract between the host's input capture and the edit engine. No
//! other mutation path into a widget's buffer exists.

use vstd::prelude::*;

verus! {

/// A directional or structural cursor motion unit.
///
/// The model works on logical lines: `Up` and `Down` move by buffer line
/// with the offset clamped to the target line's length, and `Left`/`Right`
/// move to the previous/next character boundary.
#[derive(Clone, Copy, Debug, PartialEq, Eq, Structural)]
pub enum Motion {
    /// One character boundary back, joining onto the previous line's end.
    Left,
    /// One character boundary forward, joining onto the next line's start.
    Right,
    /// One line up, offset clamped.
    Up,
    /// One line down, offset clamped.
    Down,
    /// Start of the current line.
    Home,
    /// End of the current line.
    End,
    /// Start of the word at or before the cursor.
    WordLeft,
    /// End of the word at or after the cursor.
    WordRight,
    /// Start of the buffer.
    BufferStart,
    /// End of the buffer.
    BufferEnd,
}

/// A handle to an in-flight asynchronous clipboard read. The host resolves
/// the read out of band and hands the text back under the same handle.
#[derive(Clone, Copy, Debug, PartialEq, Eq, Structural)]
pub struct ClipboardRead {
    pub id: u64,
}

/// An edit to perform on a widget's buffer, cursor and selection state.
#[derive(Clone, Debug)]
pub enum TextInputEdit {
    /// Move the cursor with some motion; `true` extends the selection.
    Motion(Motion, bool),
    /// Clear the selection, leaving buffer and cursor untouched.
    Escape,
    /// Insert a character at the cursor; `true` selects overwrite mode.
    Insert(char, bool),
    /// Create a new line at the cursor.
    Enter,
    /// Delete text behind the cursor, or the selection if one is active.
    Backspace,
    /// Delete text in front of the cursor, or the selection if one is active.
    Delete,
    /// Indent the line(s) touched by the cursor or selection.
    Indent,
    /// Unindent the line(s) touched by the cursor or selection.
    Unindent,
    /// Mouse click at the given content-space position.
    Click { x: i32, y: i32 },
    /// Mouse double click: select the word at the resolved position.
    DoubleClick { x: i32, y: i32 },
    /// Mouse triple click: select the whole line at the resolved position.
    TripleClick { x: i32, y: i32 },
    /// Mouse drag: extend the selection to the resolved position.
    Drag { x: i32, y: i32 },
    /// Scroll the view by the given number of lines.
    Scroll { lines: i32 },
    /// Insert the given text at the cursor, all or nothing against the
    /// configured maximum length.
    Paste(Vec<char>),
    /// History stepping; the engine keeps no history, so this is a no-op.
    Undo,
    /// History stepping; the engine keeps no history, so this is a no-op.
    Redo,
    /// Select the whole buffer.
    SelectAll,
}

/// An action pending on a widget's queue.
#[derive(Clone, Debug)]
pub enum TextInputAction {
    /// Emit the buffer text to the host.
    Submit,
    /// Send the currently selected text to the clipboard.
    Copy,
    /// Send the currently selected text to the clipboard, then delete it.
    Cut,
    /// Request the clipboard's text; queues a deferred paste.
    Paste,
    /// A paste waiting for its clipboard read to resolve.
    PasteDeferred(ClipboardRead),
    /// A single edit.
    Edit(TextInputEdit),
}

} // verus!
