//! The per-widget action queue: a FIFO of pending actions, drained in full
//! once per update tick. A paste waits in place for its asynchronous
//! clipboard read without blocking the actions queued after it.

use vstd::prelude::*;

use crate::actions::ClipboardRead;
use crate::actions::TextInputAction;
use crate::edit::EditorModel;
use crate::edit::EditorState;
use crate::edit::TextInputFilter;
use crate::edit::apply_text_input_edit;
use crate::edit::edit_applied;
use crate::edit::model_wf;
use crate::edit::sel_bounds;
use crate::edit::selection_deleted;
use crate::layout::TextInputGlyph;
use crate::layout::TextInputLayoutInfo;
use crate::text::Cursor;
use crate::text::lemma_remove_span_flat;
use crate::text::span_text;
use crate::text::text_of;

verus! {

/// An outbound request handed to the host while the queue drains. The host
/// performs it fire-and-forget; only a clipboard read ever answers back,
/// through `TextInputQueue::resolve_paste`.
pub enum HostRequest {
    /// The widget submitted this text.
    Submitted(Vec<char>),
    /// Text to place on the external clipboard.
    ClipboardWrite(Vec<char>),
    /// Ask for the clipboard's text; the answer resolves the given handle.
    ClipboardReadRequest(ClipboardRead),
}

/// The mathematical value of an outbound request.
pub ghost enum HostRequestModel {
    Submitted(Seq<char>),
    ClipboardWrite(Seq<char>),
    ClipboardReadRequest(u64),
}

impl View for HostRequest {
    type V = HostRequestModel;

    open spec fn view(&self) -> HostRequestModel {
        match self {
            HostRequest::Submitted(t) => HostRequestModel::Submitted(t@),
            HostRequest::ClipboardWrite(t) => HostRequestModel::ClipboardWrite(t@),
            HostRequest::ClipboardReadRequest(h) => HostRequestModel::ClipboardReadRequest(h.id),
        }
    }
}

/// The requests of a drained queue, as mathematical values.
pub open spec fn requests_view(s: Seq<HostRequest>) -> Seq<HostRequestModel> {
    s.map_values(|r: HostRequest| r@)
}

/// The FIFO of actions pending on one widget, and the source of fresh
/// clipboard read handles.
pub struct TextInputQueue {
    pub actions: Vec<TextInputAction>,
    pub next_read_id: u64,
}

/// The state after a submitted buffer is cleared, where the widget is
/// configured to clear.
pub open spec fn clear_applied(m: EditorModel, clear: bool) -> EditorModel {
    if clear {
        EditorModel {
            lines: seq![Seq::<char>::empty()],
            cursor: Cursor { line: 0, index: 0 },
            selection: Option::None,
            scroll: m.scroll,
        }
    } else {
        m
    }
}

/// What one queued action does: the resulting state, what stays in the
/// queue in its place, the requests it emits, and the next fresh handle.
pub open spec fn drain_step(
    m: EditorModel,
    a: TextInputAction,
    next_id: u64,
    glyphs: Seq<TextInputGlyph>,
    line_height: int,
    max_chars: Option<usize>,
    filter: Option<TextInputFilter>,
    clear_on_submit: bool,
) -> (EditorModel, Seq<TextInputAction>, Seq<HostRequestModel>, u64) {
    match a {
        TextInputAction::Submit => (
            clear_applied(m, clear_on_submit),
            Seq::empty(),
            seq![HostRequestModel::Submitted(text_of(m.lines))],
            next_id,
        ),
        TextInputAction::Copy => match sel_bounds(m) {
            Option::Some(ab) => (
                m,
                Seq::empty(),
                seq![HostRequestModel::ClipboardWrite(span_text(m.lines, ab.0, ab.1))],
                next_id,
            ),
            Option::None => (m, Seq::empty(), Seq::empty(), next_id),
        },
        TextInputAction::Cut => match sel_bounds(m) {
            Option::Some(ab) => (
                selection_deleted(m, ab.0, ab.1),
                Seq::empty(),
                seq![HostRequestModel::ClipboardWrite(span_text(m.lines, ab.0, ab.1))],
                next_id,
            ),
            Option::None => (m, Seq::empty(), Seq::empty(), next_id),
        },
        TextInputAction::Paste => (
            m,
            seq![TextInputAction::PasteDeferred(ClipboardRead { id: next_id })],
            seq![HostRequestModel::ClipboardReadRequest(next_id)],
            if next_id == u64::MAX {
                0
            } else {
                (next_id + 1) as u64
            },
        ),
        TextInputAction::PasteDeferred(h) => (
            m,
            seq![TextInputAction::PasteDeferred(h)],
            Seq::empty(),
            next_id,
        ),
        TextInputAction::Edit(e) => (
            edit_applied(m, e, glyphs, line_height, max_chars, filter),
            Seq::empty(),
            Seq::empty(),
            next_id,
        ),
    }
}

/// What a full drain does, action by action in queue order: pending
/// deferred pastes stay, in order; everything else is applied and leaves.
pub open spec fn drain_model(
    m: EditorModel,
    actions: Seq<TextInputAction>,
    next_id: u64,
    glyphs: Seq<TextInputGlyph>,
    line_height: int,
    max_chars: Option<usize>,
    filter: Option<TextInputFilter>,
    clear_on_submit: bool,
) -> (EditorModel, Seq<TextInputAction>, Seq<HostRequestModel>, u64)
    decreases actions.len(),
{
    if actions.len() == 0 {
        (m, Seq::empty(), Seq::empty(), next_id)
    } else {
        let step = drain_step(
            m,
            actions[0],
            next_id,
            glyphs,
            line_height,
            max_chars,
            filter,
            clear_on_submit,
        );
        let rest = drain_model(
            step.0,
            actions.drop_first(),
            step.3,
            glyphs,
            line_height,
            max_chars,
            filter,
            clear_on_submit,
        );
        (rest.0, step.1 + rest.1, step.2 + rest.2, rest.3)
    }
}

/// Whether an action is a deferred paste waiting under the given handle.
pub open spec fn is_deferred_match(a: TextInputAction, id: u64) -> bool {
    match a {
        TextInputAction::PasteDeferred(h) => h.id == id,
        _ => false,
    }
}

/// The position of the first deferred paste waiting under the given
/// handle.
pub open spec fn first_deferred(actions: Seq<TextInputAction>, id: u64) -> Option<int>
    decreases actions.len(),
{
    if actions.len() == 0 {
        Option::None
    } else {
        let shifted = match first_deferred(actions.drop_first(), id) {
            Option::Some(i) => Option::Some(i + 1),
            Option::None => Option::<int>::None,
        };
        if is_deferred_match(actions[0], id) {
            Option::Some(0int)
        } else {
            shifted
        }
    }
}

/// When everything before position `k` misses and `k` matches, `k` is the
/// first match.
proof fn lemma_first_deferred_at(actions: Seq<TextInputAction>, id: u64, k: int)
    requires
        0 <= k < actions.len(),
        is_deferred_match(actions[k], id),
        forall|j: int| 0 <= j < k ==> !is_deferred_match(#[trigger] actions[j], id),
    ensures
        first_deferred(actions, id) == Option::Some(k),
    decreases k,
{
    if k > 0 {
        let rest = actions.drop_first();
        assert(rest[k - 1] == actions[k]);
        assert(forall|j: int|
            0 <= j < k - 1 ==> !is_deferred_match(#[trigger] rest[j], id));
        lemma_first_deferred_at(rest, id, k - 1);
    }
}

/// When nothing matches, there is no first match.
proof fn lemma_first_deferred_none(actions: Seq<TextInputAction>, id: u64)
    requires
        forall|j: int| 0 <= j < actions.len() ==> !is_deferred_match(#[trigger] actions[j], id),
    ensures
        first_deferred(actions, id) is None,
    decreases actions.len(),
{
    if actions.len() > 0 {
        let rest = actions.drop_first();
        assert(forall|j: int|
            0 <= j < rest.len() ==> !is_deferred_match(#[trigger] rest[j], id));
        lemma_first_deferred_none(rest, id);
    }
}

/// What a drain leaves in the queue is nothing but deferred pastes whose
/// reads are still pending: every other action is applied and removed.
pub proof fn lemma_drain_keeps_only_deferred(
    m: EditorModel,
    actions: Seq<TextInputAction>,
    next_id: u64,
    glyphs: Seq<TextInputGlyph>,
    line_height: int,
    max_chars: Option<usize>,
    filter: Option<TextInputFilter>,
    clear_on_submit: bool,
)
    ensures
        ({
            let kept = drain_model(
                m,
                actions,
                next_id,
                glyphs,
                line_height,
                max_chars,
                filter,
                clear_on_submit,
            ).1;
            forall|i: int|
                0 <= i < kept.len() ==> (#[trigger] kept[i]) matches
                    TextInputAction::PasteDeferred(_)
        }),
    decreases actions.len(),
{
    if actions.len() > 0 {
        let step = drain_step(
            m,
            actions[0],
            next_id,
            glyphs,
            line_height,
            max_chars,
            filter,
            clear_on_submit,
        );
        lemma_drain_keeps_only_deferred(
            step.0,
            actions.drop_first(),
            step.3,
            glyphs,
            line_height,
            max_chars,
            filter,
            clear_on_submit,
        );
    }
}

impl TextInputQueue {
    /// An empty queue.
    pub fn new() -> (r: TextInputQueue)
        ensures
            r.actions@ =~= Seq::<TextInputAction>::empty(),
            r.next_read_id == 0,
    {
        TextInputQueue { actions: Vec::new(), next_read_id: 0 }
    }

    /// Append one action at the back of the queue.
    pub fn push(&mut self, action: TextInputAction)
        ensures
            final(self).actions@ == old(self).actions@.push(action),
            final(self).next_read_id == old(self).next_read_id,
    {
        self.actions.push(action);
    }

    /// Hand a resolved clipboard read back to the queue: the first deferred
    /// paste waiting under the handle becomes an ordinary paste edit, in
    /// its place. Returns whether any entry was waiting; a late resolution
    /// for a handle no longer present is reported back and discarded.
    pub fn resolve_paste(&mut self, id: u64, text: Vec<char>) -> (r: bool)
        ensures
            final(self).next_read_id == old(self).next_read_id,
            (match first_deferred(old(self).actions@, id) {
                Option::Some(i) => r && final(self).actions@ == old(self).actions@.update(
                    i,
                    TextInputAction::Edit(crate::actions::TextInputEdit::Paste(text)),
                ),
                Option::None => !r && final(self).actions@ == old(self).actions@,
            }),
    {
        let n = self.actions.len();
        let mut i: usize = 0;
        while i < n
            invariant
                i <= n,
                n == self.actions@.len(),
                self.actions@ == old(self).actions@,
                self.next_read_id == old(self).next_read_id,
                forall|j: int|
                    0 <= j < i ==> !is_deferred_match(#[trigger] self.actions@[j], id),
            decreases n - i,
        {
            let hit = match &self.actions[i] {
                TextInputAction::PasteDeferred(h) => h.id == id,
                _ => false,
            };
            if hit {
                proof {
                    lemma_first_deferred_at(self.actions@, id, i as int);
                }
                self.actions[i] = TextInputAction::Edit(crate::actions::TextInputEdit::Paste(
                    text,
                ));
                return true;
            }
            i = i + 1;
        }
        proof {
            lemma_first_deferred_none(self.actions@, id);
        }
        false
    }

    /// Drain the queue in order against the widget's state: every ready
    /// action is applied and leaves the queue; deferred pastes whose reads
    /// are still pending stay, in their order, without blocking what was
    /// queued after them. Returns the requests for the host, in order.
    pub fn drain(
        &mut self,
        state: &mut EditorState,
        layout: &TextInputLayoutInfo,
        max_chars: Option<usize>,
        filter_mode: &Option<TextInputFilter>,
        clear_on_submit: bool,
    ) -> (reqs: Vec<HostRequest>)
        requires
            model_wf(old(state)@),
        ensures
            ({
                let dm = drain_model(
                    old(state)@,
                    old(self).actions@,
                    old(self).next_read_id,
                    layout.glyphs@,
                    layout.line_height as int,
                    max_chars,
                    *filter_mode,
                    clear_on_submit,
                );
                &&& final(state)@ == dm.0
                &&& final(self).actions@ == dm.1
                &&& requests_view(reqs@) == dm.2
                &&& final(self).next_read_id == dm.3
            }),
            model_wf(final(state)@),
    {
        let ghost acts0 = self.actions@;
        let ghost m0 = state@;
        let ghost id0 = self.next_read_id;
        let ghost full = drain_model(
            m0,
            acts0,
            id0,
            layout.glyphs@,
            layout.line_height as int,
            max_chars,
            *filter_mode,
            clear_on_submit,
        );
        let mut kept: Vec<TextInputAction> = Vec::new();
        let mut reqs: Vec<HostRequest> = Vec::new();
        while self.actions.len() > 0
            invariant
                model_wf(state@),
                full == ({
                    let rest = drain_model(
                        state@,
                        self.actions@,
                        self.next_read_id,
                        layout.glyphs@,
                        layout.line_height as int,
                        max_chars,
                        *filter_mode,
                        clear_on_submit,
                    );
                    (rest.0, kept@ + rest.1, requests_view(reqs@) + rest.2, rest.3)
                }),
            decreases self.actions@.len(),
        {
            let ghost pre_acts = self.actions@;
            let ghost pre_m = state@;
            let ghost pre_id = self.next_read_id;
            let ghost pre_kept = kept@;
            let ghost pre_reqs = reqs@;
            let a = self.actions.remove(0);
            proof {
                assert(pre_acts[0] == a);
                assert(self.actions@ =~= pre_acts.drop_first());
            }
            let ghost step = drain_step(
                pre_m,
                a,
                pre_id,
                layout.glyphs@,
                layout.line_height as int,
                max_chars,
                *filter_mode,
                clear_on_submit,
            );
            match a {
                TextInputAction::Submit => {
                    let text = state.buffer.text_chars();
                    reqs.push(HostRequest::Submitted(text));
                    if clear_on_submit {
                        state.buffer.clear();
                        state.cursor = Cursor { line: 0, index: 0 };
                        state.selection = Option::None;
                    }
                    proof {
                        assert(state@ =~~= step.0);
                    }
                },
                TextInputAction::Copy => {
                    match state.selection_bounds() {
                        Option::Some((a2, b2)) => {
                            let t = state.buffer.span_chars(a2, b2);
                            reqs.push(HostRequest::ClipboardWrite(t));
                        },
                        Option::None => {},
                    }
                    proof {
                        assert(state@ == step.0);
                    }
                },
                TextInputAction::Cut => {
                    match state.selection_bounds() {
                        Option::Some((a2, b2)) => {
                            let t = state.buffer.span_chars(a2, b2);
                            reqs.push(HostRequest::ClipboardWrite(t));
                            proof {
                                lemma_remove_span_flat(state.buffer@, a2, b2);
                            }
                            state.buffer.remove_span(a2, b2);
                            state.cursor = a2;
                            state.selection = Option::None;
                            proof {
                                assert(state@ =~~= step.0);
                            }
                        },
                        Option::None => {},
                    }
                },
                TextInputAction::Paste => {
                    let id = self.next_read_id;
                    self.next_read_id = if id == u64::MAX {
                        0
                    } else {
                        id + 1
                    };
                    kept.push(TextInputAction::PasteDeferred(ClipboardRead { id }));
                    reqs.push(HostRequest::ClipboardReadRequest(ClipboardRead { id }));
                },
                TextInputAction::PasteDeferred(h) => {
                    kept.push(TextInputAction::PasteDeferred(h));
                },
                TextInputAction::Edit(e) => {
                    apply_text_input_edit(e, state, layout, max_chars, filter_mode);
                },
            }
            proof {
                let rest = drain_model(
                    state@,
                    self.actions@,
                    self.next_read_id,
                    layout.glyphs@,
                    layout.line_height as int,
                    max_chars,
                    *filter_mode,
                    clear_on_submit,
                );
                assert(state@ == step.0);
                assert(self.next_read_id == step.3);
                assert(kept@ =~= pre_kept + step.1);
                assert(requests_view(reqs@) =~= requests_view(pre_reqs) + step.2);
                let prerest = drain_model(
                    pre_m,
                    pre_acts,
                    pre_id,
                    layout.glyphs@,
                    layout.line_height as int,
                    max_chars,
                    *filter_mode,
                    clear_on_submit,
                );
                assert(prerest == (rest.0, step.1 + rest.1, step.2 + rest.2, rest.3));
                assert(kept@ + rest.1 =~= full.1);
                assert(requests_view(reqs@) + rest.2 =~= full.2);
            }
        }
        proof {
            assert(self.actions@.len() == 0);
            assert(kept@ + Seq::<TextInputAction>::empty() =~= kept@);
            assert(requests_view(reqs@) + Seq::<HostRequestModel>::empty() =~= requests_view(
                reqs@,
            ));
        }
        self.actions = kept;
        reqs
    }
}

} // verus!
