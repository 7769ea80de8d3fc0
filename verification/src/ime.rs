//! The composition (IME) bridge: reconciles preedit and commit events from
//! the host input layer. Preedit text never touches the buffer — it is
//! transient display-only state — while committed text turns into ordinary
//! per-character insert edits, so the input filter and the character limit
//! apply to composed text exactly as to keystrokes.

use vstd::prelude::*;

use crate::actions::TextInputEdit;

verus! {

/// A composition event delivered by the host input layer.
pub enum ImeEvent {
    /// In-progress composition text and the caret position within it; may
    /// be re-delivered repeatedly while the user composes.
    Preedit(Vec<char>, Option<usize>),
    /// The finalized string; ends the composition.
    Commit(Vec<char>),
    /// A composition session begins.
    Enabled,
    /// The composition session ends without a commit.
    Disabled,
}

/// Transient composition display state, rendered inline at the cursor and
/// never written into the buffer.
pub struct CompositionState {
    pub active: bool,
    pub preedit: Vec<char>,
    pub caret: usize,
}

/// The mathematical value of the composition state.
#[verifier::ext_equal]
pub ghost struct CompositionModel {
    pub active: bool,
    pub preedit: Seq<char>,
    pub caret: int,
}

impl View for CompositionState {
    type V = CompositionModel;

    open spec fn view(&self) -> CompositionModel {
        CompositionModel { active: self.active, preedit: self.preedit@, caret: self.caret as int }
    }
}

/// The caret never leaves the preedit text.
pub open spec fn composition_wf(c: CompositionModel) -> bool {
    c.caret <= c.preedit.len()
}

/// One plain, non-overwriting insert of the given character.
pub open spec fn plain_insert(c: char) -> TextInputEdit {
    TextInputEdit::Insert(c, false)
}

/// The edits a committed text turns into: one plain insert per character.
pub open spec fn commit_edits(text: Seq<char>) -> Seq<TextInputEdit>
    decreases text.len(),
{
    if text.len() == 0 {
        Seq::empty()
    } else {
        commit_edits(text.drop_last()).push(plain_insert(text.last()))
    }
}

/// `commit_edits` names each character once, in order.
pub proof fn lemma_commit_edits(text: Seq<char>)
    ensures
        commit_edits(text).len() == text.len(),
        forall|i: int|
            0 <= i < text.len() ==> commit_edits(text)[i] == plain_insert(text[i]),
    decreases text.len(),
{
    if text.len() > 0 {
        lemma_commit_edits(text.drop_last());
    }
}

/// What one composition event does to the transient state, and which edits
/// it hands on. Only a commit produces edits: preedit text stays out of
/// the buffer.
pub open spec fn ime_applied(c: CompositionModel, ev: ImeEvent) -> (
    CompositionModel,
    Seq<TextInputEdit>,
) {
    match ev {
        ImeEvent::Preedit(text, caret) => {
            let want = match caret {
                Option::Some(k) => k as int,
                Option::None => text@.len() as int,
            };
            let clamped = if want <= text@.len() {
                want
            } else {
                text@.len() as int
            };
            (
                CompositionModel { active: c.active, preedit: text@, caret: clamped },
                Seq::empty(),
            )
        },
        ImeEvent::Commit(text) => (
            CompositionModel { active: c.active, preedit: Seq::empty(), caret: 0 },
            commit_edits(text@),
        ),
        ImeEvent::Enabled => (
            CompositionModel { active: true, preedit: Seq::empty(), caret: 0 },
            Seq::empty(),
        ),
        ImeEvent::Disabled => (
            CompositionModel { active: false, preedit: Seq::empty(), caret: 0 },
            Seq::empty(),
        ),
    }
}

impl CompositionState {
    /// No composition in progress.
    pub fn new() -> (r: CompositionState)
        ensures
            r@.active == false,
            r@.preedit =~= Seq::<char>::empty(),
            r@.caret == 0,
            composition_wf(r@),
    {
        CompositionState { active: false, preedit: Vec::new(), caret: 0 }
    }

    /// Feed one composition event through the bridge: the transient state
    /// is updated, and the edits to queue — one plain insert per committed
    /// character, nothing for a preedit — are returned.
    pub fn ime_event(&mut self, ev: ImeEvent) -> (edits: Vec<TextInputEdit>)
        requires
            composition_wf(old(self)@),
        ensures
            final(self)@ == ime_applied(old(self)@, ev).0,
            edits@ == ime_applied(old(self)@, ev).1,
            composition_wf(final(self)@),
    {
        match ev {
            ImeEvent::Preedit(text, caret) => {
                let len = text.len();
                let want = match caret {
                    Option::Some(k) => k,
                    Option::None => len,
                };
                self.caret = if want <= len {
                    want
                } else {
                    len
                };
                self.preedit = text;
                Vec::new()
            },
            ImeEvent::Commit(text) => {
                self.preedit = Vec::new();
                self.caret = 0;
                let ghost goal = commit_edits(text@);
                proof {
                    lemma_commit_edits(text@);
                }
                let n = text.len();
                let mut edits: Vec<TextInputEdit> = Vec::new();
                let mut i: usize = 0;
                while i < n
                    invariant
                        i <= n,
                        n == text@.len(),
                        goal == commit_edits(text@),
                        goal.len() == n,
                        edits@ =~= goal.take(i as int),
                    decreases n - i,
                {
                    edits.push(TextInputEdit::Insert(text[i], false));
                    proof {
                        lemma_commit_edits(text@);
                        assert(goal[i as int] == plain_insert(text@[i as int]));
                        assert(edits@ =~= goal.take(i + 1));
                    }
                    i = i + 1;
                }
                proof {
                    assert(goal.take(n as int) =~= goal);
                }
                edits
            },
            ImeEvent::Enabled => {
                self.active = true;
                self.preedit = Vec::new();
                self.caret = 0;
                Vec::new()
            },
            ImeEvent::Disabled => {
                self.active = false;
                self.preedit = Vec::new();
                self.caret = 0;
                Vec::new()
            },
        }
    }
}

} // verus!
