//! Sets a session up with the capacities it is to have.
use vstd::prelude::*;
use crate::history::{can_hold, fits};
use crate::line::Line;
use crate::line_buffer::MAX_BYTES;
use crate::negotiation::NegotiationState;
use crate::output::ItemModel;
use crate::sync::{Editor, SessionState};

verus! {

/// The capacities of a session to be: the most bytes a line may have, and
/// the most entries the history may hold. Both stay as they are for as long
/// as the session lives.
#[derive(Clone, Copy, Debug, PartialEq, Eq, Structural)]
pub struct EditorBuilder {
    line_capacity: usize,
    history_capacity: usize,
}

impl EditorBuilder {
    pub closed spec fn spec_line_capacity(&self) -> usize {
        self.line_capacity
    }

    pub closed spec fn spec_history_capacity(&self) -> usize {
        self.history_capacity
    }

    /// The most bytes a line may have.
    #[verifier::when_used_as_spec(spec_line_capacity)]
    pub fn line_capacity(&self) -> (capacity: usize)
        ensures
            capacity == self.spec_line_capacity(),
    {
        self.line_capacity
    }

    /// The most entries the history may hold.
    #[verifier::when_used_as_spec(spec_history_capacity)]
    pub fn history_capacity(&self) -> (capacity: usize)
        ensures
            capacity == self.spec_history_capacity(),
    {
        self.history_capacity
    }

    /// A session with lines of up to `N` bytes, and no history.
    pub fn new_static<const N: usize>() -> (builder: EditorBuilder)
        ensures
            builder.line_capacity() == N,
            builder.history_capacity() == 0,
    {
        EditorBuilder { line_capacity: N, history_capacity: 0 }
    }

    /// The same session with a history of up to `N` entries.
    pub fn with_static_history<const N: usize>(self) -> (builder: EditorBuilder)
        ensures
            builder.line_capacity() == self.line_capacity(),
            builder.history_capacity() == N,
    {
        EditorBuilder { line_capacity: self.line_capacity, history_capacity: N }
    }

    /// Whether a session of these capacities can be had: the line, the
    /// table of the history's slots, and a region of as many bytes as all
    /// entries may have together, each fit in one piece of storage.
    pub open spec fn can_build(&self) -> bool {
        self.line_capacity() <= MAX_BYTES && fits(self.history_capacity(), self.line_capacity())
    }

    /// The session, with the probe for the display's size waiting to be
    /// sent; or `None` where a session of these capacities cannot be had.
    pub fn build_sync(self) -> (built: Option<Editor>)
        ensures
            match built {
                Some(editor) => {
                    &&& self.can_build()
                    &&& editor.wf()
                    &&& editor@.state == SessionState::Negotiating
                    &&& editor@.negotiation == NegotiationState::AwaitingResponse
                    &&& editor@.pending == seq![
                        ItemModel::Print(crate::negotiation::probe_bytes()),
                    ]
                    &&& editor@.line == Line::new_state(
                        self.line_capacity() as nat,
                        self.history_capacity() as nat,
                    )
                },
                None => !self.can_build(),
            },
    {
        if self.line_capacity <= MAX_BYTES && can_hold(self.history_capacity, self.line_capacity) {
            let mut editor = Editor::new(self.line_capacity, self.history_capacity);
            editor.initialize();
            Some(editor)
        } else {
            None
        }
    }
}

} // verus!
