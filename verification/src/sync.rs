//! A session, and how it takes turns with a transport that may not be ready.
use vstd::prelude::*;
use crate::error::EditorError;
use crate::history::{fits, get_history_entries, views_of, Entries};
use crate::line::{Line, LineState};
use crate::line_buffer::MAX_BYTES;
use crate::negotiation::{
    negotiation_result, negotiation_step, probe_bytes, Initializer, InitializerResult,
    NegotiationState,
};
use crate::output::{reset_items, ItemModel, Output, OutputItem};
use crate::terminal::Terminal;

verus! {

/// Reads bytes one by one, waiting for each.
pub trait Read {
    type Error;

    /// The next byte of input.
    fn read(&mut self) -> Result<u8, Self::Error>;
}

/// Writes bytes, waiting until they are taken.
pub trait Write {
    type Error;

    /// Writes all of `buf`, in order.
    fn write(&mut self, buf: &[u8]) -> Result<(), Self::Error>;

    /// Makes sure that nothing written is still held back.
    fn flush(&mut self) -> Result<(), Self::Error>;
}

/// `nb::Error`, the error of an operation that does not wait, declared as
/// the crate `nb` defines it: `Other` carries the operation's own error,
/// and `WouldBlock` says that the operation could not be done yet. Nothing
/// is claimed of it beyond that definition.
#[verifier::external_type_specification]
#[verifier::reject_recursive_types(E)]
pub struct ExNbError<E>(nb::Error<E>);

/// What the retry loop does with the result of one attempt.
#[derive(Debug, PartialEq, Eq)]
pub enum Turn<T, E> {
    /// The transport was not ready: give way once, then try the same again.
    Yield,
    /// The attempt succeeded and there is more of the same to do.
    Next,
    /// The operation is over.
    Finished(Result<T, E>),
}

/// What to do after one attempt at an operation that is done in one piece.
pub fn retry<T, E>(outcome: Result<T, nb::Error<E>>) -> (turn: Turn<T, E>)
    ensures
        turn == match outcome {
            Ok(value) => Turn::Finished(Ok(value)),
            Err(nb::Error::WouldBlock) => Turn::Yield,
            Err(nb::Error::Other(err)) => Turn::Finished(Err(err)),
        },
{
    match outcome {
        Ok(value) => Turn::Finished(Ok(value)),
        Err(nb::Error::WouldBlock) => Turn::Yield,
        Err(nb::Error::Other(err)) => Turn::Finished(Err(err)),
    }
}

/// How far a write of several bytes has come. The bytes go out one by one,
/// in order, each with its own retries.
pub struct Transfer {
    sent: usize,
}

impl View for Transfer {
    type V = nat;

    /// The number of bytes that were written.
    closed spec fn view(&self) -> nat {
        self.sent as nat
    }
}

impl Transfer {
    /// A write of which nothing has gone out yet.
    pub fn new() -> (transfer: Transfer)
        ensures
            transfer@ == 0,
    {
        Transfer { sent: 0 }
    }

    /// The number of bytes that were written.
    pub fn sent(&self) -> (sent: usize)
        ensures
            sent == self@,
    {
        self.sent
    }

    /// The byte to write next, or `None` where all of `buf` was written.
    pub fn next(&self, buf: &[u8]) -> (byte: Option<u8>)
        ensures
            byte == if self@ < buf@.len() {
                Some(buf@[self@ as int])
            } else {
                None
            },
    {
        if self.sent < buf.len() {
            Some(buf[self.sent])
        } else {
            None
        }
    }

    /// What to do after one attempt to write the byte that `next` gave.
    /// Only a success counts the byte as written; the last byte of `buf`
    /// written ends the write, and so does a failure of the transport.
    pub fn record<E>(&mut self, buf: &[u8], outcome: Result<(), nb::Error<E>>) -> (turn: Turn<
        (),
        E,
    >)
        requires
            old(self)@ < buf@.len(),
        ensures
            final(self)@ == if outcome is Ok {
                old(self)@ + 1
            } else {
                old(self)@
            },
            turn == match outcome {
                Ok(_) => if old(self)@ + 1 == buf@.len() {
                    Turn::Finished(Ok(()))
                } else {
                    Turn::Next
                },
                Err(nb::Error::WouldBlock) => Turn::Yield,
                Err(nb::Error::Other(err)) => Turn::Finished(Err(err)),
            },
    {
        let len: usize = buf.len();
        match outcome {
            Ok(_) => {
                self.sent = self.sent + 1;
                if self.sent == len {
                    Turn::Finished(Ok(()))
                } else {
                    Turn::Next
                }
            },
            Err(nb::Error::WouldBlock) => Turn::Yield,
            Err(nb::Error::Other(err)) => Turn::Finished(Err(err)),
        }
    }
}

/// Where a session stands.
#[derive(Clone, Copy, Debug, PartialEq, Eq, Structural)]
pub enum SessionState {
    /// Made, and nothing sent yet.
    Uninitialized,
    /// The probe is on its way, or the display's answer is being read.
    Negotiating,
    /// The size of the display is known; a line can be read.
    Ready,
    /// A line is being read.
    Editing,
    /// The last line was read to its end.
    Completed,
    /// The last line was given up by the user.
    Aborted,
    /// The transport failed, or the display's answer was malformed.
    Failed,
}

/// What a session asks of the one who drives it, mathematically.
pub enum RequestModel {
    /// Write these bytes, if there are any, then flush.
    Emit(Option<Seq<u8>>),
    /// Read one byte.
    Receive,
    /// Nothing: no call is under way.
    Idle,
}

/// What a session asks of the one who drives it.
#[derive(Debug, PartialEq, Eq)]
pub enum Request<'a> {
    /// Write these bytes, if there are any, then flush; then say how it
    /// went, with `after_emit`.
    Emit(Option<&'a [u8]>),
    /// Read one byte; then say how it went, with `after_receive`.
    Receive,
    /// Nothing: no call is under way.
    Idle,
}

impl<'a> View for Request<'a> {
    type V = RequestModel;

    open spec fn view(&self) -> RequestModel {
        match self {
            Request::Emit(Some(bytes)) => RequestModel::Emit(Some(bytes@)),
            Request::Emit(None) => RequestModel::Emit(None),
            Request::Receive => RequestModel::Receive,
            Request::Idle => RequestModel::Idle,
        }
    }
}

/// What a session is, mathematically.
#[verifier::ext_equal]
pub struct SessionModel {
    pub state: SessionState,
    pub negotiation: NegotiationState,
    pub line: LineState,
    /// What is still to be sent; the first item is the one on its way.
    pub pending: Seq<ItemModel>,
}

impl SessionModel {
    /// The size of the display, once it is known.
    pub open spec fn terminal(self) -> Option<Terminal> {
        match self.negotiation {
            NegotiationState::Done(terminal) => Some(terminal),
            _ => None,
        }
    }

    /// Whether a call is under way: the setting up, or the reading of a line.
    pub open spec fn is_active(self) -> bool {
        self.state == SessionState::Negotiating || self.state == SessionState::Editing
    }

    /// Whether a line can be read.
    pub open spec fn can_read(self) -> bool {
        self.state == SessionState::Ready
    }

    /// Whether the reading of a line is over, whichever way it ended. A
    /// session that failed before the display's size was known is over for good.
    pub open spec fn can_finish(self) -> bool {
        self.state == SessionState::Completed || self.state == SessionState::Aborted || (
        self.state == SessionState::Failed && self.terminal() is Some)
    }

    /// The line that was read, after a read that was completed.
    pub open spec fn finished(self) -> Option<Seq<u8>> {
        if self.state == SessionState::Completed {
            Some(self.line.line.content)
        } else {
            None
        }
    }

    /// The session is ready for the next line. The line stays as it is
    /// until that next read begins.
    pub open spec fn finish(self) -> SessionModel {
        SessionModel { state: SessionState::Ready, ..self }
    }

    /// What holds of every session: its parts are sound, the display's
    /// size is known exactly from the end of the setting up on, and
    /// something is pending only while a call is under way.
    pub open spec fn wf(self) -> bool {
        &&& self.line.wf()
        &&& crate::negotiation::negotiation_wf(self.negotiation)
        &&& (self.state == SessionState::Uninitialized ==> self.negotiation
            == NegotiationState::AwaitingResponse)
        &&& (self.state == SessionState::Negotiating ==> self.terminal() is None && (
        self.pending.len() == 0 || self.pending == seq![ItemModel::Print(probe_bytes())]))
        &&& (self.state == SessionState::Ready || self.state == SessionState::Editing || self.state
            == SessionState::Completed || self.state == SessionState::Aborted
            ==> self.terminal() is Some)
        &&& (!self.is_active() ==> self.pending.len() == 0)
    }

    /// While a call is under way: what is pending goes out first, item by
    /// item; with nothing pending, input is needed.
    pub open spec fn request(self) -> RequestModel {
        if !self.is_active() {
            RequestModel::Idle
        } else if self.pending.len() > 0 {
            RequestModel::Emit(self.pending[0].bytes())
        } else {
            RequestModel::Receive
        }
    }

    /// The setting up begins: the probe is to be sent.
    pub open spec fn initialize(self) -> SessionModel {
        SessionModel {
            state: SessionState::Negotiating,
            pending: seq![ItemModel::Print(probe_bytes())],
            ..self
        }
    }

    /// The reading of a line begins: the line is emptied, and the display is
    /// to be cleared and to show the prompt.
    pub open spec fn readline(self, prompt: Seq<u8>) -> SessionModel {
        SessionModel {
            state: SessionState::Editing,
            line: self.line.reset(prompt),
            pending: reset_items(prompt, self.terminal().unwrap().width as nat),
            ..self
        }
    }

    /// The item on its way was sent and flushed, or the transport failed.
    /// The item that marks the end of a line, or its giving up, ends the
    /// call, and nothing is sent after it. A failure ends the call too.
    pub open spec fn after_emit(self, sent: bool) -> SessionModel {
        if !sent {
            SessionModel { state: SessionState::Failed, pending: Seq::empty(), ..self }
        } else if self.pending[0] is EndOfString {
            SessionModel { state: SessionState::Completed, pending: Seq::empty(), ..self }
        } else if self.pending[0] is Abort {
            SessionModel { state: SessionState::Aborted, pending: Seq::empty(), ..self }
        } else {
            SessionModel { pending: self.pending.skip(1), ..self }
        }
    }

    /// Whether sending the item on its way ends the call, and how.
    pub open spec fn emit_verdict<RE, WE>(self, outcome: Result<(), WE>) -> Option<
        Result<(), EditorError<RE, WE>>,
    > {
        match outcome {
            Err(err) => Some(Err(EditorError::WriteError(err))),
            Ok(_) => if self.pending[0] is EndOfString {
                Some(Ok(()))
            } else if self.pending[0] is Abort {
                Some(Err(EditorError::Aborted))
            } else {
                None
            },
        }
    }

    /// A byte was read, or the transport failed. While the display's size is
    /// being negotiated the byte is part of its answer; while a line is read
    /// it is a key, or part of one, and what the display needs for it is
    /// sent before any more input is read.
    pub open spec fn after_receive(self, input: Option<u8>) -> SessionModel {
        match input {
            None => SessionModel { state: SessionState::Failed, ..self },
            Some(byte) => if self.state == SessionState::Negotiating {
                SessionModel {
                    state: match negotiation_result(self.negotiation, byte) {
                        InitializerResult::Continue => SessionState::Negotiating,
                        InitializerResult::Item(_) => SessionState::Ready,
                        InitializerResult::InvalidInput => SessionState::Failed,
                    },
                    negotiation: negotiation_step(self.negotiation, byte),
                    ..self
                }
            } else {
                SessionModel {
                    line: self.line.advance(byte),
                    pending: self.line.output(byte, self.terminal().unwrap().width as nat),
                    ..self
                }
            },
        }
    }

    /// Whether the byte read, or the failure to read, ends the call, and how.
    pub open spec fn receive_verdict<RE, WE>(self, outcome: Result<u8, RE>) -> Option<
        Result<(), EditorError<RE, WE>>,
    > {
        match outcome {
            Err(err) => Some(Err(EditorError::ReadError(err))),
            Ok(byte) => if self.state == SessionState::Negotiating {
                match negotiation_result(self.negotiation, byte) {
                    InitializerResult::Continue => None,
                    InitializerResult::Item(_) => Some(Ok(())),
                    InitializerResult::InvalidInput => Some(Err(EditorError::ParserError)),
                }
            } else {
                None
            },
        }
    }
}

/// What became of a run of input that a session was fed.
#[verifier::ext_equal]
pub struct FedModel<RE, WE> {
    /// The session as it stands afterwards.
    pub session: SessionModel,
    /// All the bytes that were to be sent, in order.
    pub sent: Seq<u8>,
    /// The number of bytes of the input that were read.
    pub consumed: nat,
    /// How the call ended, if it did.
    pub verdict: Option<Result<(), EditorError<RE, WE>>>,
}

impl SessionModel {
    /// The session on a transport that never fails and delivers `input`:
    /// what is pending is sent, then a byte of input is read, and so on,
    /// until the call is over or the input is used up while more is needed.
    #[verifier::opaque]
    pub open spec fn feed<RE, WE>(self, input: Seq<u8>) -> FedModel<RE, WE>
        decreases input.len(), self.pending.len(),
    {
        match self.request() {
            RequestModel::Idle => FedModel {
                session: self,
                sent: Seq::empty(),
                consumed: 0,
                verdict: None,
            },
            RequestModel::Emit(bytes) => {
                let now = match bytes {
                    Some(bytes) => bytes,
                    None => Seq::empty(),
                };
                let verdict = self.emit_verdict::<RE, WE>(Ok(()));
                let next = self.after_emit(true);
                if verdict is Some {
                    FedModel { session: next, sent: now, consumed: 0, verdict }
                } else {
                    let rest = next.feed::<RE, WE>(input);
                    FedModel { sent: now + rest.sent, ..rest }
                }
            },
            RequestModel::Receive => if input.len() == 0 {
                FedModel { session: self, sent: Seq::empty(), consumed: 0, verdict: None }
            } else {
                let verdict = self.receive_verdict::<RE, WE>(Ok(input[0]));
                let next = self.after_receive(Some(input[0]));
                if verdict is Some {
                    FedModel { session: next, sent: Seq::empty(), consumed: 1, verdict }
                } else {
                    let rest = next.feed::<RE, WE>(input.skip(1));
                    FedModel { consumed: rest.consumed + 1, ..rest }
                }
            },
        }
    }
}

/// The bytes of an item that is to be emitted, none where it has none.
pub open spec fn bytes_of(request: RequestModel) -> Seq<u8> {
    match request {
        RequestModel::Emit(Some(bytes)) => bytes,
        _ => Seq::empty(),
    }
}

/// With no call under way, or with input needed and none left, a session
/// that is fed stays as it is.
pub proof fn lemma_feed_stops<RE, WE>(session: SessionModel, input: Seq<u8>)
    requires
        session.request() is Idle || (session.request() is Receive && input.len() == 0),
    ensures
        session.feed::<RE, WE>(input) == (FedModel::<RE, WE> {
            session,
            sent: Seq::empty(),
            consumed: 0,
            verdict: None,
        }),
{
    reveal(SessionModel::feed);
}

/// A session that is fed while something is pending sends the first item
/// pending, and goes on unless that ends the call.
pub proof fn lemma_feed_emits<RE, WE>(session: SessionModel, input: Seq<u8>)
    requires
        session.request() is Emit,
    ensures
        session.emit_verdict::<RE, WE>(Ok(())) is Some ==> session.feed::<RE, WE>(input) == (
        FedModel::<RE, WE> {
            session: session.after_emit(true),
            sent: bytes_of(session.request()),
            consumed: 0,
            verdict: session.emit_verdict::<RE, WE>(Ok(())),
        }),
        session.emit_verdict::<RE, WE>(Ok(())) is None ==> session.feed::<RE, WE>(input) == (
        FedModel::<RE, WE> {
            sent: bytes_of(session.request()) + session.after_emit(true).feed::<RE, WE>(
                input,
            ).sent,
            ..session.after_emit(true).feed::<RE, WE>(input)
        }),
{
    reveal(SessionModel::feed);
}

/// A session that is fed while it needs input reads the first byte, and
/// goes on unless that ends the call.
pub proof fn lemma_feed_receives<RE, WE>(session: SessionModel, input: Seq<u8>)
    requires
        session.request() is Receive,
        input.len() > 0,
    ensures
        session.receive_verdict::<RE, WE>(Ok(input[0])) is Some ==> session.feed::<RE, WE>(input)
            == (FedModel::<RE, WE> {
            session: session.after_receive(Some(input[0])),
            sent: Seq::empty(),
            consumed: 1,
            verdict: session.receive_verdict::<RE, WE>(Ok(input[0])),
        }),
        session.receive_verdict::<RE, WE>(Ok(input[0])) is None ==> session.feed::<RE, WE>(input)
            == (FedModel::<RE, WE> {
            consumed: session.after_receive(Some(input[0])).feed::<RE, WE>(
                input.skip(1),
            ).consumed + 1,
            ..session.after_receive(Some(input[0])).feed::<RE, WE>(input.skip(1))
        }),
{
    reveal(SessionModel::feed);
}

/// The byte of a read that succeeded.
pub open spec fn byte_of<RE>(outcome: Result<u8, RE>) -> Option<u8> {
    match outcome {
        Ok(byte) => Some(byte),
        Err(_) => None,
    }
}

/// Adds `bytes` behind what `sent` holds.
fn append_bytes(sent: &mut Vec<u8>, bytes: &[u8])
    ensures
        final(sent)@ == old(sent)@ + bytes@,
{
    let mut i: usize = 0;
    assert(sent@ =~= old(sent)@ + bytes@.take(0));
    while i < bytes.len()
        invariant
            i <= bytes@.len(),
            sent@ == old(sent)@ + bytes@.take(i as int),
        decreases bytes@.len() - i,
    {
        sent.push(bytes[i]);
        i = i + 1;
        assert(sent@ =~= old(sent)@ + bytes@.take(i as int));
    }
    assert(bytes@.take(i as int) =~= bytes@);
}

/// A session with one display: first the display's size is negotiated,
/// then lines are read, one call after the other.
///
/// The session does no input or output of its own. Between two of its steps it says,
/// with `request`, what it needs done; the one who drives it does that, in
/// whatever way the transport asks for, and reports with `after_emit` or
/// `after_receive`, which say when the call is over.
pub struct Editor {
    state: SessionState,
    initializer: Initializer,
    line: Line,
    output: Output,
    /// The number of items of `output` that were sent.
    done: usize,
}

impl View for Editor {
    type V = SessionModel;

    closed spec fn view(&self) -> SessionModel {
        SessionModel {
            state: self.state,
            negotiation: self.initializer@,
            line: self.line@,
            pending: self.output@.skip(self.done as int),
        }
    }
}

impl Editor {
    /// The invariant of the type.
    pub closed spec fn wf(&self) -> bool {
        &&& self.line.wf()
        &&& self.initializer.wf()
        &&& self.done <= self.output@.len()
        &&& self@.wf()
    }

    /// `wf` of the type gives `wf` of the view.
    pub proof fn lemma_view_wf(&self)
        requires
            self.wf(),
        ensures
            self@.wf(),
    {
    }

    /// A session that has not begun, for lines of up to `line_capacity`
    /// bytes and a history of `history_capacity` entries.
    pub fn new(line_capacity: usize, history_capacity: usize) -> (editor: Editor)
        requires
            line_capacity <= MAX_BYTES,
            fits(history_capacity, line_capacity),
        ensures
            editor.wf(),
            editor@.state == SessionState::Uninitialized,
            editor@.negotiation == NegotiationState::AwaitingResponse,
            editor@.pending == Seq::<ItemModel>::empty(),
            editor@.line == Line::new_state(line_capacity as nat, history_capacity as nat),
    {
        let editor = Editor {
            state: SessionState::Uninitialized,
            initializer: Initializer::new(),
            line: Line::new(line_capacity, history_capacity),
            output: Output::empty(),
            done: 0,
        };
        assert(editor@.pending =~= Seq::<ItemModel>::empty());
        editor
    }

    pub fn state(&self) -> (state: SessionState)
        ensures
            state == self@.state,
    {
        self.state
    }

    /// The size of the display, once it is known.
    pub fn terminal(&self) -> (terminal: Option<Terminal>)
        ensures
            terminal == self@.terminal(),
    {
        match self.initializer.state() {
            NegotiationState::Done(terminal) => Some(terminal),
            _ => None,
        }
    }

    /// Whether a line can be read.
    pub fn can_read(&self) -> (ready: bool)
        ensures
            ready == self@.can_read(),
    {
        self.state == SessionState::Ready
    }

    /// Whether the reading of a line is over, whichever way it ended.
    pub fn can_finish(&self) -> (over: bool)
        ensures
            over == self@.can_finish(),
    {
        self.state == SessionState::Completed || self.state == SessionState::Aborted || (self.state
            == SessionState::Failed && self.terminal().is_some())
    }

    /// The line that was read, after a read that was completed; `None`
    /// in every other state.
    pub fn finished(&self) -> (line: Option<&[u8]>)
        ensures
            match line {
                Some(bytes) => self@.finished() == Some(bytes@),
                None => self@.finished().is_none(),
            },
    {
        if self.state == SessionState::Completed {
            Some(self.line.as_slice())
        } else {
            None
        }
    }

    /// Makes the session ready for the next line, once the reading of a
    /// line is over.
    pub fn finish(&mut self)
        requires
            old(self).wf(),
            old(self)@.can_finish(),
        ensures
            final(self).wf(),
            final(self)@ == old(self)@.finish(),
    {
        self.state = SessionState::Ready;
        assert(self@.pending =~= old(self)@.pending);
    }

    /// The line as it stands: after a read that was completed, the line that was read.
    pub fn line(&self) -> (bytes: &[u8])
        ensures
            bytes@ == self@.line.line.content,
    {
        self.line.as_slice()
    }

    /// The most bytes a line may have.
    pub fn line_capacity(&self) -> (capacity: usize)
        ensures
            capacity == self@.line.line.capacity,
    {
        self.line.capacity()
    }

    /// Adds lines to the history while it has free slots; says how many were added.
    pub fn load_history(&mut self, entries: &[&[u8]]) -> (accepted: usize)
        requires
            old(self).wf(),
        ensures
            final(self).wf(),
            final(self)@ == (SessionModel {
                line: LineState {
                    history: old(self)@.line.history.load(views_of(entries@)),
                    ..old(self)@.line
                },
                ..old(self)@
            }),
            accepted == old(self)@.line.history.accepted(entries@.len()),
    {
        let accepted = self.line.load_history(entries);
        proof {
            self.line.lemma_view_wf();
        }
        accepted
    }

    /// A walk through the entries of the history, oldest first, each seen in place.
    pub fn get_history(&self) -> (entries: Entries<'_>)
        requires
            self.wf(),
        ensures
            entries.history().wf(),
            entries.position() == 0,
            entries.remaining() == self@.line.history.entries,
    {
        get_history_entries(self.line.history())
    }

    /// Begins the setting up: the probe is to be sent.
    pub fn initialize(&mut self)
        requires
            old(self).wf(),
            old(self)@.state == SessionState::Uninitialized,
        ensures
            final(self).wf(),
            final(self)@ == old(self)@.initialize(),
    {
        self.output = Output::single(OutputItem::Print(Initializer::init()));
        self.done = 0;
        self.state = SessionState::Negotiating;
        assert(self@.pending =~= seq![ItemModel::Print(probe_bytes())]);
    }

    /// Begins the reading of a line behind `prompt`.
    pub fn readline(&mut self, prompt: &[u8])
        requires
            old(self).wf(),
            old(self)@.can_read(),
            prompt@.len() + old(self)@.line.line.capacity <= usize::MAX,
        ensures
            final(self).wf(),
            final(self)@ == old(self)@.readline(prompt@),
    {
        match self.initializer.state() {
            NegotiationState::Done(terminal) => {
                self.output = self.line.reset(prompt, &terminal);
                self.done = 0;
                self.state = SessionState::Editing;
                proof {
                    self.line.lemma_view_wf();
                    assert(self@.pending =~= reset_items(prompt@, terminal.width as nat));
                }
            },
            _ => {},
        }
    }

    /// What the session needs done next.
    pub fn request(&self) -> (request: Request<'_>)
        requires
            self.wf(),
        ensures
            request@ == self@.request(),
    {
        if self.state != SessionState::Negotiating && self.state != SessionState::Editing {
            Request::Idle
        } else if self.done < self.output.len() {
            Request::Emit(self.output.get(self.done).get_bytes())
        } else {
            Request::Receive
        }
    }

    /// Takes the outcome of writing and flushing the item that `request`
    /// asked to emit. Says whether the call is over, and how it ended.
    pub fn after_emit<RE, WE>(&mut self, outcome: Result<(), WE>) -> (verdict: Option<
        Result<(), EditorError<RE, WE>>,
    >)
        requires
            old(self).wf(),
            old(self)@.request() is Emit,
        ensures
            final(self).wf(),
            final(self)@ == old(self)@.after_emit(outcome is Ok),
            verdict == old(self)@.emit_verdict::<RE, WE>(outcome),
    {
        let total: usize = self.output.len();
        match outcome {
            Err(err) => {
                self.state = SessionState::Failed;
                self.done = total;
                assert(self@.pending =~= Seq::<ItemModel>::empty());
                Some(Err(EditorError::WriteError(err)))
            },
            Ok(_) => {
                match self.output.get(self.done) {
                    OutputItem::EndOfString => {
                        self.state = SessionState::Completed;
                        self.done = total;
                        assert(self@.pending =~= Seq::<ItemModel>::empty());
                        Some(Ok(()))
                    },
                    OutputItem::Abort => {
                        self.state = SessionState::Aborted;
                        self.done = total;
                        assert(self@.pending =~= Seq::<ItemModel>::empty());
                        Some(Err(EditorError::Aborted))
                    },
                    _ => {
                        self.done = self.done + 1;
                        assert(self@.pending =~= old(self)@.pending.skip(1));
                        None
                    },
                }
            },
        }
    }

    /// Does what `request` asks for once, on a transport that waits, and
    /// takes the outcome. Says whether the call is over, and how it ended.
    /// What the transport does is not known here: the session ends up as
    /// `after_emit` or `after_receive` leave it for some outcome.
    pub fn turn<R: Read, W: Write>(&mut self, reader: &mut R, writer: &mut W) -> (verdict: Option<
        Result<(), EditorError<R::Error, W::Error>>,
    >)
        requires
            old(self).wf(),
        ensures
            final(self).wf(),
            match old(self)@.request() {
                RequestModel::Emit(_) => exists|outcome: Result<(), W::Error>|
                    final(self)@ == old(self)@.after_emit(outcome is Ok) && verdict == old(
                        self,
                    )@.emit_verdict::<R::Error, W::Error>(outcome),
                RequestModel::Receive => exists|outcome: Result<u8, R::Error>|
                    final(self)@ == old(self)@.after_receive(byte_of(outcome)) && verdict == old(
                        self,
                    )@.receive_verdict::<R::Error, W::Error>(outcome),
                RequestModel::Idle => final(self)@ == old(self)@ && verdict.is_none(),
            },
    {
        match self.request() {
            Request::Emit(bytes) => {
                let outcome: Result<(), W::Error> = match bytes {
                    Some(buf) => match writer.write(buf) {
                        Ok(_) => writer.flush(),
                        Err(err) => Err(err),
                    },
                    None => writer.flush(),
                };
                self.after_emit(outcome)
            },
            Request::Receive => {
                let outcome: Result<u8, R::Error> = reader.read();
                self.after_receive(outcome)
            },
            Request::Idle => None,
        }
    }

    /// Runs the session on a transport that never fails and delivers
    /// `input`: what the session asks to be sent is added to `sent`, what
    /// it asks to be read is taken from `input`. Stops when the call is
    /// over, or when input is needed and none is left. Says how many bytes
    /// of `input` were read, and how the call ended, if it did.
    pub fn feed<RE, WE>(&mut self, input: &[u8], sent: &mut Vec<u8>) -> (outcome: (
        usize,
        Option<Result<(), EditorError<RE, WE>>>,
    ))
        requires
            old(self).wf(),
        ensures
            final(self).wf(),
            final(self)@ == old(self)@.feed::<RE, WE>(input@).session,
            final(sent)@ == old(sent)@ + old(self)@.feed::<RE, WE>(input@).sent,
            outcome.0 == old(self)@.feed::<RE, WE>(input@).consumed,
            outcome.1 == old(self)@.feed::<RE, WE>(input@).verdict,
            outcome.0 <= input@.len(),
    {
        let ghost goal = old(self)@.feed::<RE, WE>(input@);
        let ghost before = old(sent)@;
        let ghost mut acc: Seq<u8> = Seq::empty();
        let mut consumed: usize = 0;
        let mut verdict: Option<Result<(), EditorError<RE, WE>>> = None;
        proof {
            assert(input@.skip(0) =~= input@);
            assert(sent@ =~= before + acc);
            assert(acc + goal.sent =~= goal.sent);
        }
        loop
            invariant_except_break
                verdict.is_none(),
                goal.session == self@.feed::<RE, WE>(input@.skip(consumed as int)).session,
                goal.sent == acc + self@.feed::<RE, WE>(input@.skip(consumed as int)).sent,
                goal.consumed == consumed + self@.feed::<RE, WE>(
                    input@.skip(consumed as int),
                ).consumed,
                goal.verdict == self@.feed::<RE, WE>(input@.skip(consumed as int)).verdict,
            invariant
                self.wf(),
                consumed <= input@.len(),
                sent@ == before + acc,
            ensures
                goal.session == self@,
                goal.sent == acc,
                goal.consumed == consumed,
                goal.verdict == verdict,
            decreases input@.len() - consumed, self@.pending.len(),
        {
            let ghost here = self@;
            let ghost left = input@.skip(consumed as int);
            match self.request() {
                Request::Idle => {
                    proof {
                        lemma_feed_stops::<RE, WE>(here, left);
                        assert(acc + Seq::<u8>::empty() =~= acc);
                    }
                    break ;
                },
                Request::Emit(bytes) => {
                    let ghost now = bytes_of(here.request());
                    match bytes {
                        Some(bytes) => {
                            append_bytes(sent, bytes);
                        },
                        None => {
                            assert(sent@ =~= sent@ + now);
                        },
                    }
                    let ended = self.after_emit(Ok(()));
                    proof {
                        lemma_feed_emits::<RE, WE>(here, left);
                        assert(before + acc + now =~= before + (acc + now));
                        if ended.is_none() {
                            let rest = self@.feed::<RE, WE>(left);
                            assert(acc + (now + rest.sent) =~= (acc + now) + rest.sent);
                        }
                        acc = acc + now;
                    }
                    if ended.is_some() {
                        verdict = ended;
                        break ;
                    }
                },
                Request::Receive => {
                    if consumed < input.len() {
                        let byte: u8 = input[consumed];
                        let ended = self.after_receive(Ok(byte));
                        consumed = consumed + 1;
                        proof {
                            assert(left[0] == byte);
                            assert(left.skip(1) =~= input@.skip(consumed as int));
                            lemma_feed_receives::<RE, WE>(here, left);
                            assert(acc + Seq::<u8>::empty() =~= acc);
                        }
                        if ended.is_some() {
                            verdict = ended;
                            break ;
                        }
                    } else {
                        proof {
                            assert(left.len() == 0);
                            lemma_feed_stops::<RE, WE>(here, left);
                            assert(acc + Seq::<u8>::empty() =~= acc);
                        }
                        break ;
                    }
                },
            }
        }
        (consumed, verdict)
    }

    /// Takes the outcome of reading the byte that `request` asked for.
    /// Says whether the call is over, and how it ended.
    pub fn after_receive<RE, WE>(&mut self, outcome: Result<u8, RE>) -> (verdict: Option<
        Result<(), EditorError<RE, WE>>,
    >)
        requires
            old(self).wf(),
            old(self)@.request() is Receive,
        ensures
            final(self).wf(),
            final(self)@ == old(self)@.after_receive(byte_of(outcome)),
            verdict == old(self)@.receive_verdict::<RE, WE>(outcome),
    {
        match outcome {
            Err(err) => {
                self.state = SessionState::Failed;
                assert(self@.pending =~= old(self)@.pending);
                Some(Err(EditorError::ReadError(err)))
            },
            Ok(byte) => {
                if self.state == SessionState::Negotiating {
                    let result = self.initializer.advance(byte);
                    assert(self@.pending =~= old(self)@.pending);
                    match result {
                        InitializerResult::Continue => None,
                        InitializerResult::Item(_) => {
                            self.state = SessionState::Ready;
                            Some(Ok(()))
                        },
                        InitializerResult::InvalidInput => {
                            self.state = SessionState::Failed;
                            Some(Err(EditorError::ParserError))
                        },
                    }
                } else {
                    match self.initializer.state() {
                        NegotiationState::Done(terminal) => {
                            self.output = self.line.advance(byte, &terminal);
                            self.done = 0;
                            proof {
                                self.line.lemma_view_wf();
                                assert(self@.pending =~= old(self)@.line.output(
                                    byte,
                                    terminal.width as nat,
                                ));
                            }
                        },
                        _ => {},
                    }
                    None
                }
            },
        }
    }
}

} // verus!
