//! What whole calls come to, on a transport that does not fail: the
//! display's report sets a session up, and a line that is typed and
//! entered is the line that is read.
use vstd::prelude::*;
use crate::error::EditorError;
use crate::input::{is_printable, DecoderState};
use crate::laws::{
    field_read, first_final, lemma_negotiation_run_concat, lemma_negotiation_run_one,
    lemma_number_is_read, lemma_redraw_items_none_final, none_final,
};
use crate::line::LineState;
use crate::line_buffer::LineModel;
use crate::negotiation::{
    negotiation_continues, negotiation_run, negotiation_step, probe_bytes, report_bytes,
    NegotiationState, Partial, ReplyField,
};
use crate::output::{decimal, ItemModel};
use crate::sync::{
    lemma_feed_emits, lemma_feed_receives, FedModel, SessionModel, SessionState,
};
use crate::terminal::Terminal;

verus! {

/// A run of bytes leaves the report under way if its first part does, and
/// the rest does from where that led.
pub proof fn lemma_continues_concat(state: NegotiationState, a: Seq<u8>, b: Seq<u8>)
    requires
        negotiation_continues(state, a),
        negotiation_continues(negotiation_run(state, a), b),
    ensures
        negotiation_continues(state, a + b),
    decreases a.len(),
{
    if a.len() == 0 {
        assert(a + b =~= b);
    } else {
        assert((a + b)[0] == a[0]);
        assert((a + b).skip(1) =~= a.skip(1) + b);
        lemma_continues_concat(negotiation_step(state, a[0]), a.skip(1), b);
    }
}

/// One byte leaves the report under way if the step it makes does.
pub proof fn lemma_continues_one(state: NegotiationState, byte: u8)
    requires
        crate::negotiation::negotiation_result(state, byte) is Continue,
    ensures
        negotiation_continues(state, seq![byte]),
{
    let bytes = seq![byte];
    assert(bytes[0] == byte);
    assert(bytes.skip(1) =~= Seq::<u8>::empty());
    assert(negotiation_continues(negotiation_step(state, byte), bytes.skip(1)));
}

/// The digits of a number that fits leave the report under way.
pub proof fn lemma_number_continues(field: ReplyField, rows: u16, n: nat)
    requires
        field != ReplyField::Introducer,
        n <= u16::MAX,
    ensures
        negotiation_continues(
            NegotiationState::Parsing(field_read(field, rows, 0, false)),
            decimal(n),
        ),
    decreases n,
{
    let start = NegotiationState::Parsing(field_read(field, rows, 0, false));
    if n < 10 {
        lemma_continues_one(start, (0x30 + n) as u8);
    } else {
        let head = decimal(n / 10);
        let digit = (0x30 + n % 10) as u8;
        lemma_number_continues(field, rows, n / 10);
        lemma_number_is_read(field, rows, n / 10);
        lemma_continues_one(negotiation_run(start, head), digit);
        lemma_continues_concat(start, head, seq![digit]);
        assert(decimal(n) =~= head + seq![digit]);
    }
}

/// The report of a display, but for its last byte.
pub open spec fn report_body(rows: nat, columns: nat) -> Seq<u8> {
    seq![0x1Bu8, 0x5Bu8] + decimal(rows) + seq![0x3Bu8] + decimal(columns)
}

/// All of a display's report but its last byte leaves the report under
/// way, with both numbers read.
pub proof fn lemma_report_body_continues(rows: u16, columns: u16)
    requires
        rows >= 1,
        columns >= 1,
    ensures
        negotiation_continues(
            NegotiationState::AwaitingResponse,
            report_body(rows as nat, columns as nat),
        ),
        negotiation_run(
            NegotiationState::AwaitingResponse,
            report_body(rows as nat, columns as nat),
        ) == NegotiationState::Parsing(field_read(ReplyField::Columns, rows, columns, true)),
{
    let begin = NegotiationState::AwaitingResponse;
    let escaped = NegotiationState::Parsing(
        Partial { field: ReplyField::Introducer, rows: 0, columns: 0, started: false },
    );
    let opened = NegotiationState::Parsing(field_read(ReplyField::Rows, 0, 0, false));
    let rows_read = NegotiationState::Parsing(field_read(ReplyField::Rows, 0, rows, true));
    let separated = NegotiationState::Parsing(field_read(ReplyField::Columns, rows, 0, false));
    let intro = seq![0x1Bu8, 0x5Bu8];
    assert(intro =~= seq![0x1Bu8] + seq![0x5Bu8]);
    lemma_negotiation_run_one(begin, 0x1Bu8);
    lemma_negotiation_run_one(escaped, 0x5Bu8);
    lemma_negotiation_run_concat(begin, seq![0x1Bu8], seq![0x5Bu8]);
    lemma_continues_one(begin, 0x1Bu8);
    lemma_continues_one(escaped, 0x5Bu8);
    lemma_continues_concat(begin, seq![0x1Bu8], seq![0x5Bu8]);
    assert(negotiation_run(begin, intro) == opened);

    lemma_number_is_read(ReplyField::Rows, 0, rows as nat);
    lemma_number_continues(ReplyField::Rows, 0, rows as nat);
    lemma_negotiation_run_concat(begin, intro, decimal(rows as nat));
    lemma_continues_concat(begin, intro, decimal(rows as nat));
    let first = intro + decimal(rows as nat);
    assert(negotiation_run(begin, first) == rows_read);

    lemma_negotiation_run_one(rows_read, 0x3Bu8);
    lemma_continues_one(rows_read, 0x3Bu8);
    lemma_negotiation_run_concat(begin, first, seq![0x3Bu8]);
    lemma_continues_concat(begin, first, seq![0x3Bu8]);
    let so_far = first + seq![0x3Bu8];
    assert(negotiation_run(begin, so_far) == separated);

    lemma_number_is_read(ReplyField::Columns, rows, columns as nat);
    lemma_number_continues(ReplyField::Columns, rows, columns as nat);
    lemma_negotiation_run_concat(begin, so_far, decimal(columns as nat));
    lemma_continues_concat(begin, so_far, decimal(columns as nat));
}

/// Two outcomes of feeding that differ at most in what was sent.
pub open spec fn same_outcome<RE, WE>(
    a: FedModel<RE, WE>,
    b: FedModel<RE, WE>,
    more_consumed: nat,
) -> bool {
    &&& a.session == b.session
    &&& a.consumed == b.consumed + more_consumed
    &&& a.verdict == b.verdict
}

/// A session that awaits the display's report and is fed bytes that leave
/// the report under way reads them all, and goes on with the rest of the
/// input from where they led.
pub proof fn lemma_feed_reads_the_report<RE, WE>(
    session: SessionModel,
    bytes: Seq<u8>,
    more: Seq<u8>,
)
    requires
        session.state == SessionState::Negotiating,
        session.pending.len() == 0,
        negotiation_continues(session.negotiation, bytes),
    ensures
        same_outcome(
            session.feed::<RE, WE>(bytes + more),
            (SessionModel {
                negotiation: negotiation_run(session.negotiation, bytes),
                ..session
            }).feed::<RE, WE>(more),
            bytes.len(),
        ),
        session.feed::<RE, WE>(bytes + more).sent == (SessionModel {
            negotiation: negotiation_run(session.negotiation, bytes),
            ..session
        }).feed::<RE, WE>(more).sent,
    decreases bytes.len(),
{
    if bytes.len() == 0 {
        assert(bytes + more =~= more);
        assert((SessionModel {
            negotiation: negotiation_run(session.negotiation, bytes),
            ..session
        }) == session);
    } else {
        let input = bytes + more;
        assert(input[0] == bytes[0]);
        assert(input.skip(1) =~= bytes.skip(1) + more);
        lemma_feed_receives::<RE, WE>(session, input);
        let next = session.after_receive(Some(bytes[0]));
        lemma_feed_reads_the_report::<RE, WE>(next, bytes.skip(1), more);
        assert((SessionModel {
            negotiation: negotiation_run(next.negotiation, bytes.skip(1)),
            ..next
        }) == (SessionModel {
            negotiation: negotiation_run(session.negotiation, bytes),
            ..session
        }));
    }
}

/// The report of the display, behind the probe, sets a session up: the
/// probe is all that is sent, the report is read to its last byte and no
/// further, the call ends well, and the session is ready, with the display's
/// size as the report gave it.
pub proof fn law_report_sets_the_session_up<RE, WE>(
    session: SessionModel,
    rows: u16,
    columns: u16,
    more: Seq<u8>,
)
    requires
        session.state == SessionState::Uninitialized,
        session.negotiation == NegotiationState::AwaitingResponse,
        rows >= 1,
        columns >= 1,
    ensures
        ({
            let report = report_bytes(rows as nat, columns as nat);
            let fed = session.initialize().feed::<RE, WE>(report + more);
            &&& fed.verdict == Some(Ok::<(), EditorError<RE, WE>>(()))
            &&& fed.sent == probe_bytes()
            &&& fed.consumed == report.len()
            &&& fed.session.state == SessionState::Ready
            &&& fed.session.terminal() == Some(Terminal { width: columns, height: rows })
            &&& fed.session.line == session.line
            &&& fed.session.pending.len() == 0
        }),
{
    let report = report_bytes(rows as nat, columns as nat);
    let body = report_body(rows as nat, columns as nat);
    let begun = session.initialize();
    let waiting = SessionModel { pending: Seq::empty(), ..begun };
    let read = SessionModel {
        negotiation: NegotiationState::Parsing(
            field_read(ReplyField::Columns, rows, columns, true),
        ),
        ..waiting
    };
    let tail = seq![0x52u8] + more;
    assert(report + more =~= body + tail);
    assert(begun.pending.skip(1) =~= Seq::<ItemModel>::empty());
    lemma_feed_emits::<RE, WE>(begun, report + more);
    assert(begun.after_emit(true) == waiting);
    lemma_report_body_continues(rows, columns);
    lemma_feed_reads_the_report::<RE, WE>(waiting, body, tail);
    assert(tail[0] == 0x52u8);
    lemma_feed_receives::<RE, WE>(read, tail);
    assert(probe_bytes() + Seq::<u8>::empty() =~= probe_bytes());
}

/// A session that is fed while items are pending, none of which ends the
/// line, sends them all and goes on as if none had been pending.
pub proof fn lemma_feed_drains<RE, WE>(session: SessionModel, input: Seq<u8>)
    requires
        session.is_active(),
        none_final(session.pending),
    ensures
        same_outcome(
            session.feed::<RE, WE>(input),
            (SessionModel { pending: Seq::empty(), ..session }).feed::<RE, WE>(input),
            0,
        ),
    decreases session.pending.len(),
{
    if session.pending.len() == 0 {
        assert(session.pending =~= Seq::<ItemModel>::empty());
    } else {
        assert(!session.pending[0].is_final());
        lemma_feed_emits::<RE, WE>(session, input);
        let next = session.after_emit(true);
        assert forall|i: int| 0 <= i < next.pending.len() implies !(
        #[trigger] next.pending[i]).is_final() by {
            assert(next.pending[i] == session.pending[i + 1]);
        }
        lemma_feed_drains::<RE, WE>(next, input);
    }
}

/// A session that is fed while the item that marks the end of the line is
/// pending, behind items that do not end the line, sends up to that item,
/// reads nothing more, and ends the call well.
pub proof fn lemma_feed_ends<RE, WE>(session: SessionModel, input: Seq<u8>, at: int)
    requires
        session.is_active(),
        first_final(session.pending, at),
        session.pending[at] is EndOfString,
    ensures
        session.feed::<RE, WE>(input).session == (SessionModel {
            state: SessionState::Completed,
            pending: Seq::empty(),
            ..session
        }),
        session.feed::<RE, WE>(input).consumed == 0,
        session.feed::<RE, WE>(input).verdict == Some(Ok::<(), EditorError<RE, WE>>(())),
    decreases at,
{
    lemma_feed_emits::<RE, WE>(session, input);
    if at > 0 {
        assert(!session.pending[0].is_final());
        let next = session.after_emit(true);
        assert forall|i: int| 0 <= i < at - 1 implies !(#[trigger] next.pending[i]).is_final() by {
            assert(next.pending[i] == session.pending[i + 1]);
        }
        assert(next.pending[at - 1] == session.pending[at]);
        lemma_feed_ends::<RE, WE>(next, input, at - 1);
    }
}

/// Text: printable bytes only.
pub open spec fn text_only(text: Seq<u8>) -> bool {
    forall|i: int| 0 <= i < text.len() ==> is_printable(#[trigger] text[i])
}

/// The session with `text` typed at the end of the line.
pub open spec fn typed(session: SessionModel, text: Seq<u8>) -> SessionModel {
    SessionModel {
        line: LineState {
            line: LineModel {
                content: session.line.line.content + text,
                cursor: session.line.line.content.len() + text.len(),
                capacity: session.line.line.capacity,
            },
            ..session.line
        },
        ..session
    }
}

/// A session that reads a line, with the cursor at the line's end, and is
/// fed text that the line has room for, takes the text in as it comes.
pub proof fn lemma_feed_types<RE, WE>(session: SessionModel, text: Seq<u8>, more: Seq<u8>)
    requires
        session.state == SessionState::Editing,
        session.pending.len() == 0,
        session.line.decoder == DecoderState::Ground,
        session.line.line.cursor == session.line.line.content.len(),
        text_only(text),
        session.line.line.content.len() + text.len() <= session.line.line.capacity,
    ensures
        same_outcome(
            session.feed::<RE, WE>(text + more),
            typed(session, text).feed::<RE, WE>(more),
            text.len(),
        ),
    decreases text.len(),
{
    if text.len() == 0 {
        assert(text + more =~= more);
        assert(session.line.line.content + text =~= session.line.line.content);
        assert(typed(session, text) == session);
    } else {
        let input = text + more;
        let byte = text[0];
        let rest = text.skip(1);
        assert(input[0] == byte);
        assert(input.skip(1) =~= rest + more);
        assert(is_printable(byte));
        lemma_feed_receives::<RE, WE>(session, input);
        let next = session.after_receive(Some(byte));
        lemma_redraw_items_none_final(
            session.line.line,
            session.line.advance(byte).line,
            session.line.prompt.len(),
            session.terminal().unwrap().width as nat,
        );
        lemma_feed_drains::<RE, WE>(next, rest + more);
        let drained = SessionModel { pending: Seq::empty(), ..next };
        let one = seq![byte];
        assert(session.line.line.content.insert(session.line.line.cursor as int, byte)
            =~= session.line.line.content + one);
        assert(drained == typed(session, one));
        assert forall|i: int| 0 <= i < rest.len() implies is_printable(#[trigger] rest[i]) by {
            assert(rest[i] == text[i + 1]);
        }
        lemma_feed_types::<RE, WE>(drained, rest, more);
        assert(session.line.line.content + one + rest =~= session.line.line.content + text);
        assert(typed(drained, rest) == typed(session, text));
    }
}

/// The key that erases the byte before the cursor, `count` times over.
pub open spec fn backspaces(count: nat) -> Seq<u8> {
    Seq::new(count, |i: int| 0x7Fu8)
}

/// The session with the last `count` bytes of the line erased.
pub open spec fn erased(session: SessionModel, count: nat) -> SessionModel {
    SessionModel {
        line: LineState {
            line: LineModel {
                content: session.line.line.content.take(
                    session.line.line.content.len() - count,
                ),
                cursor: (session.line.line.content.len() - count) as nat,
                capacity: session.line.line.capacity,
            },
            ..session.line
        },
        ..session
    }
}

/// A session that reads a line, with the cursor at the line's end, and is
/// fed the key that erases, no more often than the line has bytes, loses
/// that many bytes from the end of the line.
pub proof fn lemma_feed_erases<RE, WE>(session: SessionModel, count: nat, more: Seq<u8>)
    requires
        session.state == SessionState::Editing,
        session.pending.len() == 0,
        session.line.decoder == DecoderState::Ground,
        session.line.line.cursor == session.line.line.content.len(),
        count <= session.line.line.content.len(),
    ensures
        same_outcome(
            session.feed::<RE, WE>(backspaces(count) + more),
            erased(session, count).feed::<RE, WE>(more),
            count,
        ),
    decreases count,
{
    let content = session.line.line.content;
    if count == 0 {
        assert(backspaces(count) + more =~= more);
        assert(content.take(content.len() - count) =~= content);
        assert(erased(session, count) == session);
    } else {
        let input = backspaces(count) + more;
        let fewer = (count - 1) as nat;
        assert(input[0] == 0x7Fu8);
        assert(input.skip(1) =~= backspaces(fewer) + more);
        lemma_feed_receives::<RE, WE>(session, input);
        let next = session.after_receive(Some(0x7Fu8));
        lemma_redraw_items_none_final(
            session.line.line,
            session.line.advance(0x7Fu8).line,
            session.line.prompt.len(),
            session.terminal().unwrap().width as nat,
        );
        lemma_feed_drains::<RE, WE>(next, backspaces(fewer) + more);
        let drained = SessionModel { pending: Seq::empty(), ..next };
        assert(content.remove(content.len() - 1) =~= content.take(content.len() - 1));
        assert(drained == erased(session, 1));
        lemma_feed_erases::<RE, WE>(drained, fewer, more);
        assert(content.take(content.len() - 1).take(content.len() - 1 - fewer) =~= content.take(
            content.len() - count,
        ));
        assert(erased(drained, fewer) == erased(session, count));
    }
}

/// What is typed, corrected and entered is what is read: a session that
/// begins to read a line and is fed text, then the key that erases, no more
/// often than there is text, then more text, all within the line's
/// capacity, and then the key that completes the line, ends the call well
/// and holds the first text without what was erased, followed by the
/// second, as the line that was read.
pub proof fn law_corrected_line_is_read<RE, WE>(
    session: SessionModel,
    prompt: Seq<u8>,
    first: Seq<u8>,
    count: nat,
    second: Seq<u8>,
    more: Seq<u8>,
)
    requires
        session.wf(),
        session.can_read(),
        text_only(first),
        text_only(second),
        count <= first.len(),
        first.len() <= session.line.line.capacity,
        first.len() - count + second.len() <= session.line.line.capacity,
    ensures
        ({
            let input = first + backspaces(count) + second + seq![0x0Du8] + more;
            let line = first.take(first.len() - count) + second;
            let fed = session.readline(prompt).feed::<RE, WE>(input);
            &&& fed.verdict == Some(Ok::<(), EditorError<RE, WE>>(()))
            &&& fed.consumed == first.len() + count + second.len() + 1
            &&& fed.session.state == SessionState::Completed
            &&& fed.session.finished() == Some(line)
        }),
{
    let begun = session.readline(prompt);
    let width = session.terminal().unwrap().width as nat;
    let kept = first.take(first.len() - count);
    let enter = seq![0x0Du8] + more;
    let after_second = second + enter;
    let after_first = backspaces(count) + after_second;
    let input = first + backspaces(count) + second + seq![0x0Du8] + more;
    assert(input =~= first + after_first);
    crate::laws::law_reset_never_ends_the_line(prompt, width);
    lemma_feed_drains::<RE, WE>(begun, input);
    let waiting = SessionModel { pending: Seq::empty(), ..begun };
    assert(Seq::<u8>::empty() + first =~= first);
    lemma_feed_types::<RE, WE>(waiting, first, after_first);
    let one = typed(waiting, first);
    assert(one.line.line.content =~= first);
    lemma_feed_erases::<RE, WE>(one, count, after_second);
    let two = erased(one, count);
    assert(two.line.line.content =~= kept);
    lemma_feed_types::<RE, WE>(two, second, enter);
    let three = typed(two, second);
    assert(three.line.line.content =~= kept + second);
    assert(enter[0] == 0x0Du8);
    assert(enter.skip(1) =~= more);
    lemma_feed_receives::<RE, WE>(three, enter);
    let entered = three.after_receive(Some(0x0Du8));
    assert(entered.pending =~= seq![
        ItemModel::MoveCursor(crate::output::next_line_bytes()),
        ItemModel::EndOfString,
    ]);
    lemma_feed_ends::<RE, WE>(entered, more, 1);
}

/// A line that is typed and entered is the line that is read: a session
/// that begins to read a line and is fed text that fits, then the key that
/// completes the line, reads just that much, ends the call well, holds the
/// text as the line that was read, and has pushed it to the history unless
/// it is empty. What follows in the input is left unread.
pub proof fn law_typed_line_is_read<RE, WE>(
    session: SessionModel,
    prompt: Seq<u8>,
    text: Seq<u8>,
    more: Seq<u8>,
)
    requires
        session.wf(),
        session.can_read(),
        text_only(text),
        text.len() <= session.line.line.capacity,
    ensures
        ({
            let fed = session.readline(prompt).feed::<RE, WE>(text + seq![0x0Du8] + more);
            &&& fed.verdict == Some(Ok::<(), EditorError<RE, WE>>(()))
            &&& fed.consumed == text.len() + 1
            &&& fed.session.state == SessionState::Completed
            &&& fed.session.finished() == Some(text)
            &&& fed.session.terminal() == session.terminal()
            &&& fed.session.line.history == if text.len() > 0 {
                session.line.history.push(text)
            } else {
                session.line.history
            }
        }),
{
    let begun = session.readline(prompt);
    let width = session.terminal().unwrap().width as nat;
    let enter = seq![0x0Du8] + more;
    let input = text + seq![0x0Du8] + more;
    assert(input =~= text + enter);
    crate::laws::law_reset_never_ends_the_line(prompt, width);
    lemma_feed_drains::<RE, WE>(begun, input);
    let waiting = SessionModel { pending: Seq::empty(), ..begun };
    assert(Seq::<u8>::empty() + text =~= text);
    lemma_feed_types::<RE, WE>(waiting, text, enter);
    let full = typed(waiting, text);
    assert(full.line.line.content =~= text);
    assert(enter[0] == 0x0Du8);
    assert(enter.skip(1) =~= more);
    lemma_feed_receives::<RE, WE>(full, enter);
    let entered = full.after_receive(Some(0x0Du8));
    let moved = crate::output::move_items(
        prompt.len() + full.line.line.cursor,
        prompt.len() + full.line.line.content.len(),
        width,
    );
    assert(moved.len() == 0);
    assert(entered.pending =~= seq![
        ItemModel::MoveCursor(crate::output::next_line_bytes()),
        ItemModel::EndOfString,
    ]);
    lemma_feed_ends::<RE, WE>(entered, more, 1);
}

} // verus!
