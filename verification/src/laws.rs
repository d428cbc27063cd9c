//! What holds of the editor as a whole, stated over the models of its parts.
use vstd::prelude::*;
use crate::history::HistoryModel;
use crate::input::{csi_key, is_param, state_wf, step, DecoderState, KeyEvent};
use crate::line::LineState;
use crate::line_buffer::LineModel;
use crate::negotiation::{
    negotiation_run, negotiation_step, report_bytes, NegotiationState, Partial, ReplyField,
};
use crate::output::{
    decimal, finish_items, move_items, print_items, redraw_items, reset_items, ItemModel,
};
use crate::sync::{RequestModel, SessionModel, SessionState};
use crate::terminal::Terminal;

verus! {

/// A line of capacity `N` takes `N` bytes and no more: each of the first
/// `N` insertions into the empty line finds it not full, after them the line
/// holds the bytes in the order they came, and the insertion after those
/// finds the line full and leaves it as it is.
pub proof fn law_line_takes_capacity_and_no_more(capacity: nat, bytes: Seq<u8>, extra: u8)
    requires
        bytes.len() == capacity,
    ensures
        forall|k: int|
            0 <= k < capacity ==> !(#[trigger] LineModel::empty(capacity).insert_all(
                bytes.take(k),
            )).is_full(),
        LineModel::empty(capacity).insert_all(bytes).content == bytes,
        LineModel::empty(capacity).insert_all(bytes).is_full(),
        LineModel::empty(capacity).insert_all(bytes).insert(extra) == LineModel::empty(
            capacity,
        ).insert_all(bytes),
{
    assert forall|k: int| 0 <= k < capacity implies !(#[trigger] LineModel::empty(
        capacity,
    ).insert_all(bytes.take(k))).is_full() by {
        lemma_insert_all_at_end(capacity, bytes.take(k));
    }
    lemma_insert_all_at_end(capacity, bytes);
}

/// Into the empty line, bytes that fit go in as they come, the cursor behind them.
pub proof fn lemma_insert_all_at_end(capacity: nat, bytes: Seq<u8>)
    requires
        bytes.len() <= capacity,
    ensures
        LineModel::empty(capacity).insert_all(bytes) == (LineModel {
            content: bytes,
            cursor: bytes.len(),
            capacity,
        }),
    decreases bytes.len(),
{
    if bytes.len() > 0 {
        lemma_insert_all_at_end(capacity, bytes.drop_last());
        assert(bytes.drop_last().insert(bytes.len() - 1, bytes.last()) =~= bytes);
    } else {
        assert(bytes =~= Seq::<u8>::empty());
    }
}

/// `move_home` puts the cursor at 0, and a second `move_home` changes nothing.
pub proof fn law_move_home_is_idempotent(line: LineModel)
    ensures
        line.move_home().cursor == 0,
        line.move_home().move_home() == line.move_home(),
{
}

/// On an empty line `move_end` changes nothing.
pub proof fn law_move_end_on_empty_line(line: LineModel)
    requires
        line.wf(),
        line.content.len() == 0,
    ensures
        line.move_end() == line,
{
}

/// The last `count` of a run of lines, or all of them where there are fewer.
pub open spec fn newest(lines: Seq<Seq<u8>>, count: nat) -> Seq<Seq<u8>> {
    if lines.len() <= count {
        lines
    } else {
        lines.skip(lines.len() - count)
    }
}

/// A history keeps the newest entries, as many as it has slots, oldest
/// first: after any run of pushes it holds the last of what it held before
/// followed by what was pushed, each line as the history stores it.
pub proof fn law_history_keeps_the_newest(history: HistoryModel, lines: Seq<Seq<u8>>)
    requires
        history.wf(),
    ensures
        history.push_all(lines).wf(),
        history.push_all(lines).capacity == history.capacity,
        history.push_all(lines).bound == history.bound,
        history.push_all(lines).entries == newest(
            history.entries + lines.map_values(|line: Seq<u8>| history.clip(line)),
            history.capacity,
        ),
    decreases lines.len(),
{
    let clipped = lines.map_values(|line: Seq<u8>| history.clip(line));
    if lines.len() == 0 {
        assert(history.entries + clipped =~= history.entries);
    } else {
        let before = lines.drop_last();
        law_history_keeps_the_newest(history, before);
        let clipped_before = before.map_values(|line: Seq<u8>| history.clip(line));
        let held = history.push_all(before);
        let all_before = history.entries + clipped_before;
        let all = history.entries + clipped;
        assert(all =~= all_before.push(history.clip(lines.last())));
        assert(held.clip(lines.last()) == history.clip(lines.last()));
        assert(held.push(lines.last()).entries =~= newest(all, history.capacity));
    }
}

/// Pushing one line more than a history of `M` slots can hold leaves it
/// with exactly the `M` lines pushed last, oldest first.
pub proof fn law_ring_retains_most_recent(history: HistoryModel, lines: Seq<Seq<u8>>)
    requires
        history.wf(),
        lines.len() == history.capacity + 1,
        forall|k: int| 0 <= k < lines.len() ==> (#[trigger] lines[k]).len() <= history.bound,
    ensures
        history.push_all(lines).entries == lines.skip(1),
{
    law_history_keeps_the_newest(history, lines);
    let clipped = lines.map_values(|line: Seq<u8>| history.clip(line));
    assert(clipped =~= lines);
    assert(newest(history.entries + lines, history.capacity) =~= lines.skip(1));
}

/// Inside a control sequence, a byte that is no parameter always ends the
/// sequence: the decoder is back in `Ground` and a key is emitted, which is
/// `Unrecognized` unless the byte is one of the seven that end a known
/// sequence. Whatever the byte, the state reached is one the decoder can be in.
pub proof fn law_control_sequence_always_ends(seen: u8, byte: u8)
    requires
        state_wf(DecoderState::CsiParams(seen)),
    ensures
        state_wf(step(DecoderState::CsiParams(seen), byte).0),
        !is_param(byte) ==> step(DecoderState::CsiParams(seen), byte) == (
            DecoderState::Ground,
            Some(csi_key(byte)),
        ),
        !is_param(byte) && byte != 0x41 && byte != 0x42 && byte != 0x43 && byte != 0x44 && byte
            != 0x48 && byte != 0x46 && byte != 0x7E ==> step(DecoderState::CsiParams(seen), byte).1
            == Some(KeyEvent::Unrecognized),
{
}

/// From a state the decoder can be in, every byte leads to one.
pub proof fn law_decoder_state_stays_valid(state: DecoderState, byte: u8)
    requires
        state_wf(state),
    ensures
        state_wf(step(state, byte).0),
{
}

/// Reading a run of bytes of the display's answer is reading its first
/// part, then the rest from where that led.
pub proof fn lemma_negotiation_run_concat(state: NegotiationState, a: Seq<u8>, b: Seq<u8>)
    ensures
        negotiation_run(state, a + b) == negotiation_run(negotiation_run(state, a), b),
    decreases a.len(),
{
    if a.len() == 0 {
        assert(a + b =~= b);
    } else {
        assert((a + b)[0] == a[0]);
        assert((a + b).skip(1) =~= a.skip(1) + b);
        lemma_negotiation_run_concat(negotiation_step(state, a[0]), a.skip(1), b);
    }
}

/// Reading one byte of the display's answer is one step.
pub proof fn lemma_negotiation_run_one(state: NegotiationState, byte: u8)
    ensures
        negotiation_run(state, seq![byte]) == negotiation_step(state, byte),
{
    let bytes = seq![byte];
    assert(bytes.skip(1) =~= Seq::<u8>::empty());
    assert(negotiation_run(negotiation_step(state, bytes[0]), bytes.skip(1)) == negotiation_step(
        state,
        byte,
    ));
}

/// What has been read when a field holds the number `value`.
pub open spec fn field_read(field: ReplyField, rows: u16, value: u16, started: bool) -> Partial {
    if field == ReplyField::Rows {
        Partial { field, rows: value, columns: 0, started }
    } else {
        Partial { field, rows, columns: value, started }
    }
}

/// The digits of a number that fits, read into a field that has none yet,
/// leave the field holding that number.
pub proof fn lemma_number_is_read(field: ReplyField, rows: u16, n: nat)
    requires
        field != ReplyField::Introducer,
        n <= u16::MAX,
    ensures
        negotiation_run(NegotiationState::Parsing(field_read(field, rows, 0, false)), decimal(n))
            == NegotiationState::Parsing(field_read(field, rows, n as u16, true)),
    decreases n,
{
    let start = NegotiationState::Parsing(field_read(field, rows, 0, false));
    if n < 10 {
        lemma_negotiation_run_one(start, (0x30 + n) as u8);
    } else {
        let head = decimal(n / 10);
        let digit = (0x30 + n % 10) as u8;
        lemma_number_is_read(field, rows, n / 10);
        lemma_negotiation_run_concat(start, head, seq![digit]);
        assert(decimal(n) =~= head + seq![digit]);
        lemma_negotiation_run_one(negotiation_run(start, head), digit);
    }
}

/// The report of any size that fits in sixteen bits, with at least one row
/// and one column, read from the start, gives the display of that size.
pub proof fn law_report_gives_the_size(rows: u16, columns: u16)
    requires
        rows >= 1,
        columns >= 1,
    ensures
        negotiation_run(
            NegotiationState::AwaitingResponse,
            report_bytes(rows as nat, columns as nat),
        ) == NegotiationState::Done(Terminal { width: columns, height: rows }),
{
    let begin = NegotiationState::AwaitingResponse;
    let escaped = NegotiationState::Parsing(
        Partial { field: ReplyField::Introducer, rows: 0, columns: 0, started: false },
    );
    let opened = NegotiationState::Parsing(field_read(ReplyField::Rows, 0, 0, false));
    let rows_read = NegotiationState::Parsing(field_read(ReplyField::Rows, 0, rows, true));
    let separated = NegotiationState::Parsing(field_read(ReplyField::Columns, rows, 0, false));
    let columns_read = NegotiationState::Parsing(
        field_read(ReplyField::Columns, rows, columns, true),
    );
    let intro = seq![0x1Bu8, 0x5Bu8];
    assert(intro =~= seq![0x1Bu8] + seq![0x5Bu8]);
    lemma_negotiation_run_one(begin, 0x1Bu8);
    lemma_negotiation_run_one(escaped, 0x5Bu8);
    lemma_negotiation_run_concat(begin, seq![0x1Bu8], seq![0x5Bu8]);
    assert(negotiation_run(begin, intro) == opened);
    lemma_number_is_read(ReplyField::Rows, 0, rows as nat);
    lemma_negotiation_run_concat(begin, intro, decimal(rows as nat));
    assert(negotiation_run(begin, intro + decimal(rows as nat)) == rows_read);
    lemma_negotiation_run_one(rows_read, 0x3Bu8);
    lemma_negotiation_run_concat(begin, intro + decimal(rows as nat), seq![0x3Bu8]);
    let so_far = intro + decimal(rows as nat) + seq![0x3Bu8];
    assert(negotiation_run(begin, so_far) == separated);
    lemma_number_is_read(ReplyField::Columns, rows, columns as nat);
    lemma_negotiation_run_concat(begin, so_far, decimal(columns as nat));
    assert(negotiation_run(begin, so_far + decimal(columns as nat)) == columns_read);
    lemma_negotiation_run_one(columns_read, 0x52u8);
    lemma_negotiation_run_concat(begin, so_far + decimal(columns as nat), seq![0x52u8]);
}

/// No item ends the reading of a line.
pub open spec fn none_final(items: Seq<ItemModel>) -> bool {
    forall|i: int| 0 <= i < items.len() ==> !(#[trigger] items[i]).is_final()
}

/// The item at `at` is the first that ends the reading of a line.
pub open spec fn first_final(items: Seq<ItemModel>, at: int) -> bool {
    &&& 0 <= at < items.len()
    &&& items[at].is_final()
    &&& forall|i: int| 0 <= i < at ==> !(#[trigger] items[i]).is_final()
}

/// No item but the last ends the reading of a line.
pub open spec fn final_only_last(items: Seq<ItemModel>) -> bool {
    forall|i: int| 0 <= i < items.len() - 1 ==> !(#[trigger] items[i]).is_final()
}

/// Printing never ends the reading of a line.
pub proof fn lemma_print_items_none_final(text: Seq<u8>, at: nat, width: nat)
    ensures
        none_final(print_items(text, at, width)),
    decreases text.len(),
{
    let room = width - at % width;
    if text.len() == 0 || width == 0 {
    } else if text.len() < room {
    } else {
        lemma_print_items_none_final(text.skip(room), (at + room) as nat, width);
    }
}

/// Redrawing never ends the reading of a line, and always gives an item.
pub proof fn lemma_redraw_items_none_final(
    prev: LineModel,
    next: LineModel,
    prompt: nat,
    width: nat,
)
    ensures
        none_final(redraw_items(prev, next, prompt, width)),
        redraw_items(prev, next, prompt, width).len() >= 1,
{
    if prev.content != next.content {
        let same = crate::output::common_prefix(prev.content, next.content);
        lemma_print_items_none_final(next.content.skip(same as int), prompt + same, width);
    }
}

/// What is to be sent for a byte of input is never nothing, so that a
/// flush follows every byte read; and the item that ends the reading of a
/// line, or gives it up, is the last: nothing is sent behind it.
pub proof fn law_end_of_line_comes_last(state: LineState, byte: u8, width: nat)
    ensures
        state.output(byte, width).len() >= 1,
        final_only_last(state.output(byte, width)),
        state.output(byte, width).last().is_final() <==> (state.key(byte) == Some(KeyEvent::Enter)
            || state.key(byte) == Some(KeyEvent::Abort)),
{
    match state.key(byte) {
        None => {},
        Some(KeyEvent::Enter) => {},
        Some(KeyEvent::Abort) => {},
        Some(_) => {
            lemma_redraw_items_none_final(
                state.line,
                state.advance(byte).line,
                state.prompt.len(),
                width,
            );
        },
    }
}

/// What begins the reading of a line never ends it.
pub proof fn law_reset_never_ends_the_line(prompt: Seq<u8>, width: nat)
    ensures
        none_final(reset_items(prompt, width)),
        reset_items(prompt, width).len() >= 1,
{
    lemma_print_items_none_final(prompt, 0, width);
}

/// A line that may be as long as an entry of the history takes every entry
/// whole: while lines are read, recalling an entry never cuts it.
pub proof fn law_recall_is_never_cut(state: LineState, index: nat)
    requires
        state.wf(),
        index < state.history.entries.len(),
    ensures
        state.recall(index).line.content == state.history.entries[index as int],
        state.recall(index).line.cursor == state.history.entries[index as int].len(),
{
    let entry = state.history.entries[index as int];
    assert(entry.take(entry.len() as int) =~= entry);
}

/// Whatever byte comes in, a state that lines can be read in stays one.
pub proof fn law_reading_keeps_the_state_sound(state: LineState, byte: u8)
    requires
        state.wf(),
    ensures
        state.advance(byte).wf(),
{
    let decoded = LineState { decoder: step(state.decoder, byte).0, ..state };
    match state.key(byte) {
        Some(KeyEvent::Enter) => {
            if state.line.content.len() > 0 {
                law_history_keeps_the_newest(state.history, seq![state.line.content]);
                assert(seq![state.line.content].drop_last() =~= Seq::<Seq<u8>>::empty());
                assert(state.history.push_all(seq![state.line.content])
                    == state.history.push(state.line.content));
            }
        },
        Some(KeyEvent::Up) => {
            match decoded.older() {
                Some(index) => {
                    law_recall_is_never_cut(decoded, index);
                },
                None => {},
            }
        },
        Some(KeyEvent::Down) => {
            match decoded.shown {
                Some(index) => {
                    match decoded.history.navigate(crate::history::Direction::Down, index) {
                        Some(newer) => {
                            law_recall_is_never_cut(decoded, newer);
                        },
                        None => {},
                    }
                },
                None => {},
            }
        },
        _ => {},
    }
}

/// The history changes only when a line is completed: then the line, if
/// it is not empty, is pushed. No other key touches the history, and a
/// line that is given up is never pushed.
pub proof fn law_history_changes_on_completion_only(state: LineState, byte: u8)
    ensures
        state.advance(byte).history == if state.key(byte) == Some(KeyEvent::Enter)
            && state.line.content.len() > 0 {
            state.history.push(state.line.content)
        } else {
            state.history
        },
{
}

/// A session whose setting up failed is over: it asks for nothing, no
/// line can be read, and there is nothing to finish.
pub proof fn law_failed_setup_is_final(session: SessionModel)
    requires
        session.wf(),
        session.state == SessionState::Failed,
        session.terminal() is None,
    ensures
        session.request() is Idle,
        !session.can_read(),
        !session.can_finish(),
{
}

/// Once the size of the display is known it stays as it is, whatever the
/// session goes through.
pub proof fn law_size_is_frozen(
    session: SessionModel,
    prompt: Seq<u8>,
    sent: bool,
    input: Option<u8>,
)
    requires
        session.wf(),
        session.terminal() is Some,
    ensures
        session.readline(prompt).terminal() == session.terminal(),
        session.finish().terminal() == session.terminal(),
        session.after_emit(sent).terminal() == session.terminal(),
        session.after_receive(input).terminal() == session.terminal(),
{
}

/// A call ends exactly when its verdict is given: as long as the session
/// is told of no failure and the item sent does not end the line, the call
/// goes on, and when a call is over the session asks for nothing more.
pub proof fn law_verdict_ends_the_call<RE, WE>(
    session: SessionModel,
    emitted: Result<(), WE>,
    received: Result<u8, RE>,
)
    requires
        session.wf(),
        session.is_active(),
    ensures
        session.request() is Emit ==> (session.emit_verdict::<RE, WE>(emitted) is Some
            <==> !session.after_emit(emitted is Ok).is_active()),
        session.request() is Receive ==> (session.receive_verdict::<RE, WE>(received) is Some
            <==> !session.after_receive(crate::sync::byte_of(received)).is_active()),
{
}

} // verus!
