//! What is sent to the display is never mistaken for an editing key.
//!
//! Should the display, or the line to it, send back what it was sent, the
//! decoder reads those bytes as text or as sequences it does not know, and
//! ends where it began, in `Ground`. This holds of the probe and of all
//! that is sent while lines are read, as long as the prompt and the loaded
//! history hold plain bytes only: what they hold is printed as it is.
use vstd::prelude::*;
use crate::history::HistoryModel;
use crate::input::{
    csi_key, ground_key, is_param, run_keys, run_state, step, DecoderState,
    KeyEvent, ESC,
};
use crate::line::LineState;
use crate::line_buffer::LineModel;
use crate::negotiation::probe_bytes;
use crate::output::{
    abort_items, column_bytes, decimal, down_bytes, erase_bytes, finish_items, move_bytes,
    move_items, next_line_bytes, print_items, redraw_items, repeat, reset_items, up_bytes,
    ItemModel,
};

verus! {

/// Keys that edit nothing: text, and what the decoder does not know.
pub open spec fn harmless(key: KeyEvent) -> bool {
    key is Char || key is Unrecognized
}

pub open spec fn all_harmless(keys: Seq<KeyEvent>) -> bool {
    forall|i: int| 0 <= i < keys.len() ==> harmless(#[trigger] keys[i])
}

/// Bytes that, read from `Ground`, give harmless keys only and lead back to `Ground`.
pub open spec fn inert(bytes: Seq<u8>) -> bool {
    run_state(DecoderState::Ground, bytes) == DecoderState::Ground && all_harmless(
        run_keys(DecoderState::Ground, bytes),
    )
}

/// A byte that, read in `Ground`, gives a harmless key and leaves the
/// decoder in `Ground`: every printable byte is one, and so are the few
/// control bytes that the decoder knows no key for.
pub open spec fn is_plain(byte: u8) -> bool {
    byte != ESC && harmless(ground_key(byte))
}

/// Text: plain bytes only.
pub open spec fn plain(text: Seq<u8>) -> bool {
    forall|i: int| 0 <= i < text.len() ==> is_plain(#[trigger] text[i])
}

/// Every item that has bytes has inert ones.
pub open spec fn items_inert(items: Seq<ItemModel>) -> bool {
    forall|i: int|
        0 <= i < items.len() ==> ((#[trigger] items[i]).bytes() matches Some(bytes) ==> inert(
            bytes,
        ))
}

/// The bytes of an item, none where it has none.
pub open spec fn item_bytes(item: ItemModel) -> Seq<u8> {
    match item.bytes() {
        Some(bytes) => bytes,
        None => Seq::empty(),
    }
}

/// All the bytes that a run of items sends, in order.
pub open spec fn emitted(items: Seq<ItemModel>) -> Seq<u8>
    decreases items.len(),
{
    if items.len() == 0 {
        Seq::empty()
    } else {
        emitted(items.drop_last()) + item_bytes(items.last())
    }
}

/// A state in which all that can be printed is text.
pub open spec fn clean(state: LineState) -> bool {
    &&& plain(state.prompt)
    &&& plain(state.line.content)
    &&& forall|k: int|
        0 <= k < state.history.entries.len() ==> plain(#[trigger] state.history.entries[k])
}

/// Reading a run of bytes is reading its first part, then the rest from where that led.
pub proof fn lemma_run_concat(state: DecoderState, a: Seq<u8>, b: Seq<u8>)
    ensures
        run_state(state, a + b) == run_state(run_state(state, a), b),
        run_keys(state, a + b) == run_keys(state, a) + run_keys(run_state(state, a), b),
    decreases a.len(),
{
    if a.len() == 0 {
        assert(a + b =~= b);
        assert(run_keys(state, a) + run_keys(run_state(state, a), b) =~= run_keys(state, b));
    } else {
        let next = step(state, a[0]).0;
        assert((a + b)[0] == a[0]);
        assert((a + b).skip(1) =~= a.skip(1) + b);
        lemma_run_concat(next, a.skip(1), b);
        let first = run_keys(next, a.skip(1));
        let second = run_keys(run_state(next, a.skip(1)), b);
        match step(state, a[0]).1 {
            Some(key) => {
                assert(seq![key] + (first + second) =~= (seq![key] + first) + second);
            },
            None => {},
        }
    }
}

/// Reading one byte is one step.
pub proof fn lemma_run_one(state: DecoderState, byte: u8)
    ensures
        run_state(state, seq![byte]) == step(state, byte).0,
        run_keys(state, seq![byte]) == match step(state, byte).1 {
            Some(key) => seq![key],
            None => Seq::<KeyEvent>::empty(),
        },
{
    let bytes = seq![byte];
    assert(bytes.skip(1) =~= Seq::<u8>::empty());
    assert(bytes[0] == byte);
    let next = step(state, byte).0;
    assert(run_state(next, bytes.skip(1)) == next);
    assert(run_keys(next, bytes.skip(1)) =~= Seq::<KeyEvent>::empty());
    match step(state, byte).1 {
        Some(key) => {
            assert(seq![key] + Seq::<KeyEvent>::empty() =~= seq![key]);
        },
        None => {},
    }
}

/// Inert bytes behind inert bytes are inert.
pub proof fn lemma_inert_concat(a: Seq<u8>, b: Seq<u8>)
    requires
        inert(a),
        inert(b),
    ensures
        inert(a + b),
{
    lemma_run_concat(DecoderState::Ground, a, b);
}

/// Text is inert: each byte of it is read as itself.
pub proof fn lemma_text_is_inert(text: Seq<u8>)
    requires
        plain(text),
    ensures
        inert(text),
    decreases text.len(),
{
    if text.len() > 0 {
        let rest = text.skip(1);
        assert(is_plain(text[0]));
        assert forall|i: int| 0 <= i < rest.len() implies is_plain(#[trigger] rest[i]) by {
            assert(rest[i] == text[i + 1]);
        }
        lemma_text_is_inert(rest);
        lemma_run_one(DecoderState::Ground, text[0]);
        assert(text =~= seq![text[0]] + rest);
        lemma_inert_concat(seq![text[0]], rest);
    }
}

/// The escape byte and one byte that does not open a control sequence are inert.
pub proof fn lemma_escape_pair_is_inert(second: u8)
    requires
        second != 0x5B,
    ensures
        inert(seq![ESC, second]),
{
    lemma_run_one(DecoderState::Ground, ESC);
    lemma_run_one(DecoderState::Escape, second);
    lemma_run_concat(DecoderState::Ground, seq![ESC], seq![second]);
    assert(seq![ESC, second] =~= seq![ESC] + seq![second]);
}

/// A state inside or outside a control sequence, but not just behind the escape byte.
pub open spec fn settled(state: DecoderState) -> bool {
    state is Ground || state is CsiParams
}

/// Parameter bytes, read inside a control sequence or outside any, give
/// harmless keys only and lead to such a state again.
pub proof fn lemma_params_are_harmless(state: DecoderState, params: Seq<u8>)
    requires
        settled(state),
        forall|i: int| 0 <= i < params.len() ==> is_param(#[trigger] params[i]),
    ensures
        settled(run_state(state, params)),
        all_harmless(run_keys(state, params)),
    decreases params.len(),
{
    if params.len() > 0 {
        let rest = params.skip(1);
        assert(is_param(params[0]));
        assert forall|i: int| 0 <= i < rest.len() implies is_param(#[trigger] rest[i]) by {
            assert(rest[i] == params[i + 1]);
        }
        lemma_params_are_harmless(step(state, params[0]).0, rest);
    }
}

/// A control sequence that ends in a byte the decoder knows no key for is inert.
pub proof fn lemma_control_sequence_is_inert(params: Seq<u8>, last: u8)
    requires
        forall|i: int| 0 <= i < params.len() ==> is_param(#[trigger] params[i]),
        !is_param(last),
        is_plain(last),
        csi_key(last) is Unrecognized,
    ensures
        inert(seq![ESC, 0x5Bu8] + params + seq![last]),
{
    let ground = DecoderState::Ground;
    let opened = DecoderState::CsiParams(0);
    lemma_run_one(ground, ESC);
    lemma_run_one(DecoderState::Escape, 0x5Bu8);
    lemma_run_concat(ground, seq![ESC], seq![0x5Bu8]);
    assert(seq![ESC, 0x5Bu8] =~= seq![ESC] + seq![0x5Bu8]);
    assert(run_state(ground, seq![ESC, 0x5Bu8]) == opened);
    assert(run_keys(ground, seq![ESC, 0x5Bu8]) =~= Seq::<KeyEvent>::empty());
    lemma_params_are_harmless(opened, params);
    lemma_run_concat(ground, seq![ESC, 0x5Bu8], params);
    let inner = run_state(opened, params);
    lemma_run_one(inner, last);
    lemma_run_concat(ground, seq![ESC, 0x5Bu8] + params, seq![last]);
}

/// A number in decimal is digits only.
pub proof fn lemma_decimal_is_digits(n: nat)
    ensures
        forall|i: int| 0 <= i < decimal(n).len() ==> is_param(#[trigger] decimal(n)[i]),
    decreases n,
{
    if n >= 10 {
        lemma_decimal_is_digits(n / 10);
        let head = decimal(n / 10);
        assert forall|i: int| 0 <= i < decimal(n).len() implies is_param(
            #[trigger] decimal(n)[i],
        ) by {
            if i < head.len() {
                assert(decimal(n)[i] == head[i]);
            }
        }
    }
}

/// The sequence that sends the cursor to a column is inert.
pub proof fn lemma_column_is_inert(column: nat)
    ensures
        inert(column_bytes(column)),
{
    lemma_decimal_is_digits(column + 1);
    lemma_control_sequence_is_inert(decimal(column + 1), 0x47u8);
    assert(column_bytes(column) =~= seq![ESC, 0x5Bu8] + decimal(column + 1) + seq![0x47u8]);
}

/// The sequence that erases is inert.
pub proof fn lemma_erase_is_inert()
    ensures
        inert(erase_bytes()),
{
    lemma_control_sequence_is_inert(Seq::empty(), 0x4Au8);
    assert(erase_bytes() =~= seq![ESC, 0x5Bu8] + Seq::<u8>::empty() + seq![0x4Au8]);
}

/// Inert bytes, over and over, are inert.
pub proof fn lemma_repeat_is_inert(unit: Seq<u8>, times: nat)
    requires
        inert(unit),
    ensures
        inert(repeat(unit, times)),
    decreases times,
{
    if times > 0 {
        lemma_repeat_is_inert(unit, (times - 1) as nat);
        lemma_inert_concat(repeat(unit, (times - 1) as nat), unit);
    }
}

/// What moves the cursor from one cell to another is inert.
pub proof fn lemma_move_is_inert(from: nat, to: nat, width: nat)
    ensures
        inert(move_bytes(from, to, width)),
{
    lemma_escape_pair_is_inert(0x4Du8);
    lemma_escape_pair_is_inert(0x44u8);
    assert(up_bytes() =~= seq![ESC, 0x4Du8]);
    assert(down_bytes() =~= seq![ESC, 0x44u8]);
    let rows = if to / width < from / width {
        repeat(up_bytes(), (from / width - to / width) as nat)
    } else {
        repeat(down_bytes(), (to / width - from / width) as nat)
    };
    if to / width < from / width {
        lemma_repeat_is_inert(up_bytes(), (from / width - to / width) as nat);
    } else {
        lemma_repeat_is_inert(down_bytes(), (to / width - from / width) as nat);
    }
    if to % width != from % width {
        lemma_column_is_inert(to % width);
        lemma_inert_concat(rows, column_bytes(to % width));
    }
}

/// The items that move the cursor are inert.
pub proof fn lemma_move_items_are_inert(from: nat, to: nat, width: nat)
    ensures
        items_inert(move_items(from, to, width)),
{
    lemma_move_is_inert(from, to, width);
}

/// Inert items behind inert items are inert items.
pub proof fn lemma_items_inert_concat(a: Seq<ItemModel>, b: Seq<ItemModel>)
    requires
        items_inert(a),
        items_inert(b),
    ensures
        items_inert(a + b),
{
    assert forall|i: int| 0 <= i < (a + b).len() implies ((#[trigger] (a + b)[i]).bytes() matches Some(
        bytes,
    ) ==> inert(bytes)) by {
        if i < a.len() {
            assert((a + b)[i] == a[i]);
        } else {
            assert((a + b)[i] == b[i - a.len()]);
        }
    }
}

/// The items that print text are inert.
pub proof fn lemma_print_items_are_inert(text: Seq<u8>, at: nat, width: nat)
    requires
        plain(text),
    ensures
        items_inert(print_items(text, at, width)),
    decreases text.len(),
{
    let room = width - at % width;
    if text.len() == 0 || width == 0 {
    } else if text.len() < room {
        lemma_text_is_inert(text);
    } else {
        let piece = text.take(room);
        let rest = text.skip(room);
        assert forall|i: int| 0 <= i < piece.len() implies is_plain(#[trigger] piece[i]) by {
            assert(piece[i] == text[i]);
        }
        assert forall|i: int| 0 <= i < rest.len() implies is_plain(#[trigger] rest[i]) by {
            assert(rest[i] == text[i + room]);
        }
        lemma_text_is_inert(piece);
        lemma_escape_pair_is_inert(0x45u8);
        assert(next_line_bytes() =~= seq![ESC, 0x45u8]);
        lemma_print_items_are_inert(rest, (at + room) as nat, width);
        let head = seq![ItemModel::Print(piece), ItemModel::MoveCursor(next_line_bytes())];
        assert(items_inert(head));
        lemma_items_inert_concat(head, print_items(rest, (at + room) as nat, width));
    }
}

/// What a run of inert items sends is inert as a whole.
pub proof fn lemma_emitted_is_inert(items: Seq<ItemModel>)
    requires
        items_inert(items),
    ensures
        inert(emitted(items)),
    decreases items.len(),
{
    if items.len() > 0 {
        let before = items.drop_last();
        assert forall|i: int| 0 <= i < before.len() implies ((#[trigger] before[i]).bytes() matches Some(
            bytes,
        ) ==> inert(bytes)) by {
            assert(before[i] == items[i]);
        }
        lemma_emitted_is_inert(before);
        assert(items.last() == items[items.len() - 1]);
        lemma_inert_concat(emitted(before), item_bytes(items.last()));
    }
}

/// The probe for the display's size is inert.
pub proof fn law_probe_is_inert()
    ensures
        inert(probe_bytes()),
{
    let save = seq![ESC, 0x37u8];
    let corner_params = seq![0x39u8, 0x39u8, 0x39u8, 0x3Bu8, 0x39u8, 0x39u8, 0x39u8];
    let corner = seq![ESC, 0x5Bu8] + corner_params + seq![0x66u8];
    let report_params = seq![0x36u8];
    let report = seq![ESC, 0x5Bu8] + report_params + seq![0x6Eu8];
    let restore = seq![ESC, 0x38u8];
    lemma_escape_pair_is_inert(0x37u8);
    lemma_escape_pair_is_inert(0x38u8);
    lemma_control_sequence_is_inert(corner_params, 0x66u8);
    lemma_control_sequence_is_inert(report_params, 0x6Eu8);
    lemma_inert_concat(save, corner);
    lemma_inert_concat(save + corner, report);
    lemma_inert_concat(save + corner + report, restore);
    assert(probe_bytes() =~= save + corner + report + restore);
}

/// What begins the reading of a line is inert, where the prompt is text.
pub proof fn law_reset_is_inert(prompt: Seq<u8>, width: nat)
    requires
        plain(prompt),
    ensures
        items_inert(reset_items(prompt, width)),
        inert(emitted(reset_items(prompt, width))),
{
    lemma_column_is_inert(0);
    lemma_erase_is_inert();
    lemma_inert_concat(column_bytes(0), erase_bytes());
    lemma_print_items_are_inert(prompt, 0, width);
    let head = seq![ItemModel::ClearLine(column_bytes(0) + erase_bytes())];
    assert(items_inert(head));
    lemma_items_inert_concat(head, print_items(prompt, 0, width));
    lemma_emitted_is_inert(reset_items(prompt, width));
}

/// What brings the display from one state of the line to another is inert,
/// where the new line is text.
pub proof fn lemma_redraw_is_inert(prev: LineModel, next: LineModel, prompt: nat, width: nat)
    requires
        plain(next.content),
    ensures
        items_inert(redraw_items(prev, next, prompt, width)),
{
    if prev.content == next.content {
        lemma_move_items_are_inert(prompt + prev.cursor, prompt + next.cursor, width);
    } else {
        let same = crate::output::common_prefix(prev.content, next.content);
        crate::output::lemma_common_prefix_bounds(prev.content, next.content);
        let rest = next.content.skip(same as int);
        assert forall|i: int| 0 <= i < rest.len() implies is_plain(#[trigger] rest[i]) by {
            assert(rest[i] == next.content[i + same]);
        }
        let first = move_items(prompt + prev.cursor, prompt + same, width);
        let erase = seq![ItemModel::ClearLine(erase_bytes())];
        let print = print_items(rest, prompt + same, width);
        let last = move_items(prompt + next.content.len(), prompt + next.cursor, width);
        lemma_move_items_are_inert(prompt + prev.cursor, prompt + same, width);
        lemma_erase_is_inert();
        assert(items_inert(erase));
        lemma_print_items_are_inert(rest, prompt + same, width);
        lemma_move_items_are_inert(prompt + next.content.len(), prompt + next.cursor, width);
        lemma_items_inert_concat(first, erase);
        lemma_items_inert_concat(first + erase, print);
        lemma_items_inert_concat(first + erase + print, last);
    }
}

/// What ends a line is inert.
pub proof fn lemma_finish_is_inert(line: LineModel, prompt: nat, width: nat)
    ensures
        items_inert(finish_items(line, prompt, width)),
{
    lemma_move_items_are_inert(prompt + line.cursor, prompt + line.content.len(), width);
    lemma_escape_pair_is_inert(0x45u8);
    assert(next_line_bytes() =~= seq![ESC, 0x45u8]);
    let tail = seq![ItemModel::MoveCursor(next_line_bytes()), ItemModel::EndOfString];
    assert(items_inert(tail));
    lemma_items_inert_concat(
        move_items(prompt + line.cursor, prompt + line.content.len(), width),
        tail,
    );
}

/// A history of text stays one when text is pushed.
pub proof fn lemma_push_keeps_text(history: HistoryModel, line: Seq<u8>)
    requires
        plain(line),
        forall|k: int| 0 <= k < history.entries.len() ==> plain(#[trigger] history.entries[k]),
    ensures
        forall|k: int|
            0 <= k < history.push(line).entries.len() ==> plain(
                #[trigger] history.push(line).entries[k],
            ),
{
    let clipped = history.clip(line);
    assert forall|i: int| 0 <= i < clipped.len() implies is_plain(#[trigger] clipped[i]) by {
        assert(clipped[i] == line[i]);
    }
    let after = history.push(line).entries;
    assert forall|k: int| 0 <= k < after.len() implies plain(#[trigger] after[k]) by {
        if history.capacity == 0 {
        } else if history.entries.len() < history.capacity {
            if k < history.entries.len() {
                assert(after[k] == history.entries[k]);
            } else {
                assert(after[k] == clipped);
            }
        } else {
            if k < after.len() - 1 {
                assert(after[k] == history.entries[k + 1]);
            } else {
                assert(after[k] == clipped);
            }
        }
    }
}

/// A line of text stays one when it is filled from an entry that is text.
pub proof fn lemma_replace_keeps_text(line: LineModel, entry: Seq<u8>)
    requires
        plain(entry),
    ensures
        plain(line.replace_with(entry).content),
{
    let kept = line.replace_with(entry).content;
    assert forall|i: int| 0 <= i < kept.len() implies is_plain(#[trigger] kept[i]) by {
        assert(kept[i] == entry[i]);
    }
}

/// A state in which all is text stays one, whatever key comes.
pub proof fn lemma_apply_keeps_clean(state: LineState, key: KeyEvent)
    requires
        state.wf(),
        clean(state),
        key matches KeyEvent::Char(byte) ==> is_plain(byte),
    ensures
        clean(state.apply(key)),
{
    let next = state.apply(key);
    let was = state.line.content;
    let now = next.line.content;
    match key {
        KeyEvent::Char(byte) => {
            assert forall|i: int| 0 <= i < now.len() implies is_plain(#[trigger] now[i]) by {
                if !state.line.is_full() {
                    if i < state.line.cursor {
                        assert(now[i] == was[i]);
                    } else if i == state.line.cursor {
                        assert(now[i] == byte);
                    } else {
                        assert(now[i] == was[i - 1]);
                    }
                }
            }
        },
        KeyEvent::Backspace => {
            assert forall|i: int| 0 <= i < now.len() implies is_plain(#[trigger] now[i]) by {
                if state.line.cursor > 0 {
                    if i < state.line.cursor - 1 {
                        assert(now[i] == was[i]);
                    } else {
                        assert(now[i] == was[i + 1]);
                    }
                }
            }
        },
        KeyEvent::Delete => {
            assert forall|i: int| 0 <= i < now.len() implies is_plain(#[trigger] now[i]) by {
                if state.line.cursor < was.len() {
                    if i < state.line.cursor {
                        assert(now[i] == was[i]);
                    } else {
                        assert(now[i] == was[i + 1]);
                    }
                }
            }
        },
        KeyEvent::Up => {
            match state.older() {
                Some(index) => {
                    lemma_replace_keeps_text(state.line, state.history.entries[index as int]);
                },
                None => {},
            }
        },
        KeyEvent::Down => {
            match state.shown {
                Some(index) => {
                    match state.history.navigate(crate::history::Direction::Down, index) {
                        Some(newer) => {
                            lemma_replace_keeps_text(
                                state.line,
                                state.history.entries[newer as int],
                            );
                        },
                        None => {},
                    }
                },
                None => {},
            }
        },
        KeyEvent::Enter => {
            if was.len() > 0 {
                lemma_push_keeps_text(state.history, was);
            }
        },
        _ => {},
    }
}

/// Whatever byte comes in while a line is read, what goes out for it is
/// inert, and all that can be printed is text still: nothing that the
/// editor sends, in any run of input, can come back as an editing key.
pub proof fn law_output_is_never_an_editing_key(state: LineState, byte: u8, width: nat)
    requires
        state.wf(),
        clean(state),
    ensures
        clean(state.advance(byte)),
        items_inert(state.output(byte, width)),
        inert(emitted(state.output(byte, width))),
{
    let decoded = LineState { decoder: step(state.decoder, byte).0, ..state };
    match state.key(byte) {
        Some(key) => {
            lemma_apply_keeps_clean(decoded, key);
            match key {
                KeyEvent::Enter => {
                    lemma_finish_is_inert(state.line, state.prompt.len(), width);
                },
                KeyEvent::Abort => {},
                _ => {
                    lemma_redraw_is_inert(
                        state.line,
                        state.advance(byte).line,
                        state.prompt.len(),
                        width,
                    );
                },
            }
        },
        None => {},
    }
    lemma_emitted_is_inert(state.output(byte, width));
}

} // verus!
