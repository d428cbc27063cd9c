//! What has to be sent so that the display shows the line as the model has it.
//!
//! The display is taken as rows of `width` cells. The prompt begins in the
//! first cell of a row; a byte of the prompt or of the line takes one cell.
//! The cell at offset `p` from there lies in row `p / width`, column
//! `p % width`. All movement is relative to where the cursor stands, and no
//! sequence sent is one that a keyboard sends for an editing key.
use vstd::prelude::*;
use crate::line_buffer::{LineBuffer, LineModel};

verus! {

/// One piece of output, mathematically.
pub enum ItemModel {
    Print(Seq<u8>),
    MoveCursor(Seq<u8>),
    ClearLine(Seq<u8>),
    EndOfString,
    Abort,
    NoOp,
}

impl ItemModel {
    /// The bytes to send for this item, if it has any.
    pub open spec fn bytes(self) -> Option<Seq<u8>> {
        match self {
            ItemModel::Print(bytes) => Some(bytes),
            ItemModel::MoveCursor(bytes) => Some(bytes),
            ItemModel::ClearLine(bytes) => Some(bytes),
            ItemModel::EndOfString => None,
            ItemModel::Abort => None,
            ItemModel::NoOp => None,
        }
    }

    /// Whether the item ends the reading of a line.
    pub open spec fn is_final(self) -> bool {
        self is EndOfString || self is Abort
    }
}

/// One piece of output. It can be sent and flushed by itself.
#[derive(Debug, PartialEq, Eq)]
pub enum OutputItem {
    /// Text of the prompt or of the line.
    Print(Vec<u8>),
    /// A sequence that moves the cursor.
    MoveCursor(Vec<u8>),
    /// A sequence that erases.
    ClearLine(Vec<u8>),
    /// The line is complete.
    EndOfString,
    /// The line was given up.
    Abort,
    /// Nothing to show.
    NoOp,
}

impl View for OutputItem {
    type V = ItemModel;

    open spec fn view(&self) -> ItemModel {
        match self {
            OutputItem::Print(bytes) => ItemModel::Print(bytes@),
            OutputItem::MoveCursor(bytes) => ItemModel::MoveCursor(bytes@),
            OutputItem::ClearLine(bytes) => ItemModel::ClearLine(bytes@),
            OutputItem::EndOfString => ItemModel::EndOfString,
            OutputItem::Abort => ItemModel::Abort,
            OutputItem::NoOp => ItemModel::NoOp,
        }
    }
}

impl OutputItem {
    /// The bytes to send for this item, if it has any.
    pub fn get_bytes(&self) -> (bytes: Option<&[u8]>)
        ensures
            match bytes {
                Some(slice) => self@.bytes() == Some(slice@),
                None => self@.bytes().is_none(),
            },
    {
        match self {
            OutputItem::Print(bytes) => Some(bytes.as_slice()),
            OutputItem::MoveCursor(bytes) => Some(bytes.as_slice()),
            OutputItem::ClearLine(bytes) => Some(bytes.as_slice()),
            OutputItem::EndOfString => None,
            OutputItem::Abort => None,
            OutputItem::NoOp => None,
        }
    }
}

/// The views of a run of items.
pub open spec fn models_of(items: Seq<OutputItem>) -> Seq<ItemModel> {
    items.map_values(|item: OutputItem| item@)
}

/// The output that one event gives rise to: a finite run of items, in order.
#[derive(Debug, PartialEq, Eq)]
pub struct Output {
    items: Vec<OutputItem>,
}

impl View for Output {
    type V = Seq<ItemModel>;

    closed spec fn view(&self) -> Seq<ItemModel> {
        models_of(self.items@)
    }
}

impl Output {
    /// No output at all.
    pub fn empty() -> (output: Output)
        ensures
            output@ == Seq::<ItemModel>::empty(),
    {
        let output = Output { items: Vec::new() };
        assert(output@ =~= Seq::<ItemModel>::empty());
        output
    }

    /// One item by itself.
    pub fn single(item: OutputItem) -> (output: Output)
        ensures
            output@ == seq![item@],
    {
        let mut items: Vec<OutputItem> = Vec::new();
        items.push(item);
        let output = Output { items };
        assert(output@ =~= seq![item@]);
        output
    }

    /// The number of items.
    pub fn len(&self) -> (len: usize)
        ensures
            len == self@.len(),
    {
        self.items.len()
    }

    /// The item at `index`.
    pub fn get(&self, index: usize) -> (item: &OutputItem)
        requires
            index < self@.len(),
        ensures
            item@ == self@[index as int],
    {
        &self.items[index]
    }

    /// The items, in order.
    pub fn into_items(self) -> (items: Vec<OutputItem>)
        ensures
            models_of(items@) == self@,
    {
        self.items
    }
}

/// Cursor up one row, keeping the column (reverse index).
pub open spec fn up_bytes() -> Seq<u8> {
    seq![0x1Bu8, 0x4Du8]
}

/// Cursor down one row, keeping the column (index).
pub open spec fn down_bytes() -> Seq<u8> {
    seq![0x1Bu8, 0x44u8]
}

/// Cursor to the first column of the next row (next line).
pub open spec fn next_line_bytes() -> Seq<u8> {
    seq![0x1Bu8, 0x45u8]
}

/// Erase from the cursor to the end of the display.
pub open spec fn erase_bytes() -> Seq<u8> {
    seq![0x1Bu8, 0x5Bu8, 0x4Au8]
}

/// A number in decimal digits.
pub open spec fn decimal(n: nat) -> Seq<u8>
    decreases n,
{
    if n < 10 {
        seq![(0x30 + n) as u8]
    } else {
        decimal(n / 10).push((0x30 + n % 10) as u8)
    }
}

/// Cursor to a column of its row, the first column being 0
/// (cursor horizontal absolute, which counts from 1).
pub open spec fn column_bytes(column: nat) -> Seq<u8> {
    seq![0x1Bu8, 0x5Bu8] + decimal(column + 1).push(0x47u8)
}

/// `unit`, `times` times over.
pub open spec fn repeat(unit: Seq<u8>, times: nat) -> Seq<u8>
    decreases times,
{
    if times == 0 {
        Seq::empty()
    } else {
        repeat(unit, (times - 1) as nat) + unit
    }
}

/// The bytes that take the cursor from one cell to another: first to the
/// row, one row at a time, then to the column, where it differs.
pub open spec fn move_bytes(from: nat, to: nat, width: nat) -> Seq<u8> {
    let rows = if to / width < from / width {
        repeat(up_bytes(), (from / width - to / width) as nat)
    } else {
        repeat(down_bytes(), (to / width - from / width) as nat)
    };
    if to % width != from % width {
        rows + column_bytes(to % width)
    } else {
        rows
    }
}

/// The items that take the cursor from one cell to another: none where it is there already.
pub open spec fn move_items(from: nat, to: nat, width: nat) -> Seq<ItemModel> {
    if from == to {
        Seq::empty()
    } else {
        seq![ItemModel::MoveCursor(move_bytes(from, to, width))]
    }
}

/// The items that print `text` from cell `at` on. The text is cut where a
/// row ends, and behind each piece that fills its row the cursor is sent to
/// the next row: the display is never left to wrap by itself.
pub open spec fn print_items(text: Seq<u8>, at: nat, width: nat) -> Seq<ItemModel>
    decreases text.len(),
{
    let room = width - at % width;
    if text.len() == 0 || width == 0 {
        Seq::empty()
    } else if text.len() < room {
        seq![ItemModel::Print(text)]
    } else {
        seq![ItemModel::Print(text.take(room)), ItemModel::MoveCursor(next_line_bytes())]
            + print_items(text.skip(room), (at + room) as nat, width)
    }
}

/// The number of leading bytes that two lines share.
pub open spec fn common_prefix(a: Seq<u8>, b: Seq<u8>) -> nat
    decreases a.len(),
{
    if a.len() == 0 || b.len() == 0 || a[0] != b[0] {
        0
    } else {
        1 + common_prefix(a.skip(1), b.skip(1))
    }
}

/// The items that bring the display from one state of the line to another,
/// behind a prompt of `prompt` cells.
///
/// Where nothing changed there is nothing to show. Where only the cursor
/// moved, the cursor is moved. Otherwise the cursor goes to the first cell
/// that differs, the display is erased from there, the rest of the new line
/// is printed, and the cursor is put where the new line has it.
pub open spec fn redraw_items(prev: LineModel, next: LineModel, prompt: nat, width: nat) -> Seq<
    ItemModel,
> {
    if prev.content == next.content {
        if prev.cursor == next.cursor {
            seq![ItemModel::NoOp]
        } else {
            move_items(prompt + prev.cursor, prompt + next.cursor, width)
        }
    } else {
        let same = common_prefix(prev.content, next.content);
        move_items(prompt + prev.cursor, prompt + same, width) + seq![
            ItemModel::ClearLine(erase_bytes()),
        ] + print_items(next.content.skip(same as int), prompt + same, width) + move_items(
            prompt + next.content.len(),
            prompt + next.cursor,
            width,
        )
    }
}

/// The items that begin the reading of a line: the cursor goes to the first
/// column, the display is erased from there, and the prompt is printed.
pub open spec fn reset_items(prompt: Seq<u8>, width: nat) -> Seq<ItemModel> {
    seq![ItemModel::ClearLine(column_bytes(0) + erase_bytes())] + print_items(prompt, 0, width)
}

/// The items that end a line: the cursor goes behind the last byte, then to
/// the next row, and the end is marked. Nothing follows the mark.
pub open spec fn finish_items(line: LineModel, prompt: nat, width: nat) -> Seq<ItemModel> {
    move_items(prompt + line.cursor, prompt + line.content.len(), width) + seq![
        ItemModel::MoveCursor(next_line_bytes()),
        ItemModel::EndOfString,
    ]
}

/// The items that give a line up.
pub open spec fn abort_items() -> Seq<ItemModel> {
    seq![ItemModel::Abort]
}

/// The bytes of `bytes` from `from` up to `to`, copied.
pub fn copy_range(bytes: &[u8], from: usize, to: usize) -> (copy: Vec<u8>)
    requires
        from <= to <= bytes@.len(),
    ensures
        copy@ == bytes@.subrange(from as int, to as int),
{
    let mut copy: Vec<u8> = Vec::with_capacity(to - from);
    let mut i: usize = from;
    while i < to
        invariant
            from <= i <= to,
            to <= bytes@.len(),
            copy@ == bytes@.subrange(from as int, i as int),
        decreases to - i,
    {
        copy.push(bytes[i]);
        i = i + 1;
        assert(copy@ =~= bytes@.subrange(from as int, i as int));
    }
    copy
}

/// Appends a number in decimal digits.
fn push_decimal(out: &mut Vec<u8>, n: usize)
    ensures
        final(out)@ == old(out)@ + decimal(n as nat),
    decreases n,
{
    if n < 10 {
        out.push(0x30 + n as u8);
        assert(out@ =~= old(out)@ + decimal(n as nat));
    } else {
        push_decimal(out, n / 10);
        out.push(0x30 + (n % 10) as u8);
        assert(out@ =~= old(out)@ + decimal(n as nat));
    }
}

/// Appends `unit`, `times` times over.
fn push_repeat(out: &mut Vec<u8>, first: u8, second: u8, times: usize)
    ensures
        final(out)@ == old(out)@ + repeat(seq![first, second], times as nat),
{
    let mut i: usize = 0;
    assert(out@ =~= old(out)@ + repeat(seq![first, second], 0));
    while i < times
        invariant
            i <= times,
            out@ == old(out)@ + repeat(seq![first, second], i as nat),
        decreases times - i,
    {
        out.push(first);
        out.push(second);
        i = i + 1;
        assert(out@ =~= old(out)@ + repeat(seq![first, second], i as nat));
    }
}

/// Appends the sequence that sends the cursor to a column of its row.
fn push_column(out: &mut Vec<u8>, column: usize)
    requires
        column < usize::MAX,
    ensures
        final(out)@ == old(out)@ + column_bytes(column as nat),
{
    out.push(0x1B);
    out.push(0x5B);
    push_decimal(out, column + 1);
    out.push(0x47);
    assert(out@ =~= old(out)@ + column_bytes(column as nat));
}

/// The bytes that take the cursor from one cell to another.
pub fn cursor_move(from: usize, to: usize, width: u16) -> (bytes: Vec<u8>)
    requires
        width >= 1,
    ensures
        bytes@ == move_bytes(from as nat, to as nat, width as nat),
{
    let width: usize = width as usize;
    let mut bytes: Vec<u8> = Vec::new();
    let from_row: usize = from / width;
    let to_row: usize = to / width;
    if to_row < from_row {
        push_repeat(&mut bytes, 0x1B, 0x4D, from_row - to_row);
        assert(seq![0x1Bu8, 0x4Du8] =~= up_bytes());
    } else {
        push_repeat(&mut bytes, 0x1B, 0x44, to_row - from_row);
        assert(seq![0x1Bu8, 0x44u8] =~= down_bytes());
    }
    proof {
        let f: nat = from as nat;
        let t: nat = to as nat;
        let w: nat = width as nat;
        assert(from_row == f / w && to_row == t / w);
        assert(to % width == t % w && from % width == f % w);
    }
    if to % width != from % width {
        push_column(&mut bytes, to % width);
    }
    bytes
}

/// `models_of` goes through `push`.
proof fn lemma_models_push(items: Seq<OutputItem>, item: OutputItem)
    ensures
        models_of(items.push(item)) == models_of(items).push(item@),
{
    assert(models_of(items.push(item)) =~= models_of(items).push(item@));
}

/// Appends the items that take the cursor from one cell to another.
fn push_move(items: &mut Vec<OutputItem>, from: usize, to: usize, width: u16)
    requires
        width >= 1,
    ensures
        models_of(final(items)@) == models_of(old(items)@) + move_items(
            from as nat,
            to as nat,
            width as nat,
        ),
{
    if from != to {
        let bytes = cursor_move(from, to, width);
        proof {
            lemma_models_push(items@, OutputItem::MoveCursor(bytes));
        }
        items.push(OutputItem::MoveCursor(bytes));
    }
    assert(models_of(items@) =~= models_of(old(items)@) + move_items(
        from as nat,
        to as nat,
        width as nat,
    ));
}

/// Appends the items that print the bytes of `text` from index `from` on,
/// the first of them in cell `at`.
fn push_print(items: &mut Vec<OutputItem>, text: &[u8], from: usize, at: usize, width: u16)
    requires
        width >= 1,
        from <= text@.len(),
        at + (text@.len() - from) <= usize::MAX,
    ensures
        models_of(final(items)@) == models_of(old(items)@) + print_items(
            text@.skip(from as int),
            at as nat,
            width as nat,
        ),
{
    let ghost goal = models_of(old(items)@) + print_items(
        text@.skip(from as int),
        at as nat,
        width as nat,
    );
    let wide: usize = width as usize;
    let mut i: usize = from;
    let mut pos: usize = at;
    while i < text.len()
        invariant
            wide == width,
            width >= 1,
            from <= i <= text@.len(),
            pos == at + (i - from),
            at + (text@.len() - from) <= usize::MAX,
            models_of(items@) + print_items(text@.skip(i as int), pos as nat, width as nat)
                == goal,
        decreases text@.len() - i,
    {
        let ghost rest = text@.skip(i as int);
        let ghost done = models_of(items@);
        let room: usize = wide - pos % wide;
        let left: usize = text.len() - i;
        if left < room {
            let piece = copy_range(text, i, text.len());
            proof {
                assert(piece@ =~= rest);
                lemma_models_push(items@, OutputItem::Print(piece));
                assert(print_items(rest, pos as nat, width as nat) =~= seq![
                    ItemModel::Print(rest),
                ]);
            }
            items.push(OutputItem::Print(piece));
            pos = pos + left;
            i = text.len();
            proof {
                assert(text@.skip(i as int) =~= Seq::<u8>::empty());
                assert(models_of(items@) + print_items(
                    text@.skip(i as int),
                    pos as nat,
                    width as nat,
                ) =~= goal);
            }
        } else {
            let piece = copy_range(text, i, i + room);
            let next_line: Vec<u8> = vec![0x1Bu8, 0x45u8];
            proof {
                assert(piece@ =~= rest.take(room as int));
                assert(next_line@ =~= next_line_bytes());
                lemma_models_push(items@, OutputItem::Print(piece));
                lemma_models_push(
                    items@.push(OutputItem::Print(piece)),
                    OutputItem::MoveCursor(next_line),
                );
                assert(rest.skip(room as int) =~= text@.skip(i + room));
            }
            items.push(OutputItem::Print(piece));
            items.push(OutputItem::MoveCursor(next_line));
            pos = pos + room;
            i = i + room;
            proof {
                assert(models_of(items@) + print_items(
                    text@.skip(i as int),
                    pos as nat,
                    width as nat,
                ) =~= goal);
            }
        }
    }
    proof {
        assert(text@.skip(i as int) =~= Seq::<u8>::empty());
        assert(models_of(items@) =~= goal);
    }
}

/// The number of leading bytes that two lines share.
pub fn shared_prefix(a: &[u8], b: &[u8]) -> (same: usize)
    ensures
        same == common_prefix(a@, b@),
        same <= a@.len(),
        same <= b@.len(),
{
    let mut i: usize = 0;
    proof {
        assert(a@.skip(0) =~= a@);
        assert(b@.skip(0) =~= b@);
    }
    while i < a.len() && i < b.len() && a[i] == b[i]
        invariant
            i <= a@.len(),
            i <= b@.len(),
            common_prefix(a@, b@) == i + common_prefix(a@.skip(i as int), b@.skip(i as int)),
        decreases a@.len() - i,
    {
        proof {
            assert(a@.skip(i as int).skip(1) =~= a@.skip(i + 1));
            assert(b@.skip(i as int).skip(1) =~= b@.skip(i + 1));
        }
        i = i + 1;
    }
    i
}

/// What to send after the line changed from `prev`, with its cursor at
/// `prev_cursor`, to `next`, behind a prompt of `prompt` cells.
pub fn redraw(prev: &[u8], prev_cursor: usize, next: &LineBuffer, prompt: usize, width: u16) -> (output:
    Output)
    requires
        next.wf(),
        width >= 1,
        prev_cursor <= prev@.len() <= next@.capacity,
        prompt + next@.capacity <= usize::MAX,
    ensures
        output@ == redraw_items(
            LineModel { content: prev@, cursor: prev_cursor as nat, capacity: next@.capacity },
            next@,
            prompt as nat,
            width as nat,
        ),
{
    let mut items: Vec<OutputItem> = Vec::new();
    let now: &[u8] = next.as_slice();
    let same: usize = shared_prefix(prev, now);
    assert(models_of(items@) =~= Seq::<ItemModel>::empty());
    if same == prev.len() && same == now.len() {
        assert(prev@ =~= now@) by {
            lemma_common_prefix_all(prev@, now@);
        }
        if prev_cursor == next.cursor() {
            proof {
                lemma_models_push(items@, OutputItem::NoOp);
            }
            items.push(OutputItem::NoOp);
            assert(models_of(items@) =~= seq![ItemModel::NoOp]);
        } else {
            push_move(&mut items, prompt + prev_cursor, prompt + next.cursor(), width);
        }
    } else {
        proof {
            if prev@ == now@ {
                lemma_common_prefix_equal(prev@, now@);
            }
        }
        push_move(&mut items, prompt + prev_cursor, prompt + same, width);
        let erase: Vec<u8> = vec![0x1Bu8, 0x5Bu8, 0x4Au8];
        proof {
            assert(erase@ =~= erase_bytes());
            lemma_models_push(items@, OutputItem::ClearLine(erase));
        }
        items.push(OutputItem::ClearLine(erase));
        push_print(&mut items, now, same, prompt + same, width);
        push_move(&mut items, prompt + now.len(), prompt + next.cursor(), width);
    }
    Output { items }
}

/// What to send when the reading of a line begins.
pub fn reset_output(prompt: &[u8], width: u16) -> (output: Output)
    requires
        width >= 1,
    ensures
        output@ == reset_items(prompt@, width as nat),
{
    let mut items: Vec<OutputItem> = Vec::new();
    let mut clear: Vec<u8> = Vec::new();
    push_column(&mut clear, 0);
    clear.push(0x1B);
    clear.push(0x5B);
    clear.push(0x4A);
    proof {
        assert(clear@ =~= column_bytes(0) + erase_bytes());
        lemma_models_push(items@, OutputItem::ClearLine(clear));
    }
    items.push(OutputItem::ClearLine(clear));
    assert(models_of(items@) =~= seq![ItemModel::ClearLine(column_bytes(0) + erase_bytes())]);
    let cells: usize = prompt.len();
    proof {
        assert(prompt@.skip(0) =~= prompt@);
        assert(cells == prompt@.len());
    }
    push_print(&mut items, prompt, 0, 0, width);
    Output { items }
}

/// What to send when the line is complete.
pub fn finish_output(line: &LineBuffer, prompt: usize, width: u16) -> (output: Output)
    requires
        line.wf(),
        width >= 1,
        prompt + line@.capacity <= usize::MAX,
    ensures
        output@ == finish_items(line@, prompt as nat, width as nat),
{
    let mut items: Vec<OutputItem> = Vec::new();
    assert(models_of(items@) =~= Seq::<ItemModel>::empty());
    push_move(&mut items, prompt + line.cursor(), prompt + line.len(), width);
    let next_line: Vec<u8> = vec![0x1Bu8, 0x45u8];
    proof {
        assert(next_line@ =~= next_line_bytes());
        lemma_models_push(items@, OutputItem::MoveCursor(next_line));
        lemma_models_push(
            items@.push(OutputItem::MoveCursor(next_line)),
            OutputItem::EndOfString,
        );
    }
    items.push(OutputItem::MoveCursor(next_line));
    items.push(OutputItem::EndOfString);
    assert(models_of(items@) =~= finish_items(line@, prompt as nat, width as nat));
    Output { items }
}

/// What to send when the line is given up.
pub fn abort_output() -> (output: Output)
    ensures
        output@ == abort_items(),
{
    let mut items: Vec<OutputItem> = Vec::new();
    proof {
        lemma_models_push(items@, OutputItem::Abort);
    }
    items.push(OutputItem::Abort);
    assert(models_of(items@) =~= abort_items());
    Output { items }
}

/// What to send when there is nothing to show.
pub fn idle_output() -> (output: Output)
    ensures
        output@ == seq![ItemModel::NoOp],
{
    let mut items: Vec<OutputItem> = Vec::new();
    proof {
        lemma_models_push(items@, OutputItem::NoOp);
    }
    items.push(OutputItem::NoOp);
    assert(models_of(items@) =~= seq![ItemModel::NoOp]);
    Output { items }
}

/// Two lines that share as many leading bytes as both are long are the same line.
pub proof fn lemma_common_prefix_all(a: Seq<u8>, b: Seq<u8>)
    requires
        common_prefix(a, b) == a.len(),
        a.len() == b.len(),
    ensures
        a =~= b,
    decreases a.len(),
{
    if a.len() > 0 {
        lemma_common_prefix_all(a.skip(1), b.skip(1));
        assert forall|i: int| 0 <= i < a.len() implies a[i] == b[i] by {
            if i > 0 {
                assert(a.skip(1)[i - 1] == b.skip(1)[i - 1]);
            }
        }
    }
}

/// Two lines share no more leading bytes than either has.
pub proof fn lemma_common_prefix_bounds(a: Seq<u8>, b: Seq<u8>)
    ensures
        common_prefix(a, b) <= a.len(),
        common_prefix(a, b) <= b.len(),
    decreases a.len(),
{
    if a.len() > 0 && b.len() > 0 && a[0] == b[0] {
        lemma_common_prefix_bounds(a.skip(1), b.skip(1));
    }
}

/// A line shares all its bytes with itself.
pub proof fn lemma_common_prefix_equal(a: Seq<u8>, b: Seq<u8>)
    requires
        a == b,
    ensures
        common_prefix(a, b) == a.len(),
    decreases a.len(),
{
    if a.len() > 0 {
        lemma_common_prefix_equal(a.skip(1), b.skip(1));
    }
}

} // verus!
