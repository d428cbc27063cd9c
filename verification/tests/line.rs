use noline::history::get_history_entries;
use noline::line::Line;
use noline::output::OutputItem;
use noline::terminal::Terminal;

const SCREEN: Terminal = Terminal { width: 80, height: 24 };

fn type_in(line: &mut Line, input: &[u8]) -> Vec<OutputItem> {
    let mut items = Vec::new();
    for &byte in input {
        items.extend(line.advance(byte, &SCREEN).into_items());
    }
    items
}

#[test]
fn a_new_line_is_empty() {
    let line = Line::new(16, 4);
    assert_eq!(line.as_slice(), b"");
    assert_eq!(line.capacity(), 16);
    assert_eq!(line.history().len(), 0);
    assert_eq!(line.history().capacity(), 4);
    assert_eq!(line.history().bound(), 16);
}

#[test]
fn reset_empties_the_line_and_shows_the_prompt() {
    let mut line = Line::new(16, 4);
    line.reset(b"> ", &SCREEN);
    type_in(&mut line, b"abc");
    assert_eq!(line.as_slice(), b"abc");
    let items = line.reset(b"$ ", &SCREEN).into_items();
    assert_eq!(
        items,
        vec![
            OutputItem::ClearLine(b"\x1b[1G\x1b[J".to_vec()),
            OutputItem::Print(b"$ ".to_vec()),
        ]
    );
    assert_eq!(line.as_slice(), b"");
}

#[test]
fn reset_forgets_an_unfinished_sequence() {
    let mut line = Line::new(16, 0);
    line.reset(b"", &SCREEN);
    type_in(&mut line, b"\x1b[");
    line.reset(b"", &SCREEN);
    type_in(&mut line, b"A");
    assert_eq!(line.as_slice(), b"A");
}

#[test]
fn a_byte_inside_a_sequence_shows_nothing() {
    let mut line = Line::new(16, 0);
    line.reset(b"> ", &SCREEN);
    assert_eq!(type_in(&mut line, b"\x1b"), vec![OutputItem::NoOp]);
    assert_eq!(type_in(&mut line, b"["), vec![OutputItem::NoOp]);
    assert_eq!(type_in(&mut line, b"D"), vec![OutputItem::NoOp]);
    type_in(&mut line, b"ab");
    assert_eq!(type_in(&mut line, b"\x1b["), vec![OutputItem::NoOp, OutputItem::NoOp]);
    assert_eq!(type_in(&mut line, b"D"), vec![OutputItem::MoveCursor(b"\x1b[4G".to_vec())]);
}

#[test]
fn enter_pushes_the_line_and_ends_with_the_mark() {
    let mut line = Line::new(16, 4);
    line.reset(b"> ", &SCREEN);
    let items = type_in(&mut line, b"ls\r");
    assert_eq!(items.last(), Some(&OutputItem::EndOfString));
    assert_eq!(items[items.len() - 2], OutputItem::MoveCursor(b"\x1bE".to_vec()));
    assert_eq!(line.as_slice(), b"ls");
    let mut walk = get_history_entries(line.history());
    assert_eq!(walk.next().map(|e| e.to_vec()), Some(b"ls".to_vec()));
    assert_eq!(walk.next(), None);
}

#[test]
fn abort_empties_the_line_and_pushes_nothing() {
    let mut line = Line::new(16, 4);
    line.reset(b"> ", &SCREEN);
    assert_eq!(type_in(&mut line, b"rm -rf\x03").last(), Some(&OutputItem::Abort));
    assert_eq!(line.as_slice(), b"");
    assert_eq!(line.history().len(), 0);
}

#[test]
fn a_line_as_long_as_its_capacity_is_recalled_whole() {
    let mut line = Line::new(4, 2);
    line.reset(b"", &SCREEN);
    type_in(&mut line, b"abcd\r");
    line.reset(b"", &SCREEN);
    type_in(&mut line, b"\x1b[A");
    assert_eq!(line.as_slice(), b"abcd");
}

#[test]
fn loading_fills_the_free_slots() {
    let mut line = Line::new(8, 2);
    assert_eq!(line.load_history(&[b"a".as_slice(), b"b", b"c"]), 2);
    assert_eq!(line.history().len(), 2);
}
