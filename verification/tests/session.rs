use std::collections::VecDeque;

use noline::builder::EditorBuilder;
use noline::error::EditorError;
use noline::negotiation::Initializer;
use noline::sync::{Editor, Read, Request, SessionState, Write};
use noline::terminal::Terminal;

type Verdict = Result<(), EditorError<&'static str, &'static str>>;

fn history_of(editor: &Editor) -> Vec<Vec<u8>> {
    let mut walk = editor.get_history();
    let mut found = Vec::new();
    while let Some(entry) = walk.next() {
        found.push(entry.to_vec());
    }
    found
}

/// Drives a call to its end: what is asked to be sent goes to `sent`, what is
/// asked to be read comes from `input`. Stops early when the input runs out.
fn drive(editor: &mut Editor, input: &[u8], sent: &mut Vec<u8>) -> Option<Verdict> {
    let mut input: VecDeque<u8> = input.iter().copied().collect();
    loop {
        let verdict = match editor.request() {
            Request::Emit(bytes) => {
                if let Some(bytes) = bytes {
                    sent.extend_from_slice(bytes);
                }
                editor.after_emit(Ok(()))
            }
            Request::Receive => match input.pop_front() {
                Some(byte) => editor.after_receive(Ok(byte)),
                None => return None,
            },
            Request::Idle => return None,
        };
        if let Some(verdict) = verdict {
            return Some(verdict);
        }
    }
}

fn ready(line_capacity: usize, history_capacity: usize) -> Editor {
    let mut editor = Editor::new(line_capacity, history_capacity);
    editor.initialize();
    let mut sent = Vec::new();
    assert_eq!(drive(&mut editor, b"\x1b[24;80R", &mut sent), Some(Ok(())));
    editor
}

fn read_line(editor: &mut Editor, prompt: &[u8], input: &[u8]) -> (Option<Verdict>, Vec<u8>) {
    let mut sent = Vec::new();
    if editor.can_finish() {
        editor.finish();
    }
    assert!(editor.can_read());
    editor.readline(prompt);
    let verdict = drive(editor, input, &mut sent);
    (verdict, sent)
}

#[test]
fn typing_hello_backspace_p_enter_returns_help() {
    let mut editor = Editor::new(10, 0);
    assert_eq!(editor.state(), SessionState::Uninitialized);
    assert_eq!(editor.line_capacity(), 10);
    editor.initialize();
    assert_eq!(editor.state(), SessionState::Negotiating);

    let mut sent = Vec::new();
    assert_eq!(drive(&mut editor, b"\x1b[24;80R", &mut sent), Some(Ok(())));
    assert_eq!(sent, Initializer::init());
    assert_eq!(editor.state(), SessionState::Ready);
    assert_eq!(editor.terminal(), Some(Terminal { width: 80, height: 24 }));

    editor.readline(b"> ");
    assert_eq!(editor.state(), SessionState::Editing);
    let mut sent = Vec::new();
    assert_eq!(drive(&mut editor, b"hello", &mut sent), None);
    assert_eq!(editor.line(), b"hello");
    assert_eq!(drive(&mut editor, b"\x7f\x7f", &mut sent), None);
    assert_eq!(editor.line(), b"hel");
    assert_eq!(drive(&mut editor, b"p", &mut sent), None);
    assert_eq!(editor.line(), b"help");
    assert_eq!(editor.state(), SessionState::Editing);

    assert_eq!(drive(&mut editor, b"\r", &mut sent), Some(Ok(())));
    assert_eq!(editor.state(), SessionState::Completed);
    assert_eq!(editor.finished(), Some(b"help".as_slice()));
    assert_eq!(editor.request(), Request::Idle);
    assert!(!editor.can_read());
    assert!(editor.can_finish());
    editor.finish();
    assert_eq!(editor.state(), SessionState::Ready);
    assert_eq!(editor.line(), b"help");
    assert_eq!(editor.finished(), None);
    assert!(editor.can_read());
    assert_eq!(
        sent,
        b"\x1b[1G\x1b[J> \x1b[Jh\x1b[Je\x1b[Jl\x1b[Jl\x1b[Jo\x1b[7G\x1b[J\x1b[6G\x1b[J\x1b[Jp\x1bE"
            .to_vec()
    );
}

#[test]
fn one_backspace_removes_one_byte() {
    let mut editor = ready(10, 0);
    let (verdict, sent) = read_line(&mut editor, b"> ", b"hello\x7fp\r");
    assert_eq!(verdict, Some(Ok(())));
    assert_eq!(editor.line(), b"hellp");
    assert_eq!(
        sent,
        b"\x1b[1G\x1b[J> \x1b[Jh\x1b[Je\x1b[Jl\x1b[Jl\x1b[Jo\x1b[7G\x1b[J\x1b[Jp\x1bE".to_vec()
    );
}

#[test]
fn nothing_is_read_before_what_is_pending_was_sent() {
    let mut editor = Editor::new(10, 0);
    editor.initialize();
    assert_eq!(editor.request(), Request::Emit(Some(b"\x1b7\x1b[999;999f\x1b[6n\x1b8".as_slice())));
    assert_eq!(editor.after_emit::<(), ()>(Ok(())), None);
    assert_eq!(editor.request(), Request::Receive);
}

#[test]
fn a_session_that_has_not_begun_asks_for_nothing() {
    let editor = Editor::new(10, 2);
    assert_eq!(editor.request(), Request::Idle);
    assert_eq!(editor.terminal(), None);
    assert!(!editor.can_read());
}

#[test]
fn a_malformed_answer_fails_the_session() {
    let mut editor = Editor::new(10, 0);
    editor.initialize();
    let mut sent = Vec::new();
    assert_eq!(drive(&mut editor, b"\x1b[24;x", &mut sent), Some(Err(EditorError::ParserError)));
    assert_eq!(editor.state(), SessionState::Failed);
    assert_eq!(editor.terminal(), None);
    assert!(!editor.can_read());
    assert!(!editor.can_finish());
    assert_eq!(editor.request(), Request::Idle);
}

#[test]
fn a_write_error_while_negotiating_fails_the_session() {
    let mut editor = Editor::new(10, 0);
    editor.initialize();
    assert_eq!(
        editor.after_emit::<&str, &str>(Err("no carrier")),
        Some(Err(EditorError::WriteError("no carrier")))
    );
    assert_eq!(editor.state(), SessionState::Failed);
    assert!(!editor.can_read());
}

#[test]
fn a_read_error_while_negotiating_fails_the_session() {
    let mut editor = Editor::new(10, 0);
    editor.initialize();
    assert_eq!(editor.after_emit::<&str, &str>(Ok(())), None);
    assert_eq!(
        editor.after_receive::<&str, &str>(Err("framing")),
        Some(Err(EditorError::ReadError("framing")))
    );
    assert_eq!(editor.state(), SessionState::Failed);
    assert!(!editor.can_read());
}

#[test]
fn a_read_error_while_editing_fails_that_call_only() {
    let mut editor = ready(10, 0);
    let (verdict, _) = read_line(&mut editor, b"> ", b"ab");
    assert_eq!(verdict, None);
    assert_eq!(
        editor.after_receive::<&str, &str>(Err("overrun")),
        Some(Err(EditorError::ReadError("overrun")))
    );
    assert_eq!(editor.state(), SessionState::Failed);
    assert_eq!(editor.finished(), None);
    assert!(editor.can_finish());
    let (verdict, _) = read_line(&mut editor, b"> ", b"ok\r");
    assert_eq!(verdict, Some(Ok(())));
    assert_eq!(editor.line(), b"ok");
}

#[test]
fn a_write_error_while_editing_fails_that_call_and_sends_nothing_more() {
    let mut editor = ready(10, 0);
    editor.readline(b"> ");
    assert_eq!(editor.request(), Request::Emit(Some(b"\x1b[1G\x1b[J".as_slice())));
    assert_eq!(
        editor.after_emit::<&str, &str>(Err("gone")),
        Some(Err(EditorError::WriteError("gone")))
    );
    assert_eq!(editor.state(), SessionState::Failed);
    assert_eq!(editor.request(), Request::Idle);
    assert!(editor.can_finish());
}

#[test]
fn the_abort_key_gives_the_line_up() {
    let mut editor = ready(10, 3);
    let (verdict, _) = read_line(&mut editor, b"> ", b"secret\x03");
    assert_eq!(verdict, Some(Err(EditorError::Aborted)));
    assert_eq!(editor.state(), SessionState::Aborted);
    assert_eq!(editor.line(), b"");
    assert_eq!(editor.finished(), None);
    assert_eq!(history_of(&editor).len(), 0);
    assert!(editor.can_finish());
    editor.finish();
    assert!(editor.can_read());
}

#[test]
fn a_full_line_drops_the_key_and_goes_on() {
    let mut editor = ready(3, 0);
    let (verdict, sent) = read_line(&mut editor, b"", b"abcd\r");
    assert_eq!(verdict, Some(Ok(())));
    assert_eq!(editor.line(), b"abc");
    assert_eq!(sent, b"\x1b[1G\x1b[J\x1b[Ja\x1b[Jb\x1b[Jc\x1bE".to_vec());
}

#[test]
fn completed_lines_go_to_the_history_and_empty_ones_do_not() {
    let mut editor = ready(10, 2);
    for line in [b"a\r".as_slice(), b"\r", b"b\r", b"c\r"] {
        let (verdict, _) = read_line(&mut editor, b"$ ", line);
        assert_eq!(verdict, Some(Ok(())));
    }
    let entries = history_of(&editor);
    assert_eq!(entries, vec![b"b".to_vec(), b"c".to_vec()]);
}

#[test]
fn up_and_down_walk_through_the_history() {
    let mut editor = ready(10, 3);
    assert_eq!(editor.load_history(&[b"one".as_slice(), b"two"]), 2);
    editor.readline(b"> ");
    let mut sent = Vec::new();
    assert_eq!(drive(&mut editor, b"\x1b[A", &mut sent), None);
    assert_eq!(editor.line(), b"two");
    assert_eq!(drive(&mut editor, b"\x1b[A", &mut sent), None);
    assert_eq!(editor.line(), b"one");
    assert_eq!(drive(&mut editor, b"\x1b[A", &mut sent), None);
    assert_eq!(editor.line(), b"one");
    assert_eq!(drive(&mut editor, b"\x1b[B", &mut sent), None);
    assert_eq!(editor.line(), b"two");
    assert_eq!(drive(&mut editor, b"\x1b[B", &mut sent), None);
    assert_eq!(editor.line(), b"");
    assert_eq!(drive(&mut editor, b"\x1b[B", &mut sent), None);
    assert_eq!(editor.line(), b"");
    assert_eq!(drive(&mut editor, b"\x1b[A!\r", &mut sent), Some(Ok(())));
    assert_eq!(editor.line(), b"two!");
    let entries = history_of(&editor);
    assert_eq!(entries, vec![b"one".to_vec(), b"two".to_vec(), b"two!".to_vec()]);
}

#[test]
fn recalling_an_entry_redraws_from_the_first_difference() {
    let mut editor = ready(10, 3);
    editor.load_history(&[b"help".as_slice()]);
    editor.readline(b"> ");
    let mut sent = Vec::new();
    drive(&mut editor, b"he", &mut sent);
    sent.clear();
    assert_eq!(drive(&mut editor, b"\x1b[A", &mut sent), None);
    assert_eq!(sent, b"\x1b[Jlp".to_vec());
}

#[test]
fn keys_edit_inside_the_line() {
    let mut editor = ready(10, 0);
    let (verdict, _) = read_line(&mut editor, b"> ", b"hllo\x1b[D\x1b[D\x1b[De\x1b[F!\x1b[Hx\x1b[3~\r");
    assert_eq!(verdict, Some(Ok(())));
    assert_eq!(editor.line(), b"xello!");
}

#[test]
fn control_letters_and_unknown_sequences_change_nothing() {
    let mut editor = ready(10, 0);
    editor.readline(b"> ");
    let mut sent = Vec::new();
    drive(&mut editor, b"ab", &mut sent);
    sent.clear();
    assert_eq!(drive(&mut editor, b"\x01\x1bO\x1b[5Z\x00", &mut sent), None);
    assert_eq!(editor.line(), b"ab");
    assert_eq!(sent, b"".to_vec());
    assert_eq!(drive(&mut editor, b"P", &mut sent), None);
    assert_eq!(editor.line(), b"abP");
}

#[test]
fn load_history_stops_when_the_history_is_full() {
    let mut editor = ready(4, 2);
    assert_eq!(editor.load_history(&[b"first".as_slice(), b"second", b"third"]), 2);
    let entries = history_of(&editor);
    assert_eq!(entries, vec![b"firs".to_vec(), b"seco".to_vec()]);
}

struct Script {
    input: VecDeque<u8>,
    written: Vec<u8>,
    flushes: usize,
    fail_flush_at: Option<usize>,
}

impl Script {
    fn new(input: &[u8]) -> Script {
        Script { input: input.iter().copied().collect(), written: Vec::new(), flushes: 0, fail_flush_at: None }
    }
}

struct Reader<'a>(&'a mut VecDeque<u8>);

struct Writer<'a> {
    written: &'a mut Vec<u8>,
    flushes: &'a mut usize,
    fail_flush_at: Option<usize>,
}

impl<'a> Read for Reader<'a> {
    type Error = &'static str;

    fn read(&mut self) -> Result<u8, Self::Error> {
        self.0.pop_front().ok_or("end of input")
    }
}

impl<'a> Write for Writer<'a> {
    type Error = &'static str;

    fn write(&mut self, buf: &[u8]) -> Result<(), Self::Error> {
        self.written.extend_from_slice(buf);
        Ok(())
    }

    fn flush(&mut self) -> Result<(), Self::Error> {
        *self.flushes += 1;
        if self.fail_flush_at == Some(*self.flushes) {
            Err("flush failed")
        } else {
            Ok(())
        }
    }
}

fn turns(editor: &mut Editor, script: &mut Script) -> Verdict {
    loop {
        let mut reader = Reader(&mut script.input);
        let mut writer = Writer {
            written: &mut script.written,
            flushes: &mut script.flushes,
            fail_flush_at: script.fail_flush_at,
        };
        if let Some(verdict) = editor.turn(&mut reader, &mut writer) {
            return verdict;
        }
    }
}

#[test]
fn turns_on_a_waiting_transport_read_a_line() {
    let mut editor = EditorBuilder::new_static::<10>().with_static_history::<4>().build_sync().unwrap();
    let mut script = Script::new(b"\x1b[24;80Rhi\r");
    assert_eq!(turns(&mut editor, &mut script), Ok(()));
    assert_eq!(editor.state(), SessionState::Ready);
    assert_eq!(script.flushes, 1);
    editor.readline(b"> ");
    assert_eq!(turns(&mut editor, &mut script), Ok(()));
    assert_eq!(editor.line(), b"hi");
    assert_eq!(script.written, b"\x1b7\x1b[999;999f\x1b[6n\x1b8\x1b[1G\x1b[J> \x1b[Jh\x1b[Ji\x1bE".to_vec());
    // One flush for each item: the probe; two for the reset; two for each
    // key typed; two for the end of the line.
    assert_eq!(script.flushes, 1 + 2 + 2 + 2 + 2);
}

#[test]
fn a_flush_that_fails_is_a_write_error() {
    let mut editor = EditorBuilder::new_static::<10>().build_sync().unwrap();
    let mut script = Script::new(b"\x1b[24;80R");
    script.fail_flush_at = Some(1);
    assert_eq!(turns(&mut editor, &mut script), Err(EditorError::WriteError("flush failed")));
    assert_eq!(script.written, b"\x1b7\x1b[999;999f\x1b[6n\x1b8".to_vec());
}

#[test]
fn running_out_of_input_is_a_read_error() {
    let mut editor = EditorBuilder::new_static::<10>().build_sync().unwrap();
    let mut script = Script::new(b"\x1b[24;");
    assert_eq!(turns(&mut editor, &mut script), Err(EditorError::ReadError("end of input")));
    assert_eq!(editor.state(), SessionState::Failed);
}

#[test]
fn a_turn_with_no_call_under_way_does_nothing() {
    let mut editor = Editor::new(10, 0);
    let mut script = Script::new(b"abc");
    let mut reader = Reader(&mut script.input);
    let mut writer =
        Writer { written: &mut script.written, flushes: &mut script.flushes, fail_flush_at: None };
    assert_eq!(editor.turn(&mut reader, &mut writer), None);
    assert_eq!(editor.state(), SessionState::Uninitialized);
    assert_eq!(script.input.len(), 3);
    assert_eq!(script.flushes, 0);
}

type Fed = (usize, Option<Result<(), EditorError<(), ()>>>);

#[test]
fn feeding_the_answer_sets_the_session_up() {
    let mut editor = Editor::new(10, 0);
    editor.initialize();
    let mut sent = b"kept".to_vec();
    let fed: Fed = editor.feed(b"\x1b[24;80Rextra", &mut sent);
    assert_eq!(fed, (8, Some(Ok(()))));
    assert_eq!(sent, b"kept\x1b7\x1b[999;999f\x1b[6n\x1b8".to_vec());
    assert_eq!(editor.state(), SessionState::Ready);
}

#[test]
fn feeding_stops_when_the_input_runs_out() {
    let mut editor = Editor::new(10, 0);
    editor.initialize();
    let mut sent = Vec::new();
    let fed: Fed = editor.feed(b"\x1b[24", &mut sent);
    assert_eq!(fed, (4, None));
    assert_eq!(editor.state(), SessionState::Negotiating);
    assert_eq!(editor.request(), Request::Receive);
    let fed: Fed = editor.feed(b"", &mut sent);
    assert_eq!(fed, (0, None));
    let fed: Fed = editor.feed(b";80R", &mut sent);
    assert_eq!(fed, (4, Some(Ok(()))));
    assert_eq!(editor.terminal(), Some(Terminal { width: 80, height: 24 }));
}

#[test]
fn feeding_a_line_reads_up_to_its_end_and_no_further() {
    let mut editor = ready(10, 2);
    editor.readline(b"> ");
    let mut sent = Vec::new();
    let fed: Fed = editor.feed(b"hi\rnext", &mut sent);
    assert_eq!(fed, (3, Some(Ok(()))));
    assert_eq!(editor.finished(), Some(b"hi".as_slice()));
    assert_eq!(sent, b"\x1b[1G\x1b[J> \x1b[Jh\x1b[Ji\x1bE".to_vec());
    let fed: Fed = editor.feed(b"next", &mut sent);
    assert_eq!(fed, (0, None));
}

#[test]
fn feeding_an_abort_ends_with_aborted() {
    let mut editor = ready(10, 2);
    editor.readline(b"> ");
    let mut sent = Vec::new();
    let fed: Fed = editor.feed(b"oops\x03", &mut sent);
    assert_eq!(fed, (5, Some(Err(EditorError::Aborted))));
    assert_eq!(editor.state(), SessionState::Aborted);
}

#[test]
fn feeding_a_malformed_answer_ends_with_a_parser_error() {
    let mut editor = Editor::new(10, 0);
    editor.initialize();
    let mut sent = Vec::new();
    let fed: Fed = editor.feed(b"\x1b[2x;80R", &mut sent);
    assert_eq!(fed, (4, Some(Err(EditorError::ParserError))));
    assert_eq!(editor.state(), SessionState::Failed);
}
