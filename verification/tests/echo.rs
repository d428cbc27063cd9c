use noline::input::{DecoderState, KeyEvent, Parser};
use noline::negotiation::Initializer;
use noline::sync::{Editor, Request};

fn assert_inert(bytes: &[u8]) {
    let mut parser = Parser::new();
    for &byte in bytes {
        match parser.advance(byte) {
            None | Some(KeyEvent::Char(_)) | Some(KeyEvent::Unrecognized) => {}
            Some(key) => panic!("{:?} decoded from {:?}", key, bytes),
        }
    }
    assert_eq!(parser.state(), DecoderState::Ground);
}

/// All that a session sends for a run of input, item by item.
fn sent_for(width_reply: &[u8], prompt: &[u8], history: &[&[u8]], input: &[u8]) -> Vec<Vec<u8>> {
    let mut editor = Editor::new(64, 4);
    editor.initialize();
    let mut sent: Vec<Vec<u8>> = Vec::new();
    let mut feed = width_reply.iter().chain(input.iter()).copied();
    let mut started = false;
    loop {
        let verdict = match editor.request() {
            Request::Emit(bytes) => {
                if let Some(bytes) = bytes {
                    sent.push(bytes.to_vec());
                }
                editor.after_emit::<(), ()>(Ok(()))
            }
            Request::Receive => match feed.next() {
                Some(byte) => editor.after_receive::<(), ()>(Ok(byte)),
                None => return sent,
            },
            Request::Idle => None,
        };
        if verdict.is_some() || matches!(editor.request(), Request::Idle) {
            if started {
                return sent;
            }
            started = true;
            editor.load_history(history);
            editor.readline(prompt);
        }
    }
}

#[test]
fn the_probe_echoed_back_is_no_editing_key() {
    assert_inert(&Initializer::init());
}

#[test]
fn what_is_sent_while_editing_is_no_editing_key_when_echoed() {
    let input = b"hello world\x1b[D\x1b[D\x7f\x1b[H\x1b[3~abc\x1b[F\x1b[A\x1b[A\x1b[B\x1b[Bxyz\r";
    let history: [&[u8]; 2] = [b"first entry", b"second entry that is longer"];
    for reply in [b"\x1b[24;80R".as_slice(), b"\x1b[24;7R", b"\x1b[1;1R", b"\x1b[50;65535R"] {
        let sent = sent_for(reply, b"prompt> ", &history, input);
        assert!(sent.len() > 10);
        let mut all = Vec::new();
        for item in &sent {
            assert_inert(item);
            all.extend_from_slice(item);
        }
        assert_inert(&all);
    }
}

#[test]
fn a_prompt_with_a_control_byte_is_printed_as_it_is() {
    let sent = sent_for(b"\x1b[24;80R", b"a\rb", &[], b"");
    assert_eq!(sent[2], b"a\rb".to_vec());
}
