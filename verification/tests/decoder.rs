use noline::input::{key_of_byte, key_of_final, DecoderState, KeyEvent, Parser, MAX_PARAMS};

fn feed(parser: &mut Parser, bytes: &[u8]) -> Vec<KeyEvent> {
    let mut keys = Vec::new();
    for &byte in bytes {
        if let Some(key) = parser.advance(byte) {
            keys.push(key);
        }
    }
    keys
}

#[test]
fn escape_bracket_a_is_up() {
    let mut parser = Parser::new();
    assert_eq!(feed(&mut parser, b"\x1b[A"), vec![KeyEvent::Up]);
    assert_eq!(parser.state(), DecoderState::Ground);
}

#[test]
fn escape_bracket_d_is_left() {
    let mut parser = Parser::new();
    assert_eq!(feed(&mut parser, b"\x1b[D"), vec![KeyEvent::Left]);
    assert_eq!(parser.state(), DecoderState::Ground);
}

#[test]
fn unfinished_sequence_then_unrelated_byte_is_unrecognized() {
    let mut parser = Parser::new();
    assert_eq!(feed(&mut parser, b"\x1b["), vec![]);
    assert_eq!(parser.state(), DecoderState::CsiParams(0));
    assert_eq!(parser.advance(b'x'), Some(KeyEvent::Unrecognized));
    assert_eq!(parser.state(), DecoderState::Ground);
}

#[test]
fn every_known_final_byte_has_its_key() {
    let cases: [(u8, KeyEvent); 7] = [
        (b'A', KeyEvent::Up),
        (b'B', KeyEvent::Down),
        (b'C', KeyEvent::Right),
        (b'D', KeyEvent::Left),
        (b'H', KeyEvent::Home),
        (b'F', KeyEvent::End),
        (b'~', KeyEvent::Delete),
    ];
    for (last, key) in cases {
        let mut parser = Parser::new();
        assert_eq!(feed(&mut parser, &[0x1B, b'[', last]), vec![key]);
        assert_eq!(key_of_final(last), key);
        assert_eq!(parser.state(), DecoderState::Ground);
    }
}

#[test]
fn parameters_are_counted_and_the_final_byte_decides() {
    let mut parser = Parser::new();
    assert_eq!(feed(&mut parser, b"\x1b[3"), vec![]);
    assert_eq!(parser.state(), DecoderState::CsiParams(1));
    assert_eq!(parser.advance(b'~'), Some(KeyEvent::Delete));
    assert_eq!(feed(&mut parser, b"\x1b[1;5"), vec![]);
    assert_eq!(parser.state(), DecoderState::CsiParams(3));
    assert_eq!(parser.advance(b'C'), Some(KeyEvent::Right));
    assert_eq!(parser.state(), DecoderState::Ground);
}

#[test]
fn escape_then_anything_but_bracket_is_unrecognized() {
    for second in [b'O', b'a', 0x1B, 0x00, b']'] {
        let mut parser = Parser::new();
        assert_eq!(parser.advance(0x1B), None);
        assert_eq!(parser.state(), DecoderState::Escape);
        assert_eq!(parser.advance(second), Some(KeyEvent::Unrecognized));
        assert_eq!(parser.state(), DecoderState::Ground);
    }
}

#[test]
fn too_many_parameters_reset_the_decoder() {
    let mut parser = Parser::new();
    assert_eq!(feed(&mut parser, b"\x1b["), vec![]);
    for seen in 0..MAX_PARAMS {
        assert_eq!(parser.state(), DecoderState::CsiParams(seen));
        assert_eq!(parser.advance(b'1'), None);
    }
    assert_eq!(parser.state(), DecoderState::CsiParams(MAX_PARAMS));
    assert_eq!(parser.advance(b'1'), Some(KeyEvent::Unrecognized));
    assert_eq!(parser.state(), DecoderState::Ground);
    assert_eq!(parser.advance(b'A'), Some(KeyEvent::Char(b'A')));
}

#[test]
fn control_bytes_have_their_keys() {
    assert_eq!(key_of_byte(0x0D), KeyEvent::Enter);
    assert_eq!(key_of_byte(0x03), KeyEvent::Abort);
    assert_eq!(key_of_byte(0x08), KeyEvent::Backspace);
    assert_eq!(key_of_byte(0x7F), KeyEvent::Backspace);
    assert_eq!(key_of_byte(0x01), KeyEvent::CtrlLetter(b'A'));
    assert_eq!(key_of_byte(0x0A), KeyEvent::CtrlLetter(b'J'));
    assert_eq!(key_of_byte(0x1A), KeyEvent::CtrlLetter(b'Z'));
    assert_eq!(key_of_byte(0x00), KeyEvent::Unrecognized);
    assert_eq!(key_of_byte(0x1C), KeyEvent::Unrecognized);
    assert_eq!(key_of_byte(0x1F), KeyEvent::Unrecognized);
}

#[test]
fn printable_bytes_pass_through_unchanged() {
    let mut parser = Parser::new();
    assert_eq!(
        feed(&mut parser, b" az~"),
        vec![KeyEvent::Char(b' '), KeyEvent::Char(b'a'), KeyEvent::Char(b'z'), KeyEvent::Char(b'~')]
    );
    assert_eq!(feed(&mut parser, &[0x80, 0xC3, 0xFF]), vec![
        KeyEvent::Char(0x80),
        KeyEvent::Char(0xC3),
        KeyEvent::Char(0xFF)
    ]);
    assert_eq!(parser.state(), DecoderState::Ground);
}

#[test]
fn control_bytes_do_not_enter_escape() {
    let mut parser = Parser::new();
    assert_eq!(parser.advance(0x05), Some(KeyEvent::CtrlLetter(b'E')));
    assert_eq!(parser.state(), DecoderState::Ground);
}

#[test]
fn decoder_never_stalls_on_any_two_bytes_after_a_sequence_opens() {
    for first in 0..=255u8 {
        for second in 0..=255u8 {
            let mut parser = Parser::new();
            feed(&mut parser, b"\x1b[");
            parser.advance(first);
            parser.advance(second);
            match parser.state() {
                DecoderState::CsiParams(seen) => assert!(seen <= MAX_PARAMS),
                DecoderState::Ground | DecoderState::Escape => {}
            }
        }
    }
}
