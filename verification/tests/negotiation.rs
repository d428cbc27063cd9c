use noline::negotiation::{
    Initializer, InitializerResult, NegotiationState, Partial, ReplyField,
};
use noline::terminal::Terminal;

fn run(reply: &[u8]) -> (Vec<InitializerResult>, NegotiationState) {
    let mut initializer = Initializer::new();
    let results = reply.iter().map(|&byte| initializer.advance(byte)).collect();
    (results, initializer.state())
}

#[test]
fn reply_for_80_by_24_gives_that_terminal() {
    let (results, state) = run(b"\x1b[24;80R");
    let terminal = Terminal { width: 80, height: 24 };
    assert_eq!(results.last(), Some(&InitializerResult::Item(terminal)));
    assert!(results[..results.len() - 1].iter().all(|r| *r == InitializerResult::Continue));
    assert_eq!(state, NegotiationState::Done(terminal));
}

#[test]
fn the_probe_is_the_fixed_sequence() {
    assert_eq!(Initializer::init(), b"\x1b7\x1b[999;999f\x1b[6n\x1b8".to_vec());
}

#[test]
fn a_fresh_negotiation_awaits_the_response() {
    assert_eq!(Initializer::new().state(), NegotiationState::AwaitingResponse);
}

#[test]
fn the_state_follows_the_reply() {
    let mut initializer = Initializer::new();
    assert_eq!(initializer.advance(0x1B), InitializerResult::Continue);
    assert_eq!(
        initializer.state(),
        NegotiationState::Parsing(Partial {
            field: ReplyField::Introducer,
            rows: 0,
            columns: 0,
            started: false
        })
    );
    assert_eq!(initializer.advance(b'['), InitializerResult::Continue);
    assert_eq!(initializer.advance(b'1'), InitializerResult::Continue);
    assert_eq!(initializer.advance(b'2'), InitializerResult::Continue);
    assert_eq!(
        initializer.state(),
        NegotiationState::Parsing(Partial {
            field: ReplyField::Rows,
            rows: 12,
            columns: 0,
            started: true
        })
    );
    assert_eq!(initializer.advance(b';'), InitializerResult::Continue);
    assert_eq!(initializer.advance(b'7'), InitializerResult::Continue);
    assert_eq!(
        initializer.state(),
        NegotiationState::Parsing(Partial {
            field: ReplyField::Columns,
            rows: 12,
            columns: 7,
            started: true
        })
    );
    assert_eq!(
        initializer.advance(b'R'),
        InitializerResult::Item(Terminal { width: 7, height: 12 })
    );
}

#[test]
fn a_byte_out_of_place_is_invalid_input() {
    for reply in [
        b"x".as_slice(),
        b"\x1bx",
        b"\x1b[x",
        b"\x1b[;",
        b"\x1b[24x",
        b"\x1b[24;R",
        b"\x1b[24;80x",
        b"\x1b[24R",
        b"\x1b[24;80;",
    ] {
        let (results, state) = run(reply);
        assert_eq!(results.last(), Some(&InitializerResult::InvalidInput));
        assert!(results[..results.len() - 1].iter().all(|r| *r == InitializerResult::Continue));
        assert_eq!(state, NegotiationState::Failed);
    }
}

#[test]
fn a_size_of_zero_is_invalid_input() {
    assert_eq!(run(b"\x1b[0;80R").1, NegotiationState::Failed);
    assert_eq!(run(b"\x1b[24;0R").1, NegotiationState::Failed);
    assert_eq!(run(b"\x1b[00;80R").1, NegotiationState::Failed);
}

#[test]
fn sizes_up_to_sixteen_bits_are_taken_and_no_more() {
    assert_eq!(
        run(b"\x1b[65535;65535R").1,
        NegotiationState::Done(Terminal { width: 65535, height: 65535 })
    );
    assert_eq!(run(b"\x1b[65536;80R").1, NegotiationState::Failed);
    assert_eq!(run(b"\x1b[24;65536R").1, NegotiationState::Failed);
    assert_eq!(run(b"\x1b[24;99999R").1, NegotiationState::Failed);
    assert_eq!(
        run(b"\x1b[007;0012R").1,
        NegotiationState::Done(Terminal { width: 12, height: 7 })
    );
}

#[test]
fn failure_is_final() {
    let mut initializer = Initializer::new();
    assert_eq!(initializer.advance(b'x'), InitializerResult::InvalidInput);
    for &byte in b"\x1b[24;80R" {
        assert_eq!(initializer.advance(byte), InitializerResult::InvalidInput);
        assert_eq!(initializer.state(), NegotiationState::Failed);
    }
}

#[test]
fn the_size_is_frozen_once_known() {
    let mut initializer = Initializer::new();
    for &byte in b"\x1b[24;80R" {
        initializer.advance(byte);
    }
    let terminal = Terminal { width: 80, height: 24 };
    for &byte in b"\x1b[10;20R" {
        assert_eq!(initializer.advance(byte), InitializerResult::InvalidInput);
        assert_eq!(initializer.state(), NegotiationState::Done(terminal));
    }
}

#[test]
fn a_terminal_needs_a_row_and_a_column() {
    assert_eq!(Terminal::new(80, 24), Some(Terminal { width: 80, height: 24 }));
    assert_eq!(Terminal::new(1, 1), Some(Terminal { width: 1, height: 1 }));
    assert_eq!(Terminal::new(0, 24), None);
    assert_eq!(Terminal::new(80, 0), None);
}
