//! Incremental decoder from raw input bytes to key events.
//!
//! Bytes are passed through as they come: a printable byte is a key by
//! itself, whatever character it may be part of, and the line counts bytes.
//! Of the control bytes, carriage return completes the line, `0x03` gives
//! it up, backspace and DEL erase, and the others are named by their letter.
use vstd::prelude::*;

verus! {

/// A logical key, as the editor understands it.
#[derive(Clone, Copy, Debug, PartialEq, Eq, Structural)]
pub enum KeyEvent {
    /// A printable byte, passed through unchanged.
    Char(u8),
    Enter,
    Backspace,
    Delete,
    Left,
    Right,
    Home,
    End,
    Up,
    Down,
    /// A control byte, named by its upper-case letter.
    CtrlLetter(u8),
    Abort,
    Unrecognized,
}

/// Where the decoder stands inside an escape sequence.
#[derive(Clone, Copy, Debug, PartialEq, Eq, Structural)]
pub enum DecoderState {
    Ground,
    Escape,
    /// Inside a control sequence, with the number of parameter bytes seen.
    CsiParams(u8),
}

/// Most parameter bytes a control sequence may carry.
pub const MAX_PARAMS: u8 = 16;

pub const ESC: u8 = 0x1B;

/// Digits and the separator `;`.
pub open spec fn is_param(byte: u8) -> bool {
    (0x30 <= byte && byte <= 0x39) || byte == 0x3B
}

/// Bytes that stand for themselves: everything from space upwards but DEL.
pub open spec fn is_printable(byte: u8) -> bool {
    byte >= 0x20 && byte != 0x7F
}

/// The key that a single byte means outside any escape sequence.
/// The escape byte itself has no meaning here and is left out.
pub open spec fn ground_key(byte: u8) -> KeyEvent {
    if byte == 0x0D {
        KeyEvent::Enter
    } else if byte == 0x03 {
        KeyEvent::Abort
    } else if byte == 0x08 || byte == 0x7F {
        KeyEvent::Backspace
    } else if 0x01 <= byte && byte <= 0x1A {
        KeyEvent::CtrlLetter((byte + 0x40) as u8)
    } else if is_printable(byte) {
        KeyEvent::Char(byte)
    } else {
        KeyEvent::Unrecognized
    }
}

/// The key that the byte ending a control sequence resolves to.
pub open spec fn csi_key(byte: u8) -> KeyEvent {
    if byte == 0x41 {
        KeyEvent::Up
    } else if byte == 0x42 {
        KeyEvent::Down
    } else if byte == 0x43 {
        KeyEvent::Right
    } else if byte == 0x44 {
        KeyEvent::Left
    } else if byte == 0x48 {
        KeyEvent::Home
    } else if byte == 0x46 {
        KeyEvent::End
    } else if byte == 0x7E {
        KeyEvent::Delete
    } else {
        KeyEvent::Unrecognized
    }
}

/// One step of the decoder: the state it moves to, and the key it emits, if any.
pub open spec fn step(state: DecoderState, byte: u8) -> (DecoderState, Option<KeyEvent>) {
    match state {
        DecoderState::Ground => if byte == ESC {
            (DecoderState::Escape, None)
        } else {
            (DecoderState::Ground, Some(ground_key(byte)))
        },
        DecoderState::Escape => if byte == 0x5B {
            (DecoderState::CsiParams(0), None)
        } else {
            (DecoderState::Ground, Some(KeyEvent::Unrecognized))
        },
        DecoderState::CsiParams(seen) => if is_param(byte) {
            if seen < MAX_PARAMS {
                (DecoderState::CsiParams((seen + 1) as u8), None)
            } else {
                (DecoderState::Ground, Some(KeyEvent::Unrecognized))
            }
        } else {
            (DecoderState::Ground, Some(csi_key(byte)))
        },
    }
}

/// The state the decoder reaches from `state` over a run of bytes.
pub open spec fn run_state(state: DecoderState, bytes: Seq<u8>) -> DecoderState
    decreases bytes.len(),
{
    if bytes.len() == 0 {
        state
    } else {
        run_state(step(state, bytes[0]).0, bytes.skip(1))
    }
}

/// The keys the decoder emits from `state` over a run of bytes, in order.
pub open spec fn run_keys(state: DecoderState, bytes: Seq<u8>) -> Seq<KeyEvent>
    decreases bytes.len(),
{
    if bytes.len() == 0 {
        Seq::empty()
    } else {
        let rest = run_keys(step(state, bytes[0]).0, bytes.skip(1));
        match step(state, bytes[0]).1 {
            Some(key) => seq![key] + rest,
            None => rest,
        }
    }
}

/// States that the decoder can be in: the count of parameter bytes is within its bound.
pub open spec fn state_wf(state: DecoderState) -> bool {
    state matches DecoderState::CsiParams(seen) ==> seen <= MAX_PARAMS
}

/// The decoder. It keeps nothing but its state: one small enum.
pub struct Parser {
    state: DecoderState,
}

impl View for Parser {
    type V = DecoderState;

    closed spec fn view(&self) -> DecoderState {
        self.state
    }
}

impl Parser {
    /// A decoder in `Ground`.
    pub fn new() -> (parser: Parser)
        ensures
            parser@ == DecoderState::Ground,
    {
        Parser { state: DecoderState::Ground }
    }

    /// The state the decoder is in.
    pub fn state(&self) -> (state: DecoderState)
        ensures
            state == self@,
    {
        self.state
    }

    /// Takes one byte of input and says which key, if any, it completes.
    pub fn advance(&mut self, byte: u8) -> (event: Option<KeyEvent>)
        ensures
            (final(self)@, event) == step(old(self)@, byte),
    {
        match self.state {
            DecoderState::Ground => {
                if byte == ESC {
                    self.state = DecoderState::Escape;
                    None
                } else {
                    Some(key_of_byte(byte))
                }
            },
            DecoderState::Escape => {
                if byte == 0x5B {
                    self.state = DecoderState::CsiParams(0);
                    None
                } else {
                    self.state = DecoderState::Ground;
                    Some(KeyEvent::Unrecognized)
                }
            },
            DecoderState::CsiParams(seen) => {
                if (0x30 <= byte && byte <= 0x39) || byte == 0x3B {
                    if seen < MAX_PARAMS {
                        self.state = DecoderState::CsiParams(seen + 1);
                        None
                    } else {
                        self.state = DecoderState::Ground;
                        Some(KeyEvent::Unrecognized)
                    }
                } else {
                    self.state = DecoderState::Ground;
                    Some(key_of_final(byte))
                }
            },
        }
    }
}

/// The key of a byte read in `Ground`; the escape byte is not one.
pub fn key_of_byte(byte: u8) -> (key: KeyEvent)
    ensures
        key == ground_key(byte),
{
    if byte == 0x0D {
        KeyEvent::Enter
    } else if byte == 0x03 {
        KeyEvent::Abort
    } else if byte == 0x08 || byte == 0x7F {
        KeyEvent::Backspace
    } else if 0x01 <= byte && byte <= 0x1A {
        KeyEvent::CtrlLetter(byte + 0x40)
    } else if byte >= 0x20 {
        KeyEvent::Char(byte)
    } else {
        KeyEvent::Unrecognized
    }
}

/// The key of the byte that ends a control sequence.
pub fn key_of_final(byte: u8) -> (key: KeyEvent)
    ensures
        key == csi_key(byte),
{
    if byte == 0x41 {
        KeyEvent::Up
    } else if byte == 0x42 {
        KeyEvent::Down
    } else if byte == 0x43 {
        KeyEvent::Right
    } else if byte == 0x44 {
        KeyEvent::Left
    } else if byte == 0x48 {
        KeyEvent::Home
    } else if byte == 0x46 {
        KeyEvent::End
    } else if byte == 0x7E {
        KeyEvent::Delete
    } else {
        KeyEvent::Unrecognized
    }
}

} // verus!
