//! The exchange, once per session, in which the display tells its size.
//!
//! The probe saves the cursor, sends it as far down and right as it will go,
//! asks where it is, and restores it. The display answers with a cursor
//! position report: `ESC [ rows ; columns R`, both in decimal digits.
use vstd::prelude::*;
use crate::output::decimal;
use crate::terminal::Terminal;

verus! {

/// The part of the report that is being read.
#[derive(Clone, Copy, Debug, PartialEq, Eq, Structural)]
pub enum ReplyField {
    /// The escape byte was read; `[` has to follow.
    Introducer,
    /// The digits of the number of rows.
    Rows,
    /// The digits of the number of columns.
    Columns,
}

/// What has been read of the report so far.
#[derive(Clone, Copy, Debug, PartialEq, Eq, Structural)]
pub struct Partial {
    pub field: ReplyField,
    /// The number of rows, as far as its digits were read.
    pub rows: u16,
    /// The number of columns, as far as its digits were read.
    pub columns: u16,
    /// Whether the field being read has a digit yet.
    pub started: bool,
}

/// Where the negotiation stands.
#[derive(Clone, Copy, Debug, PartialEq, Eq, Structural)]
pub enum NegotiationState {
    AwaitingResponse,
    Parsing(Partial),
    Done(Terminal),
    Failed,
}

/// What one byte of the reply led to.
#[derive(Clone, Copy, Debug, PartialEq, Eq, Structural)]
pub enum InitializerResult {
    /// The report is not complete yet.
    Continue,
    /// The report is complete, and this is the size it gave.
    Item(Terminal),
    /// The byte cannot stand where it came.
    InvalidInput,
}

/// The bytes that ask the display for its size.
pub open spec fn probe_bytes() -> Seq<u8> {
    seq![
        0x1Bu8, 0x37u8,
        0x1Bu8, 0x5Bu8, 0x39u8, 0x39u8, 0x39u8, 0x3Bu8, 0x39u8, 0x39u8, 0x39u8, 0x66u8,
        0x1Bu8, 0x5Bu8, 0x36u8, 0x6Eu8,
        0x1Bu8, 0x38u8,
    ]
}

pub open spec fn is_digit(byte: u8) -> bool {
    0x30 <= byte && byte <= 0x39
}

/// A number with one more digit behind it, if that still fits.
pub open spec fn with_digit(value: u16, byte: u8) -> Option<u16> {
    let more = value * 10 + (byte - 0x30);
    if more <= u16::MAX {
        Some(more as u16)
    } else {
        None
    }
}

/// One step through the report, from the part read so far.
pub open spec fn parse_step(partial: Partial, byte: u8) -> NegotiationState {
    match partial.field {
        ReplyField::Introducer => if byte == 0x5B {
            NegotiationState::Parsing(
                Partial { field: ReplyField::Rows, rows: 0, columns: 0, started: false },
            )
        } else {
            NegotiationState::Failed
        },
        ReplyField::Rows => if is_digit(byte) {
            match with_digit(partial.rows, byte) {
                Some(rows) => NegotiationState::Parsing(
                    Partial { field: ReplyField::Rows, rows, columns: 0, started: true },
                ),
                None => NegotiationState::Failed,
            }
        } else if byte == 0x3B && partial.started && partial.rows >= 1 {
            NegotiationState::Parsing(
                Partial {
                    field: ReplyField::Columns,
                    rows: partial.rows,
                    columns: 0,
                    started: false,
                },
            )
        } else {
            NegotiationState::Failed
        },
        ReplyField::Columns => if is_digit(byte) {
            match with_digit(partial.columns, byte) {
                Some(columns) => NegotiationState::Parsing(
                    Partial {
                        field: ReplyField::Columns,
                        rows: partial.rows,
                        columns,
                        started: true,
                    },
                ),
                None => NegotiationState::Failed,
            }
        } else if byte == 0x52 && partial.started && partial.columns >= 1 {
            NegotiationState::Done(Terminal { width: partial.columns, height: partial.rows })
        } else {
            NegotiationState::Failed
        },
    }
}

/// One step of the negotiation. A byte that the report cannot have where it
/// comes leads to `Failed`, and there is no way out of `Failed`. Once the
/// size is known it stays, whatever comes.
pub open spec fn negotiation_step(state: NegotiationState, byte: u8) -> NegotiationState {
    match state {
        NegotiationState::AwaitingResponse => if byte == 0x1B {
            NegotiationState::Parsing(
                Partial { field: ReplyField::Introducer, rows: 0, columns: 0, started: false },
            )
        } else {
            NegotiationState::Failed
        },
        NegotiationState::Parsing(partial) => parse_step(partial, byte),
        NegotiationState::Done(terminal) => NegotiationState::Done(terminal),
        NegotiationState::Failed => NegotiationState::Failed,
    }
}

/// What a step reports: the size in the step that completes the report,
/// `Continue` while the report is under way, `InvalidInput` otherwise.
pub open spec fn negotiation_result(state: NegotiationState, byte: u8) -> InitializerResult {
    match (state, negotiation_step(state, byte)) {
        (NegotiationState::AwaitingResponse, NegotiationState::Parsing(_)) => InitializerResult::Continue,
        (NegotiationState::Parsing(_), NegotiationState::Parsing(_)) => InitializerResult::Continue,
        (NegotiationState::Parsing(_), NegotiationState::Done(terminal)) => InitializerResult::Item(
            terminal,
        ),
        _ => InitializerResult::InvalidInput,
    }
}

/// The state the negotiation reaches from `state` over a run of bytes.
pub open spec fn negotiation_run(state: NegotiationState, bytes: Seq<u8>) -> NegotiationState
    decreases bytes.len(),
{
    if bytes.len() == 0 {
        state
    } else {
        negotiation_run(negotiation_step(state, bytes[0]), bytes.skip(1))
    }
}

/// Whether every byte of a run, read from `state` on, leaves the report
/// under way: none completes it and none is out of place.
pub open spec fn negotiation_continues(state: NegotiationState, bytes: Seq<u8>) -> bool
    decreases bytes.len(),
{
    bytes.len() == 0 || (negotiation_result(state, bytes[0]) is Continue
        && negotiation_continues(negotiation_step(state, bytes[0]), bytes.skip(1)))
}

/// The report of a display of `rows` rows and `columns` columns.
pub open spec fn report_bytes(rows: nat, columns: nat) -> Seq<u8> {
    seq![0x1Bu8, 0x5Bu8] + decimal(rows) + seq![0x3Bu8] + decimal(columns) + seq![0x52u8]
}

/// Whether a state is one that the negotiation can be in.
pub open spec fn negotiation_wf(state: NegotiationState) -> bool {
    match state {
        NegotiationState::Parsing(partial) => partial.field == ReplyField::Columns
            ==> partial.rows >= 1,
        NegotiationState::Done(terminal) => terminal.wf(),
        _ => true,
    }
}

/// Reads the display's answer to the probe, byte by byte.
pub struct Initializer {
    state: NegotiationState,
}

impl View for Initializer {
    type V = NegotiationState;

    closed spec fn view(&self) -> NegotiationState {
        self.state
    }
}

impl Initializer {
    pub open spec fn wf(&self) -> bool {
        negotiation_wf(self@)
    }

    /// A negotiation that has read nothing yet.
    pub fn new() -> (initializer: Initializer)
        ensures
            initializer.wf(),
            initializer@ == NegotiationState::AwaitingResponse,
    {
        Initializer { state: NegotiationState::AwaitingResponse }
    }

    /// The bytes to send to the display before its answer is read.
    pub fn init() -> (probe: Vec<u8>)
        ensures
            probe@ == probe_bytes(),
    {
        let probe: Vec<u8> = vec![
            0x1Bu8, 0x37u8,
            0x1Bu8, 0x5Bu8, 0x39u8, 0x39u8, 0x39u8, 0x3Bu8, 0x39u8, 0x39u8, 0x39u8, 0x66u8,
            0x1Bu8, 0x5Bu8, 0x36u8, 0x6Eu8,
            0x1Bu8, 0x38u8,
        ];
        assert(probe@ =~= probe_bytes());
        probe
    }

    pub fn state(&self) -> (state: NegotiationState)
        ensures
            state == self@,
    {
        self.state
    }

    /// Takes one byte of the display's answer.
    pub fn advance(&mut self, byte: u8) -> (result: InitializerResult)
        requires
            old(self).wf(),
        ensures
            final(self).wf(),
            final(self)@ == negotiation_step(old(self)@, byte),
            result == negotiation_result(old(self)@, byte),
            result matches InitializerResult::Item(terminal) ==> terminal.wf(),
    {
        let next: NegotiationState = match self.state {
            NegotiationState::AwaitingResponse => {
                if byte == 0x1B {
                    NegotiationState::Parsing(
                        Partial {
                            field: ReplyField::Introducer,
                            rows: 0,
                            columns: 0,
                            started: false,
                        },
                    )
                } else {
                    NegotiationState::Failed
                }
            },
            NegotiationState::Parsing(partial) => parse_byte(partial, byte),
            NegotiationState::Done(terminal) => NegotiationState::Done(terminal),
            NegotiationState::Failed => NegotiationState::Failed,
        };
        let result: InitializerResult = match (self.state, next) {
            (NegotiationState::AwaitingResponse, NegotiationState::Parsing(_)) => {
                InitializerResult::Continue
            },
            (NegotiationState::Parsing(_), NegotiationState::Parsing(_)) => {
                InitializerResult::Continue
            },
            (NegotiationState::Parsing(_), NegotiationState::Done(terminal)) => {
                InitializerResult::Item(terminal)
            },
            _ => InitializerResult::InvalidInput,
        };
        self.state = next;
        result
    }
}

/// A number with one more digit behind it, if that still fits.
fn append_digit(value: u16, byte: u8) -> (more: Option<u16>)
    requires
        is_digit(byte),
    ensures
        more == with_digit(value, byte),
{
    let digit: u16 = (byte - 0x30) as u16;
    if value > 6553 || (value == 6553 && digit > 5) {
        None
    } else {
        Some(value * 10 + digit)
    }
}

/// One step through the report, from the part read so far.
fn parse_byte(partial: Partial, byte: u8) -> (next: NegotiationState)
    requires
        negotiation_wf(NegotiationState::Parsing(partial)),
    ensures
        next == parse_step(partial, byte),
        negotiation_wf(next),
{
    let digit: bool = 0x30 <= byte && byte <= 0x39;
    match partial.field {
        ReplyField::Introducer => {
            if byte == 0x5B {
                NegotiationState::Parsing(
                    Partial { field: ReplyField::Rows, rows: 0, columns: 0, started: false },
                )
            } else {
                NegotiationState::Failed
            }
        },
        ReplyField::Rows => {
            if digit {
                match append_digit(partial.rows, byte) {
                    Some(rows) => NegotiationState::Parsing(
                        Partial { field: ReplyField::Rows, rows, columns: 0, started: true },
                    ),
                    None => NegotiationState::Failed,
                }
            } else if byte == 0x3B && partial.started && partial.rows >= 1 {
                NegotiationState::Parsing(
                    Partial {
                        field: ReplyField::Columns,
                        rows: partial.rows,
                        columns: 0,
                        started: false,
                    },
                )
            } else {
                NegotiationState::Failed
            }
        },
        ReplyField::Columns => {
            if digit {
                match append_digit(partial.columns, byte) {
                    Some(columns) => NegotiationState::Parsing(
                        Partial {
                            field: ReplyField::Columns,
                            rows: partial.rows,
                            columns,
                            started: true,
                        },
                    ),
                    None => NegotiationState::Failed,
                }
            } else if byte == 0x52 && partial.started && partial.columns >= 1 {
                NegotiationState::Done(Terminal { width: partial.columns, height: partial.rows })
            } else {
                NegotiationState::Failed
            }
        },
    }
}

} // verus!
