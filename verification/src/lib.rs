//! A line editor for consoles behind a raw, byte-at-a-time transport.
//!
//! The engine does no input or output of its own. It says what it needs
//! done; a driver does that on the transport, in whatever way the transport
//! asks for, and tells the engine how it went.
//!
//! - [`input`]: the decoder from bytes to keys.
//! - [`line_buffer`]: the line, of bounded length, with its cursor.
//! - [`history`]: earlier lines, in a ring of bounded size.
//! - [`output`]: what the display has to be sent.
//! - [`negotiation`]: how the display tells its size.
//! - [`line`]: what a key does, and what is sent for it.
//! - [`sync`]: the session, step by step, and the retrying of operations
//!   that a transport was not ready for.
//! - [`builder`]: the capacities of a session.
//! - [`laws`], [`echo`], [`calls`]: what holds of all of this, proved.
pub mod builder;
pub mod calls;
pub mod echo;
pub mod error;
pub mod history;
pub mod input;
pub mod laws;
pub mod line;
pub mod line_buffer;
pub mod negotiation;
pub mod output;
pub mod sync;
pub mod terminal;
