//! A minimal line-oriented text editor in the style of `ed`.
//!
//! The crate is split along the grammar: `addr` parses line and range
//! addresses, `cmd` splits an input line into an address prefix, a one-letter
//! verb and a suffix, and `ed` owns the buffer and interprets parsed commands.
//! The editor performs no I/O itself: running a command yields an [`ed::Action`]
//! describing what a caller should display or write.

pub mod addr;
pub mod buf;
pub mod cmd;
pub mod ed;
pub mod error;
