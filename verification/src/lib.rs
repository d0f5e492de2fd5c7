//! Verified core of a `head`-like utility: given the decoded lines of an
//! input stream and a configuration, decide which lines to emit and in what
//! form (line limit, byte limit, byte offset, fixed-width truncation that
//! never splits a multi-byte character, optional reversal, line-number
//! prefixes).
//!
//! All I/O — opening the input, printing, and the interactive pagination
//! prompt — lives outside this crate; the library works on plain byte
//! sequences and is verified end to end.

use vstd::prelude::*;

pub mod config;
pub mod emit;
pub mod format;

pub use config::choose_input;
pub use config::is_quit;
pub use config::no_source_message;
pub use config::Config;
pub use config::InputChoice;
pub use emit::emit_lines;
pub use format::format_line;

verus! {

/// The byte limit and byte offset filters charge each line its length plus
/// one byte for the line separator.
pub open spec fn line_cost(line: Seq<u8>) -> nat {
    line.len() + 1
}

} // verus!
