//! Errors surfaced by the engine. Per-row conditions (validation, parse
//! events) are counted, not raised; these variants are the stream-level
//! failures that abort an operation.

use vstd::prelude::*;

verus! {

/// A stream-level failure of the engine.
#[derive(Clone, Copy, Debug, PartialEq, Eq, Structural)]
pub enum SortError {
    /// A record's framing would overflow a 32-bit length field.
    RecordTooLarge,
    /// A run file or intermediate file does not parse.
    CorruptRun,
    /// A column payload would overflow the binary-COPY length field.
    FieldTooLarge,
}

} // verus!
