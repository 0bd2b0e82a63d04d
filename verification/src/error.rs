//! The errors that operations on a container report.

use vstd::prelude::*;

verus! {

/// What can go wrong while an operation touches the container.
#[derive(Clone, Copy, Debug, PartialEq, Eq, Structural)]
pub enum TsdfError {
    /// A positional read or write fell outside what the container can hold.
    IoFailure,
    /// The file format asked for is not the one recorded in the header.
    FormatMismatch,
    /// The bytes of a fixed-size slot do not decode to a value.
    CorruptEncoding,
}

} // verus!
