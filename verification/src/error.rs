//! The reasons a hashing operation is refused.

use vstd::prelude::*;

verus! {

/// An input or parameter that is out of bounds.
#[derive(Clone, Copy, Debug, PartialEq, Eq, Structural)]
pub enum Error {
    /// Associated data is longer than 32 bytes.
    AdTooLong,
    /// The algorithm identifier is not one of the three variants.
    AlgorithmInvalid,
    /// The key identifier is longer than 8 bytes.
    KeyIdTooLong,
    /// Fewer memory blocks than the cost calls for.
    MemoryTooLittle,
    /// Memory cost above the maximum.
    MemoryTooMuch,
    /// Output shorter than asked for.
    OutputTooShort,
    /// Output longer than asked for.
    OutputTooLong,
    /// Password longer than 2^32 - 1 bytes.
    PwdTooLong,
    /// Salt shorter than 8 bytes.
    SaltTooShort,
    /// Salt longer than 2^32 - 1 bytes.
    SaltTooLong,
    /// Secret longer than 2^32 - 1 bytes.
    SecretTooLong,
    /// No lanes.
    ThreadsTooFew,
    /// More lanes than the maximum.
    ThreadsTooMany,
    /// No passes.
    TimeTooSmall,
    /// The version number is neither 0x10 nor 0x13.
    VersionInvalid,
}

} // verus!
