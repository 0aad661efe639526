//! The two versions of the function, which differ in how a block is combined
//! with its earlier contents after the first pass.

use crate::error::Error;
use vstd::prelude::*;

verus! {

/// The version of the function.
#[derive(Clone, Copy, Debug, PartialEq, Eq, Structural)]
pub enum Version {
    /// Version 16: every pass overwrites.
    V0x10,
    /// Version 19: passes after the first fold the new block into the old.
    V0x13,
}

impl Version {
    /// The version's number: 0x10 or 0x13.
    pub open spec fn spec_number(self) -> u32 {
        match self {
            Version::V0x10 => 0x10,
            Version::V0x13 => 0x13,
        }
    }

    /// The version's number.
    #[verifier::when_used_as_spec(spec_number)]
    pub fn number(self) -> (r: u32)
        ensures
            r == self.spec_number(),
    {
        match self {
            Version::V0x10 => 0x10,
            Version::V0x13 => 0x13,
        }
    }

    /// The version with the given number.
    pub fn from_number(number: u32) -> (r: Result<Version, Error>)
        ensures
            number == 0x10 ==> r == Ok::<Version, Error>(Version::V0x10),
            number == 0x13 ==> r == Ok::<Version, Error>(Version::V0x13),
            number != 0x10 && number != 0x13 ==> r == Err::<Version, Error>(Error::VersionInvalid),
    {
        if number == 0x10 {
            Ok(Version::V0x10)
        } else if number == 0x13 {
            Ok(Version::V0x13)
        } else {
            Err(Error::VersionInvalid)
        }
    }
}

impl Default for Version {
    fn default() -> (r: Version)
        ensures
            r == Version::V0x13,
    {
        Version::V0x13
    }
}

} // verus!
