//! The three variants of the function, which differ in how reference blocks
//! are addressed.

use crate::error::Error;
use vstd::prelude::*;

verus! {

/// The addressing variant.
#[derive(Clone, Copy, Debug, PartialEq, Eq, Structural)]
pub enum Algorithm {
    /// Data-dependent addressing throughout.
    Argon2d,
    /// Data-independent addressing throughout.
    Argon2i,
    /// Data-independent addressing for the first half of the first pass,
    /// data-dependent after it.
    Argon2id,
}

impl Algorithm {
    /// The number that stands for the variant in the input of the initial hash
    /// and of the address blocks.
    pub open spec fn spec_id(self) -> u32 {
        match self {
            Algorithm::Argon2d => 0,
            Algorithm::Argon2i => 1,
            Algorithm::Argon2id => 2,
        }
    }

    /// The variant's number.
    #[verifier::when_used_as_spec(spec_id)]
    pub fn id(self) -> (r: u32)
        ensures
            r == self.spec_id(),
    {
        match self {
            Algorithm::Argon2d => 0,
            Algorithm::Argon2i => 1,
            Algorithm::Argon2id => 2,
        }
    }

    /// The variant with the given number.
    pub fn from_id(id: u32) -> (r: Result<Algorithm, Error>)
        ensures
            id <= 2 ==> r is Ok && r->Ok_0.spec_id() == id,
            id > 2 ==> r == Err::<Algorithm, Error>(Error::AlgorithmInvalid),
    {
        if id == 0 {
            Ok(Algorithm::Argon2d)
        } else if id == 1 {
            Ok(Algorithm::Argon2i)
        } else if id == 2 {
            Ok(Algorithm::Argon2id)
        } else {
            Err(Error::AlgorithmInvalid)
        }
    }
}

impl Default for Algorithm {
    fn default() -> (r: Algorithm)
        ensures
            r == Algorithm::Argon2id,
    {
        Algorithm::Argon2id
    }
}

} // verus!
