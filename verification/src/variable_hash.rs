//! The variable-length hash built on BLAKE2b.
//!
//! BLAKE2b itself is not specified here: its two entry points are named, and
//! the stretching construction on top of them is stated and proved.

use crate::error::Error;
use blake2::digest::{Update, VariableOutput};
use blake2::{Blake2b512, Blake2bVar, Digest};
use vstd::prelude::*;
use vstd::slice::slice_subrange;

verus! {

/// The 64-byte BLAKE2b digest of `message`.
pub uninterp spec fn blake2b_512(message: Seq<u8>) -> Seq<u8>;

/// The BLAKE2b digest of `message` with an output of `out_len` bytes.
pub uninterp spec fn blake2b_var(message: Seq<u8>, out_len: nat) -> Seq<u8>;

/// Calls `Blake2b512::digest` of the blake2 crate on `message`. The result
/// is the 64-byte digest, a function of the message alone.
#[verifier::external_body]
pub(crate) fn digest_512(message: &[u8]) -> (out: [u8; 64])
    ensures
        out@ == blake2b_512(message@),
{
    let mut out = [0u8; 64];
    out.copy_from_slice(&Blake2b512::digest(message));
    out
}

/// Runs `Blake2bVar` of the blake2 crate, made for `out_len` bytes of
/// output, over `message`. The result has `out_len` bytes and is a function
/// of the message and of that length.
#[verifier::external_body]
pub(crate) fn digest_var(message: &[u8], out_len: usize) -> (out: Vec<u8>)
    requires
        1 <= out_len <= 64,
    ensures
        out@ == blake2b_var(message@, out_len as nat),
        out@.len() == out_len,
{
    let mut hasher = Blake2bVar::new(out_len).unwrap();
    hasher.update(message);
    let mut out = vec![0u8; out_len];
    hasher.finalize_variable(&mut out).unwrap();
    out
}

/// The four little-endian bytes of `x`.
pub open spec fn le32(x: u32) -> Seq<u8> {
    seq![
        (x & 0xff) as u8,
        ((x >> 8) & 0xff) as u8,
        ((x >> 16) & 0xff) as u8,
        ((x >> 24) & 0xff) as u8,
    ]
}

/// What follows the first 32 bytes of a long hash: while more than 64 bytes
/// remain, the previous digest is hashed again and contributes its first
/// half; the last digest has exactly the remaining length.
pub open spec fn long_tail(previous: Seq<u8>, remaining: nat) -> Seq<u8>
    decreases remaining,
{
    if remaining <= 64 {
        blake2b_var(previous, remaining)
    } else {
        let next = blake2b_512(previous);
        next.subrange(0, 32) + long_tail(next, (remaining - 32) as nat)
    }
}

/// The hash of `message` stretched to `out_len` bytes, for
/// `0 < out_len < 2^32`. The length is hashed in front of the message.
pub open spec fn long_hash(message: Seq<u8>, out_len: nat) -> Seq<u8> {
    let input = le32(out_len as u32) + message;
    if out_len <= 64 {
        blake2b_var(input, out_len)
    } else {
        let first = blake2b_512(input);
        first.subrange(0, 32) + long_tail(first, (out_len - 32) as nat)
    }
}

/// Appends the four little-endian bytes of `x` to `buf`.
pub fn push_le32(buf: &mut Vec<u8>, x: u32)
    ensures
        final(buf)@ == old(buf)@ + le32(x),
{
    let ghost before = buf@;
    buf.push((x & 0xff) as u8);
    buf.push(((x >> 8) & 0xff) as u8);
    buf.push(((x >> 16) & 0xff) as u8);
    buf.push(((x >> 24) & 0xff) as u8);
    assert(buf@ == before + le32(x));
}

/// Hashes `message` to `out_len` bytes.
///
/// An empty output is refused as too short, one of 2^32 bytes or more as
/// too long.
pub fn blake2b_long(message: &[u8], out_len: usize) -> (r: Result<Vec<u8>, Error>)
    ensures
        out_len == 0 ==> r == Err::<Vec<u8>, Error>(Error::OutputTooShort),
        out_len > 0xffff_ffff ==> r == Err::<Vec<u8>, Error>(Error::OutputTooLong),
        0 < out_len <= 0xffff_ffff ==> r is Ok && r->Ok_0@ == long_hash(message@, out_len as nat)
            && r->Ok_0@.len() == out_len,
{
    if out_len == 0 {
        return Err(Error::OutputTooShort);
    }
    if out_len > 0xffff_ffff {
        return Err(Error::OutputTooLong);
    }
    let mut input: Vec<u8> = Vec::new();
    push_le32(&mut input, out_len as u32);
    input.extend_from_slice(message);
    assert(input@ == le32(out_len as u32) + message@);
    if out_len <= 64 {
        return Ok(digest_var(input.as_slice(), out_len));
    }
    let mut last: [u8; 64] = digest_512(input.as_slice());
    let mut out: Vec<u8> = Vec::new();
    out.extend_from_slice(slice_subrange(last.as_slice(), 0, 32));
    let mut remaining: usize = out_len - 32;
    assert(out@ == last@.subrange(0, 32));
    while remaining > 64
        invariant
            0 < remaining,
            last@.len() == 64,
            out@.len() + remaining == out_len,
            out@ + long_tail(last@, remaining as nat) == long_hash(message@, out_len as nat),
        decreases remaining,
    {
        let ghost before = out@;
        let ghost previous = last@;
        last = digest_512(last.as_slice());
        out.extend_from_slice(slice_subrange(last.as_slice(), 0, 32));
        remaining = remaining - 32;
        assert(out@ + long_tail(last@, remaining as nat) == before + long_tail(
            previous,
            (remaining + 32) as nat,
        ));
    }
    let tail = digest_var(last.as_slice(), remaining);
    out.extend_from_slice(tail.as_slice());
    Ok(out)
}

} // verus!
