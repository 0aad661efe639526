//! What a hashing operation computes, stated over memory as a sequence of
//! block contents.
//!
//! Memory holds `lanes * lane_length` blocks, lane after lane. A pass fills
//! every lane, slice by slice; within a slice the lanes are filled one after
//! another, each segment block by block.

use crate::algorithm::Algorithm;
use crate::block::{bytes_to_words, compress, words_to_bytes, xor_words, zero_words, Block};
use crate::params::ParamsView;
use crate::segment_view::{cur_index, first_position, prev_index, ref_index};
use crate::variable_hash::{blake2b_512, le32, long_hash};
use crate::version::Version;
use vstd::prelude::*;

verus! {

/// A hashing context as plain values.
pub struct Argon2View {
    pub algorithm: Algorithm,
    pub version: Version,
    pub params: ParamsView,
    pub secret: Option<Seq<u8>>,
}

/// The contents of a buffer of blocks.
pub open spec fn memory_view(blocks: Seq<Block>) -> Seq<Seq<u64>> {
    Seq::new(blocks.len(), |i: int| blocks[i]@)
}

/// Memory of `n` blocks that are all zero.
pub open spec fn zero_memory(n: nat) -> Seq<Seq<u64>> {
    Seq::new(n, |i: int| zero_words())
}

/// Whether reference blocks are chosen without looking at memory: always for
/// Argon2i, during the first two slices of the first pass for Argon2id, never
/// for Argon2d.
pub open spec fn data_independent(algorithm: Algorithm, pass: int, slice: int) -> bool {
    match algorithm {
        Algorithm::Argon2i => true,
        Algorithm::Argon2id => pass == 0 && slice < 2,
        Algorithm::Argon2d => false,
    }
}

/// The block from which a page of addresses is derived: the segment's place,
/// the size of the job and the page's number, then zeros.
pub open spec fn address_input(
    ctx: Argon2View,
    pass: int,
    slice: int,
    lane: int,
    counter: int,
) -> Seq<u64> {
    Seq::new(
        128,
        |i: int|
            if i == 0 {
                pass as u64
            } else if i == 1 {
                lane as u64
            } else if i == 2 {
                slice as u64
            } else if i == 3 {
                ctx.params.block_count() as u64
            } else if i == 4 {
                ctx.params.iterations() as u64
            } else if i == 5 {
                ctx.algorithm.spec_id() as u64
            } else if i == 6 {
                counter as u64
            } else {
                0u64
            },
    )
}

/// Page number `counter` of the segment's addresses: 128 pseudo-random words.
pub open spec fn address_block(
    ctx: Argon2View,
    pass: int,
    slice: int,
    lane: int,
    counter: int,
) -> Seq<u64> {
    compress(zero_words(), compress(zero_words(), address_input(ctx, pass, slice, lane, counter)))
}

/// The pseudo-random word that selects the reference block for position `b`:
/// a word of the current address page, or the first word of the previous
/// block.
pub open spec fn rand_word(
    ctx: Argon2View,
    mem: Seq<Seq<u64>>,
    pass: int,
    slice: int,
    lane: int,
    b: int,
) -> u64 {
    if data_independent(ctx.algorithm, pass, slice) {
        address_block(ctx, pass, slice, lane, b / 128 + 1)[b % 128]
    } else {
        mem[prev_index(ctx.params, slice, lane, b)][0]
    }
}

/// Index of the reference block for position `b`, as memory stands.
pub open spec fn step_ref_index(
    ctx: Argon2View,
    mem: Seq<Seq<u64>>,
    pass: int,
    slice: int,
    lane: int,
    b: int,
) -> int {
    ref_index(ctx.params, pass, slice, lane, b, rand_word(ctx, mem, pass, slice, lane, b))
}

/// Whether a new block replaces the old one, rather than being folded into
/// it: in version 0x10, and in the first pass.
pub open spec fn overwrites(version: Version, pass: int) -> bool {
    version == Version::V0x10 || pass == 0
}

/// Memory after the block at position `b` of a segment has been filled.
pub open spec fn step(
    ctx: Argon2View,
    mem: Seq<Seq<u64>>,
    pass: int,
    slice: int,
    lane: int,
    b: int,
) -> Seq<Seq<u64>> {
    let cur = cur_index(ctx.params, slice, lane, b);
    let prev = prev_index(ctx.params, slice, lane, b);
    let reference = step_ref_index(ctx, mem, pass, slice, lane, b);
    let result = compress(mem[prev], mem[reference]);
    mem.update(
        cur,
        if overwrites(ctx.version, pass) {
            result
        } else {
            xor_words(mem[cur], result)
        },
    )
}

/// Memory after the positions below `n` of a segment have been filled.
pub open spec fn segment_prefix(
    ctx: Argon2View,
    mem: Seq<Seq<u64>>,
    pass: int,
    slice: int,
    lane: int,
    n: int,
) -> Seq<Seq<u64>>
    decreases n,
{
    if n <= first_position(pass, slice) {
        mem
    } else {
        step(ctx, segment_prefix(ctx, mem, pass, slice, lane, n - 1), pass, slice, lane, n - 1)
    }
}

/// Memory after one segment has been filled.
pub open spec fn fill_segment(
    ctx: Argon2View,
    mem: Seq<Seq<u64>>,
    pass: int,
    slice: int,
    lane: int,
) -> Seq<Seq<u64>> {
    segment_prefix(ctx, mem, pass, slice, lane, ctx.params.segment_length() as int)
}

/// Memory after the lanes below `lanes_done` have been filled in one slice.
pub open spec fn slice_prefix(
    ctx: Argon2View,
    mem: Seq<Seq<u64>>,
    pass: int,
    slice: int,
    lanes_done: int,
) -> Seq<Seq<u64>>
    decreases lanes_done,
{
    if lanes_done <= 0 {
        mem
    } else {
        fill_segment(
            ctx,
            slice_prefix(ctx, mem, pass, slice, lanes_done - 1),
            pass,
            slice,
            lanes_done - 1,
        )
    }
}

/// Memory after one slice has been filled in every lane.
pub open spec fn fill_slice(
    ctx: Argon2View,
    mem: Seq<Seq<u64>>,
    pass: int,
    slice: int,
) -> Seq<Seq<u64>> {
    slice_prefix(ctx, mem, pass, slice, ctx.params.lanes() as int)
}

/// Memory after the slices below `slices_done` of one pass.
pub open spec fn pass_prefix(
    ctx: Argon2View,
    mem: Seq<Seq<u64>>,
    pass: int,
    slices_done: int,
) -> Seq<Seq<u64>>
    decreases slices_done,
{
    if slices_done <= 0 {
        mem
    } else {
        fill_slice(ctx, pass_prefix(ctx, mem, pass, slices_done - 1), pass, slices_done - 1)
    }
}

/// Memory after one pass.
pub open spec fn fill_pass(ctx: Argon2View, mem: Seq<Seq<u64>>, pass: int) -> Seq<Seq<u64>> {
    pass_prefix(ctx, mem, pass, 4)
}

/// Memory after the passes below `passes_done`.
pub open spec fn fill_prefix(ctx: Argon2View, mem: Seq<Seq<u64>>, passes_done: int) -> Seq<
    Seq<u64>,
>
    decreases passes_done,
{
    if passes_done <= 0 {
        mem
    } else {
        fill_pass(ctx, fill_prefix(ctx, mem, passes_done - 1), passes_done - 1)
    }
}

/// Memory after every pass.
pub open spec fn fill(ctx: Argon2View, mem: Seq<Seq<u64>>) -> Seq<Seq<u64>> {
    fill_prefix(ctx, mem, ctx.params.iterations() as int)
}

/// The seed of block `i` (0 or 1) of lane `lane`: the initial hash, the
/// block's number and the lane's number, hashed to 1024 bytes.
pub open spec fn seed_block(h0: Seq<u8>, lane: int, i: int) -> Seq<u64> {
    bytes_to_words(long_hash(h0 + le32(i as u32) + le32(lane as u32), 1024))
}

/// Memory with the first two blocks of every lane seeded.
pub open spec fn seeded(p: ParamsView, mem: Seq<Seq<u64>>, h0: Seq<u8>) -> Seq<Seq<u64>> {
    Seq::new(
        mem.len(),
        |k: int|
            if k < p.block_count() && k % (p.lane_length() as int) < 2 {
                seed_block(h0, k / (p.lane_length() as int), k % (p.lane_length() as int))
            } else {
                mem[k]
            },
    )
}

/// Memory once seeded from `h0` and filled.
pub open spec fn filled_memory(ctx: Argon2View, mem: Seq<Seq<u64>>, h0: Seq<u8>) -> Seq<Seq<u64>> {
    fill(ctx, seeded(ctx.params, mem, h0))
}

/// The last blocks of the lanes below `lanes_done`, folded together.
pub open spec fn final_prefix(p: ParamsView, mem: Seq<Seq<u64>>, lanes_done: int) -> Seq<u64>
    decreases lanes_done,
{
    if lanes_done <= 1 {
        mem[p.lane_length() - 1]
    } else {
        xor_words(
            final_prefix(p, mem, lanes_done - 1),
            mem[(lanes_done - 1) * p.lane_length() + p.lane_length() - 1],
        )
    }
}

/// The last blocks of all lanes, folded together.
pub open spec fn final_block(p: ParamsView, mem: Seq<Seq<u64>>) -> Seq<u64> {
    final_prefix(p, mem, p.lanes() as int)
}

/// The output of `out_len` bytes that filled memory gives.
pub open spec fn tag(p: ParamsView, mem: Seq<Seq<u64>>, out_len: nat) -> Seq<u8> {
    long_hash(words_to_bytes(final_block(p, mem)), out_len)
}

/// The bytes of the secret, none where there is no secret.
pub open spec fn secret_bytes(secret: Option<Seq<u8>>) -> Seq<u8> {
    match secret {
        Some(s) => s,
        None => Seq::empty(),
    }
}

/// What the initial hash is taken of: the parameters, then the password, the
/// salt, the secret and the associated data, each behind its length; every
/// number as four little-endian bytes.
pub open spec fn initial_hash_input(
    ctx: Argon2View,
    pwd: Seq<u8>,
    salt: Seq<u8>,
    out_len: nat,
) -> Seq<u8> {
    le32(ctx.params.p_cost) + le32(out_len as u32) + le32(ctx.params.m_cost) + le32(
        ctx.params.t_cost,
    ) + le32(ctx.version.spec_number()) + le32(ctx.algorithm.spec_id()) + le32(pwd.len() as u32)
        + pwd + le32(salt.len() as u32) + salt + le32(secret_bytes(ctx.secret).len() as u32)
        + secret_bytes(ctx.secret) + le32(ctx.params.data.len() as u32) + ctx.params.data
}

/// The 64-byte digest that binds every input of the operation.
pub open spec fn initial_hash(ctx: Argon2View, pwd: Seq<u8>, salt: Seq<u8>, out_len: nat) -> Seq<
    u8,
> {
    blake2b_512(initial_hash_input(ctx, pwd, salt, out_len))
}

/// Memory after a fill for the given password and salt; the output length
/// that enters the initial hash is zero.
pub open spec fn memory_for(ctx: Argon2View, pwd: Seq<u8>, salt: Seq<u8>, mem: Seq<Seq<u64>>) -> Seq<
    Seq<u64>,
> {
    filled_memory(ctx, mem, initial_hash(ctx, pwd, salt, 0))
}

/// The hash of `out_len` bytes of a password and salt, computed in memory
/// that held `mem` before.
pub open spec fn hash(
    ctx: Argon2View,
    pwd: Seq<u8>,
    salt: Seq<u8>,
    out_len: nat,
    mem: Seq<Seq<u64>>,
) -> Seq<u8> {
    tag(ctx.params, filled_memory(ctx, mem, initial_hash(ctx, pwd, salt, out_len)), out_len)
}

} // verus!
