//! Argon2 memory-hard password hashing, with its behaviour stated in
//! contracts over mathematical models of blocks and memory.

pub mod algorithm;
pub mod block;
pub mod error;
pub mod fill;
pub mod params;
pub mod properties;
pub mod segment_view;
pub mod variable_hash;
pub mod version;

pub use crate::algorithm::Algorithm;
pub use crate::block::Block;
pub use crate::error::Error;
pub use crate::fill::Argon2View;
pub use crate::params::Params;
pub use crate::segment_view::SegmentView;
pub use crate::version::Version;

use crate::block::zero_words;
use crate::fill::{
    address_input, data_independent, fill_prefix, fill_segment, filled_memory,
    final_prefix, hash, initial_hash, initial_hash_input, memory_for, memory_view, pass_prefix,
    seed_block, segment_prefix, slice_prefix, tag, zero_memory,
};
use crate::params::{lemma_geometry, SYNC_POINTS};
use crate::properties::{in_slice, lane_of, lemma_place, lemma_split, offset_of};
use crate::segment_view::{cur_index, first_position, lemma_layout, Cursor};
use crate::variable_hash::{blake2b_long, digest_512, push_le32};
use vstd::prelude::*;
use zeroize::Zeroize;

verus! {

/// Maximum password length in bytes.
pub const MAX_PWD_LEN: usize = 0xFFFFFFFF;

/// Minimum salt length in bytes.
pub const MIN_SALT_LEN: usize = 8;

/// Maximum salt length in bytes.
pub const MAX_SALT_LEN: usize = 0xFFFFFFFF;

/// Recommended salt length for password hashing in bytes.
pub const RECOMMENDED_SALT_LEN: usize = 16;

/// Maximum secret key length in bytes.
pub const MAX_SECRET_LEN: usize = 0xFFFFFFFF;

/// Number of addresses in an address block.
const ADDRESSES_IN_BLOCK: usize = 128;

/// Calls `Zeroize::zeroize` of the zeroize crate on the digest: every byte
/// of it is zero afterwards.
#[verifier::external_body]
fn wipe_digest(digest: &mut [u8; 64])
    ensures
        final(digest)@ == Seq::new(64, |i: int| 0u8),
{
    digest.zeroize();
}

/// The error, if any, for which a password and a salt of these lengths are
/// refused.
pub open spec fn input_refusal(pwd_len: nat, salt_len: nat) -> Option<Error> {
    if pwd_len > MAX_PWD_LEN {
        Some(Error::PwdTooLong)
    } else if salt_len < MIN_SALT_LEN {
        Some(Error::SaltTooShort)
    } else if salt_len > MAX_SALT_LEN {
        Some(Error::SaltTooLong)
    } else {
        None
    }
}

/// The error, if any, for which an output buffer of `out_len` bytes is
/// refused: it has the length that the parameters fix, or any length within
/// the bounds where they fix none.
pub open spec fn output_refusal(output_len: Option<usize>, out_len: nat) -> Option<Error> {
    let least = match output_len {
        Some(n) => n,
        None => Params::MIN_OUTPUT_LEN,
    };
    let most = match output_len {
        Some(n) => n,
        None => Params::MAX_OUTPUT_LEN,
    };
    if out_len < least {
        Some(Error::OutputTooShort)
    } else if out_len > most {
        Some(Error::OutputTooLong)
    } else {
        None
    }
}

/// The error, if any, for which filling memory of `mem_len` blocks is
/// refused.
pub open spec fn fill_refusal(ctx: Argon2View, pwd_len: nat, salt_len: nat, mem_len: nat) -> Option<
    Error,
> {
    if input_refusal(pwd_len, salt_len) is Some {
        input_refusal(pwd_len, salt_len)
    } else if mem_len < ctx.params.block_count() {
        Some(Error::MemoryTooLittle)
    } else {
        None
    }
}

/// The error, if any, for which a hashing operation is refused. The output
/// length is checked first, then the password and the salt, then the memory.
pub open spec fn hash_refusal(
    ctx: Argon2View,
    pwd_len: nat,
    salt_len: nat,
    out_len: nat,
    mem_len: nat,
) -> Option<Error> {
    if output_refusal(ctx.params.output_len, out_len) is Some {
        output_refusal(ctx.params.output_len, out_len)
    } else {
        fill_refusal(ctx, pwd_len, salt_len, mem_len)
    }
}

/// The contents of the segments that the tasks of a slice hand back.
pub open spec fn segments_view(segments: Seq<Vec<Block>>) -> Seq<Seq<Seq<u64>>> {
    Seq::new(segments.len(), |l: int| memory_view(segments[l]@))
}

/// Whether `segments` holds, for every lane, the blocks that filling the
/// lane's segment by itself gives on memory `mem`.
pub open spec fn tasks_done(
    ctx: Argon2View,
    mem: Seq<Seq<u64>>,
    pass: int,
    slice: int,
    segments: Seq<Seq<Seq<u64>>>,
) -> bool {
    &&& segments.len() == ctx.params.lanes()
    &&& forall|l: int, j: int|
        0 <= l < ctx.params.lanes() && 0 <= j < ctx.params.segment_length() ==> #[trigger] segments[l][j]
            == fill_segment(ctx, mem, pass, slice, l)[cur_index(ctx.params, slice, l, j)]
}

/// The page number of the addresses in use once the positions below `b` of a
/// segment are filled; a new page is made before position `b` where `b` is a
/// multiple of 128.
pub open spec fn pages_made(b: int) -> int {
    if b % 128 == 0 {
        b / 128
    } else {
        b / 128 + 1
    }
}

/// Argon2 context: the variant, the version, the cost parameters and an
/// optional secret key.
pub struct Argon2<'key> {
    algorithm: Algorithm,
    version: Version,
    params: Params,
    secret: Option<&'key [u8]>,
}

impl<'key> View for Argon2<'key> {
    type V = Argon2View;

    closed spec fn view(&self) -> Argon2View {
        Argon2View {
            algorithm: self.algorithm,
            version: self.version,
            params: self.params@,
            secret: match self.secret {
                Some(s) => Some(s@),
                None => None,
            },
        }
    }
}

fn copy_into(out: &mut [u8], src: &[u8])
    requires
        old(out)@.len() == src@.len(),
    ensures
        final(out)@ == src@,
{
    let n = src.len();
    let mut i: usize = 0;
    while i < n
        invariant
            i <= n,
            n == src@.len(),
            out@.len() == n,
            forall|j: int| 0 <= j < i ==> out@[j] == src@[j],
        decreases n - i,
    {
        out[i] = src[i];
        i += 1;
    }
}

fn seed(memory_blocks: &mut [Block], h0: &[u8; 64], lane: usize, i: usize, index: usize)
    requires
        index < old(memory_blocks)@.len(),
        i < 2,
        lane <= 0xffff_ffff,
    ensures
        final(memory_blocks)@.len() == old(memory_blocks)@.len(),
        memory_view(final(memory_blocks)@) == memory_view(old(memory_blocks)@).update(
            index as int,
            seed_block(h0@, lane as int, i as int),
        ),
{
    let mut input: Vec<u8> = Vec::new();
    input.extend_from_slice(h0.as_slice());
    assert(input@ == h0@);
    push_le32(&mut input, i as u32);
    push_le32(&mut input, lane as u32);
    match blake2b_long(input.as_slice(), Block::SIZE) {
        Ok(bytes) => {
            let block = Block::from_bytes(bytes.as_slice());
            memory_blocks[index] = block;
        },
        Err(_) => {},
    }
}

/// The source of the pseudo-random words that select reference blocks in one
/// segment: pages of addresses where addressing is data-independent, the
/// previous block where it is not.
struct Addresses {
    independent: bool,
    address_block: Block,
    input_block: Block,
    zero_block: Block,
}

impl Addresses {
    /// The state in which the word for position `b` can be drawn.
    spec fn ready(self, ctx: Argon2View, pass: int, slice: int, lane: int, b: int) -> bool {
        &&& self.independent == data_independent(ctx.algorithm, pass, slice)
        &&& self.zero_block@ == zero_words()
        &&& self.independent ==> self.input_block@ == address_input(
            ctx,
            pass,
            slice,
            lane,
            pages_made(b),
        )
        &&& self.independent && pages_made(b) >= 1 ==> self.address_block@
            == crate::fill::address_block(ctx, pass, slice, lane, pages_made(b))
    }

    fn new(ctx: &Argon2, pass: usize, slice: usize, lane: usize) -> (a: Addresses)
        ensures
            a.ready(
                ctx@,
                pass as int,
                slice as int,
                lane as int,
                first_position(pass as int, slice as int),
            ),
    {
        let independent = match ctx.algorithm {
            Algorithm::Argon2i => true,
            Algorithm::Argon2id => pass == 0 && slice < SYNC_POINTS / 2,
            Algorithm::Argon2d => false,
        };
        let mut address_block = Block::new();
        let mut input_block = Block::new();
        let zero_block = Block::new();
        if independent {
            input_block.words[0] = pass as u64;
            input_block.words[1] = lane as u64;
            input_block.words[2] = slice as u64;
            input_block.words[3] = ctx.params.block_count() as u64;
            input_block.words[4] = ctx.params.iterations() as u64;
            input_block.words[5] = ctx.algorithm.id() as u64;
            assert(input_block@ == address_input(ctx@, pass as int, slice as int, lane as int, 0));
            if pass == 0 && slice == 0 {
                // Generate first set of addresses
                Argon2::update_address_block(&mut address_block, &mut input_block, &zero_block);
                assert(input_block@ == address_input(
                    ctx@,
                    pass as int,
                    slice as int,
                    lane as int,
                    1,
                ));
            }
        }
        Addresses { independent, address_block, input_block, zero_block }
    }

    /// The word for position `b`, where `prev_block` is the block before it.
    fn rand(
        &mut self,
        b: usize,
        prev_block: &Block,
        Ghost(ctx): Ghost<Argon2View>,
        Ghost(pass): Ghost<int>,
        Ghost(slice): Ghost<int>,
        Ghost(lane): Ghost<int>,
    ) -> (r: u64)
        requires
            old(self).ready(ctx, pass, slice, lane, b as int),
            b < 0x1000_0000,
        ensures
            final(self).ready(ctx, pass, slice, lane, b + 1),
            r == if data_independent(ctx.algorithm, pass, slice) {
                crate::fill::address_block(ctx, pass, slice, lane, (b as int) / 128 + 1)[(b as int)
                    % 128]
            } else {
                prev_block@[0]
            },
    {
        if self.independent {
            let address_index = b % ADDRESSES_IN_BLOCK;
            if address_index == 0 {
                Argon2::update_address_block(
                    &mut self.address_block,
                    &mut self.input_block,
                    &self.zero_block,
                );
                assert(self.input_block@ == address_input(
                    ctx,
                    pass,
                    slice,
                    lane,
                    (b as int) / 128 + 1,
                ));
            }
            self.address_block.words[address_index]
        } else {
            prev_block.words[0]
        }
    }
}

/// The block at `index` as a segment's task sees it: from the task's own
/// blocks where the index lies in its segment, which starts at `lo`, else
/// from memory.
fn block_at<'a>(memory_blocks: &'a [Block], segment: &'a Vec<Block>, lo: usize, index: usize) -> (b:
    &'a Block)
    requires
        index < memory_blocks@.len(),
        lo + segment@.len() <= memory_blocks@.len(),
    ensures
        b@ == if lo <= index < lo + segment@.len() {
            segment@[index - lo]@
        } else {
            memory_blocks@[index as int]@
        },
{
    if lo <= index && index - lo < segment.len() {
        &segment[index - lo]
    } else {
        &memory_blocks[index]
    }
}

impl<'key> Argon2<'key> {
    #[verifier::type_invariant]
    spec fn inv(self) -> bool {
        match self.secret {
            Some(s) => s@.len() <= MAX_SECRET_LEN,
            None => true,
        }
    }

    /// Create a new Argon2 context.
    pub fn new(algorithm: Algorithm, version: Version, params: Params) -> (ctx: Argon2<'key>)
        ensures
            ctx@ == (Argon2View { algorithm, version, params: params@, secret: None }),
    {
        Argon2 { algorithm, version, params, secret: None }
    }

    /// Create a new Argon2 context with a secret key; refused where the key
    /// is longer than 2^32 - 1 bytes.
    pub fn new_with_secret(
        secret: &'key [u8],
        algorithm: Algorithm,
        version: Version,
        params: Params,
    ) -> (r: Result<Argon2<'key>, Error>)
        ensures
            secret@.len() > MAX_SECRET_LEN ==> r is Err && r->Err_0 == Error::SecretTooLong,
            secret@.len() <= MAX_SECRET_LEN ==> r is Ok && r->Ok_0@ == (Argon2View {
                algorithm,
                version,
                params: params@,
                secret: Some(secret@),
            }),
    {
        if MAX_SECRET_LEN < secret.len() {
            return Err(Error::SecretTooLong);
        }
        Ok(Argon2 { algorithm, version, params, secret: Some(secret) })
    }

    /// Get default configured [`Params`].
    pub fn params(&self) -> (p: &Params)
        ensures
            p@ == self@.params,
            p@.valid(),
    {
        let _ = self.params.m_cost();
        &self.params
    }

    /// The variant in use.
    pub fn algorithm(&self) -> (a: Algorithm)
        ensures
            a == self@.algorithm,
    {
        self.algorithm
    }

    /// The version in use.
    pub fn version(&self) -> (v: Version)
        ensures
            v == self@.version,
    {
        self.version
    }

    /// A context with the secret of this one and the given parameters; the
    /// variant and the version are the given ones, or the defaults where none
    /// is given.
    pub fn customized(
        &self,
        algorithm: Option<Algorithm>,
        version: Option<Version>,
        params: Params,
    ) -> (ctx: Argon2<'key>)
        ensures
            ctx@ == (Argon2View {
                algorithm: match algorithm {
                    Some(a) => a,
                    None => Algorithm::Argon2id,
                },
                version: match version {
                    Some(v) => v,
                    None => Version::V0x13,
                },
                params: params@,
                secret: self@.secret,
            }),
    {
        proof {
            use_type_invariant(self);
        }
        let algorithm = match algorithm {
            Some(a) => a,
            None => Algorithm::default(),
        };
        let version = match version {
            Some(v) => v,
            None => Version::default(),
        };
        Argon2 { secret: self.secret, algorithm, version, params }
    }

    /// Checks the length of an output buffer against the parameters.
    pub fn verify_output(&self, out_len: usize) -> (r: Result<(), Error>)
        ensures
            r == match output_refusal(self@.params.output_len, out_len as nat) {
                Some(e) => Err::<(), Error>(e),
                None => Ok::<(), Error>(()),
            },
            self@.params.valid(),
    {
        let least = match self.params.output_len() {
            Some(n) => n,
            None => Params::MIN_OUTPUT_LEN,
        };
        if out_len < least {
            return Err(Error::OutputTooShort);
        }
        let most = match self.params.output_len() {
            Some(n) => n,
            None => Params::MAX_OUTPUT_LEN,
        };
        if out_len > most {
            return Err(Error::OutputTooLong);
        }
        Ok(())
    }

    /// Checks the lengths of the password and of the salt.
    pub fn verify_inputs(pwd: &[u8], salt: &[u8]) -> (r: Result<(), Error>)
        ensures
            r == match input_refusal(pwd@.len(), salt@.len()) {
                Some(e) => Err::<(), Error>(e),
                None => Ok::<(), Error>(()),
            },
    {
        if pwd.len() > MAX_PWD_LEN {
            return Err(Error::PwdTooLong);
        }
        if salt.len() < MIN_SALT_LEN {
            return Err(Error::SaltTooShort);
        }
        if salt.len() > MAX_SALT_LEN {
            return Err(Error::SaltTooLong);
        }
        Ok(())
    }

    /// Hashes all the inputs into the 64-byte initial digest. Of `out` only
    /// the length enters.
    pub fn initial_hash(&self, pwd: &[u8], salt: &[u8], out: &[u8]) -> (h0: [u8; 64])
        ensures
            h0@ == initial_hash(self@, pwd@, salt@, out@.len()),
    {
        let mut input: Vec<u8> = Vec::new();
        push_le32(&mut input, self.params.p_cost());
        push_le32(&mut input, #[verifier::truncate] (out.len() as u32));
        push_le32(&mut input, self.params.m_cost());
        push_le32(&mut input, self.params.t_cost());
        push_le32(&mut input, self.version.number());
        push_le32(&mut input, self.algorithm.id());
        push_le32(&mut input, #[verifier::truncate] (pwd.len() as u32));
        input.extend_from_slice(pwd);
        push_le32(&mut input, #[verifier::truncate] (salt.len() as u32));
        input.extend_from_slice(salt);
        match self.secret {
            Some(secret) => {
                push_le32(&mut input, #[verifier::truncate] (secret.len() as u32));
                input.extend_from_slice(secret);
            },
            None => {
                let ghost before = input@;
                push_le32(&mut input, 0u32);
                assert(input@ == before + crate::variable_hash::le32(0u32) + Seq::<u8>::empty());
            },
        }
        let data = self.params.data();
        push_le32(&mut input, #[verifier::truncate] (data.len() as u32));
        input.extend_from_slice(data);
        assert(input@ == initial_hash_input(self@, pwd@, salt@, out@.len()));
        digest_512(input.as_slice())
    }

    /// Makes the next page of addresses: the counter in `input_block` goes up
    /// by one, and `address_block` becomes the input compressed twice.
    pub fn update_address_block(
        address_block: &mut Block,
        input_block: &mut Block,
        zero_block: &Block,
    )
        requires
            old(input_block)@[6] < u64::MAX,
        ensures
            final(input_block)@ == old(input_block)@.update(
                6,
                (old(input_block)@[6] + 1) as u64,
            ),
            final(address_block)@ == crate::block::compress(
                zero_block@,
                crate::block::compress(zero_block@, final(input_block)@),
            ),
    {
        let ghost before = input_block@;
        let counter = input_block.words[6] + 1;
        input_block.words[6] = counter;
        assert(input_block@ == before.update(6, counter));
        *address_block = Block::compress(zero_block, input_block);
        *address_block = Block::compress(zero_block, address_block);
    }

    /// Fills the segment of lane `lane` in slice `slice` during pass `pass`.
    pub fn fill_segment(&self, memory_blocks: &mut [Block], pass: usize, slice: usize, lane: usize)
        requires
            self@.params.block_count() <= old(memory_blocks)@.len(),
            slice < 4,
            lane < self@.params.lanes(),
        ensures
            final(memory_blocks)@.len() == old(memory_blocks)@.len(),
            memory_view(final(memory_blocks)@) == fill_segment(
                self@,
                memory_view(old(memory_blocks)@),
                pass as int,
                slice as int,
                lane as int,
            ),
    {
        let segment_length = self.params.segment_length();
        let ghost ctx = self@;
        let ghost m0 = memory_view(memory_blocks@);
        proof {
            lemma_geometry(ctx.params);
        }
        let mut addresses = Addresses::new(self, pass, slice, lane);
        let mut seg = SegmentView::new(pass, slice, lane, &self.params);
        while !seg.is_exhausted()
            invariant
                ctx == self@,
                seg@.valid(),
                seg@ == (Cursor {
                    params: ctx.params,
                    pass: pass as int,
                    slice: slice as int,
                    lane: lane as int,
                    position: seg@.position,
                }),
                segment_length == ctx.params.segment_length(),
                segment_length < 0x1000_0000,
                memory_blocks@.len() == old(memory_blocks)@.len(),
                ctx.params.block_count() <= memory_blocks@.len(),
                memory_view(memory_blocks@) == segment_prefix(
                    ctx,
                    m0,
                    pass as int,
                    slice as int,
                    lane as int,
                    seg@.position,
                ),
                addresses.ready(ctx, pass as int, slice as int, lane as int, seg@.position),
            decreases segment_length - seg@.position,
        {
            let b = seg.position();
            let prev = seg.prev_index();
            let ghost before = memory_view(memory_blocks@);
            let rand = addresses.rand(
                b,
                &memory_blocks[prev],
                Ghost(ctx),
                Ghost(pass as int),
                Ghost(slice as int),
                Ghost(lane as int),
            );
            match seg.next(rand) {
                Some((cur_index, prev_index, ref_index)) => {
                    let result = Block::compress(
                        &memory_blocks[prev_index],
                        &memory_blocks[ref_index],
                    );
                    if matches!(self.version, Version::V0x10) || pass == 0 {
                        memory_blocks[cur_index] = result;
                    } else {
                        let mut block = memory_blocks[cur_index];
                        block.xor_assign(&result);
                        memory_blocks[cur_index] = block;
                    }
                },
                None => {},
            }
            assert(memory_view(memory_blocks@) == crate::fill::step(
                ctx,
                before,
                pass as int,
                slice as int,
                lane as int,
                b as int,
            ));
        }
    }

    /// Computes the blocks of one segment without touching memory: the
    /// task of one lane, which may run beside those of the other lanes of the
    /// slice. Block `j` of the result is what filling the segment in place
    /// would leave at position `j` of the segment.
    pub fn compute_segment(
        &self,
        memory_blocks: &[Block],
        pass: usize,
        slice: usize,
        lane: usize,
    ) -> (segment: Vec<Block>)
        requires
            self@.params.block_count() <= memory_blocks@.len(),
            slice < 4,
            lane < self@.params.lanes(),
        ensures
            segment@.len() == self@.params.segment_length(),
            forall|j: int|
                0 <= j < self@.params.segment_length() ==> #[trigger] segment@[j]@ == fill_segment(
                    self@,
                    memory_view(memory_blocks@),
                    pass as int,
                    slice as int,
                    lane as int,
                )[cur_index(self@.params, slice as int, lane as int, j)],
    {
        let segment_length = self.params.segment_length();
        let lane_length = self.params.lane_length();
        let ghost ctx = self@;
        let ghost p = self@.params;
        let ghost m0 = memory_view(memory_blocks@);
        proof {
            lemma_layout(p, slice as int, lane as int);
        }
        let lo = lane * lane_length + slice * segment_length;
        let mut segment: Vec<Block> = Vec::new();
        let mut j: usize = 0;
        while j < segment_length
            invariant
                j <= segment_length,
                lo + segment_length <= memory_blocks@.len(),
                lo + segment_length <= 0x1000_0000,
                segment@.len() == j,
                forall|k: int| 0 <= k < j ==> #[trigger] segment@[k]@ == m0[lo + k],
                m0 == memory_view(memory_blocks@),
            decreases segment_length - j,
        {
            segment.push(memory_blocks[lo + j]);
            j += 1;
        }
        let mut addresses = Addresses::new(self, pass, slice, lane);
        let mut seg = SegmentView::new(pass, slice, lane, &self.params);
        while !seg.is_exhausted()
            invariant
                ctx == self@,
                p == ctx.params,
                p.valid(),
                slice < 4,
                lane < p.lanes(),
                seg@.valid(),
                seg@ == (Cursor {
                    params: p,
                    pass: pass as int,
                    slice: slice as int,
                    lane: lane as int,
                    position: seg@.position,
                }),
                segment_length == p.segment_length(),
                segment_length < 0x1000_0000,
                lo == cur_index(p, slice as int, lane as int, 0),
                lo + segment_length <= memory_blocks@.len(),
                p.block_count() <= memory_blocks@.len(),
                m0 == memory_view(memory_blocks@),
                segment@.len() == segment_length,
                forall|k: int|
                    0 <= k < segment_length ==> #[trigger] segment@[k]@ == segment_prefix(
                        ctx,
                        m0,
                        pass as int,
                        slice as int,
                        lane as int,
                        seg@.position,
                    )[lo + k],
                addresses.ready(ctx, pass as int, slice as int, lane as int, seg@.position),
            decreases segment_length - seg@.position,
        {
            let b = seg.position();
            let prev = seg.prev_index();
            let ghost before = segment_prefix(
                ctx,
                m0,
                pass as int,
                slice as int,
                lane as int,
                b as int,
            );
            proof {
                crate::properties::lemma_segment_frame(
                    ctx,
                    m0,
                    pass as int,
                    slice as int,
                    lane as int,
                    b as int,
                );
                lemma_layout(p, slice as int, lane as int);
            }
            assert forall|i: int| 0 <= i < memory_blocks@.len() implies before[i] == if lo <= i
                < lo + segment_length {
                segment@[i - lo]@
            } else {
                memory_blocks@[i]@
            } by {
                if lo <= i < lo + segment_length {
                    assert(segment@[i - lo]@ == before[lo + (i - lo)]);
                } else {
                    assert(before[i] == m0[i]);
                }
            }
            let rand = addresses.rand(
                b,
                block_at(memory_blocks, &segment, lo, prev),
                Ghost(ctx),
                Ghost(pass as int),
                Ghost(slice as int),
                Ghost(lane as int),
            );
            match seg.next(rand) {
                Some((cur_index, prev_index, ref_index)) => {
                    let result = Block::compress(
                        block_at(memory_blocks, &segment, lo, prev_index),
                        block_at(memory_blocks, &segment, lo, ref_index),
                    );
                    let ghost old_segment = segment@;
                    if matches!(self.version, Version::V0x10) || pass == 0 {
                        segment[cur_index - lo] = result;
                    } else {
                        let mut block = segment[cur_index - lo];
                        block.xor_assign(&result);
                        segment[cur_index - lo] = block;
                    }
                    let ghost after = crate::fill::step(
                        ctx,
                        before,
                        pass as int,
                        slice as int,
                        lane as int,
                        b as int,
                    );
                    assert forall|k: int| 0 <= k < segment_length implies #[trigger] segment@[k]@
                        == after[lo + k] by {
                        if k != b {
                            assert(segment@[k] == old_segment[k]);
                        }
                    }
                },
                None => {},
            }
        }
        segment
    }

    /// Puts the blocks of a segment into memory at the segment's place.
    pub fn store_segment(
        &self,
        memory_blocks: &mut [Block],
        slice: usize,
        lane: usize,
        segment: &[Block],
    )
        requires
            self@.params.block_count() <= old(memory_blocks)@.len(),
            slice < 4,
            lane < self@.params.lanes(),
            segment@.len() == self@.params.segment_length(),
        ensures
            final(memory_blocks)@.len() == old(memory_blocks)@.len(),
            forall|i: int|
                0 <= i < old(memory_blocks)@.len() ==> #[trigger] final(memory_blocks)@[i] == if
                    cur_index(self@.params, slice as int, lane as int, 0) <= i < cur_index(
                    self@.params,
                    slice as int,
                    lane as int,
                    self@.params.segment_length() as int,
                ) {
                    segment@[i - cur_index(self@.params, slice as int, lane as int, 0)]
                } else {
                    old(memory_blocks)@[i]
                },
    {
        let segment_length = self.params.segment_length();
        let lane_length = self.params.lane_length();
        proof {
            lemma_layout(self@.params, slice as int, lane as int);
        }
        let lo = lane * lane_length + slice * segment_length;
        let mut j: usize = 0;
        while j < segment_length
            invariant
                j <= segment_length,
                segment@.len() == segment_length,
                lo + segment_length <= memory_blocks@.len(),
                lo + segment_length <= 0x1000_0000,
                memory_blocks@.len() == old(memory_blocks)@.len(),
                forall|i: int|
                    0 <= i < memory_blocks@.len() ==> #[trigger] memory_blocks@[i] == if lo <= i
                        < lo + j {
                        segment@[i - lo]
                    } else {
                        old(memory_blocks)@[i]
                    },
            decreases segment_length - j,
        {
            memory_blocks[lo + j] = segment[j];
            j += 1;
        }
    }

    /// Puts into memory the segments that the tasks of one slice computed,
    /// `segments[l]` for lane `l`. Where each is what `compute_segment` gives
    /// for its lane on the memory as it stands, memory is afterwards as if the
    /// slice had been filled lane after lane.
    pub fn store_slice(&self, memory_blocks: &mut [Block], slice: usize, segments: &Vec<Vec<Block>>)
        requires
            self@.params.block_count() <= old(memory_blocks)@.len(),
            slice < 4,
            segments@.len() == self@.params.lanes(),
            forall|l: int|
                0 <= l < self@.params.lanes() ==> #[trigger] segments@[l]@.len()
                    == self@.params.segment_length(),
        ensures
            final(memory_blocks)@.len() == old(memory_blocks)@.len(),
            forall|i: int|
                0 <= i < old(memory_blocks)@.len() ==> #[trigger] final(memory_blocks)@[i] == if i
                    < self@.params.block_count() && in_slice(self@.params, slice as int, i) {
                    segments@[lane_of(self@.params, i)]@[offset_of(self@.params, i) - slice
                        * self@.params.segment_length()]
                } else {
                    old(memory_blocks)@[i]
                },
            forall|pass: int|
                0 <= pass && #[trigger] tasks_done(
                    self@,
                    memory_view(old(memory_blocks)@),
                    pass,
                    slice as int,
                    segments_view(segments@),
                ) ==> memory_view(final(memory_blocks)@) == crate::fill::fill_slice(
                    self@,
                    memory_view(old(memory_blocks)@),
                    pass,
                    slice as int,
                ),
    {
        let lanes = self.params.lanes();
        let ghost ctx = self@;
        let ghost p = self@.params;
        let ghost seg = p.segment_length() as int;
        let mut l: usize = 0;
        while l < lanes
            invariant
                l <= lanes,
                slice < 4,
                ctx == self@,
                p == ctx.params,
                p.valid(),
                seg == p.segment_length(),
                lanes == p.lanes(),
                segments@.len() == lanes,
                forall|k: int| 0 <= k < lanes ==> #[trigger] segments@[k]@.len() == seg,
                memory_blocks@.len() == old(memory_blocks)@.len(),
                p.block_count() <= memory_blocks@.len(),
                forall|i: int|
                    0 <= i < memory_blocks@.len() ==> #[trigger] memory_blocks@[i] == if i
                        < p.block_count() && in_slice(p, slice as int, i) && lane_of(p, i) < l {
                        segments@[lane_of(p, i)]@[offset_of(p, i) - slice * seg]
                    } else {
                        old(memory_blocks)@[i]
                    },
            decreases lanes - l,
        {
            let ghost before = memory_blocks@;
            self.store_segment(memory_blocks, slice, l, segments[l].as_slice());
            proof {
                lemma_layout(p, slice as int, l as int);
                let lo = cur_index(p, slice as int, l as int, 0);
                let hi = cur_index(p, slice as int, l as int, seg);
                assert forall|i: int| 0 <= i < memory_blocks@.len() implies #[trigger] memory_blocks@[i]
                    == if i < p.block_count() && in_slice(p, slice as int, i) && lane_of(p, i) < l
                    + 1 {
                    segments@[lane_of(p, i)]@[offset_of(p, i) - slice * seg]
                } else {
                    old(memory_blocks)@[i]
                } by {
                    if lo <= i < hi {
                        lemma_place(p, l as int, i - l * p.lane_length());
                    } else {
                        assert(memory_blocks@[i] == before[i]);
                        if i < p.block_count() {
                            lemma_split(p, i);
                        }
                    }
                }
            }
            l += 1;
        }
        proof {
            let m0 = memory_view(old(memory_blocks)@);
            let m1 = memory_view(memory_blocks@);
            assert forall|i: int| 0 <= i < memory_blocks@.len() implies #[trigger] memory_blocks@[i]
                == if i < p.block_count() && in_slice(p, slice as int, i) {
                segments@[lane_of(p, i)]@[offset_of(p, i) - slice * seg]
            } else {
                old(memory_blocks)@[i]
            } by {
                if i < p.block_count() {
                    lemma_split(p, i);
                }
            }
            assert forall|pass: int|
                0 <= pass && #[trigger] tasks_done(
                    ctx,
                    m0,
                    pass,
                    slice as int,
                    segments_view(segments@),
                ) implies m1 == crate::fill::fill_slice(ctx, m0, pass, slice as int) by {
                crate::properties::lemma_slice_lanes_independent(ctx, m0, pass, slice as int);
                let apart = crate::properties::fill_slice_apart(ctx, m0, pass, slice as int);
                assert forall|i: int| 0 <= i < m0.len() implies m1[i] == apart[i] by {
                    if i < p.block_count() && in_slice(p, slice as int, i) {
                        lemma_split(p, i);
                        lemma_layout(p, slice as int, lane_of(p, i));
                        let l = lane_of(p, i);
                        let j = offset_of(p, i) - slice * seg;
                        assert(cur_index(p, slice as int, l, j) == i);
                        assert(segments_view(segments@)[l][j] == segments@[l]@[j]@);
                    }
                }
                assert(m1 =~= apart);
            }
        }
    }

    /// Seeds the first two blocks of every lane from the initial hash.
    pub fn seed_blocks(&self, memory_blocks: &mut [Block], initial_hash: &[u8; 64])
        requires
            self@.params.block_count() <= old(memory_blocks)@.len(),
        ensures
            final(memory_blocks)@.len() == old(memory_blocks)@.len(),
            memory_view(final(memory_blocks)@) == crate::fill::seeded(
                self@.params,
                memory_view(old(memory_blocks)@),
                initial_hash@,
            ),
    {
        let ghost h0 = initial_hash@;
        let ghost p = self@.params;
        let ghost m0 = memory_view(memory_blocks@);
        let lanes = self.params.lanes();
        let lane_length = self.params.lane_length();
        proof {
            lemma_geometry(p);
        }
        let mut l: usize = 0;
        while l < lanes
            invariant
                l <= lanes,
                p == self@.params,
                p.valid(),
                lanes == p.lanes(),
                lane_length == p.lane_length(),
                lane_length >= 8,
                h0 == initial_hash@,
                memory_blocks@.len() == old(memory_blocks)@.len(),
                p.block_count() <= memory_blocks@.len(),
                m0.len() == memory_blocks@.len(),
                forall|k: int|
                    0 <= k < memory_blocks@.len() ==> #[trigger] memory_view(memory_blocks@)[k]
                        == if k < l * lane_length && k % (lane_length as int) < 2 {
                        seed_block(h0, k / (lane_length as int), k % (lane_length as int))
                    } else {
                        m0[k]
                    },
            decreases lanes - l,
        {
            proof {
                lemma_layout(p, 0, l as int);
            }
            let ghost before = memory_view(memory_blocks@);
            let base = l * lane_length;
            seed(memory_blocks, initial_hash, l, 0, base);
            seed(memory_blocks, initial_hash, l, 1, base + 1);
            assert forall|k: int| 0 <= k < memory_blocks@.len() implies #[trigger] memory_view(
                memory_blocks@,
            )[k] == if k < (l + 1) * lane_length && k % (lane_length as int) < 2 {
                seed_block(h0, k / (lane_length as int), k % (lane_length as int))
            } else {
                m0[k]
            } by {
                let ll = lane_length as int;
                assert((l + 1) * ll == l * ll + ll) by (nonlinear_arith);
                if l * ll <= k < l * ll + ll {
                    vstd::arithmetic::div_mod::lemma_fundamental_div_mod_converse(
                        k,
                        ll,
                        l as int,
                        k - l * ll,
                    );
                } else {
                    assert(memory_view(memory_blocks@)[k] == before[k]);
                }
            }
            l += 1;
        }
        assert(memory_view(memory_blocks@) == crate::fill::seeded(p, m0, h0)) by {
            assert(lanes * lane_length == p.block_count());
        }
    }

    /// Seeds the first two blocks of every lane from the initial hash, wipes
    /// the hash, then runs every pass over every slice and lane. Refused, with
    /// memory and hash left as they were, where the buffer holds fewer blocks
    /// than the parameters call for; blocks beyond that number are left alone.
    pub fn fill_blocks(&self, memory_blocks: &mut [Block], initial_hash: &mut [u8; 64]) -> (r:
        Result<(), Error>)
        ensures
            final(memory_blocks)@.len() == old(memory_blocks)@.len(),
            old(memory_blocks)@.len() < self@.params.block_count() ==> r == Err::<(), Error>(
                Error::MemoryTooLittle,
            ) && final(memory_blocks)@ == old(memory_blocks)@ && final(initial_hash)@ == old(
                initial_hash,
            )@,
            old(memory_blocks)@.len() >= self@.params.block_count() ==> r is Ok && memory_view(
                final(memory_blocks)@,
            ) == filled_memory(self@, memory_view(old(memory_blocks)@), old(initial_hash)@)
                && final(initial_hash)@ == Seq::new(64, |i: int| 0u8),
    {
        let ghost ctx = self@;
        let ghost p = self@.params;
        let block_count = self.params.block_count();
        if memory_blocks.len() < block_count {
            return Err(Error::MemoryTooLittle);
        }
        let lanes = self.params.lanes();
        let iterations = self.params.iterations();
        // Initialize the first two blocks in each lane
        self.seed_blocks(memory_blocks, initial_hash);
        wipe_digest(initial_hash);
        let ghost m1 = memory_view(memory_blocks@);
        // Run passes on blocks
        let mut pass: usize = 0;
        while pass < iterations
            invariant
                pass <= iterations,
                ctx == self@,
                p == ctx.params,
                p.valid(),
                iterations == p.iterations(),
                lanes == p.lanes(),
                memory_blocks@.len() == old(memory_blocks)@.len(),
                p.block_count() <= memory_blocks@.len(),
                memory_view(memory_blocks@) == fill_prefix(ctx, m1, pass as int),
            decreases iterations - pass,
        {
            let ghost m2 = memory_view(memory_blocks@);
            let mut slice: usize = 0;
            while slice < SYNC_POINTS
                invariant
                    slice <= 4,
                    ctx == self@,
                    p == ctx.params,
                    p.valid(),
                    lanes == p.lanes(),
                    memory_blocks@.len() == old(memory_blocks)@.len(),
                    p.block_count() <= memory_blocks@.len(),
                    memory_view(memory_blocks@) == pass_prefix(ctx, m2, pass as int, slice as int),
                decreases 4 - slice,
            {
                let ghost m3 = memory_view(memory_blocks@);
                let mut lane: usize = 0;
                while lane < lanes
                    invariant
                        lane <= lanes,
                        slice < 4,
                        ctx == self@,
                        p == ctx.params,
                        p.valid(),
                        lanes == p.lanes(),
                        memory_blocks@.len() == old(memory_blocks)@.len(),
                        p.block_count() <= memory_blocks@.len(),
                        memory_view(memory_blocks@) == slice_prefix(
                            ctx,
                            m3,
                            pass as int,
                            slice as int,
                            lane as int,
                        ),
                    decreases lanes - lane,
                {
                    self.fill_segment(memory_blocks, pass, slice, lane);
                    lane += 1;
                }
                slice += 1;
            }
            pass += 1;
        }
        Ok(())
    }

    /// Folds the last blocks of all lanes together and hashes the result to
    /// the length of `out`. Refused, with `out` left as it was, where `out`
    /// is empty or longer than 2^32 - 1 bytes.
    pub fn finalize(&self, memory_blocks: &[Block], out: &mut [u8]) -> (r: Result<(), Error>)
        requires
            self@.params.block_count() <= memory_blocks@.len(),
        ensures
            final(out)@.len() == old(out)@.len(),
            old(out)@.len() == 0 ==> r == Err::<(), Error>(Error::OutputTooShort) && final(out)@
                == old(out)@,
            old(out)@.len() > 0xffff_ffff ==> r == Err::<(), Error>(Error::OutputTooLong)
                && final(out)@ == old(out)@,
            0 < old(out)@.len() <= 0xffff_ffff ==> r is Ok && final(out)@ == tag(
                self@.params,
                memory_view(memory_blocks@),
                old(out)@.len(),
            ),
    {
        let lane_length = self.params.lane_length();
        let lanes = self.params.lanes();
        let ghost p = self@.params;
        let ghost mem = memory_view(memory_blocks@);
        proof {
            lemma_layout(p, 0, 0);
        }
        let mut blockhash = memory_blocks[lane_length - 1];
        // XOR the last blocks
        let mut l: usize = 1;
        while l < lanes
            invariant
                1 <= l <= lanes,
                p == self@.params,
                p.valid(),
                lanes == p.lanes(),
                lane_length == p.lane_length(),
                mem == memory_view(memory_blocks@),
                p.block_count() <= memory_blocks@.len(),
                blockhash@ == final_prefix(p, mem, l as int),
            decreases lanes - l,
        {
            proof {
                lemma_layout(p, 0, l as int);
            }
            let last_block_in_lane = l * lane_length + (lane_length - 1);
            blockhash.xor_assign(&memory_blocks[last_block_in_lane]);
            l += 1;
        }
        let bytes = blockhash.to_bytes();
        let r = blake2b_long(bytes.as_slice(), out.len());
        blockhash.zeroize();
        match r {
            Ok(digest) => {
                copy_into(out, digest.as_slice());
                Ok(())
            },
            Err(e) => Err(e),
        }
    }

    /// Use a password and associated parameters only to fill the given memory
    /// blocks.
    ///
    /// This method omits the calculation of a hash and can be used when only
    /// the filled memory is required.
    pub fn fill_memory(&self, pwd: &[u8], salt: &[u8], memory_blocks: &mut [Block]) -> (r: Result<
        (),
        Error,
    >)
        ensures
            final(memory_blocks)@.len() == old(memory_blocks)@.len(),
            match fill_refusal(self@, pwd@.len(), salt@.len(), old(memory_blocks)@.len()) {
                Some(e) => r == Err::<(), Error>(e) && final(memory_blocks)@ == old(memory_blocks)@,
                None => r is Ok && memory_view(final(memory_blocks)@) == memory_for(
                    self@,
                    pwd@,
                    salt@,
                    memory_view(old(memory_blocks)@),
                ),
            },
    {
        match Self::verify_inputs(pwd, salt) {
            Err(e) => {
                return Err(e);
            },
            Ok(_) => {},
        }
        let empty: [u8; 0] = [];
        let mut initial_hash = self.initial_hash(pwd, salt, empty.as_slice());
        self.fill_blocks(memory_blocks, &mut initial_hash)
    }

    /// Hash a password and associated parameters into the provided output
    /// buffer, in memory that the caller provides.
    ///
    /// The buffer is refused where its length is not the one the parameters
    /// fix (or, where they fix none, not within 4 and 2^32 - 1 bytes); then
    /// the password and the salt are checked, then the number of memory
    /// blocks. On refusal the output and the memory are left as they were.
    pub fn hash_password_into_with_memory(
        &self,
        pwd: &[u8],
        salt: &[u8],
        out: &mut [u8],
        memory_blocks: &mut [Block],
    ) -> (r: Result<(), Error>)
        ensures
            final(out)@.len() == old(out)@.len(),
            final(memory_blocks)@.len() == old(memory_blocks)@.len(),
            match hash_refusal(
                self@,
                pwd@.len(),
                salt@.len(),
                old(out)@.len(),
                old(memory_blocks)@.len(),
            ) {
                Some(e) => r == Err::<(), Error>(e) && final(out)@ == old(out)@ && final(memory_blocks)@ == old(memory_blocks)@,
                None => r is Ok && final(out)@ == hash(
                    self@,
                    pwd@,
                    salt@,
                    old(out)@.len(),
                    memory_view(old(memory_blocks)@),
                ) && memory_view(final(memory_blocks)@) == filled_memory(
                    self@,
                    memory_view(old(memory_blocks)@),
                    initial_hash(self@, pwd@, salt@, old(out)@.len()),
                ),
            },
    {
        // Validate output length
        match self.verify_output(out.len()) {
            Err(e) => {
                return Err(e);
            },
            Ok(_) => {},
        }
        match Self::verify_inputs(pwd, salt) {
            Err(e) => {
                return Err(e);
            },
            Ok(_) => {},
        }
        // Hashing all inputs
        let mut initial_hash = self.initial_hash(pwd, salt, out);
        match self.fill_blocks(memory_blocks, &mut initial_hash) {
            Err(e) => {
                return Err(e);
            },
            Ok(_) => {},
        }
        self.finalize(memory_blocks, out)
    }

    /// Hash a password and associated parameters into the provided output
    /// buffer, in memory allocated for the purpose.
    pub fn hash_password_into(&self, pwd: &[u8], salt: &[u8], out: &mut [u8]) -> (r: Result<
        (),
        Error,
    >)
        ensures
            final(out)@.len() == old(out)@.len(),
            match hash_refusal(
                self@,
                pwd@.len(),
                salt@.len(),
                old(out)@.len(),
                self@.params.block_count(),
            ) {
                Some(e) => r == Err::<(), Error>(e) && final(out)@ == old(out)@,
                None => r is Ok && final(out)@ == hash(
                    self@,
                    pwd@,
                    salt@,
                    old(out)@.len(),
                    zero_memory(self@.params.block_count()),
                ),
            },
    {
        let block_count = self.params.block_count();
        let mut blocks: Vec<Block> = Vec::new();
        let mut i: usize = 0;
        while i < block_count
            invariant
                i <= block_count,
                blocks@.len() == i,
                forall|k: int| 0 <= k < i ==> blocks@[k]@ == zero_words(),
            decreases block_count - i,
        {
            blocks.push(Block::new());
            i += 1;
        }
        assert(memory_view(blocks@) == zero_memory(block_count as nat));
        self.hash_password_into_with_memory(pwd, salt, out, blocks.as_mut_slice())
    }

    /// The length in bytes of the hash that `hash_password` gives: the one
    /// that the parameters fix, or 32.
    pub open spec fn hash_len(ctx: Argon2View) -> nat {
        match ctx.params.output_len {
            Some(n) => n as nat,
            None => Params::DEFAULT_OUTPUT_LEN as nat,
        }
    }

    /// Hashes a password with the raw bytes of a salt to a hash of the
    /// length that the parameters fix, or of 32 bytes where they fix none.
    pub fn hash_password(&self, password: &[u8], salt: &[u8]) -> (r: Result<Vec<u8>, Error>)
        ensures
            match input_refusal(password@.len(), salt@.len()) {
                Some(e) => r == Err::<Vec<u8>, Error>(e),
                None => r is Ok && r->Ok_0@ == hash(
                    self@,
                    password@,
                    salt@,
                    Self::hash_len(self@),
                    zero_memory(self@.params.block_count()),
                ) && r->Ok_0@.len() == Self::hash_len(self@),
            },
    {
        let output_len = match self.params.output_len() {
            Some(n) => n,
            None => Params::DEFAULT_OUTPUT_LEN,
        };
        let mut out: Vec<u8> = Vec::new();
        let mut i: usize = 0;
        while i < output_len
            invariant
                i <= output_len,
                out@.len() == i,
            decreases output_len - i,
        {
            out.push(0u8);
            i += 1;
        }
        match self.hash_password_into(password, salt, out.as_mut_slice()) {
            Ok(_) => Ok(out),
            Err(e) => Err(e),
        }
    }

    /// Hashes a password as `hash_password` does, in a context that has the
    /// secret of this one, the given parameters, and the given variant and
    /// version, or the defaults where none is given. Refused where the
    /// version number is neither 0x10 nor 0x13.
    pub fn hash_password_customized(
        &self,
        password: &[u8],
        algorithm: Option<Algorithm>,
        version: Option<u32>,
        params: Params,
        salt: &[u8],
    ) -> (r: Result<Vec<u8>, Error>)
        ensures
            version matches Some(n) && n != 0x10 && n != 0x13 ==> r == Err::<Vec<u8>, Error>(
                Error::VersionInvalid,
            ),
            !(version matches Some(n) && n != 0x10 && n != 0x13) ==> ({
                let ctx = Argon2View {
                    algorithm: match algorithm {
                        Some(a) => a,
                        None => Algorithm::Argon2id,
                    },
                    version: match version {
                        Some(n) => if n == 0x10 {
                            Version::V0x10
                        } else {
                            Version::V0x13
                        },
                        None => Version::V0x13,
                    },
                    params: params@,
                    secret: self@.secret,
                };
                match input_refusal(password@.len(), salt@.len()) {
                    Some(e) => r == Err::<Vec<u8>, Error>(e),
                    None => r is Ok && r->Ok_0@ == hash(
                        ctx,
                        password@,
                        salt@,
                        Self::hash_len(ctx),
                        zero_memory(ctx.params.block_count()),
                    ),
                }
            }),
    {
        let version = match version {
            Some(n) => match Version::from_number(n) {
                Ok(v) => Some(v),
                Err(e) => {
                    return Err(e);
                },
            },
            None => None,
        };
        self.customized(algorithm, version, params).hash_password(password, salt)
    }
}

impl<'key> Clone for Argon2<'key> {
    fn clone(&self) -> (ctx: Self)
        ensures
            ctx@ == self@,
    {
        proof {
            use_type_invariant(self);
        }
        Argon2 {
            algorithm: self.algorithm,
            version: self.version,
            params: self.params.clone(),
            secret: self.secret,
        }
    }
}

impl Default for Argon2<'_> {
    fn default() -> (ctx: Self)
        ensures
            ctx@ == (Argon2View {
                algorithm: Algorithm::Argon2id,
                version: Version::V0x13,
                params: crate::params::ParamsView::standard(),
                secret: None,
            }),
    {
        Self::new(Algorithm::default(), Version::default(), Params::default())
    }
}

impl<'key> From<Params> for Argon2<'key> {
    fn from(params: Params) -> (ctx: Self)
        ensures
            ctx@ == (Argon2View {
                algorithm: Algorithm::Argon2id,
                version: Version::V0x13,
                params: params@,
                secret: None,
            }),
    {
        Argon2 {
            algorithm: Algorithm::Argon2id,
            version: Version::V0x13,
            params,
            secret: None,
        }
    }
}

impl<'key> vstd::std_specs::convert::FromSpecImpl<Params> for Argon2<'key> {
    closed spec fn obeys_from_spec() -> bool {
        true
    }

    closed spec fn from_spec(params: Params) -> Self {
        Argon2 {
            algorithm: Algorithm::Argon2id,
            version: Version::V0x13,
            params,
            secret: None,
        }
    }
}

} // verus!
