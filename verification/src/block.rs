//! The 1 KiB memory block and its mixing function.
//!
//! A block is 128 words of 64 bits. Its view is the sequence of those words,
//! and every operation here is specified over such sequences.

use vstd::prelude::*;
use zeroize::Zeroize;

verus! {

/// The 1024-byte unit of memory.
#[derive(Clone, Copy, Debug)]
pub struct Block {
    pub words: [u64; 128],
}

impl View for Block {
    type V = Seq<u64>;

    open spec fn view(&self) -> Seq<u64> {
        self.words@
    }
}

/// The all-zero block contents.
pub open spec fn zero_words() -> Seq<u64> {
    Seq::new(128, |i: int| 0u64)
}

/// Word-wise exclusive or of two word sequences; the result has the length of `a`.
pub open spec fn xor_words(a: Seq<u64>, b: Seq<u64>) -> Seq<u64> {
    Seq::new(a.len(), |i: int| a[i] ^ b[i])
}

/// `x` rotated right by `n` bits, for `0 < n < 64`.
pub open spec fn rotr(x: u64, n: u64) -> u64 {
    (x >> n) | (x << ((64 - n) as u64))
}

/// The multiply-add of the round function:
/// `x + y + 2 * lo32(x) * lo32(y)` modulo 2^64.
pub open spec fn blamka(x: u64, y: u64) -> u64 {
    x.wrapping_add(y).wrapping_add(
        2u64.wrapping_mul((x & 0xffff_ffff).wrapping_mul(y & 0xffff_ffff)),
    )
}

/// The quarter round on four words.
pub open spec fn mix(a: u64, b: u64, c: u64, d: u64) -> (u64, u64, u64, u64) {
    let a1 = blamka(a, b);
    let d1 = rotr(d ^ a1, 32);
    let c1 = blamka(c, d1);
    let b1 = rotr(b ^ c1, 24);
    let a2 = blamka(a1, b1);
    let d2 = rotr(d1 ^ a2, 16);
    let c2 = blamka(c1, d2);
    let b2 = rotr(b1 ^ c2, 63);
    (a2, b2, c2, d2)
}

/// The quarter round applied in place to the words at four positions of `s`.
pub open spec fn quarter(s: Seq<u64>, a: int, b: int, c: int, d: int) -> Seq<u64> {
    let m = mix(s[a], s[b], s[c], s[d]);
    s.update(a, m.0).update(b, m.1).update(c, m.2).update(d, m.3)
}

/// The permutation on sixteen words: four quarter rounds down the columns of
/// the 4x4 word matrix, then four along its diagonals.
#[verifier::opaque]
pub open spec fn permute(s: Seq<u64>) -> Seq<u64> {
    let s1 = quarter(s, 0, 4, 8, 12);
    let s2 = quarter(s1, 1, 5, 9, 13);
    let s3 = quarter(s2, 2, 6, 10, 14);
    let s4 = quarter(s3, 3, 7, 11, 15);
    let s5 = quarter(s4, 0, 5, 10, 15);
    let s6 = quarter(s5, 1, 6, 11, 12);
    let s7 = quarter(s6, 2, 7, 8, 13);
    quarter(s7, 3, 4, 9, 14)
}

/// The sixteen words of column `c` of a block: the block is eight rows of
/// eight word pairs, and a column takes pair `c` of every row.
pub open spec fn column(s: Seq<u64>, c: int) -> Seq<u64> {
    Seq::new(16, |j: int| s[16 * (j / 2) + 2 * c + j % 2])
}

/// `s` with the sixteen words starting at `16 * r` replaced by `v`.
pub open spec fn with_row(s: Seq<u64>, r: int, v: Seq<u64>) -> Seq<u64> {
    Seq::new(
        128,
        |i: int|
            if 16 * r <= i < 16 * r + 16 {
                v[i - 16 * r]
            } else {
                s[i]
            },
    )
}

/// `s` with the sixteen words of column `c` replaced by `v`.
pub open spec fn with_column(s: Seq<u64>, c: int, v: Seq<u64>) -> Seq<u64> {
    Seq::new(
        128,
        |i: int|
            if (i % 16) / 2 == c {
                v[2 * (i / 16) + i % 2]
            } else {
                s[i]
            },
    )
}

/// The permutation applied to each of the eight rows of sixteen words.
pub open spec fn row_pass(s: Seq<u64>) -> Seq<u64> {
    Seq::new(128, |i: int| permute(s.subrange(i - i % 16, i - i % 16 + 16))[i % 16])
}

/// The permutation applied to each of the eight columns.
pub open spec fn column_pass(s: Seq<u64>) -> Seq<u64> {
    Seq::new(128, |i: int| permute(column(s, (i % 16) / 2))[2 * (i / 16) + i % 2])
}

/// The compression function on block contents: with `r = x ^ y`, the rows of
/// `r` are permuted, then the columns, and `r` is folded back in.
pub open spec fn compress(x: Seq<u64>, y: Seq<u64>) -> Seq<u64> {
    let r = xor_words(x, y);
    xor_words(column_pass(row_pass(r)), r)
}

/// Byte `k` (0 is the least significant) of `x`.
pub open spec fn byte_of(x: u64, k: int) -> u8 {
    ((x >> ((8 * k) as u64)) & 0xff) as u8
}

/// The little-endian bytes of a sequence of words.
pub open spec fn words_to_bytes(w: Seq<u64>) -> Seq<u8> {
    Seq::new(8 * w.len(), |i: int| byte_of(w[i / 8], i % 8))
}

/// The word whose little-endian bytes are `b[at..at + 8]`.
pub open spec fn word_at(b: Seq<u8>, at: int) -> u64 {
    (b[at] as u64) | (b[at + 1] as u64) << 8 | (b[at + 2] as u64) << 16 | (b[at + 3] as u64) << 24
        | (b[at + 4] as u64) << 32 | (b[at + 5] as u64) << 40 | (b[at + 6] as u64) << 48 | (b[at
        + 7] as u64) << 56
}

/// The words whose little-endian bytes are `b`, eight bytes to a word.
pub open spec fn bytes_to_words(b: Seq<u8>) -> Seq<u64> {
    Seq::new(b.len() / 8, |i: int| word_at(b, 8 * i))
}

/// Calls `Zeroize::zeroize` of the zeroize crate on the words of the block:
/// every word of it is zero afterwards.
#[verifier::external_body]
fn wipe_words(words: &mut [u64; 128])
    ensures
        final(words)@ == zero_words(),
{
    words.zeroize();
}

fn rotate_right(x: u64, n: u64) -> (r: u64)
    requires
        0 < n < 64,
    ensures
        r == rotr(x, n),
{
    (x >> n) | (x << (64 - n))
}

fn multiply_add(x: u64, y: u64) -> (r: u64)
    ensures
        r == blamka(x, y),
{
    x.wrapping_add(y).wrapping_add(
        2u64.wrapping_mul((x & 0xffff_ffff).wrapping_mul(y & 0xffff_ffff)),
    )
}

fn quarter_round(v: &mut [u64; 16], a: usize, b: usize, c: usize, d: usize)
    requires
        a < 16,
        b < 16,
        c < 16,
        d < 16,
    ensures
        final(v)@ == quarter(old(v)@, a as int, b as int, c as int, d as int),
{
    let a0 = v[a];
    let b0 = v[b];
    let c0 = v[c];
    let d0 = v[d];
    let a1 = multiply_add(a0, b0);
    let d1 = rotate_right(d0 ^ a1, 32);
    let c1 = multiply_add(c0, d1);
    let b1 = rotate_right(b0 ^ c1, 24);
    let a2 = multiply_add(a1, b1);
    let d2 = rotate_right(d1 ^ a2, 16);
    let c2 = multiply_add(c1, d2);
    let b2 = rotate_right(b1 ^ c2, 63);
    let ghost s0 = v@;
    v[a] = a2;
    assert(v@ == s0.update(a as int, a2));
    let ghost s1 = v@;
    v[b] = b2;
    assert(v@ == s1.update(b as int, b2));
    let ghost s2 = v@;
    v[c] = c2;
    assert(v@ == s2.update(c as int, c2));
    let ghost s3 = v@;
    v[d] = d2;
    assert(v@ == s3.update(d as int, d2));
}

fn permute_words(v: &mut [u64; 16])
    ensures
        final(v)@ == permute(old(v)@),
{
    reveal(permute);
    quarter_round(v, 0, 4, 8, 12);
    quarter_round(v, 1, 5, 9, 13);
    quarter_round(v, 2, 6, 10, 14);
    quarter_round(v, 3, 7, 11, 15);
    quarter_round(v, 0, 5, 10, 15);
    quarter_round(v, 1, 6, 11, 12);
    quarter_round(v, 2, 7, 8, 13);
    quarter_round(v, 3, 4, 9, 14);
}

fn load_row(q: &Block, r: usize) -> (v: [u64; 16])
    requires
        r < 8,
    ensures
        v@ == q@.subrange(16 * r, 16 * r + 16),
{
    let mut v: [u64; 16] = [0u64; 16];
    let mut j: usize = 0;
    while j < 16
        invariant
            j <= 16,
            r < 8,
            forall|k: int| 0 <= k < j ==> v@[k] == q@[16 * r + k],
        decreases 16 - j,
    {
        let ghost before = v@;
        let x = q.words[16 * r + j];
        v[j] = x;
        assert(v@ == before.update(j as int, x));
        j += 1;
    }
    v
}

fn store_row(q: &mut Block, r: usize, v: &[u64; 16])
    requires
        r < 8,
    ensures
        final(q)@ == with_row(old(q)@, r as int, v@),
{
    let mut j: usize = 0;
    while j < 16
        invariant
            j <= 16,
            r < 8,
            q@.len() == 128,
            forall|i: int|
                0 <= i < 128 ==> q@[i] == if 16 * r <= i < 16 * r + j {
                    v@[i - 16 * r]
                } else {
                    old(q)@[i]
                },
        decreases 16 - j,
    {
        let ghost before = q@;
        let x = v[j];
        q.words[16 * r + j] = x;
        assert(q@ == before.update(16 * r + j, x));
        j += 1;
    }
}

fn load_column(q: &Block, c: usize) -> (v: [u64; 16])
    requires
        c < 8,
    ensures
        v@ == column(q@, c as int),
{
    let mut v: [u64; 16] = [0u64; 16];
    let mut k: usize = 0;
    while k < 8
        invariant
            k <= 8,
            c < 8,
            forall|j: int| 0 <= j < 2 * k ==> v@[j] == q@[16 * (j / 2) + 2 * c + j % 2],
        decreases 8 - k,
    {
        let ghost s0 = v@;
        let x = q.words[16 * k + 2 * c];
        let y = q.words[16 * k + 2 * c + 1];
        v[2 * k] = x;
        assert(v@ == s0.update(2 * k, x));
        let ghost s1 = v@;
        v[2 * k + 1] = y;
        assert(v@ == s1.update(2 * k + 1, y));
        k += 1;
    }
    v
}

fn store_column(q: &mut Block, c: usize, v: &[u64; 16])
    requires
        c < 8,
    ensures
        final(q)@ == with_column(old(q)@, c as int, v@),
{
    let mut k: usize = 0;
    while k < 8
        invariant
            k <= 8,
            c < 8,
            q@.len() == 128,
            forall|i: int|
                0 <= i < 128 ==> q@[i] == if (i % 16) / 2 == c && i / 16 < k {
                    v@[2 * (i / 16) + i % 2]
                } else {
                    old(q)@[i]
                },
        decreases 8 - k,
    {
        let ghost s0 = q@;
        let x = v[2 * k];
        let y = v[2 * k + 1];
        q.words[16 * k + 2 * c] = x;
        assert(q@ == s0.update(16 * k + 2 * c, x));
        let ghost s1 = q@;
        q.words[16 * k + 2 * c + 1] = y;
        assert(q@ == s1.update(16 * k + 2 * c + 1, y));
        k += 1;
    }
}

fn permute_rows(q: &mut Block)
    ensures
        final(q)@ == row_pass(old(q)@),
{
    let mut r: usize = 0;
    while r < 8
        invariant
            r <= 8,
            q@.len() == 128,
            forall|i: int|
                0 <= i < 128 ==> q@[i] == if i < 16 * r {
                    row_pass(old(q)@)[i]
                } else {
                    old(q)@[i]
                },
        decreases 8 - r,
    {
        let ghost before = q@;
        let mut v = load_row(q, r);
        let ghost row = v@;
        assert(row == old(q)@.subrange(16 * r, 16 * r + 16));
        permute_words(&mut v);
        store_row(q, r, &v);
        assert forall|i: int| 0 <= i < 128 implies q@[i] == if i < 16 * (r + 1) {
            row_pass(old(q)@)[i]
        } else {
            old(q)@[i]
        } by {
            if 16 * r <= i < 16 * r + 16 {
                assert(i % 16 == i - 16 * r);
                assert(old(q)@.subrange(i - i % 16, i - i % 16 + 16) == row);
            } else {
                assert(q@[i] == before[i]);
            }
        }
        r += 1;
    }
}

fn permute_columns(q: &mut Block)
    ensures
        final(q)@ == column_pass(old(q)@),
{
    let mut c: usize = 0;
    while c < 8
        invariant
            c <= 8,
            q@.len() == 128,
            forall|i: int|
                0 <= i < 128 ==> q@[i] == if (i % 16) / 2 < c {
                    column_pass(old(q)@)[i]
                } else {
                    old(q)@[i]
                },
        decreases 8 - c,
    {
        let ghost before = q@;
        let mut v = load_column(q, c);
        let ghost col = v@;
        assert(col == column(old(q)@, c as int)) by {
            assert forall|j: int| 0 <= j < 16 implies #[trigger] col[j] == column(
                old(q)@,
                c as int,
            )[j] by {
                let i = 16 * (j / 2) + 2 * c + j % 2;
                assert((i % 16) / 2 == c);
                assert(before[i] == old(q)@[i]);
            }
        }
        permute_words(&mut v);
        store_column(q, c, &v);
        assert forall|i: int| 0 <= i < 128 implies q@[i] == if (i % 16) / 2 < c + 1 {
            column_pass(old(q)@)[i]
        } else {
            old(q)@[i]
        } by {
            if (i % 16) / 2 == c {
                assert(q@[i] == permute(col)[2 * (i / 16) + i % 2]);
            } else {
                assert(q@[i] == before[i]);
            }
        }
        c += 1;
    }
}

fn word_to_bytes(x: u64, out: &mut Vec<u8>)
    ensures
        final(out)@ == old(out)@ + Seq::new(8, |k: int| byte_of(x, k)),
{
    let ghost before = out@;
    out.push(((x >> 0) & 0xff) as u8);
    out.push(((x >> 8) & 0xff) as u8);
    out.push(((x >> 16) & 0xff) as u8);
    out.push(((x >> 24) & 0xff) as u8);
    out.push(((x >> 32) & 0xff) as u8);
    out.push(((x >> 40) & 0xff) as u8);
    out.push(((x >> 48) & 0xff) as u8);
    out.push(((x >> 56) & 0xff) as u8);
    assert(out@ == before + Seq::new(8, |k: int| byte_of(x, k)));
}

fn word_from_bytes(b: &[u8], at: usize) -> (x: u64)
    requires
        at + 8 <= b@.len(),
    ensures
        x == word_at(b@, at as int),
{
    (b[at] as u64) | (b[at + 1] as u64) << 8 | (b[at + 2] as u64) << 16 | (b[at + 3] as u64) << 24
        | (b[at + 4] as u64) << 32 | (b[at + 5] as u64) << 40 | (b[at + 6] as u64) << 48 | (b[at
        + 7] as u64) << 56
}

impl Block {
    /// Size of a block in bytes.
    pub const SIZE: usize = 1024;

    /// The all-zero block.
    pub fn new() -> (b: Block)
        ensures
            b@ == zero_words(),
    {
        Block { words: [0u64; 128] }
    }

    /// Overwrites the block with zeros, in a way that the compiler keeps.
    pub fn zeroize(&mut self)
        ensures
            final(self)@ == zero_words(),
    {
        wipe_words(&mut self.words);
    }

    /// Mixes two blocks into a new one.
    pub fn compress(rhs: &Block, lhs: &Block) -> (out: Block)
        ensures
            out@ == compress(rhs@, lhs@),
    {
        let mut r = *rhs;
        r.xor_assign(lhs);
        let mut q = r;
        permute_rows(&mut q);
        permute_columns(&mut q);
        q.xor_assign(&r);
        q
    }

    /// Folds `other` into this block, word by word.
    pub fn xor_assign(&mut self, other: &Block)
        ensures
            final(self)@ == xor_words(old(self)@, other@),
    {
        let mut i: usize = 0;
        while i < 128
            invariant
                i <= 128,
                self@.len() == 128,
                forall|j: int| 0 <= j < i ==> self@[j] == old(self)@[j] ^ other@[j],
                forall|j: int| i <= j < 128 ==> self@[j] == old(self)@[j],
            decreases 128 - i,
        {
            let ghost before = self@;
            let x = self.words[i] ^ other.words[i];
            self.words[i] = x;
            assert(self@ == before.update(i as int, x));
            i += 1;
        }
    }

    /// The block whose little-endian encoding is the 1024 bytes of `bytes`.
    pub fn from_bytes(bytes: &[u8]) -> (b: Block)
        requires
            bytes@.len() == 1024,
        ensures
            b@ == bytes_to_words(bytes@),
    {
        let mut b = Block { words: [0u64; 128] };
        let mut i: usize = 0;
        while i < 128
            invariant
                i <= 128,
                bytes@.len() == 1024,
                b@.len() == 128,
                forall|j: int| 0 <= j < i ==> b@[j] == word_at(bytes@, 8 * j),
            decreases 128 - i,
        {
            let ghost before = b@;
            let x = word_from_bytes(bytes, 8 * i);
            b.words[i] = x;
            assert(b@ == before.update(i as int, x));
            i += 1;
        }
        b
    }

    /// The little-endian encoding of the block, 1024 bytes.
    pub fn to_bytes(&self) -> (bytes: Vec<u8>)
        ensures
            bytes@ == words_to_bytes(self@),
    {
        let mut bytes: Vec<u8> = Vec::with_capacity(1024);
        let mut i: usize = 0;
        while i < 128
            invariant
                i <= 128,
                self@.len() == 128,
                bytes@.len() == 8 * i,
                forall|j: int| 0 <= j < 8 * i ==> bytes@[j] == byte_of(self@[j / 8], j % 8),
            decreases 128 - i,
        {
            word_to_bytes(self.words[i], &mut bytes);
            i += 1;
        }
        bytes
    }
}

impl Default for Block {
    fn default() -> (b: Block)
        ensures
            b@ == zero_words(),
    {
        Block::new()
    }
}

} // verus!
