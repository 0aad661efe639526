//! Laws of the fill: what it reads, what it writes, and what follows.

use crate::fill::{
    fill, fill_pass, fill_prefix, fill_segment, fill_slice, filled_memory, overwrites,
    pass_prefix, rand_word, segment_prefix, slice_prefix, step, step_ref_index, tag, Argon2View,
};
use crate::params::ParamsView;
use crate::segment_view::{
    cur_index, first_position, lemma_layout, lemma_ref_position, prev_index, ref_index,
};
use crate::version::Version;
use vstd::arithmetic::div_mod::{lemma_fundamental_div_mod, lemma_fundamental_div_mod_converse};
use vstd::prelude::*;

verus! {

/// The lane that block `i` of memory lies in.
pub open spec fn lane_of(p: ParamsView, i: int) -> int {
    i / (p.lane_length() as int)
}

/// The position of block `i` of memory within its lane.
pub open spec fn offset_of(p: ParamsView, i: int) -> int {
    i % (p.lane_length() as int)
}

/// Whether block `i` of memory lies in slice `slice` of its lane.
pub open spec fn in_slice(p: ParamsView, slice: int, i: int) -> bool {
    slice * p.segment_length() <= offset_of(p, i) < (slice + 1) * p.segment_length()
}

/// Whether block `i` is one that filling the positions below `n` of a segment
/// writes.
pub open spec fn written(p: ParamsView, pass: int, slice: int, lane: int, n: int, i: int) -> bool {
    cur_index(p, slice, lane, first_position(pass, slice)) <= i < cur_index(p, slice, lane, n)
}

/// The block at position `j` of lane `l` has index `l * lane_length + j`.
pub proof fn lemma_place(p: ParamsView, l: int, j: int)
    requires
        p.valid(),
        0 <= l < p.lanes(),
        0 <= j < p.lane_length(),
    ensures
        lane_of(p, l * p.lane_length() + j) == l,
        offset_of(p, l * p.lane_length() + j) == j,
        0 <= l * p.lane_length() + j < p.block_count(),
{
    lemma_layout(p, 0, l);
    lemma_fundamental_div_mod_converse(l * p.lane_length() + j, p.lane_length() as int, l, j);
}

/// Every block of memory has a lane and a position in it.
pub proof fn lemma_split(p: ParamsView, i: int)
    requires
        p.valid(),
        0 <= i < p.block_count(),
    ensures
        0 <= lane_of(p, i) < p.lanes(),
        0 <= offset_of(p, i) < p.lane_length(),
        i == lane_of(p, i) * p.lane_length() + offset_of(p, i),
{
    lemma_layout(p, 0, 0);
    let ll = p.lane_length() as int;
    let n = p.lanes() as int;
    lemma_fundamental_div_mod(i, ll);
    let q = i / ll;
    let r = i % ll;
    assert(0 <= r < ll);
    assert(ll * q == q * ll) by (nonlinear_arith);
    assert(0 <= q < n) by (nonlinear_arith)
        requires
            i == q * ll + r,
            0 <= r < ll,
            0 <= i < n * ll,
            ll > 0,
    ;
}

/// Filling the positions below `n` of a segment keeps the length of memory
/// and changes no block but those it writes.
pub proof fn lemma_segment_frame(
    ctx: Argon2View,
    mem: Seq<Seq<u64>>,
    pass: int,
    slice: int,
    lane: int,
    n: int,
)
    requires
        ctx.params.valid(),
        0 <= pass,
        0 <= slice < 4,
        0 <= lane < ctx.params.lanes(),
        first_position(pass, slice) <= n <= ctx.params.segment_length(),
        ctx.params.block_count() <= mem.len(),
    ensures
        segment_prefix(ctx, mem, pass, slice, lane, n).len() == mem.len(),
        forall|i: int|
            0 <= i < mem.len() && !written(ctx.params, pass, slice, lane, n, i)
                ==> #[trigger] segment_prefix(ctx, mem, pass, slice, lane, n)[i] == mem[i],
    decreases n,
{
    if n > first_position(pass, slice) {
        lemma_segment_frame(ctx, mem, pass, slice, lane, n - 1);
        lemma_layout(ctx.params, slice, lane);
    }
}

/// Filling the lanes below `k` of a slice keeps the length of memory.
pub proof fn lemma_slice_len(ctx: Argon2View, mem: Seq<Seq<u64>>, pass: int, slice: int, k: int)
    requires
        ctx.params.valid(),
        0 <= pass,
        0 <= slice < 4,
        0 <= k <= ctx.params.lanes(),
        ctx.params.block_count() <= mem.len(),
    ensures
        slice_prefix(ctx, mem, pass, slice, k).len() == mem.len(),
    decreases k,
{
    if k > 0 {
        lemma_slice_len(ctx, mem, pass, slice, k - 1);
        lemma_layout(ctx.params, slice, k - 1);
        lemma_segment_frame(
            ctx,
            slice_prefix(ctx, mem, pass, slice, k - 1),
            pass,
            slice,
            k - 1,
            ctx.params.segment_length() as int,
        );
    }
}

/// Filling the slices below `slices` of a pass keeps the length of memory.
pub proof fn lemma_pass_len(ctx: Argon2View, mem: Seq<Seq<u64>>, pass: int, slices: int)
    requires
        ctx.params.valid(),
        0 <= pass,
        0 <= slices <= 4,
        ctx.params.block_count() <= mem.len(),
    ensures
        pass_prefix(ctx, mem, pass, slices).len() == mem.len(),
    decreases slices,
{
    if slices > 0 {
        lemma_pass_len(ctx, mem, pass, slices - 1);
        lemma_slice_len(
            ctx,
            pass_prefix(ctx, mem, pass, slices - 1),
            pass,
            slices - 1,
            ctx.params.lanes() as int,
        );
    }
}

/// Filling the passes below `passes` keeps the length of memory.
pub proof fn lemma_fill_len(ctx: Argon2View, mem: Seq<Seq<u64>>, passes: int)
    requires
        ctx.params.valid(),
        0 <= passes,
        ctx.params.block_count() <= mem.len(),
    ensures
        fill_prefix(ctx, mem, passes).len() == mem.len(),
    decreases passes,
{
    if passes > 0 {
        lemma_fill_len(ctx, mem, passes - 1);
        lemma_pass_len(ctx, fill_prefix(ctx, mem, passes - 1), passes - 1, 4);
    }
}

/// What a step reads lies in `a` or was written earlier in the segment.
pub open spec fn reads_covered(
    ctx: Argon2View,
    pass: int,
    slice: int,
    lane: int,
    a: spec_fn(int) -> bool,
    b: int,
) -> bool {
    let p = ctx.params;
    &&& a(prev_index(p, slice, lane, b)) || written(
        p,
        pass,
        slice,
        lane,
        b,
        prev_index(p, slice, lane, b),
    )
    &&& forall|rand: u64|
        a(#[trigger] ref_index(p, pass, slice, lane, b, rand)) || written(
            p,
            pass,
            slice,
            lane,
            b,
            ref_index(p, pass, slice, lane, b, rand),
        )
    &&& !overwrites(ctx.version, pass) ==> a(cur_index(p, slice, lane, b))
}

/// Two memories that agree on the blocks of `a`, where `a` covers what the
/// steps below `n` of a segment read, agree after those steps on the blocks of
/// `a` and on the blocks written.
pub proof fn lemma_segment_agree(
    ctx: Argon2View,
    m1: Seq<Seq<u64>>,
    m2: Seq<Seq<u64>>,
    pass: int,
    slice: int,
    lane: int,
    a: spec_fn(int) -> bool,
    n: int,
)
    requires
        ctx.params.valid(),
        0 <= pass,
        0 <= slice < 4,
        0 <= lane < ctx.params.lanes(),
        first_position(pass, slice) <= n <= ctx.params.segment_length(),
        ctx.params.block_count() <= m1.len(),
        ctx.params.block_count() <= m2.len(),
        forall|i: int| 0 <= i < ctx.params.block_count() && #[trigger] a(i) ==> m1[i] == m2[i],
        forall|b: int|
            first_position(pass, slice) <= b < n ==> #[trigger] reads_covered(
                ctx,
                pass,
                slice,
                lane,
                a,
                b,
            ),
    ensures
        forall|i: int|
            0 <= i < ctx.params.block_count() && (a(i) || written(
                ctx.params,
                pass,
                slice,
                lane,
                n,
                i,
            )) ==> #[trigger] segment_prefix(ctx, m1, pass, slice, lane, n)[i] == segment_prefix(
                ctx,
                m2,
                pass,
                slice,
                lane,
                n,
            )[i],
    decreases n,
{
    let p = ctx.params;
    if n > first_position(pass, slice) {
        let b = n - 1;
        lemma_segment_agree(ctx, m1, m2, pass, slice, lane, a, b);
        lemma_segment_frame(ctx, m1, pass, slice, lane, b);
        lemma_segment_frame(ctx, m2, pass, slice, lane, b);
        lemma_layout(p, slice, lane);
        let s1 = segment_prefix(ctx, m1, pass, slice, lane, b);
        let s2 = segment_prefix(ctx, m2, pass, slice, lane, b);
        let t1 = segment_prefix(ctx, m1, pass, slice, lane, n);
        let t2 = segment_prefix(ctx, m2, pass, slice, lane, n);
        assert(t1 == step(ctx, s1, pass, slice, lane, b));
        assert(t2 == step(ctx, s2, pass, slice, lane, b));
        assert(reads_covered(ctx, pass, slice, lane, a, b));
        let prev = prev_index(p, slice, lane, b);
        let cur = cur_index(p, slice, lane, b);
        assert(0 <= prev < p.block_count());
        assert(0 <= cur < p.block_count());
        assert(s1[prev] == s2[prev]);
        let rand = rand_word(ctx, s1, pass, slice, lane, b);
        assert(rand_word(ctx, s2, pass, slice, lane, b) == rand);
        lemma_ref_position(p, pass, slice, lane, b, rand);
        let r = ref_index(p, pass, slice, lane, b, rand);
        assert(a(r) || written(p, pass, slice, lane, b, r));
        assert(s1[r] == s2[r]);
        assert(step_ref_index(ctx, s1, pass, slice, lane, b) == r);
        assert(step_ref_index(ctx, s2, pass, slice, lane, b) == r);
        if !overwrites(ctx.version, pass) {
            assert(a(cur));
            assert(s1[cur] == s2[cur]);
        }
        assert(t1[cur] == t2[cur]);
        assert forall|i: int|
            0 <= i < p.block_count() && (a(i) || written(p, pass, slice, lane, n, i)) implies t1[i]
            == t2[i] by {
            if i != cur {
                assert(t1[i] == s1[i]);
                assert(t2[i] == s2[i]);
                assert(a(i) || written(p, pass, slice, lane, b, i));
                assert(s1[i] == s2[i]);
            }
        }
    } else {
        assert forall|i: int|
            0 <= i < p.block_count() && (a(i) || written(p, pass, slice, lane, n, i)) implies m1[i]
            == m2[i] by {
            assert(a(i));
        }
    }
}

/// The context with another version.
pub open spec fn with_version(ctx: Argon2View, version: Version) -> Argon2View {
    Argon2View { version, ..ctx }
}

proof fn lemma_first_pass_segment_any_version(
    ctx: Argon2View,
    mem: Seq<Seq<u64>>,
    slice: int,
    lane: int,
    n: int,
)
    ensures
        segment_prefix(with_version(ctx, Version::V0x10), mem, 0, slice, lane, n) == segment_prefix(
            with_version(ctx, Version::V0x13),
            mem,
            0,
            slice,
            lane,
            n,
        ),
    decreases n,
{
    if n > first_position(0, slice) {
        lemma_first_pass_segment_any_version(ctx, mem, slice, lane, n - 1);
    }
}

proof fn lemma_first_pass_slice_any_version(
    ctx: Argon2View,
    mem: Seq<Seq<u64>>,
    slice: int,
    k: int,
)
    ensures
        slice_prefix(with_version(ctx, Version::V0x10), mem, 0, slice, k) == slice_prefix(
            with_version(ctx, Version::V0x13),
            mem,
            0,
            slice,
            k,
        ),
    decreases k,
{
    if k > 0 {
        lemma_first_pass_slice_any_version(ctx, mem, slice, k - 1);
        lemma_first_pass_segment_any_version(
            ctx,
            slice_prefix(with_version(ctx, Version::V0x10), mem, 0, slice, k - 1),
            slice,
            k - 1,
            ctx.params.segment_length() as int,
        );
    }
}

/// The first pass does not depend on the version: it overwrites in both.
pub proof fn lemma_first_pass_any_version(ctx: Argon2View, mem: Seq<Seq<u64>>, slices: int)
    ensures
        pass_prefix(with_version(ctx, Version::V0x10), mem, 0, slices) == pass_prefix(
            with_version(ctx, Version::V0x13),
            mem,
            0,
            slices,
        ),
    decreases slices,
{
    if slices > 0 {
        lemma_first_pass_any_version(ctx, mem, slices - 1);
        lemma_first_pass_slice_any_version(
            ctx,
            pass_prefix(with_version(ctx, Version::V0x10), mem, 0, slices - 1),
            slices - 1,
            ctx.params.lanes() as int,
        );
    }
}

/// With a single pass, the two versions fill memory alike from the same
/// initial hash, and so give the same output for it.
pub proof fn lemma_single_pass_versions_agree(
    ctx: Argon2View,
    mem: Seq<Seq<u64>>,
    h0: Seq<u8>,
    out_len: nat,
)
    requires
        ctx.params.iterations() == 1,
    ensures
        filled_memory(with_version(ctx, Version::V0x10), mem, h0) == filled_memory(
            with_version(ctx, Version::V0x13),
            mem,
            h0,
        ),
        tag(ctx.params, filled_memory(with_version(ctx, Version::V0x10), mem, h0), out_len) == tag(
            ctx.params,
            filled_memory(with_version(ctx, Version::V0x13), mem, h0),
            out_len,
        ),
{
    let seeded = crate::fill::seeded(ctx.params, mem, h0);
    let c10 = with_version(ctx, Version::V0x10);
    let c13 = with_version(ctx, Version::V0x13);
    lemma_first_pass_any_version(ctx, seeded, 4);
    assert(fill_prefix(c10, seeded, 0) == seeded);
    assert(fill_prefix(c13, seeded, 0) == seeded);
    assert(fill_prefix(c10, seeded, 1) == fill_pass(c10, fill_prefix(c10, seeded, 0), 0));
    assert(fill_prefix(c13, seeded, 1) == fill_pass(c13, fill_prefix(c13, seeded, 0), 0));
}

/// Memory after the lanes below `lanes_done` have been filled in one slice,
/// each by a task of its own that started from `mem`: every block of the
/// slice in such a lane is taken from a fill of that lane alone.
pub open spec fn apart_prefix(
    ctx: Argon2View,
    mem: Seq<Seq<u64>>,
    pass: int,
    slice: int,
    lanes_done: int,
) -> Seq<Seq<u64>> {
    Seq::new(
        mem.len(),
        |i: int|
            if i < ctx.params.block_count() && in_slice(ctx.params, slice, i) && lane_of(
                ctx.params,
                i,
            ) < lanes_done {
                fill_segment(ctx, mem, pass, slice, lane_of(ctx.params, i))[i]
            } else {
                mem[i]
            },
    )
}

/// Memory after one slice, every lane filled by a task of its own that
/// started from `mem`.
pub open spec fn fill_slice_apart(
    ctx: Argon2View,
    mem: Seq<Seq<u64>>,
    pass: int,
    slice: int,
) -> Seq<Seq<u64>> {
    apart_prefix(ctx, mem, pass, slice, ctx.params.lanes() as int)
}

/// Filling a segment reads no block of the same slice in another lane: two
/// memories that agree elsewhere agree elsewhere after the segment is
/// filled in each.
pub proof fn lemma_segment_ignores_other_lanes(
    ctx: Argon2View,
    m1: Seq<Seq<u64>>,
    m2: Seq<Seq<u64>>,
    pass: int,
    slice: int,
    lane: int,
)
    requires
        ctx.params.valid(),
        0 <= pass,
        0 <= slice < 4,
        0 <= lane < ctx.params.lanes(),
        ctx.params.block_count() <= m1.len(),
        ctx.params.block_count() <= m2.len(),
        forall|i: int|
            0 <= i < ctx.params.block_count() && (lane_of(ctx.params, i) == lane || !in_slice(
                ctx.params,
                slice,
                i,
            )) ==> #[trigger] m1[i] == m2[i],
    ensures
        forall|i: int|
            0 <= i < ctx.params.block_count() && (lane_of(ctx.params, i) == lane || !in_slice(
                ctx.params,
                slice,
                i,
            )) ==> #[trigger] fill_segment(ctx, m1, pass, slice, lane)[i] == fill_segment(
                ctx,
                m2,
                pass,
                slice,
                lane,
            )[i],
{
    let p = ctx.params;
    let a = |i: int| lane_of(p, i) == lane || !in_slice(p, slice, i);
    lemma_layout(p, slice, lane);
    assert forall|b: int| first_position(pass, slice) <= b < p.segment_length() implies #[trigger] reads_covered(
        ctx,
        pass,
        slice,
        lane,
        a,
        b,
    ) by {
        let prev = prev_index(p, slice, lane, b);
        let cur = cur_index(p, slice, lane, b);
        lemma_place(p, lane, prev - lane * p.lane_length());
        lemma_place(p, lane, cur - lane * p.lane_length());
        assert(a(prev));
        assert(a(cur));
        assert forall|rand: u64|
            a(#[trigger] ref_index(p, pass, slice, lane, b, rand)) || written(
                p,
                pass,
                slice,
                lane,
                b,
                ref_index(p, pass, slice, lane, b, rand),
            ) by {
            lemma_ref_position(p, pass, slice, lane, b, rand);
            lemma_place(
                p,
                crate::segment_view::ref_lane(p, pass, slice, lane, rand),
                crate::segment_view::ref_position(p, pass, slice, lane, b, rand),
            );
        }
    }
    lemma_segment_agree(ctx, m1, m2, pass, slice, lane, a, p.segment_length() as int);
}

/// Filling the lanes of a slice one after another gives what filling each
/// by itself from the memory before the slice gives.
pub proof fn lemma_lanes_apart(ctx: Argon2View, mem: Seq<Seq<u64>>, pass: int, slice: int, k: int)
    requires
        ctx.params.valid(),
        0 <= pass,
        0 <= slice < 4,
        0 <= k <= ctx.params.lanes(),
        ctx.params.block_count() <= mem.len(),
    ensures
        slice_prefix(ctx, mem, pass, slice, k) == apart_prefix(ctx, mem, pass, slice, k),
    decreases k,
{
    let p = ctx.params;
    if k > 0 {
        let l = k - 1;
        lemma_lanes_apart(ctx, mem, pass, slice, l);
        lemma_layout(p, slice, l);
        let seg = p.segment_length() as int;
        let before = slice_prefix(ctx, mem, pass, slice, l);
        let together = fill_segment(ctx, before, pass, slice, l);
        let apart = apart_prefix(ctx, mem, pass, slice, k);
        let lo = cur_index(p, slice, l, 0);
        let hi = cur_index(p, slice, l, seg);
        lemma_segment_frame(ctx, before, pass, slice, l, seg);
        lemma_segment_ignores_other_lanes(ctx, before, mem, pass, slice, l);
        assert forall|i: int| 0 <= i < mem.len() implies together[i] == apart[i] by {
            if lo <= i < hi {
                lemma_place(p, l, i - l * p.lane_length());
            } else if i < p.block_count() {
                lemma_split(p, i);
            }
        }
        assert(together =~= apart);
    } else {
        assert(mem =~= apart_prefix(ctx, mem, pass, slice, k));
    }
}

/// Within a slice the lanes do not depend on one another: filling them one
/// after another gives the memory that tasks give which fill one lane each,
/// all starting from the memory before the slice.
pub proof fn lemma_slice_lanes_independent(
    ctx: Argon2View,
    mem: Seq<Seq<u64>>,
    pass: int,
    slice: int,
)
    requires
        ctx.params.valid(),
        0 <= pass,
        0 <= slice < 4,
        ctx.params.block_count() <= mem.len(),
    ensures
        fill_slice(ctx, mem, pass, slice) == fill_slice_apart(ctx, mem, pass, slice),
{
    lemma_lanes_apart(ctx, mem, pass, slice, ctx.params.lanes() as int);
}

/// Memory after the slices below `slices_done` of one pass, the lanes of
/// every slice filled by tasks of their own.
pub open spec fn pass_prefix_apart(
    ctx: Argon2View,
    mem: Seq<Seq<u64>>,
    pass: int,
    slices_done: int,
) -> Seq<Seq<u64>>
    decreases slices_done,
{
    if slices_done <= 0 {
        mem
    } else {
        fill_slice_apart(
            ctx,
            pass_prefix_apart(ctx, mem, pass, slices_done - 1),
            pass,
            slices_done - 1,
        )
    }
}

/// Memory after the passes below `passes_done`, the lanes of every slice
/// filled by tasks of their own.
pub open spec fn fill_prefix_apart(ctx: Argon2View, mem: Seq<Seq<u64>>, passes_done: int) -> Seq<
    Seq<u64>,
>
    decreases passes_done,
{
    if passes_done <= 0 {
        mem
    } else {
        pass_prefix_apart(ctx, fill_prefix_apart(ctx, mem, passes_done - 1), passes_done - 1, 4)
    }
}

/// Memory after every pass, the lanes of every slice filled by tasks of
/// their own.
pub open spec fn fill_apart(ctx: Argon2View, mem: Seq<Seq<u64>>) -> Seq<Seq<u64>> {
    fill_prefix_apart(ctx, mem, ctx.params.iterations() as int)
}

proof fn lemma_pass_apart(ctx: Argon2View, mem: Seq<Seq<u64>>, pass: int, slices: int)
    requires
        ctx.params.valid(),
        0 <= pass,
        0 <= slices <= 4,
        ctx.params.block_count() <= mem.len(),
    ensures
        pass_prefix_apart(ctx, mem, pass, slices) == pass_prefix(ctx, mem, pass, slices),
    decreases slices,
{
    if slices > 0 {
        lemma_pass_apart(ctx, mem, pass, slices - 1);
        lemma_pass_len(ctx, mem, pass, slices - 1);
        lemma_slice_lanes_independent(
            ctx,
            pass_prefix(ctx, mem, pass, slices - 1),
            pass,
            slices - 1,
        );
    }
}

proof fn lemma_fill_prefix_apart(ctx: Argon2View, mem: Seq<Seq<u64>>, passes: int)
    requires
        ctx.params.valid(),
        0 <= passes,
        ctx.params.block_count() <= mem.len(),
    ensures
        fill_prefix_apart(ctx, mem, passes) == fill_prefix(ctx, mem, passes),
    decreases passes,
{
    if passes > 0 {
        lemma_fill_prefix_apart(ctx, mem, passes - 1);
        lemma_fill_len(ctx, mem, passes - 1);
        lemma_pass_apart(ctx, fill_prefix(ctx, mem, passes - 1), passes - 1, 4);
    }
}

/// Whether the lanes of a slice are filled one after another or by tasks
/// that run side by side, each on the memory as it stood before the slice,
/// the memory after every pass is the same, and so is the output.
pub proof fn lemma_fill_lanes_independent(ctx: Argon2View, mem: Seq<Seq<u64>>, out_len: nat)
    requires
        ctx.params.valid(),
        ctx.params.block_count() <= mem.len(),
    ensures
        fill_apart(ctx, mem) == fill(ctx, mem),
        tag(ctx.params, fill_apart(ctx, mem), out_len) == tag(ctx.params, fill(ctx, mem), out_len),
{
    lemma_fill_prefix_apart(ctx, mem, ctx.params.iterations() as int);
}

/// Whether block `i` holds its first-pass contents when the segment of lane
/// `lane` in slice `slice` is about to be filled in the first pass: it is a
/// seed, or lies in an earlier slice, or in this slice in an earlier lane.
pub open spec fn settled(p: ParamsView, slice: int, lane: int, i: int) -> bool {
    ||| offset_of(p, i) < 2
    ||| offset_of(p, i) < slice * p.segment_length()
    ||| (in_slice(p, slice, i) && lane_of(p, i) < lane)
}

proof fn lemma_first_pass_segment_settles(
    ctx: Argon2View,
    m1: Seq<Seq<u64>>,
    m2: Seq<Seq<u64>>,
    slice: int,
    lane: int,
)
    requires
        ctx.params.valid(),
        0 <= slice < 4,
        0 <= lane < ctx.params.lanes(),
        ctx.params.block_count() <= m1.len(),
        ctx.params.block_count() <= m2.len(),
        forall|i: int|
            0 <= i < ctx.params.block_count() && settled(ctx.params, slice, lane, i)
                ==> #[trigger] m1[i] == m2[i],
    ensures
        forall|i: int|
            0 <= i < ctx.params.block_count() && settled(ctx.params, slice, lane + 1, i)
                ==> #[trigger] fill_segment(ctx, m1, 0, slice, lane)[i] == fill_segment(
                ctx,
                m2,
                0,
                slice,
                lane,
            )[i],
{
    let p = ctx.params;
    let seg = p.segment_length() as int;
    let a = |i: int| settled(p, slice, lane, i);
    lemma_layout(p, slice, lane);
    assert forall|b: int| first_position(0, slice) <= b < seg implies #[trigger] reads_covered(
        ctx,
        0,
        slice,
        lane,
        a,
        b,
    ) by {
        let prev = prev_index(p, slice, lane, b);
        lemma_place(p, lane, prev - lane * p.lane_length());
        assert(a(prev) || written(p, 0, slice, lane, b, prev));
        assert forall|rand: u64|
            a(#[trigger] ref_index(p, 0, slice, lane, b, rand)) || written(
                p,
                0,
                slice,
                lane,
                b,
                ref_index(p, 0, slice, lane, b, rand),
            ) by {
            lemma_ref_position(p, 0, slice, lane, b, rand);
            lemma_place(
                p,
                crate::segment_view::ref_lane(p, 0, slice, lane, rand),
                crate::segment_view::ref_position(p, 0, slice, lane, b, rand),
            );
        }
    }
    lemma_segment_agree(ctx, m1, m2, 0, slice, lane, a, seg);
    assert forall|i: int|
        0 <= i < p.block_count() && settled(p, slice, lane + 1, i) implies #[trigger] fill_segment(
        ctx,
        m1,
        0,
        slice,
        lane,
    )[i] == fill_segment(ctx, m2, 0, slice, lane)[i] by {
        lemma_split(p, i);
        assert(a(i) || written(p, 0, slice, lane, seg, i));
    }
}

proof fn lemma_first_pass_slice_settles(
    ctx: Argon2View,
    m1: Seq<Seq<u64>>,
    m2: Seq<Seq<u64>>,
    slice: int,
    k: int,
)
    requires
        ctx.params.valid(),
        0 <= slice < 4,
        0 <= k <= ctx.params.lanes(),
        ctx.params.block_count() <= m1.len(),
        ctx.params.block_count() <= m2.len(),
        forall|i: int|
            0 <= i < ctx.params.block_count() && settled(ctx.params, slice, 0, i)
                ==> #[trigger] m1[i] == m2[i],
    ensures
        forall|i: int|
            0 <= i < ctx.params.block_count() && settled(ctx.params, slice, k, i)
                ==> #[trigger] slice_prefix(ctx, m1, 0, slice, k)[i] == slice_prefix(
                ctx,
                m2,
                0,
                slice,
                k,
            )[i],
    decreases k,
{
    if k > 0 {
        lemma_first_pass_slice_settles(ctx, m1, m2, slice, k - 1);
        lemma_slice_len(ctx, m1, 0, slice, k - 1);
        lemma_slice_len(ctx, m2, 0, slice, k - 1);
        lemma_first_pass_segment_settles(
            ctx,
            slice_prefix(ctx, m1, 0, slice, k - 1),
            slice_prefix(ctx, m2, 0, slice, k - 1),
            slice,
            k - 1,
        );
    }
}

proof fn lemma_first_pass_settles(
    ctx: Argon2View,
    m1: Seq<Seq<u64>>,
    m2: Seq<Seq<u64>>,
    slices: int,
)
    requires
        ctx.params.valid(),
        0 <= slices <= 4,
        ctx.params.block_count() <= m1.len(),
        ctx.params.block_count() <= m2.len(),
        forall|i: int|
            0 <= i < ctx.params.block_count() && offset_of(ctx.params, i) < 2 ==> #[trigger] m1[i]
                == m2[i],
    ensures
        forall|i: int|
            0 <= i < ctx.params.block_count() && settled(ctx.params, slices, 0, i)
                ==> #[trigger] pass_prefix(ctx, m1, 0, slices)[i] == pass_prefix(
                ctx,
                m2,
                0,
                slices,
            )[i],
    decreases slices,
{
    let p = ctx.params;
    lemma_layout(p, 0, 0);
    if slices > 0 {
        let s = slices - 1;
        lemma_first_pass_settles(ctx, m1, m2, s);
        lemma_pass_len(ctx, m1, 0, s);
        lemma_pass_len(ctx, m2, 0, s);
        lemma_layout(p, s, 0);
        lemma_first_pass_slice_settles(
            ctx,
            pass_prefix(ctx, m1, 0, s),
            pass_prefix(ctx, m2, 0, s),
            s,
            p.lanes() as int,
        );
        assert forall|i: int|
            0 <= i < p.block_count() && settled(p, slices, 0, i) implies #[trigger] pass_prefix(
            ctx,
            m1,
            0,
            slices,
        )[i] == pass_prefix(ctx, m2, 0, slices)[i] by {
            lemma_split(p, i);
            assert(settled(p, s, p.lanes() as int, i));
        }
    } else {
        assert forall|i: int|
            0 <= i < p.block_count() && settled(p, slices, 0, i) implies m1[i] == m2[i] by {
            assert(offset_of(p, i) < 2);
        }
    }
}

proof fn lemma_segment_keeps_agreement(
    ctx: Argon2View,
    m1: Seq<Seq<u64>>,
    m2: Seq<Seq<u64>>,
    pass: int,
    slice: int,
    lane: int,
)
    requires
        ctx.params.valid(),
        0 <= pass,
        0 <= slice < 4,
        0 <= lane < ctx.params.lanes(),
        ctx.params.block_count() <= m1.len(),
        ctx.params.block_count() <= m2.len(),
        forall|i: int| 0 <= i < ctx.params.block_count() ==> #[trigger] m1[i] == m2[i],
    ensures
        forall|i: int|
            0 <= i < ctx.params.block_count() ==> #[trigger] fill_segment(
                ctx,
                m1,
                pass,
                slice,
                lane,
            )[i] == fill_segment(ctx, m2, pass, slice, lane)[i],
{
    let p = ctx.params;
    let a = |i: int| true;
    lemma_layout(p, slice, lane);
    assert forall|b: int|
        first_position(pass, slice) <= b < p.segment_length() implies #[trigger] reads_covered(
        ctx,
        pass,
        slice,
        lane,
        a,
        b,
    ) by {
        assert(a(prev_index(p, slice, lane, b)));
        assert(a(cur_index(p, slice, lane, b)));
        assert forall|rand: u64| a(#[trigger] ref_index(p, pass, slice, lane, b, rand)) by {}
    }
    lemma_segment_agree(ctx, m1, m2, pass, slice, lane, a, p.segment_length() as int);
    assert forall|i: int| 0 <= i < p.block_count() implies #[trigger] fill_segment(
        ctx,
        m1,
        pass,
        slice,
        lane,
    )[i] == fill_segment(ctx, m2, pass, slice, lane)[i] by {
        assert(a(i));
    }
}

proof fn lemma_slice_keeps_agreement(
    ctx: Argon2View,
    m1: Seq<Seq<u64>>,
    m2: Seq<Seq<u64>>,
    pass: int,
    slice: int,
    k: int,
)
    requires
        ctx.params.valid(),
        0 <= pass,
        0 <= slice < 4,
        0 <= k <= ctx.params.lanes(),
        ctx.params.block_count() <= m1.len(),
        ctx.params.block_count() <= m2.len(),
        forall|i: int| 0 <= i < ctx.params.block_count() ==> #[trigger] m1[i] == m2[i],
    ensures
        forall|i: int|
            0 <= i < ctx.params.block_count() ==> #[trigger] slice_prefix(ctx, m1, pass, slice, k)[i]
                == slice_prefix(ctx, m2, pass, slice, k)[i],
    decreases k,
{
    if k > 0 {
        lemma_slice_keeps_agreement(ctx, m1, m2, pass, slice, k - 1);
        lemma_slice_len(ctx, m1, pass, slice, k - 1);
        lemma_slice_len(ctx, m2, pass, slice, k - 1);
        lemma_segment_keeps_agreement(
            ctx,
            slice_prefix(ctx, m1, pass, slice, k - 1),
            slice_prefix(ctx, m2, pass, slice, k - 1),
            pass,
            slice,
            k - 1,
        );
    }
}

proof fn lemma_pass_keeps_agreement(
    ctx: Argon2View,
    m1: Seq<Seq<u64>>,
    m2: Seq<Seq<u64>>,
    pass: int,
    slices: int,
)
    requires
        ctx.params.valid(),
        0 <= pass,
        0 <= slices <= 4,
        ctx.params.block_count() <= m1.len(),
        ctx.params.block_count() <= m2.len(),
        forall|i: int| 0 <= i < ctx.params.block_count() ==> #[trigger] m1[i] == m2[i],
    ensures
        forall|i: int|
            0 <= i < ctx.params.block_count() ==> #[trigger] pass_prefix(ctx, m1, pass, slices)[i]
                == pass_prefix(ctx, m2, pass, slices)[i],
    decreases slices,
{
    if slices > 0 {
        lemma_pass_keeps_agreement(ctx, m1, m2, pass, slices - 1);
        lemma_pass_len(ctx, m1, pass, slices - 1);
        lemma_pass_len(ctx, m2, pass, slices - 1);
        lemma_slice_keeps_agreement(
            ctx,
            pass_prefix(ctx, m1, pass, slices - 1),
            pass_prefix(ctx, m2, pass, slices - 1),
            pass,
            slices - 1,
            ctx.params.lanes() as int,
        );
    }
}

/// Memories that agree on the seeds agree, after one pass or more, on every
/// block that the parameters call for: the first pass reads no block that
/// it has not written, bar the seeds.
pub proof fn lemma_fill_overwrites(
    ctx: Argon2View,
    m1: Seq<Seq<u64>>,
    m2: Seq<Seq<u64>>,
    passes: int,
)
    requires
        ctx.params.valid(),
        1 <= passes,
        ctx.params.block_count() <= m1.len(),
        ctx.params.block_count() <= m2.len(),
        forall|i: int|
            0 <= i < ctx.params.block_count() && offset_of(ctx.params, i) < 2 ==> #[trigger] m1[i]
                == m2[i],
    ensures
        forall|i: int|
            0 <= i < ctx.params.block_count() ==> #[trigger] fill_prefix(ctx, m1, passes)[i]
                == fill_prefix(ctx, m2, passes)[i],
    decreases passes,
{
    let p = ctx.params;
    if passes == 1 {
        lemma_first_pass_settles(ctx, m1, m2, 4);
        lemma_layout(p, 3, 0);
        assert(fill_prefix(ctx, m1, 0) == m1);
        assert(fill_prefix(ctx, m2, 0) == m2);
        assert forall|i: int| 0 <= i < p.block_count() implies #[trigger] fill_prefix(
            ctx,
            m1,
            passes,
        )[i] == fill_prefix(ctx, m2, passes)[i] by {
            lemma_split(p, i);
            assert(settled(p, 4, 0, i));
        }
    } else {
        lemma_fill_overwrites(ctx, m1, m2, passes - 1);
        lemma_fill_len(ctx, m1, passes - 1);
        lemma_fill_len(ctx, m2, passes - 1);
        lemma_pass_keeps_agreement(
            ctx,
            fill_prefix(ctx, m1, passes - 1),
            fill_prefix(ctx, m2, passes - 1),
            passes - 1,
            4,
        );
    }
}

proof fn lemma_final_agrees(p: ParamsView, m1: Seq<Seq<u64>>, m2: Seq<Seq<u64>>, k: int)
    requires
        p.valid(),
        0 <= k <= p.lanes(),
        p.block_count() <= m1.len(),
        p.block_count() <= m2.len(),
        forall|i: int| 0 <= i < p.block_count() ==> #[trigger] m1[i] == m2[i],
    ensures
        crate::fill::final_prefix(p, m1, k) == crate::fill::final_prefix(p, m2, k),
    decreases k,
{
    if k <= 1 {
        lemma_layout(p, 0, 0);
    } else {
        lemma_final_agrees(p, m1, m2, k - 1);
        lemma_layout(p, 0, k - 1);
    }
}

/// A hash is determined by the context, the password, the salt and the
/// output length: what the memory held before does not enter, and two
/// buffers of any sufficient lengths hold the same blocks afterwards.
pub proof fn lemma_hash_deterministic(
    ctx: Argon2View,
    pwd: Seq<u8>,
    salt: Seq<u8>,
    out_len: nat,
    m1: Seq<Seq<u64>>,
    m2: Seq<Seq<u64>>,
)
    requires
        ctx.params.valid(),
        ctx.params.block_count() <= m1.len(),
        ctx.params.block_count() <= m2.len(),
    ensures
        crate::fill::hash(ctx, pwd, salt, out_len, m1) == crate::fill::hash(
            ctx,
            pwd,
            salt,
            out_len,
            m2,
        ),
        forall|i: int|
            0 <= i < ctx.params.block_count() ==> #[trigger] filled_memory(
                ctx,
                m1,
                crate::fill::initial_hash(ctx, pwd, salt, out_len),
            )[i] == filled_memory(ctx, m2, crate::fill::initial_hash(ctx, pwd, salt, out_len))[i],
{
    let p = ctx.params;
    let h0 = crate::fill::initial_hash(ctx, pwd, salt, out_len);
    let s1 = crate::fill::seeded(p, m1, h0);
    let s2 = crate::fill::seeded(p, m2, h0);
    lemma_fill_overwrites(ctx, s1, s2, p.iterations() as int);
    lemma_fill_len(ctx, s1, p.iterations() as int);
    lemma_fill_len(ctx, s2, p.iterations() as int);
    lemma_final_agrees(p, fill(ctx, s1), fill(ctx, s2), p.lanes() as int);
}

} // verus!
