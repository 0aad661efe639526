//! The cursor over one segment, and the rule by which a block's reference
//! block is found.
//!
//! A segment is the part of one lane that lies in one slice. The cursor walks
//! it block by block and yields, for each, the indices of the block to write,
//! of the block before it and of the reference block.

use crate::params::{lemma_geometry, Params, ParamsView};
use vstd::prelude::*;

verus! {

/// The position in a segment at which filling starts: the first two blocks of
/// every lane are seeded before the first pass.
pub open spec fn first_position(pass: int, slice: int) -> int {
    if pass == 0 && slice == 0 {
        2
    } else {
        0
    }
}

/// Index in memory of the block at position `b` of the segment.
pub open spec fn cur_index(p: ParamsView, slice: int, lane: int, b: int) -> int {
    lane * p.lane_length() + slice * p.segment_length() + b
}

/// Index in memory of the block before position `b` of the segment: the
/// preceding index, or the last block of the lane for the lane's first block.
pub open spec fn prev_index(p: ParamsView, slice: int, lane: int, b: int) -> int {
    if slice == 0 && b == 0 {
        cur_index(p, slice, lane, b) + p.lane_length() - 1
    } else {
        cur_index(p, slice, lane, b) - 1
    }
}

/// The lane that the reference block lies in: the current lane during the
/// first slice of the first pass, else the high half of `rand` reduced modulo
/// the number of lanes.
pub open spec fn ref_lane(p: ParamsView, pass: int, slice: int, lane: int, rand: u64) -> int {
    if pass == 0 && slice == 0 {
        lane
    } else {
        ((rand >> 32) as int) % (p.lanes() as int)
    }
}

/// Number of blocks that the block at position `b` may refer to in lane
/// `ref_lane`.
pub open spec fn reference_area_size(
    p: ParamsView,
    pass: int,
    slice: int,
    lane: int,
    b: int,
    ref_lane: int,
) -> int {
    let own: int = if b == 0 {
        1
    } else {
        0
    };
    if pass == 0 {
        if slice == 0 {
            b - 1
        } else if ref_lane == lane {
            slice * p.segment_length() + b - 1
        } else {
            slice * p.segment_length() - own
        }
    } else {
        if ref_lane == lane {
            p.lane_length() - p.segment_length() + b - 1
        } else {
            p.lane_length() - p.segment_length() - own
        }
    }
}

/// The low half of `rand`, squared and scaled to 32 bits.
pub open spec fn spread(rand: u64) -> u64 {
    let low = rand & 0xffff_ffff;
    ((low * low) as u64) >> 32
}

/// The place in a reference area of `area` blocks that `rand` selects,
/// counted from the area's oldest block; later blocks are more likely.
pub open spec fn relative_position(area: int, rand: u64) -> int {
    area - 1 - ((((area * spread(rand)) as u64) >> 32) as int)
}

/// The position in the lane at which the reference area starts.
pub open spec fn start_position(p: ParamsView, pass: int, slice: int) -> int {
    if pass != 0 && slice != 3 {
        (slice + 1) * p.segment_length()
    } else {
        0
    }
}

/// The position within its lane of the reference block.
pub open spec fn ref_position(
    p: ParamsView,
    pass: int,
    slice: int,
    lane: int,
    b: int,
    rand: u64,
) -> int {
    let area = reference_area_size(p, pass, slice, lane, b, ref_lane(p, pass, slice, lane, rand));
    (start_position(p, pass, slice) + relative_position(area, rand)) % (p.lane_length() as int)
}

/// Index in memory of the reference block for position `b` of the segment.
pub open spec fn ref_index(
    p: ParamsView,
    pass: int,
    slice: int,
    lane: int,
    b: int,
    rand: u64,
) -> int {
    ref_lane(p, pass, slice, lane, rand) * p.lane_length() + ref_position(
        p,
        pass,
        slice,
        lane,
        b,
        rand,
    )
}

/// A position `(slice, lane, b)` that the cursor may stand at.
pub open spec fn in_segment(p: ParamsView, pass: int, slice: int, lane: int, b: int) -> bool {
    &&& p.valid()
    &&& 0 <= pass
    &&& 0 <= slice < 4
    &&& 0 <= lane < p.lanes()
    &&& first_position(pass, slice) <= b < p.segment_length()
}

/// Products of the layout, which the solver does not find by itself.
pub proof fn lemma_layout(p: ParamsView, slice: int, lane: int)
    requires
        p.valid(),
        0 <= slice < 4,
        0 <= lane < p.lanes(),
    ensures
        p.segment_length() >= 2,
        p.lane_length() == 4 * p.segment_length(),
        p.block_count() <= 0x0fff_ffff,
        0 <= lane * p.lane_length(),
        lane * p.lane_length() + p.lane_length() <= p.block_count(),
        slice * p.segment_length() == if slice == 0 {
            0int
        } else if slice == 1 {
            p.segment_length() as int
        } else if slice == 2 {
            2 * p.segment_length() as int
        } else {
            3 * p.segment_length() as int
        },
        (slice + 1) * p.segment_length() == slice * p.segment_length() + p.segment_length(),
{
    lemma_geometry(p);
    let ll = p.lane_length() as int;
    let n = p.lanes() as int;
    let s = p.segment_length() as int;
    assert(0 <= lane * ll && lane * ll + ll <= n * ll) by (nonlinear_arith)
        requires
            0 <= lane < n,
            ll >= 0,
    ;
    assert((slice + 1) * s == slice * s + s) by (nonlinear_arith);
}

/// The low half of a word, squared and scaled, fits 32 bits.
pub proof fn lemma_spread(rand: u64)
    ensures
        (rand & 0xffff_ffff) * (rand & 0xffff_ffff) <= u64::MAX,
        spread(rand) <= 0xffff_ffff,
{
    let low = rand & 0xffff_ffff;
    assert(low <= 0xffff_ffff) by (bit_vector)
        requires
            low == rand & 0xffff_ffff,
    ;
    assert(low * low <= 0xffff_ffff * 0xffff_ffff) by (nonlinear_arith)
        requires
            0 <= low <= 0xffff_ffff,
    ;
    let sq = (low * low) as u64;
    assert(sq >> 32 <= 0xffff_ffff) by (bit_vector);
}

/// The relative position lies in the reference area.
pub proof fn lemma_relative_position(area: int, rand: u64)
    requires
        1 <= area <= 0xffff_ffff,
    ensures
        area * spread(rand) <= u64::MAX,
        0 <= relative_position(area, rand) < area,
{
    lemma_spread(rand);
    let m = spread(rand) as int;
    assert(0 <= area * m <= area * 0xffff_ffff && area * 0xffff_ffff <= 0xffff_ffff * 0xffff_ffff)
        by (nonlinear_arith)
        requires
            1 <= area <= 0xffff_ffff,
            0 <= m <= 0xffff_ffff,
    ;
    let prod = (area * m) as u64;
    assert(prod >> 32 == prod / 0x1_0000_0000) by (bit_vector);
    assert(prod / 0x1_0000_0000 < area) by (nonlinear_arith)
        requires
            prod <= area * 0xffff_ffff,
            1 <= area,
    ;
}

/// Where the reference block lies.
///
/// It is a block of memory. During the first pass it lies before the current
/// slice, or in the current lane before the previous block. In every pass it
/// lies outside the current segment of any other lane, and in the current
/// lane outside what remains of the current segment from the previous block
/// on.
pub proof fn lemma_ref_position(p: ParamsView, pass: int, slice: int, lane: int, b: int, rand: u64)
    requires
        in_segment(p, pass, slice, lane, b),
    ensures
        0 <= ref_lane(p, pass, slice, lane, rand) < p.lanes(),
        1 <= reference_area_size(p, pass, slice, lane, b, ref_lane(p, pass, slice, lane, rand))
            < p.lane_length(),
        0 <= ref_position(p, pass, slice, lane, b, rand) < p.lane_length(),
        0 <= ref_index(p, pass, slice, lane, b, rand) < p.block_count(),
        pass == 0 && slice == 0 ==> ref_lane(p, pass, slice, lane, rand) == lane,
        pass == 0 ==> ref_position(p, pass, slice, lane, b, rand) < slice * p.segment_length() + (
        if ref_lane(p, pass, slice, lane, rand) == lane {
            b - 1
        } else {
            0
        }),
        ref_lane(p, pass, slice, lane, rand) == lane ==> !(slice * p.segment_length() + b - 1
            <= ref_position(p, pass, slice, lane, b, rand) < (slice + 1) * p.segment_length()),
        ref_lane(p, pass, slice, lane, rand) != lane ==> !(slice * p.segment_length()
            <= ref_position(p, pass, slice, lane, b, rand) < (slice + 1) * p.segment_length()),
{
    lemma_layout(p, slice, lane);
    let n = p.lanes() as int;
    let s = p.segment_length() as int;
    let ll = p.lane_length() as int;
    let rl = ref_lane(p, pass, slice, lane, rand);
    if !(pass == 0 && slice == 0) {
        let high = (rand >> 32) as int;
        assert(0 <= high % n < n) by (nonlinear_arith)
            requires
                n >= 1,
        ;
    }
    lemma_layout(p, slice, rl);
    let area = reference_area_size(p, pass, slice, lane, b, rl);
    assert(1 <= area < ll);
    lemma_relative_position(area, rand);
    let rel = relative_position(area, rand);
    let x = start_position(p, pass, slice) + rel;
    assert(0 <= x < 2 * ll);
    assert(x % ll == if x < ll {
        x
    } else {
        x - ll
    }) by {
        if x < ll {
            vstd::arithmetic::div_mod::lemma_small_mod(x as nat, ll as nat);
        } else {
            vstd::arithmetic::div_mod::lemma_fundamental_div_mod_converse(x, ll, 1, x - ll);
        }
    }
}

/// The state of a cursor as plain values.
pub struct Cursor {
    pub params: ParamsView,
    pub pass: int,
    pub slice: int,
    pub lane: int,
    /// Position in the segment of the next block to fill; the segment's
    /// length once it is exhausted.
    pub position: int,
}

/// A cursor over the segment of lane `lane` in slice `slice`, during pass
/// `pass`.
pub struct SegmentView<'a> {
    pass: usize,
    slice: usize,
    lane: usize,
    b: usize,
    prev_index: usize,
    cur_index: usize,
    params: &'a Params,
}

impl<'a> View for SegmentView<'a> {
    type V = Cursor;

    closed spec fn view(&self) -> Cursor {
        Cursor {
            params: self.params@,
            pass: self.pass as int,
            slice: self.slice as int,
            lane: self.lane as int,
            position: self.b as int,
        }
    }
}

impl Cursor {
    /// A cursor that stands in its segment or at its end.
    pub open spec fn valid(self) -> bool {
        &&& self.params.valid()
        &&& 0 <= self.pass
        &&& 0 <= self.slice < 4
        &&& 0 <= self.lane < self.params.lanes()
        &&& first_position(self.pass, self.slice) <= self.position
            <= self.params.segment_length()
    }

    /// No block of the segment is left.
    pub open spec fn exhausted(self) -> bool {
        self.position >= self.params.segment_length()
    }

    /// Index of the block to fill next.
    pub open spec fn cur_index(self) -> int {
        cur_index(self.params, self.slice, self.lane, self.position)
    }

    /// Index of the block before it.
    pub open spec fn prev_index(self) -> int {
        prev_index(self.params, self.slice, self.lane, self.position)
    }

    /// Index of its reference block, given the pseudo-random word `rand`.
    pub open spec fn ref_index(self, rand: u64) -> int {
        ref_index(self.params, self.pass, self.slice, self.lane, self.position, rand)
    }

    /// The cursor one block further.
    pub open spec fn advanced(self) -> Cursor {
        Cursor { position: self.position + 1, ..self }
    }
}

impl<'a> SegmentView<'a> {
    #[verifier::type_invariant]
    spec fn inv(self) -> bool {
        &&& self@.valid()
        &&& self.cur_index == self@.cur_index()
        &&& self.prev_index == self@.prev_index()
    }

    /// A cursor at the start of the segment: at its third block in the first
    /// slice of the first pass, at its first block otherwise.
    pub fn new(pass: usize, slice: usize, lane: usize, params: &'a Params) -> (s: SegmentView<'a>)
        requires
            slice < 4,
            lane < params@.lanes(),
        ensures
            s@ == (Cursor {
                params: params@,
                pass: pass as int,
                slice: slice as int,
                lane: lane as int,
                position: first_position(pass as int, slice as int),
            }),
            s@.valid(),
    {
        let lane_length = params.lane_length();
        let segment_length = params.segment_length();
        proof {
            lemma_layout(params@, slice as int, lane as int);
            assert(lane * lane_length <= 0x0fff_ffff);
            assert(slice * segment_length <= 0x0fff_ffff);
        }
        let first_block: usize = if pass == 0 && slice == 0 {
            2
        } else {
            0
        };
        let cur_index = lane * lane_length + slice * segment_length + first_block;
        let prev_index = if slice == 0 && first_block == 0 {
            cur_index + lane_length - 1
        } else {
            cur_index - 1
        };
        SegmentView { pass, slice, lane, b: first_block, cur_index, prev_index, params }
    }

    /// Position in the segment of the next block to fill.
    pub fn position(&self) -> (b: usize)
        ensures
            b == self@.position,
            self@.valid(),
    {
        proof {
            use_type_invariant(self);
        }
        self.b
    }

    /// Whether every block of the segment has been yielded.
    pub fn is_exhausted(&self) -> (done: bool)
        ensures
            done == self@.exhausted(),
            self@.valid(),
    {
        proof {
            use_type_invariant(self);
        }
        self.b == self.params.segment_length()
    }

    /// Index of the block before the one to fill next. The caller reads its
    /// first word where addressing depends on the data.
    pub fn prev_index(&self) -> (i: usize)
        requires
            !self@.exhausted(),
        ensures
            i == self@.prev_index(),
            i < self@.params.block_count(),
            self@.valid(),
    {
        proof {
            use_type_invariant(self);
            lemma_layout(self@.params, self@.slice, self@.lane);
        }
        self.prev_index
    }

    /// Yields the indices of the next block, of the block before it and of
    /// its reference block, which `rand` selects, and moves on; yields
    /// nothing once the segment is exhausted.
    pub fn next(&mut self, rand: u64) -> (triple: Option<(usize, usize, usize)>)
        ensures
            final(self)@.valid(),
            old(self)@.exhausted() ==> triple is None && final(self)@ == old(self)@,
            !old(self)@.exhausted() ==> triple == Some(
                (
                    old(self)@.cur_index() as usize,
                    old(self)@.prev_index() as usize,
                    old(self)@.ref_index(rand) as usize,
                ),
            ) && final(self)@ == old(self)@.advanced(),
            !old(self)@.exhausted() ==> 0 <= old(self)@.cur_index() < old(self)@.params.block_count()
                && 0 <= old(self)@.prev_index() < old(self)@.params.block_count() && 0 <= old(
                self,
            )@.ref_index(rand) < old(self)@.params.block_count(),
    {
        proof {
            use_type_invariant(&*self);
            lemma_layout(self@.params, self@.slice, self@.lane);
        }
        if self.b == self.params.segment_length() {
            return None;
        }
        let cur_index = self.cur_index;
        let prev_index = self.prev_index;
        let ref_index = self.ref_block(rand);
        *self = SegmentView {
            pass: self.pass,
            slice: self.slice,
            lane: self.lane,
            b: self.b + 1,
            prev_index: cur_index,
            cur_index: cur_index + 1,
            params: self.params,
        };
        Some((cur_index, prev_index, ref_index))
    }

    fn ref_block(&self, rand: u64) -> (i: usize)
        requires
            !self@.exhausted(),
        ensures
            i == self@.ref_index(rand),
            i < self@.params.block_count(),
    {
        proof {
            use_type_invariant(self);
            lemma_layout(self@.params, self@.slice, self@.lane);
            lemma_ref_position(
                self@.params,
                self@.pass,
                self@.slice,
                self@.lane,
                self@.position,
                rand,
            );
        }
        let lanes = self.params.lanes();
        let lane_length = self.params.lane_length();
        let segment_length = self.params.segment_length();
        let ref_lane = if self.pass == 0 && self.slice == 0 {
            self.lane
        } else {
            let high = rand >> 32;
            assert(high <= 0xffff_ffff) by (bit_vector)
                requires
                    high == rand >> 32,
            ;
            (high as usize) % lanes
        };
        proof {
            lemma_layout(self@.params, self@.slice, ref_lane as int);
        }
        let reference_area_size = if self.pass == 0 {
            if self.slice == 0 {
                self.b - 1
            } else if ref_lane == self.lane {
                self.slice * segment_length + self.b - 1
            } else {
                self.slice * segment_length - if self.b == 0 {
                    1
                } else {
                    0
                }
            }
        } else {
            if ref_lane == self.lane {
                lane_length - segment_length + self.b - 1
            } else {
                lane_length - segment_length - if self.b == 0 {
                    1
                } else {
                    0
                }
            }
        };
        proof {
            lemma_spread(rand);
            lemma_relative_position(reference_area_size as int, rand);
        }
        let low = rand & 0xffff_ffff;
        let map = (low * low) >> 32;
        let relative_position = reference_area_size - 1 - (((reference_area_size as u64 * map)
            >> 32) as usize);
        let start_position = if self.pass != 0 && self.slice != 3 {
            (self.slice + 1) * segment_length
        } else {
            0
        };
        let lane_index = (start_position + relative_position) % lane_length;
        ref_lane * lane_length + lane_index
    }
}

/// During the first slice of the first pass a block refers to a block of its
/// own lane that comes before it: the reference index is less than the index
/// of the block being filled, and both lie in the same lane.
pub proof fn lemma_first_slice_refers_back(p: ParamsView, lane: int, b: int, rand: u64)
    requires
        in_segment(p, 0, 0, lane, b),
    ensures
        lane * p.lane_length() <= ref_index(p, 0, 0, lane, b, rand) < cur_index(p, 0, lane, b),
        ref_position(p, 0, 0, lane, b, rand) < b,
{
    lemma_ref_position(p, 0, 0, lane, b, rand);
    lemma_layout(p, 0, lane);
}

} // verus!
