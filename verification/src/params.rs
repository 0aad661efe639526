//! The cost parameters and the memory geometry that follows from them.

use crate::error::Error;
use vstd::prelude::*;

verus! {

/// Number of slices in a lane: the points of a pass at which the lanes
/// synchronise.
pub const SYNC_POINTS: usize = 4;

/// The cost parameters as plain values.
pub struct ParamsView {
    pub m_cost: u32,
    pub t_cost: u32,
    pub p_cost: u32,
    pub output_len: Option<usize>,
    pub keyid: Seq<u8>,
    pub data: Seq<u8>,
}

impl ParamsView {
    /// The bounds that every set of parameters meets.
    pub open spec fn valid(self) -> bool {
        &&& Params::MIN_M_COST <= self.m_cost <= Params::MAX_M_COST
        &&& 8 * self.p_cost <= self.m_cost
        &&& Params::MIN_T_COST <= self.t_cost
        &&& Params::MIN_P_COST <= self.p_cost <= Params::MAX_P_COST
        &&& self.output_len matches Some(n) ==> Params::MIN_OUTPUT_LEN <= n
            <= Params::MAX_OUTPUT_LEN
        &&& self.keyid.len() <= Params::MAX_KEYID_LEN
        &&& self.data.len() <= Params::MAX_DATA_LEN
    }

    /// The default parameters: the default costs, no fixed output length, no
    /// key identifier and no associated data.
    pub open spec fn standard() -> ParamsView {
        ParamsView {
            m_cost: Params::DEFAULT_M_COST,
            t_cost: Params::DEFAULT_T_COST,
            p_cost: Params::DEFAULT_P_COST,
            output_len: None,
            keyid: Seq::<u8>::empty(),
            data: Seq::<u8>::empty(),
        }
    }

    /// Number of lanes.
    pub open spec fn lanes(self) -> nat {
        self.p_cost as nat
    }

    /// Number of blocks in a segment: the memory cost, raised to eight blocks
    /// a lane where it is less, shared out evenly and rounded down.
    pub open spec fn segment_length(self) -> nat {
        let blocks: nat = if self.m_cost < 8 * self.p_cost {
            (8 * self.p_cost) as nat
        } else {
            self.m_cost as nat
        };
        blocks / (4 * self.p_cost) as nat
    }

    /// Number of blocks in a lane.
    pub open spec fn lane_length(self) -> nat {
        4 * self.segment_length()
    }

    /// Number of blocks in all.
    pub open spec fn block_count(self) -> nat {
        self.lanes() * self.lane_length()
    }

    /// Number of passes.
    pub open spec fn iterations(self) -> nat {
        self.t_cost as nat
    }
}

/// Valid parameters give at least two blocks a segment and no more blocks in
/// all than the memory cost.
pub proof fn lemma_geometry(p: ParamsView)
    requires
        p.valid(),
    ensures
        p.lanes() >= 1,
        p.segment_length() >= 2,
        p.segment_length() * (4 * p.lanes()) <= p.m_cost,
        p.block_count() == p.segment_length() * (4 * p.lanes()),
        p.block_count() <= Params::MAX_M_COST,
        p.lane_length() <= p.block_count(),
{
    let m = p.m_cost as int;
    let d = 4 * p.p_cost as int;
    assert(m / d >= 2 && (m / d) * d <= m) by (nonlinear_arith)
        requires
            d >= 4,
            m >= 2 * d,
    ;
    let s = p.segment_length() as int;
    let l = p.lanes() as int;
    assert(s == m / d);
    assert(l * (4 * s) == s * (4 * l)) by (nonlinear_arith);
    assert(4 * s <= l * (4 * s)) by (nonlinear_arith)
        requires
            l >= 1,
            s >= 0,
    ;
}

/// The cost parameters of a hashing operation.
#[derive(Debug)]
pub struct Params {
    m_cost: u32,
    t_cost: u32,
    p_cost: u32,
    output_len: Option<usize>,
    keyid: Vec<u8>,
    data: Vec<u8>,
}

impl View for Params {
    type V = ParamsView;

    closed spec fn view(&self) -> ParamsView {
        ParamsView {
            m_cost: self.m_cost,
            t_cost: self.t_cost,
            p_cost: self.p_cost,
            output_len: self.output_len,
            keyid: self.keyid@,
            data: self.data@,
        }
    }
}

impl Params {
    /// Default memory cost, in blocks of 1 KiB.
    pub const DEFAULT_M_COST: u32 = 4096;

    /// Least memory cost: eight blocks.
    pub const MIN_M_COST: u32 = 8;

    /// Greatest memory cost.
    pub const MAX_M_COST: u32 = 0x0fff_ffff;

    /// Default number of passes.
    pub const DEFAULT_T_COST: u32 = 3;

    /// Least number of passes.
    pub const MIN_T_COST: u32 = 1;

    /// Greatest number of passes.
    pub const MAX_T_COST: u32 = 0xffff_ffff;

    /// Default number of lanes.
    pub const DEFAULT_P_COST: u32 = 1;

    /// Least number of lanes.
    pub const MIN_P_COST: u32 = 1;

    /// Greatest number of lanes.
    pub const MAX_P_COST: u32 = 0x00ff_ffff;

    /// Greatest length of a key identifier in bytes.
    pub const MAX_KEYID_LEN: usize = 8;

    /// Greatest length of associated data in bytes.
    pub const MAX_DATA_LEN: usize = 32;

    /// Default output length in bytes.
    pub const DEFAULT_OUTPUT_LEN: usize = 32;

    /// Least output length in bytes.
    pub const MIN_OUTPUT_LEN: usize = 4;

    /// Greatest output length in bytes.
    pub const MAX_OUTPUT_LEN: usize = 0xffff_ffff;

    #[verifier::type_invariant]
    spec fn inv(self) -> bool {
        self@.valid()
    }

    /// The error, if any, for which `new` refuses the given values. The
    /// checks are made in this order.
    pub open spec fn refusal(
        m_cost: u32,
        t_cost: u32,
        p_cost: u32,
        output_len: Option<usize>,
    ) -> Option<Error> {
        if m_cost < Params::MIN_M_COST {
            Some(Error::MemoryTooLittle)
        } else if m_cost > Params::MAX_M_COST {
            Some(Error::MemoryTooMuch)
        } else if t_cost < Params::MIN_T_COST {
            Some(Error::TimeTooSmall)
        } else if p_cost < Params::MIN_P_COST {
            Some(Error::ThreadsTooFew)
        } else if p_cost > Params::MAX_P_COST {
            Some(Error::ThreadsTooMany)
        } else if output_len is Some && output_len->Some_0 < Params::MIN_OUTPUT_LEN {
            Some(Error::OutputTooShort)
        } else if output_len is Some && output_len->Some_0 > Params::MAX_OUTPUT_LEN {
            Some(Error::OutputTooLong)
        } else if m_cost < 8 * p_cost {
            Some(Error::MemoryTooLittle)
        } else {
            None
        }
    }

    /// Parameters with the given costs and output length, with no key
    /// identifier and no associated data.
    pub fn new(m_cost: u32, t_cost: u32, p_cost: u32, output_len: Option<usize>) -> (r: Result<
        Params,
        Error,
    >)
        ensures
            match Params::refusal(m_cost, t_cost, p_cost, output_len) {
                Some(e) => r == Err::<Params, Error>(e),
                None => r is Ok && r->Ok_0@ == (ParamsView {
                    m_cost,
                    t_cost,
                    p_cost,
                    output_len,
                    keyid: Seq::<u8>::empty(),
                    data: Seq::<u8>::empty(),
                }),
            },
    {
        if m_cost < Params::MIN_M_COST {
            return Err(Error::MemoryTooLittle);
        }
        if m_cost > Params::MAX_M_COST {
            return Err(Error::MemoryTooMuch);
        }
        if t_cost < Params::MIN_T_COST {
            return Err(Error::TimeTooSmall);
        }
        if p_cost < Params::MIN_P_COST {
            return Err(Error::ThreadsTooFew);
        }
        if p_cost > Params::MAX_P_COST {
            return Err(Error::ThreadsTooMany);
        }
        match output_len {
            Some(n) => {
                if n < Params::MIN_OUTPUT_LEN {
                    return Err(Error::OutputTooShort);
                }
                if n > Params::MAX_OUTPUT_LEN {
                    return Err(Error::OutputTooLong);
                }
            },
            None => {},
        }
        if m_cost < 8 * p_cost {
            return Err(Error::MemoryTooLittle);
        }
        Ok(Params { m_cost, t_cost, p_cost, output_len, keyid: Vec::new(), data: Vec::new() })
    }

    /// These parameters with `data` as associated data; refused where it is
    /// longer than 32 bytes.
    pub fn with_data(self, data: &[u8]) -> (r: Result<Params, Error>)
        ensures
            data@.len() > Params::MAX_DATA_LEN ==> r == Err::<Params, Error>(Error::AdTooLong),
            data@.len() <= Params::MAX_DATA_LEN ==> r is Ok && r->Ok_0@ == (ParamsView {
                data: data@,
                ..self@
            }),
    {
        proof {
            use_type_invariant(&self);
        }
        if data.len() > Params::MAX_DATA_LEN {
            return Err(Error::AdTooLong);
        }
        let mut bytes: Vec<u8> = Vec::new();
        bytes.extend_from_slice(data);
        assert(bytes@ == data@);
        Ok(
            Params {
                m_cost: self.m_cost,
                t_cost: self.t_cost,
                p_cost: self.p_cost,
                output_len: self.output_len,
                keyid: self.keyid,
                data: bytes,
            },
        )
    }

    /// These parameters with `keyid` as key identifier; refused where it is
    /// longer than 8 bytes.
    pub fn with_keyid(self, keyid: &[u8]) -> (r: Result<Params, Error>)
        ensures
            keyid@.len() > Params::MAX_KEYID_LEN ==> r == Err::<Params, Error>(Error::KeyIdTooLong),
            keyid@.len() <= Params::MAX_KEYID_LEN ==> r is Ok && r->Ok_0@ == (ParamsView {
                keyid: keyid@,
                ..self@
            }),
    {
        proof {
            use_type_invariant(&self);
        }
        if keyid.len() > Params::MAX_KEYID_LEN {
            return Err(Error::KeyIdTooLong);
        }
        let mut bytes: Vec<u8> = Vec::new();
        bytes.extend_from_slice(keyid);
        assert(bytes@ == keyid@);
        Ok(
            Params {
                m_cost: self.m_cost,
                t_cost: self.t_cost,
                p_cost: self.p_cost,
                output_len: self.output_len,
                keyid: bytes,
                data: self.data,
            },
        )
    }

    /// Memory cost, in blocks of 1 KiB.
    pub fn m_cost(&self) -> (r: u32)
        ensures
            r == self@.m_cost,
            self@.valid(),
    {
        proof {
            use_type_invariant(self);
        }
        self.m_cost
    }

    /// Number of passes.
    pub fn t_cost(&self) -> (r: u32)
        ensures
            r == self@.t_cost,
            self@.valid(),
    {
        proof {
            use_type_invariant(self);
        }
        self.t_cost
    }

    /// Degree of parallelism.
    pub fn p_cost(&self) -> (r: u32)
        ensures
            r == self@.p_cost,
            self@.valid(),
    {
        proof {
            use_type_invariant(self);
        }
        self.p_cost
    }

    /// Output length in bytes, where one was fixed.
    pub fn output_len(&self) -> (r: Option<usize>)
        ensures
            r == self@.output_len,
            self@.valid(),
    {
        proof {
            use_type_invariant(self);
        }
        self.output_len
    }

    /// The key identifier.
    pub fn keyid(&self) -> (r: &[u8])
        ensures
            r@ == self@.keyid,
            self@.valid(),
    {
        proof {
            use_type_invariant(self);
        }
        self.keyid.as_slice()
    }

    /// The associated data.
    pub fn data(&self) -> (r: &[u8])
        ensures
            r@ == self@.data,
            self@.valid(),
    {
        proof {
            use_type_invariant(self);
        }
        self.data.as_slice()
    }

    /// Number of lanes.
    pub fn lanes(&self) -> (r: usize)
        ensures
            r == self@.lanes(),
            self@.valid(),
    {
        proof {
            use_type_invariant(self);
        }
        self.p_cost as usize
    }

    /// Number of passes.
    pub fn iterations(&self) -> (r: usize)
        ensures
            r == self@.iterations(),
            self@.valid(),
    {
        proof {
            use_type_invariant(self);
        }
        self.t_cost as usize
    }

    /// Number of blocks in a segment.
    pub fn segment_length(&self) -> (r: usize)
        ensures
            r == self@.segment_length(),
            self@.valid(),
    {
        proof {
            use_type_invariant(self);
        }
        let lanes = self.p_cost as usize;
        let m_cost = self.m_cost as usize;
        let blocks = if m_cost < 2 * SYNC_POINTS * lanes {
            2 * SYNC_POINTS * lanes
        } else {
            m_cost
        };
        blocks / (lanes * SYNC_POINTS)
    }

    /// Number of blocks in a lane.
    pub fn lane_length(&self) -> (r: usize)
        ensures
            r == self@.lane_length(),
            self@.valid(),
    {
        proof {
            use_type_invariant(self);
            lemma_geometry(self@);
        }
        self.segment_length() * SYNC_POINTS
    }

    /// Number of blocks in all.
    pub fn block_count(&self) -> (r: usize)
        ensures
            r == self@.block_count(),
            self@.valid(),
    {
        proof {
            use_type_invariant(self);
            lemma_geometry(self@);
        }
        self.segment_length() * (self.lanes() * SYNC_POINTS)
    }
}

impl Clone for Params {
    fn clone(&self) -> (r: Params)
        ensures
            r@ == self@,
    {
        proof {
            use_type_invariant(self);
        }
        let mut keyid: Vec<u8> = Vec::new();
        keyid.extend_from_slice(self.keyid.as_slice());
        let mut data: Vec<u8> = Vec::new();
        data.extend_from_slice(self.data.as_slice());
        assert(keyid@ == self.keyid@);
        assert(data@ == self.data@);
        Params {
            m_cost: self.m_cost,
            t_cost: self.t_cost,
            p_cost: self.p_cost,
            output_len: self.output_len,
            keyid,
            data,
        }
    }
}

impl Default for Params {
    fn default() -> (r: Params)
        ensures
            r@ == ParamsView::standard(),
    {
        Params {
            m_cost: Params::DEFAULT_M_COST,
            t_cost: Params::DEFAULT_T_COST,
            p_cost: Params::DEFAULT_P_COST,
            output_len: None,
            keyid: Vec::new(),
            data: Vec::new(),
        }
    }
}

} // verus!
