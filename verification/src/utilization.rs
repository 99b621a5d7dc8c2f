//! Per-resource utilization figures.  One `Utilization` value decomposes a
//! resource (CPU, memory or GPU) of a node or a partition into five
//! non-negative quantities, all measured in hundredths of a resource unit so
//! that fractional CPU load is held exactly.

use vstd::prelude::*;

verus! {

/// Five-way decomposition of one resource.  The invariant that callers rely
/// on is [`Utilization::wf`]: `allocated + unavailable <= capacity`.
#[derive(Clone, Copy, Debug, PartialEq, Eq, Structural, Default)]
pub struct Utilization {
    /// Measured use; may momentarily exceed `allocated` on the wire, so node
    /// computations cap it before it lands here.
    pub utilized: u64,
    /// Amount handed to users.
    pub allocated: u64,
    /// Amount reserved as a side effect of allocating a linked resource.
    pub blocked: u64,
    /// Amount that cannot be allocated at all (for example, a down node).
    pub unavailable: u64,
    /// Total amount of the resource.
    pub capacity: u64,
}

/// Element-wise mathematical sum of a sequence of utilization values,
/// over unbounded integers.
pub struct UtilizationTotal {
    pub utilized: int,
    pub allocated: int,
    pub blocked: int,
    pub unavailable: int,
    pub capacity: int,
}

/// Clamps an unbounded sum into `u64` range, mirroring saturating addition.
pub open spec fn clamp_u64(x: int) -> int {
    if x > u64::MAX {
        u64::MAX as int
    } else {
        x
    }
}

pub open spec fn spec_total(s: Seq<Utilization>) -> UtilizationTotal
    decreases s.len(),
{
    if s.len() == 0 {
        UtilizationTotal {
            utilized: 0,
            allocated: 0,
            blocked: 0,
            unavailable: 0,
            capacity: 0,
        }
    } else {
        let rest = spec_total(s.drop_last());
        UtilizationTotal {
            utilized: rest.utilized + s.last().utilized,
            allocated: rest.allocated + s.last().allocated,
            blocked: rest.blocked + s.last().blocked,
            unavailable: rest.unavailable + s.last().unavailable,
            capacity: rest.capacity + s.last().capacity,
        }
    }
}

impl Utilization {
    /// The invariant every computed utilization value keeps: what is handed
    /// out plus what is out of service never exceeds the total.
    pub open spec fn wf(self) -> bool {
        self.allocated + self.unavailable <= self.capacity
    }

    pub open spec fn spec_available(self) -> int {
        self.capacity - (self.allocated + self.blocked + self.unavailable)
    }

    /// Headroom left after everything handed out, reserved or out of
    /// service; negative when linked resources over-reserve.
    pub fn available(&self) -> (r: i128)
        ensures
            r == self.spec_available(),
    {
        self.capacity as i128 - (self.allocated as i128 + self.blocked as i128
            + self.unavailable as i128)
    }

    /// Element-wise sum; each component saturates at `u64::MAX`, and equals
    /// the mathematical sum whenever that sum fits.
    pub fn sum(items: &Vec<Utilization>) -> (r: Utilization)
        ensures
            r.utilized == clamp_u64(spec_total(items@).utilized),
            r.allocated == clamp_u64(spec_total(items@).allocated),
            r.blocked == clamp_u64(spec_total(items@).blocked),
            r.unavailable == clamp_u64(spec_total(items@).unavailable),
            r.capacity == clamp_u64(spec_total(items@).capacity),
    {
        let mut acc = Utilization {
            utilized: 0,
            allocated: 0,
            blocked: 0,
            unavailable: 0,
            capacity: 0,
        };
        let mut i: usize = 0;
        while i < items.len()
            invariant
                i <= items@.len(),
                acc.utilized == clamp_u64(spec_total(items@.take(i as int)).utilized),
                acc.allocated == clamp_u64(spec_total(items@.take(i as int)).allocated),
                acc.blocked == clamp_u64(spec_total(items@.take(i as int)).blocked),
                acc.unavailable == clamp_u64(spec_total(items@.take(i as int)).unavailable),
                acc.capacity == clamp_u64(spec_total(items@.take(i as int)).capacity),
            decreases items@.len() - i,
        {
            let it = items[i];
            proof {
                assert(items@.take(i + 1).drop_last() =~= items@.take(i as int));
                assert(items@.take(i + 1).last() == items@[i as int]);
                lemma_total_nonneg(items@.take(i as int));
            }
            acc = Utilization {
                utilized: acc.utilized.saturating_add(it.utilized),
                allocated: acc.allocated.saturating_add(it.allocated),
                blocked: acc.blocked.saturating_add(it.blocked),
                unavailable: acc.unavailable.saturating_add(it.unavailable),
                capacity: acc.capacity.saturating_add(it.capacity),
            };
            i += 1;
        }
        proof {
            assert(items@.take(items@.len() as int) =~= items@);
        }
        acc
    }
}

/// Every component of a mathematical total is non-negative.
pub proof fn lemma_total_nonneg(s: Seq<Utilization>)
    ensures
        spec_total(s).utilized >= 0,
        spec_total(s).allocated >= 0,
        spec_total(s).blocked >= 0,
        spec_total(s).unavailable >= 0,
        spec_total(s).capacity >= 0,
    decreases s.len(),
{
    if s.len() > 0 {
        lemma_total_nonneg(s.drop_last());
    }
}

/// Summing utilization values preserves the invariant: when every element
/// satisfies `allocated + unavailable <= capacity`, so does the element-wise
/// mathematical sum.  This is why partition figures may simply add node
/// figures.
pub proof fn lemma_sum_preserves_invariant(s: Seq<Utilization>)
    requires
        (forall|i: int| 0 <= i < s.len() ==> (#[trigger] s[i]).wf()),
    ensures
        spec_total(s).allocated + spec_total(s).unavailable <= spec_total(s).capacity,
    decreases s.len(),
{
    if s.len() > 0 {
        assert(s.last().wf());
        lemma_sum_preserves_invariant(s.drop_last());
    }
}

/// When every element is well formed and the summed capacity fits in `u64`,
/// the executable saturating sum is exact on `allocated`, `unavailable` and
/// `capacity`, and the summed value is well formed itself.
pub proof fn lemma_sum_wf(s: Seq<Utilization>)
    requires
        (forall|i: int| 0 <= i < s.len() ==> (#[trigger] s[i]).wf()),
        spec_total(s).capacity <= u64::MAX,
    ensures
        clamp_u64(spec_total(s).allocated) == spec_total(s).allocated,
        clamp_u64(spec_total(s).unavailable) == spec_total(s).unavailable,
        clamp_u64(spec_total(s).capacity) == spec_total(s).capacity,
        (Utilization {
            utilized: clamp_u64(spec_total(s).utilized) as u64,
            allocated: clamp_u64(spec_total(s).allocated) as u64,
            blocked: clamp_u64(spec_total(s).blocked) as u64,
            unavailable: clamp_u64(spec_total(s).unavailable) as u64,
            capacity: clamp_u64(spec_total(s).capacity) as u64,
        }).wf(),
{
    lemma_sum_preserves_invariant(s);
    lemma_total_nonneg(s);
}

} // verus!
