//! Partitions: a named group of nodes, the jobs visible to it, and the
//! partition-level utilization figures, which are element-wise sums over
//! the member nodes.

use vstd::prelude::*;

use crate::jobs::Job;
use crate::nodes::{
    spec_adjusted_gpu_util, spec_adjusted_mem_util, spec_cpu_util, Node, PartitionName,
};
use crate::utilization::{clamp_u64, spec_total, Utilization};

verus! {

/// A named group of nodes with the jobs visible to it.
#[derive(Clone, Debug, PartialEq)]
pub struct Partition {
    pub name: PartitionName,
    pub jobs: Vec<Job>,
    pub nodes: Vec<Node>,
}

impl Partition {
    /// Every member node within the parser's bounds.
    pub open spec fn nodes_wf(self) -> bool {
        forall|i: int| 0 <= i < self.nodes@.len() ==> (#[trigger] self.nodes@[i]).wf()
    }

    /// Number of distinct users among the jobs visible to this partition.
    pub fn users(&self) -> (r: usize)
        ensures
            r == self.jobs@.map_values(|j: Job| j.user@).to_set().len(),
    {
        let mut names: Vec<String> = Vec::new();
        let mut i: usize = 0;
        while i < self.jobs.len()
            invariant
                i <= self.jobs@.len(),
                names@.len() == i,
                forall|k: int| 0 <= k < i ==> (#[trigger] names@[k])@ == self.jobs@[k].user@,
            decreases self.jobs@.len() - i,
        {
            names.push(self.jobs[i].user.clone());
            i += 1;
        }
        proof {
            assert(names@.map_values(|s: String| s@) =~= self.jobs@.map_values(
                |j: Job| j.user@,
            ));
        }
        crate::misc::unique_values(&names)
    }

    /// CPU figures of the partition: the sum of its nodes' CPU figures.
    pub fn cpu_utilization(&self, mem_per_cpu: u64) -> (r: Utilization)
        requires
            self.nodes_wf(),
        ensures
            ({
                let t = spec_total(
                    self.nodes@.map_values(|n: Node| spec_cpu_util(n, mem_per_cpu)),
                );
                r.utilized == clamp_u64(t.utilized) && r.allocated == clamp_u64(t.allocated)
                    && r.blocked == clamp_u64(t.blocked) && r.unavailable == clamp_u64(
                    t.unavailable,
                ) && r.capacity == clamp_u64(t.capacity)
            }),
    {
        let mut parts: Vec<Utilization> = Vec::new();
        let mut i: usize = 0;
        while i < self.nodes.len()
            invariant
                i <= self.nodes@.len(),
                self.nodes_wf(),
                parts@ == self.nodes@.take(i as int).map_values(
                    |n: Node| spec_cpu_util(n, mem_per_cpu),
                ),
            decreases self.nodes@.len() - i,
        {
            parts.push(self.nodes[i].cpu_utilization(mem_per_cpu));
            proof {
                assert(parts@ =~= self.nodes@.take(i + 1).map_values(
                    |n: Node| spec_cpu_util(n, mem_per_cpu),
                ));
            }
            i += 1;
        }
        proof {
            assert(self.nodes@.take(self.nodes@.len() as int) =~= self.nodes@);
        }
        Utilization::sum(&parts)
    }

    /// Memory figures of the partition: the sum over nodes, with
    /// unavailable nodes overridden so that their whole memory counts as
    /// unavailable.
    pub fn mem_utilization(&self) -> (r: Utilization)
        requires
            self.nodes_wf(),
        ensures
            ({
                let t = spec_total(self.nodes@.map_values(|n: Node| spec_adjusted_mem_util(n)));
                r.utilized == clamp_u64(t.utilized) && r.allocated == clamp_u64(t.allocated)
                    && r.blocked == clamp_u64(t.blocked) && r.unavailable == clamp_u64(
                    t.unavailable,
                ) && r.capacity == clamp_u64(t.capacity)
            }),
    {
        let mut parts: Vec<Utilization> = Vec::new();
        let mut i: usize = 0;
        while i < self.nodes.len()
            invariant
                i <= self.nodes@.len(),
                self.nodes_wf(),
                parts@ == self.nodes@.take(i as int).map_values(
                    |n: Node| spec_adjusted_mem_util(n),
                ),
            decreases self.nodes@.len() - i,
        {
            parts.push(self.nodes[i].adjusted_mem_utilization());
            proof {
                assert(parts@ =~= self.nodes@.take(i + 1).map_values(
                    |n: Node| spec_adjusted_mem_util(n),
                ));
            }
            i += 1;
        }
        proof {
            assert(self.nodes@.take(self.nodes@.len() as int) =~= self.nodes@);
        }
        Utilization::sum(&parts)
    }

    /// GPU figures of the partition, with the same unavailable-node
    /// override.
    pub fn gpu_utilization(&self, mem_per_cpu: u64) -> (r: Utilization)
        requires
            self.nodes_wf(),
        ensures
            ({
                let t = spec_total(
                    self.nodes@.map_values(|n: Node| spec_adjusted_gpu_util(n, mem_per_cpu)),
                );
                r.utilized == clamp_u64(t.utilized) && r.allocated == clamp_u64(t.allocated)
                    && r.blocked == clamp_u64(t.blocked) && r.unavailable == clamp_u64(
                    t.unavailable,
                ) && r.capacity == clamp_u64(t.capacity)
            }),
    {
        let mut parts: Vec<Utilization> = Vec::new();
        let mut i: usize = 0;
        while i < self.nodes.len()
            invariant
                i <= self.nodes@.len(),
                self.nodes_wf(),
                parts@ == self.nodes@.take(i as int).map_values(
                    |n: Node| spec_adjusted_gpu_util(n, mem_per_cpu),
                ),
            decreases self.nodes@.len() - i,
        {
            parts.push(self.nodes[i].adjusted_gpu_utilization(mem_per_cpu));
            proof {
                assert(parts@ =~= self.nodes@.take(i + 1).map_values(
                    |n: Node| spec_adjusted_gpu_util(n, mem_per_cpu),
                ));
            }
            i += 1;
        }
        proof {
            assert(self.nodes@.take(self.nodes@.len() as int) =~= self.nodes@);
        }
        Utilization::sum(&parts)
    }
}

} // verus!
