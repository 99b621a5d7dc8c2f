//! Node records: the CPU-state tuple, partition names with their default
//! marker, the node state enumeration, and the per-node utilization
//! computations under the resource-blocking model.

use vstd::prelude::*;

use crate::error::{parse_error, CollectError};
use crate::jobs::Job;
use crate::text::{
    amount_ok, first_index_of, parse_amount, spec_split, spec_trim, split_str, str_eq,
    uint_value,
};
use crate::utilization::Utilization;
use crate::{MAX_AMOUNT, UNIT_SCALE};

verus! {

// ---------------------------------------------------------------------------
// CPU-state tuple
// ---------------------------------------------------------------------------

/// The scheduler's four-way `allocated/idle/other/total` CPU breakdown.
/// The parser does not force the four to be consistent — transient scheduler
/// states may report tuples that do not add up — only non-negative and
/// numeric.
#[derive(Clone, Copy, Debug, PartialEq, Eq, Structural, Default)]
pub struct CPUState {
    pub allocated: u64,
    pub idle: u64,
    pub other: u64,
    pub total: u64,
}

impl CPUState {
    /// Whether a wire token holds at least four decodable slash-separated
    /// counts (extra fields are ignored).
    pub open spec fn wire_ok(s: Seq<char>) -> bool {
        let parts = spec_split(s, '/');
        parts.len() >= 4 && amount_ok(parts[0]) && amount_ok(parts[1]) && amount_ok(parts[2])
            && amount_ok(parts[3])
    }

    /// Decodes an `A/I/O/T` tuple; fewer than four fields, or any
    /// non-numeric or out-of-range field, is an error.
    pub fn parse(s: &str) -> (r: Result<CPUState, CollectError>)
        ensures
            r is Ok <==> Self::wire_ok(s@),
            r is Ok ==> ({
                let parts = spec_split(s@, '/');
                r->Ok_0.allocated == crate::text::uint_value(parts[0])
                    && r->Ok_0.idle == crate::text::uint_value(parts[1])
                    && r->Ok_0.other == crate::text::uint_value(parts[2])
                    && r->Ok_0.total == crate::text::uint_value(parts[3])
            }),
            r is Err ==> r->Err_0.is_parse_of("CPUS(A/I/O/T)"@, s@),
    {
        let parts = split_str(s, '/');
        if parts.len() < 4 {
            return Err(parse_error("CPUS(A/I/O/T)", s));
        }
        let allocated = match parse_amount(parts[0].as_str()) {
            Some(v) => v,
            None => {
                return Err(parse_error("CPUS(A/I/O/T)", s));
            },
        };
        let idle = match parse_amount(parts[1].as_str()) {
            Some(v) => v,
            None => {
                return Err(parse_error("CPUS(A/I/O/T)", s));
            },
        };
        let other = match parse_amount(parts[2].as_str()) {
            Some(v) => v,
            None => {
                return Err(parse_error("CPUS(A/I/O/T)", s));
            },
        };
        let total = match parse_amount(parts[3].as_str()) {
            Some(v) => v,
            None => {
                return Err(parse_error("CPUS(A/I/O/T)", s));
            },
        };
        Ok(CPUState { allocated, idle, other, total })
    }
}

// ---------------------------------------------------------------------------
// Node states
// ---------------------------------------------------------------------------

/// Operational state of a node.  The enumeration is deliberately closed: an
/// unknown wire token is a parse error, not data to drop.
#[derive(Clone, Copy, Debug, PartialEq, Eq, Structural)]
pub enum SlurmState {
    Allocated,
    Completing,
    Down,
    Drained,
    Draining,
    Fail,
    Failing,
    Future,
    Idle,
    Maintenance,
    Mixed,
    Perfctrs,
    PowerDown,
    PowerUp,
    Reserved,
    Unknown,
}

/// Lower-cases one ASCII letter, leaving everything else alone.
pub open spec fn lower_char(c: char) -> char {
    if 'A' <= c && c <= 'Z' {
        (c as int + 32) as char
    } else {
        c
    }
}

pub open spec fn lower_seq(s: Seq<char>) -> Seq<char> {
    s.map_values(|c: char| lower_char(c))
}

/// The state a lower-cased wire token names; `maint` is the documented wire
/// spelling of maintenance.
pub open spec fn spec_slurm_state(s: Seq<char>) -> Option<SlurmState> {
    if s == "allocated"@ {
        Some(SlurmState::Allocated)
    } else if s == "completing"@ {
        Some(SlurmState::Completing)
    } else if s == "down"@ {
        Some(SlurmState::Down)
    } else if s == "drained"@ {
        Some(SlurmState::Drained)
    } else if s == "draining"@ {
        Some(SlurmState::Draining)
    } else if s == "fail"@ {
        Some(SlurmState::Fail)
    } else if s == "failing"@ {
        Some(SlurmState::Failing)
    } else if s == "future"@ {
        Some(SlurmState::Future)
    } else if s == "idle"@ {
        Some(SlurmState::Idle)
    } else if s == "maint"@ {
        Some(SlurmState::Maintenance)
    } else if s == "mixed"@ {
        Some(SlurmState::Mixed)
    } else if s == "perfctrs"@ {
        Some(SlurmState::Perfctrs)
    } else if s == "power_down"@ {
        Some(SlurmState::PowerDown)
    } else if s == "power_up"@ {
        Some(SlurmState::PowerUp)
    } else if s == "reserved"@ {
        Some(SlurmState::Reserved)
    } else if s == "unknown"@ {
        Some(SlurmState::Unknown)
    } else {
        None
    }
}

/// True when lower-casing `a` yields exactly `b`.
fn char_lower_eq(a: char, b: char) -> (r: bool)
    ensures
        r == (lower_char(a) == b),
{
    if 'A' <= a && a <= 'Z' {
        a as u32 + 32 == b as u32
    } else {
        a == b
    }
}

/// Case-insensitive comparison of `s` against an already lower-case token.
fn eq_lowered(s: &str, lit: &str) -> (r: bool)
    ensures
        r == (lower_seq(s@) == lit@),
{
    let n = s.unicode_len();
    if n != lit.unicode_len() {
        assert(lower_seq(s@).len() == s@.len());
        return false;
    }
    let mut i: usize = 0;
    while i < n
        invariant
            n == s@.len(),
            n == lit@.len(),
            i <= n,
            forall|j: int| 0 <= j < i ==> lower_char(s@[j]) == lit@[j],
        decreases n - i,
    {
        if !char_lower_eq(s.get_char(i), lit.get_char(i)) {
            assert(lower_seq(s@)[i as int] != lit@[i as int]);
            return false;
        }
        i += 1;
    }
    proof {
        assert(lower_seq(s@) =~= lit@);
    }
    true
}

/// A node's state together with its responsiveness flag (`*` on the wire
/// means the node does not respond).
#[derive(Clone, Copy, Debug, PartialEq, Eq, Structural)]
pub struct NodeState {
    pub state: SlurmState,
    pub responds: bool,
}

/// What a node-state token decodes to: one optional trailing `*` marks a
/// non-responding node, the rest names the state, case-insensitively.
pub open spec fn spec_node_state(s: Seq<char>) -> Option<NodeState> {
    let responds = !(s.len() > 0 && s.last() == '*');
    let token = if responds {
        s
    } else {
        s.drop_last()
    };
    match spec_slurm_state(lower_seq(token)) {
        Some(state) => Some(NodeState { state, responds }),
        None => None,
    }
}

impl NodeState {
    /// Decodes a node-state token.
    pub fn parse(s: &str) -> (r: Result<NodeState, CollectError>)
        ensures
            r is Ok <==> spec_node_state(s@) is Some,
            r is Ok ==> r->Ok_0 == spec_node_state(s@)->Some_0,
            r is Err ==> r->Err_0.is_parse_of("STATE"@, s@),
    {
        let n = s.unicode_len();
        let responds = !(n > 0 && s.get_char(n - 1) == '*');
        let token: &str = if responds {
            s
        } else {
            let t = s.substring_char(0, n - 1);
            proof {
                assert(t@ =~= s@.drop_last());
            }
            t
        };
        let state = if eq_lowered(token, "allocated") {
            SlurmState::Allocated
        } else if eq_lowered(token, "completing") {
            SlurmState::Completing
        } else if eq_lowered(token, "down") {
            SlurmState::Down
        } else if eq_lowered(token, "drained") {
            SlurmState::Drained
        } else if eq_lowered(token, "draining") {
            SlurmState::Draining
        } else if eq_lowered(token, "fail") {
            SlurmState::Fail
        } else if eq_lowered(token, "failing") {
            SlurmState::Failing
        } else if eq_lowered(token, "future") {
            SlurmState::Future
        } else if eq_lowered(token, "idle") {
            SlurmState::Idle
        } else if eq_lowered(token, "maint") {
            SlurmState::Maintenance
        } else if eq_lowered(token, "mixed") {
            SlurmState::Mixed
        } else if eq_lowered(token, "perfctrs") {
            SlurmState::Perfctrs
        } else if eq_lowered(token, "power_down") {
            SlurmState::PowerDown
        } else if eq_lowered(token, "power_up") {
            SlurmState::PowerUp
        } else if eq_lowered(token, "reserved") {
            SlurmState::Reserved
        } else if eq_lowered(token, "unknown") {
            SlurmState::Unknown
        } else {
            return Err(parse_error("STATE", s));
        };
        Ok(NodeState { state, responds })
    }

    pub open spec fn spec_is_available(self) -> bool {
        self.responds && (self.state is Allocated || self.state is Completing || self.state
            is Idle || self.state is Mixed || self.state is Reserved)
    }

    /// True when the node can run jobs: it responds and its state is one of
    /// the serving states.
    pub fn is_available(&self) -> (r: bool)
        ensures
            r == self.spec_is_available(),
    {
        self.responds && (matches!(self.state, SlurmState::Allocated) || matches!(
            self.state,
            SlurmState::Completing,
        ) || matches!(self.state, SlurmState::Idle) || matches!(self.state, SlurmState::Mixed)
            || matches!(self.state, SlurmState::Reserved))
    }
}

// ---------------------------------------------------------------------------
// Partition names
// ---------------------------------------------------------------------------

/// A partition name; a trailing `*` on the wire marks the cluster's default
/// partition and is display-only — equality ignores it.
#[derive(Debug, PartialEq, Eq)]
pub struct PartitionName {
    pub label: String,
    pub default: bool,
}

impl Clone for PartitionName {
    /// A clone carries exactly the same label and marker.
    fn clone(&self) -> (res: Self)
        ensures
            res.label@ == self.label@,
            res.default == self.default,
    {
        PartitionName { label: self.label.clone(), default: self.default }
    }
}

impl PartitionName {
    /// Decodes a partition-name token, stripping one optional trailing `*`.
    pub fn from_str(value: &str) -> (r: PartitionName)
        ensures
            r.default == (value@.len() > 0 && value@.last() == '*'),
            r.label@ == if value@.len() > 0 && value@.last() == '*' {
                value@.drop_last()
            } else {
                value@
            },
    {
        let n = value.unicode_len();
        if n > 0 && value.get_char(n - 1) == '*' {
            let t = value.substring_char(0, n - 1);
            proof {
                assert(t@ =~= value@.drop_last());
            }
            PartitionName { label: String::from_str(t), default: true }
        } else {
            PartitionName { label: String::from_str(value), default: false }
        }
    }

    /// Length in characters, counting the default marker when present.
    pub fn len(&self) -> (r: usize)
        requires
            self.label@.len() + 1 <= usize::MAX,
        ensures
            r == self.label@.len() + if self.default {
                1int
            } else {
                0int
            },
    {
        let base = self.label.as_str().unicode_len();
        if self.default {
            base + 1
        } else {
            base
        }
    }

    /// Whether two names refer to the same partition, ignoring the default
    /// marker.
    pub fn same(&self, other: &Self) -> (r: bool)
        ensures
            r == (self.label@ == other.label@),
    {
        str_eq(self.label.as_str(), other.label.as_str())
    }

    /// The name as displayed: the label, plus `*` for the default partition.
    pub fn to_text(&self) -> (r: String)
        ensures
            r@ == self.label@ + if self.default {
                seq!['*']
            } else {
                Seq::empty()
            },
    {
        let mut s = self.label.clone();
        if self.default {
            s.append("*");
            proof {
                reveal_strlit("*");
            }
        }
        proof {
            assert(s@ =~= self.label@ + if self.default {
                seq!['*']
            } else {
                Seq::<char>::empty()
            });
        }
        s
    }
}

// ---------------------------------------------------------------------------
// Nodes
// ---------------------------------------------------------------------------

/// One scheduler-managed machine, rebuilt fresh on every collection cycle.
/// CPU load is held in hundredths of a CPU; memory in megabytes.
#[derive(Clone, Debug, PartialEq)]
pub struct Node {
    pub name: String,
    pub partition: PartitionName,
    pub state: NodeState,
    /// Total CPU count as reported by the dedicated column.
    pub cpus: u64,
    /// Observed load in hundredths of a CPU; absent when reported as `N/A`.
    pub cpu_load: Option<u64>,
    pub cpu_state: CPUState,
    /// Total memory in megabytes.
    pub mem: u64,
    /// Memory allocated to jobs, megabytes.
    pub mem_alloc: u64,
    /// Observed free memory, megabytes; absent when reported as `N/A`.
    pub mem_free: Option<u64>,
    /// Total GPUs, from the generic-resources string.
    pub gpus: u64,
    /// GPUs in use, from the generic-resources-used string.
    pub gpus_used: u64,
    /// Raw generic-resources string, kept for display.
    pub gres: String,
    /// Raw generic-resources-used string, kept for display.
    pub gres_used: String,
    /// Jobs attached to this node by the aggregator.
    pub jobs: Vec<Job>,
}

impl Node {
    /// Every numeric field stays within the parser's amount bound, and the
    /// GPUs in use never exceed the GPUs present; the parser enforces this.
    pub open spec fn wf(self) -> bool {
        &&& self.cpu_state.allocated <= MAX_AMOUNT
        &&& self.cpu_state.idle <= MAX_AMOUNT
        &&& self.cpu_state.other <= MAX_AMOUNT
        &&& self.cpu_state.total <= MAX_AMOUNT
        &&& self.cpus <= MAX_AMOUNT
        &&& self.mem <= MAX_AMOUNT
        &&& self.mem_alloc <= MAX_AMOUNT
        &&& (self.mem_free matches Some(f) ==> f <= MAX_AMOUNT)
        &&& (self.cpu_load matches Some(l) ==> l <= MAX_AMOUNT)
        &&& self.gpus <= MAX_AMOUNT
        &&& self.gpus_used <= self.gpus
    }
}

// ---------------------------------------------------------------------------
// Node generic resources
// ---------------------------------------------------------------------------

/// Scans a node's comma-separated generic-resource entries for the first
/// one of type `gpu` and reads the field after the second colon, with any
/// parenthesised id list stripped; no entry means zero GPUs.
pub open spec fn spec_gres_gpus(entries: Seq<Seq<char>>) -> Option<int>
    decreases entries.len(),
{
    if entries.len() == 0 {
        Some(0)
    } else {
        let e = entries[0];
        if e.len() >= 4 && e.take(4) == "gpu:"@ {
            let rest = e.skip(4);
            let c2 = first_index_of(rest, ':');
            let last = if c2 == rest.len() {
                rest
            } else {
                rest.skip(c2 + 1)
            };
            let v = last.take(first_index_of(last, '('));
            if amount_ok(v) {
                Some(uint_value(v))
            } else {
                None
            }
        } else {
            spec_gres_gpus(entries.drop_first())
        }
    }
}

/// The GPU count a whole generic-resources string reports.
pub open spec fn spec_node_gpus(s: Seq<char>) -> Option<int> {
    spec_gres_gpus(spec_split(s, ','))
}

/// Extracts the GPU count from a node's generic-resources string; `field`
/// names the column for error reporting.
pub fn parse_gpus(s: &str, field: &str) -> (r: Result<u64, CollectError>)
    ensures
        r is Ok <==> spec_node_gpus(s@) is Some,
        r is Ok ==> r->Ok_0 == spec_node_gpus(s@)->Some_0 && r->Ok_0 <= crate::MAX_AMOUNT,
        r is Err ==> r->Err_0.is_extraction_of(field@, s@),
    {
    let parts = split_str(s, ',');
    let ghost all = spec_split(s@, ',');
    let mut i: usize = 0;
    proof {
        assert(all.skip(0) =~= all);
    }
    while i < parts.len()
        invariant
            i <= parts@.len(),
            all == spec_split(s@, ','),
            all == parts@.map_values(|t: String| t@),
            spec_gres_gpus(all) == spec_gres_gpus(all.skip(i as int)),
        decreases parts@.len() - i,
    {
        proof {
            assert(all.skip(i as int)[0] == all[i as int]);
            assert(all[i as int] == parts@[i as int]@);
            assert(all.skip(i as int).drop_first() =~= all.skip(i + 1));
        }
        let e = parts[i].as_str();
        let n = e.unicode_len();
        if n >= 4 {
            let head = e.substring_char(0, 4);
            proof {
                assert(head@ =~= e@.take(4));
            }
            if str_eq(head, "gpu:") {
                let rest = e.substring_char(4, n);
                proof {
                    assert(rest@ =~= e@.skip(4));
                }
                let c2 = crate::text::find_char(rest, ':');
                let rn = rest.unicode_len();
                let last: &str = if c2 == rn {
                    rest
                } else {
                    let l = rest.substring_char(c2 + 1, rn);
                    proof {
                        assert(l@ =~= rest@.skip(c2 + 1));
                    }
                    l
                };
                let paren = crate::text::find_char(last, '(');
                let v = last.substring_char(0, paren);
                proof {
                    assert(v@ =~= last@.take(paren as int));
                }
                return match parse_amount(v) {
                    Some(g) => Ok(g),
                    None => Err(crate::error::extraction_error(field, s)),
                };
            }
        }
        i += 1;
    }
    proof {
        assert(all.skip(parts@.len() as int) =~= Seq::<Seq<char>>::empty());
    }
    Ok(0)
}

/// Builds the format argument handed to the node-info source: the ordered
/// columns of the node table, pipe-delimited, without width limits.
pub fn sinfo_format() -> (r: String)
    ensures
        r@ == crate::misc::spec_format_string(
            seq![
                "AllocMem"@,
                "CPUs"@,
                "CPUsLoad"@,
                "CPUsState"@,
                "FreeMem"@,
                "Gres"@,
                "GresUsed"@,
                "Memory"@,
                "NodeList"@,
                "Partition"@,
                "StateLong"@,
            ],
        ),
{
    let mut fields: Vec<String> = Vec::new();
    fields.push(String::from_str("AllocMem"));
    fields.push(String::from_str("CPUs"));
    fields.push(String::from_str("CPUsLoad"));
    fields.push(String::from_str("CPUsState"));
    fields.push(String::from_str("FreeMem"));
    fields.push(String::from_str("Gres"));
    fields.push(String::from_str("GresUsed"));
    fields.push(String::from_str("Memory"));
    fields.push(String::from_str("NodeList"));
    fields.push(String::from_str("Partition"));
    fields.push(String::from_str("StateLong"));
    proof {
        assert(fields@.map_values(|t: String| t@) =~= seq![
            "AllocMem"@,
            "CPUs"@,
            "CPUsLoad"@,
            "CPUsState"@,
            "FreeMem"@,
            "Gres"@,
            "GresUsed"@,
            "Memory"@,
            "NodeList"@,
            "Partition"@,
            "StateLong"@,
        ]);
    }
    crate::misc::format_string(&fields)
}

/// Ceiling division for non-negative operands.
pub open spec fn div_ceil(a: int, b: int) -> int {
    (a + b - 1) / b
}

/// Observed CPU load in hundredths, zero when absent.
pub open spec fn spec_load_of(n: Node) -> int {
    match n.cpu_load {
        Some(l) => l as int,
        None => 0,
    }
}

/// CPUs blocked by memory allocation: reserved memory blocks CPU slots at
/// the configured default memory per CPU, never less than what is already
/// allocated.  Zero memory-per-CPU disables the effect.
pub open spec fn spec_cpu_blocked_units(n: Node, mem_per_cpu: u64) -> int {
    let by_mem = if mem_per_cpu > 0 {
        div_ceil(n.mem_alloc as int, mem_per_cpu as int)
    } else {
        0
    };
    if by_mem > n.cpu_state.allocated {
        by_mem
    } else {
        n.cpu_state.allocated as int
    }
}

/// The CPU decomposition of one node, in hundredths of a CPU.
pub open spec fn spec_cpu_util(n: Node, mem_per_cpu: u64) -> Utilization {
    let alloc_h = n.cpu_state.allocated * UNIT_SCALE;
    let load = spec_load_of(n);
    Utilization {
        utilized: (if load > alloc_h {
            alloc_h as int
        } else {
            load
        }) as u64,
        allocated: alloc_h as u64,
        blocked: (spec_cpu_blocked_units(n, mem_per_cpu) * UNIT_SCALE) as u64,
        unavailable: (n.cpu_state.other * UNIT_SCALE) as u64,
        capacity: (n.cpu_state.total * UNIT_SCALE) as u64,
    }
}

/// The memory decomposition of one node, in hundredths of a megabyte.
pub open spec fn spec_mem_util(n: Node) -> Utilization {
    let free = match n.mem_free {
        Some(f) => f as int,
        None => n.mem as int,
    };
    let used = if free > n.mem {
        0int
    } else {
        n.mem - free
    };
    let utilized = if used > n.mem_alloc {
        n.mem_alloc as int
    } else {
        used
    };
    let spare_cpus = n.cpu_state.allocated + n.cpu_state.other < n.cpu_state.total;
    let usable_cpus = n.cpu_state.total > n.cpu_state.other;
    Utilization {
        utilized: (utilized * UNIT_SCALE) as u64,
        allocated: (n.mem_alloc * UNIT_SCALE) as u64,
        blocked: (if spare_cpus {
            n.mem_alloc * UNIT_SCALE
        } else if usable_cpus {
            n.mem * UNIT_SCALE
        } else {
            0
        }) as u64,
        unavailable: (if spare_cpus || usable_cpus {
            0
        } else if n.mem_alloc > n.mem {
            0
        } else {
            (n.mem - n.mem_alloc) * UNIT_SCALE
        }) as u64,
        capacity: (n.mem * UNIT_SCALE) as u64,
    }
}

/// The GPU decomposition of one node, in hundredths of a GPU.  GPUs are
/// blocked when the node has less than one CPU's worth of headroom left.
pub open spec fn spec_gpu_util(n: Node, mem_per_cpu: u64) -> Utilization {
    let blocked = if spec_cpu_util(n, mem_per_cpu).spec_available() < UNIT_SCALE {
        (n.gpus - n.gpus_used) * UNIT_SCALE
    } else {
        0int
    };
    Utilization {
        utilized: 0,
        allocated: (n.gpus_used * UNIT_SCALE) as u64,
        blocked: blocked as u64,
        unavailable: 0,
        capacity: (n.gpus * UNIT_SCALE) as u64,
    }
}

/// An unavailable node contributes nothing usable: everything but the
/// capacity is zeroed and the whole capacity counts as unavailable.
pub open spec fn spec_unavailable_override(u: Utilization) -> Utilization {
    Utilization {
        utilized: 0,
        allocated: 0,
        blocked: 0,
        unavailable: u.capacity,
        capacity: u.capacity,
    }
}

/// A node's memory contribution to partition sums: overridden when the
/// node is unavailable.
pub open spec fn spec_adjusted_mem_util(n: Node) -> Utilization {
    if n.state.spec_is_available() {
        spec_mem_util(n)
    } else {
        spec_unavailable_override(spec_mem_util(n))
    }
}

/// A node's GPU contribution to partition sums: overridden when the node
/// is unavailable.
pub open spec fn spec_adjusted_gpu_util(n: Node, mem_per_cpu: u64) -> Utilization {
    if n.state.spec_is_available() {
        spec_gpu_util(n, mem_per_cpu)
    } else {
        spec_unavailable_override(spec_gpu_util(n, mem_per_cpu))
    }
}

impl Node {
    /// CPU utilization of this node.  Observed load lags and may exceed the
    /// allocation, so it is capped at the allocated count.
    pub fn cpu_utilization(&self, mem_per_cpu: u64) -> (r: Utilization)
        requires
            self.wf(),
        ensures
            r == spec_cpu_util(*self, mem_per_cpu),
            r.utilized <= r.allocated,
            self.cpu_state.allocated + self.cpu_state.other <= self.cpu_state.total ==> r.wf(),
    {
        let alloc_h: u64 = self.cpu_state.allocated * UNIT_SCALE;
        let load: u64 = match self.cpu_load {
            Some(l) => l,
            None => 0,
        };
        let utilized: u64 = if load > alloc_h {
            alloc_h
        } else {
            load
        };
        let blocked_units: u64 = if mem_per_cpu > 0 {
            let c = ((self.mem_alloc as u128 + mem_per_cpu as u128 - 1) / (mem_per_cpu as u128))
                as u64;
            proof {
                assert(div_ceil(self.mem_alloc as int, mem_per_cpu as int)
                    <= self.mem_alloc as int) by (nonlinear_arith)
                    requires
                        mem_per_cpu >= 1,
                        self.mem_alloc >= 0,
                ;
                assert(div_ceil(self.mem_alloc as int, mem_per_cpu as int) >= 0)
                    by (nonlinear_arith)
                    requires
                        mem_per_cpu >= 1,
                        self.mem_alloc >= 0,
                ;
            }
            if c > self.cpu_state.allocated {
                c
            } else {
                self.cpu_state.allocated
            }
        } else {
            self.cpu_state.allocated
        };
        Utilization {
            utilized,
            allocated: alloc_h,
            blocked: blocked_units * UNIT_SCALE,
            unavailable: self.cpu_state.other * UNIT_SCALE,
            capacity: self.cpu_state.total * UNIT_SCALE,
        }
    }

    /// Memory utilization of this node.  Free memory counts system use too,
    /// so the used amount is capped at the allocation; memory is blocked
    /// when no CPU is left to pair it with.
    pub fn mem_utilization(&self) -> (r: Utilization)
        requires
            self.wf(),
        ensures
            r == spec_mem_util(*self),
            self.mem_alloc <= self.mem ==> r.wf(),
    {
        let free: u64 = match self.mem_free {
            Some(f) => f,
            None => self.mem,
        };
        let used: u64 = if free > self.mem {
            0
        } else {
            self.mem - free
        };
        let utilized: u64 = if used > self.mem_alloc {
            self.mem_alloc
        } else {
            used
        };
        let spare_cpus = self.cpu_state.allocated + self.cpu_state.other < self.cpu_state.total;
        let usable_cpus = self.cpu_state.total > self.cpu_state.other;
        let blocked: u64 = if spare_cpus {
            self.mem_alloc * UNIT_SCALE
        } else if usable_cpus {
            self.mem * UNIT_SCALE
        } else {
            0
        };
        let unavailable: u64 = if spare_cpus || usable_cpus {
            0
        } else if self.mem_alloc > self.mem {
            0
        } else {
            (self.mem - self.mem_alloc) * UNIT_SCALE
        };
        Utilization {
            utilized: utilized * UNIT_SCALE,
            allocated: self.mem_alloc * UNIT_SCALE,
            blocked,
            unavailable,
            capacity: self.mem * UNIT_SCALE,
        }
    }

    /// GPU utilization of this node.  The scheduler reports no live GPU
    /// load, so `utilized` is zero; unused GPUs count as blocked when the
    /// CPUs have less than one unit of headroom.
    pub fn gpu_utilization(&self, mem_per_cpu: u64) -> (r: Utilization)
        requires
            self.wf(),
        ensures
            r == spec_gpu_util(*self, mem_per_cpu),
            r.wf(),
    {
        let cpu = self.cpu_utilization(mem_per_cpu);
        let blocked: u64 = if cpu.available() < UNIT_SCALE as i128 {
            (self.gpus - self.gpus_used) * UNIT_SCALE
        } else {
            0
        };
        Utilization {
            utilized: 0,
            allocated: self.gpus_used * UNIT_SCALE,
            blocked,
            unavailable: 0,
            capacity: self.gpus * UNIT_SCALE,
        }
    }

    /// Whether the eleven split (untrimmed) fields of one node record all
    /// decode: allocated memory, CPU count, load, CPU tuple, free memory,
    /// generic resources and their use, total memory, name, partition and
    /// state, with the GPUs in use never exceeding the GPUs present.
    pub open spec fn fields_ok(f: Seq<Seq<char>>) -> bool {
        &&& f.len() == 11
        &&& amount_ok(spec_trim(f[0]))
        &&& amount_ok(spec_trim(f[1]))
        &&& (spec_trim(f[2]) == "N/A"@ || crate::text::dec_in_range(spec_trim(f[2]), 100, 1))
        &&& CPUState::wire_ok(spec_trim(f[3]))
        &&& (spec_trim(f[4]) == "N/A"@ || amount_ok(spec_trim(f[4])))
        &&& spec_node_gpus(spec_trim(f[5])) is Some
        &&& spec_node_gpus(spec_trim(f[6])) is Some
        &&& amount_ok(spec_trim(f[7]))
        &&& spec_node_state(spec_trim(f[10])) is Some
        &&& spec_node_gpus(spec_trim(f[6]))->Some_0 <= spec_node_gpus(spec_trim(f[5]))->Some_0
    }

    /// Whether a node holds exactly what the eleven fields decode to, with
    /// an empty job list.
    pub open spec fn matches_fields(self, f: Seq<Seq<char>>) -> bool {
        &&& self.mem_alloc == uint_value(spec_trim(f[0]))
        &&& self.cpus == uint_value(spec_trim(f[1]))
        &&& self.cpu_load == (if spec_trim(f[2]) == "N/A"@ {
            None::<u64>
        } else {
            Some(crate::text::dec_scaled(spec_trim(f[2]), 100, 1) as u64)
        })
        &&& self.cpu_state.allocated == uint_value(spec_split(spec_trim(f[3]), '/')[0])
        &&& self.cpu_state.idle == uint_value(spec_split(spec_trim(f[3]), '/')[1])
        &&& self.cpu_state.other == uint_value(spec_split(spec_trim(f[3]), '/')[2])
        &&& self.cpu_state.total == uint_value(spec_split(spec_trim(f[3]), '/')[3])
        &&& self.mem_free == (if spec_trim(f[4]) == "N/A"@ {
            None::<u64>
        } else {
            Some(uint_value(spec_trim(f[4])) as u64)
        })
        &&& self.gres@ == spec_trim(f[5])
        &&& self.gres_used@ == spec_trim(f[6])
        &&& self.gpus == spec_node_gpus(spec_trim(f[5]))->Some_0
        &&& self.gpus_used == spec_node_gpus(spec_trim(f[6]))->Some_0
        &&& self.mem == uint_value(spec_trim(f[7]))
        &&& self.name@ == spec_trim(f[8])
        &&& self.partition.default == (spec_trim(f[9]).len() > 0 && spec_trim(f[9]).last()
            == '*')
        &&& self.partition.label@ == (if spec_trim(f[9]).len() > 0 && spec_trim(f[9]).last()
            == '*' {
            spec_trim(f[9]).drop_last()
        } else {
            spec_trim(f[9])
        })
        &&& Some(self.state) == spec_node_state(spec_trim(f[10]))
        &&& self.jobs@ == Seq::<Job>::empty()
    }

    /// Decodes the eleven pipe-split fields of one node record.
    pub fn from_fields(fields: &Vec<String>) -> (r: Result<Node, CollectError>)
        ensures
            r is Ok <==> Self::fields_ok(fields@.map_values(|t: String| t@)),
            r is Ok ==> r->Ok_0.matches_fields(fields@.map_values(|t: String| t@))
                && r->Ok_0.wf(),
    {
        let ghost f = fields@.map_values(|t: String| t@);
        if fields.len() != 11 {
            return Err(parse_error("record", "wrong number of fields"));
        }
        proof {
            assert forall|k: int| 0 <= k < 11 implies f[k] == fields@[k]@ by {}
        }
        let t0 = crate::text::trim_str(fields[0].as_str());
        let mem_alloc = match parse_amount(t0) {
            Some(v) => v,
            None => {
                return Err(parse_error("ALLOCMEM", t0));
            },
        };
        let t1 = crate::text::trim_str(fields[1].as_str());
        let cpus = match parse_amount(t1) {
            Some(v) => v,
            None => {
                return Err(parse_error("CPUS", t1));
            },
        };
        let t2 = crate::text::trim_str(fields[2].as_str());
        let cpu_load: Option<u64> = if str_eq(t2, "N/A") {
            None
        } else {
            match crate::text::parse_decimal_scaled(t2, 100, 1) {
                Some(v) => Some(v),
                None => {
                    return Err(parse_error("CPU_LOAD", t2));
                },
            }
        };
        let t3 = crate::text::trim_str(fields[3].as_str());
        let cpu_state = match CPUState::parse(t3) {
            Ok(v) => v,
            Err(e) => {
                return Err(e);
            },
        };
        let t4 = crate::text::trim_str(fields[4].as_str());
        let mem_free: Option<u64> = if str_eq(t4, "N/A") {
            None
        } else {
            match parse_amount(t4) {
                Some(v) => Some(v),
                None => {
                    return Err(parse_error("FREE_MEM", t4));
                },
            }
        };
        let t5 = crate::text::trim_str(fields[5].as_str());
        let gpus = match parse_gpus(t5, "GRES") {
            Ok(v) => v,
            Err(e) => {
                return Err(e);
            },
        };
        let t6 = crate::text::trim_str(fields[6].as_str());
        let gpus_used = match parse_gpus(t6, "GRES_USED") {
            Ok(v) => v,
            Err(e) => {
                return Err(e);
            },
        };
        if gpus_used > gpus {
            return Err(crate::error::extraction_error("GRES_USED", t6));
        }
        let t7 = crate::text::trim_str(fields[7].as_str());
        let mem = match parse_amount(t7) {
            Some(v) => v,
            None => {
                return Err(parse_error("MEMORY", t7));
            },
        };
        let t8 = crate::text::trim_str(fields[8].as_str());
        let t9 = crate::text::trim_str(fields[9].as_str());
        let t10 = crate::text::trim_str(fields[10].as_str());
        let state = match NodeState::parse(t10) {
            Ok(v) => v,
            Err(e) => {
                return Err(e);
            },
        };
        Ok(
            Node {
                name: String::from_str(t8),
                partition: PartitionName::from_str(t9),
                state,
                cpus,
                cpu_load,
                cpu_state,
                mem,
                mem_alloc,
                mem_free,
                gpus,
                gpus_used,
                gres: String::from_str(t5),
                gres_used: String::from_str(t6),
                jobs: Vec::new(),
            },
        )
    }

    /// Parses the whole node table: the first line is the header, each
    /// further non-blank line is one record of eleven pipe-separated
    /// fields.  A failure on any record aborts the parse.
    pub fn parse_table(text: &str) -> (r: Result<Vec<Node>, CollectError>)
        ensures
            r is Ok <==> (forall|i: int|
                0 <= i < crate::text::data_lines(spec_split(text@, '\n').skip(1)).len()
                    ==> Self::fields_ok(
                    spec_split(
                        #[trigger] crate::text::data_lines(spec_split(text@, '\n').skip(1))[i],
                        '|',
                    ),
                )),
            r is Ok ==> ({
                let recs = crate::text::data_lines(spec_split(text@, '\n').skip(1));
                r->Ok_0@.len() == recs.len() && (forall|i: int|
                    0 <= i < recs.len() ==> (#[trigger] r->Ok_0@[i]).matches_fields(
                        spec_split(recs[i], '|'),
                    ) && r->Ok_0@[i].wf())
            }),
    {
        let records = crate::text::record_lines(text);
        let ghost recs = crate::text::data_lines(spec_split(text@, '\n').skip(1));
        let mut nodes: Vec<Node> = Vec::new();
        let mut i: usize = 0;
        while i < records.len()
            invariant
                i <= records@.len(),
                recs == crate::text::data_lines(spec_split(text@, '\n').skip(1)),
                recs == records@.map_values(|t: String| t@),
                nodes@.len() == i,
                forall|k: int|
                    0 <= k < i ==> Self::fields_ok(spec_split(#[trigger] recs[k], '|')),
                forall|k: int|
                    0 <= k < i ==> (#[trigger] nodes@[k]).matches_fields(
                        spec_split(recs[k], '|'),
                    ) && nodes@[k].wf(),
            decreases records@.len() - i,
        {
            proof {
                assert(recs[i as int] == records@[i as int]@);
            }
            let fields = split_str(records[i].as_str(), '|');
            let node = match Self::from_fields(&fields) {
                Ok(n) => n,
                Err(e) => {
                    return Err(e);
                },
            };
            nodes.push(node);
            i += 1;
        }
        Ok(nodes)
    }

    /// Number of distinct users among the jobs attached to this node.
    pub fn users(&self) -> (r: usize)
        ensures
            r == self.jobs@.map_values(|j: Job| j.user@).to_set().len(),
    {
        let mut names: Vec<String> = Vec::new();
        let mut i: usize = 0;
        while i < self.jobs.len()
            invariant
                i <= self.jobs@.len(),
                names@.len() == i,
                forall|k: int| 0 <= k < i ==> (#[trigger] names@[k])@ == self.jobs@[k].user@,
            decreases self.jobs@.len() - i,
        {
            names.push(self.jobs[i].user.clone());
            i += 1;
        }
        proof {
            assert(names@.map_values(|s: String| s@) =~= self.jobs@.map_values(
                |j: Job| j.user@,
            ));
        }
        crate::misc::unique_values(&names)
    }

    /// Memory figures as they enter a partition sum: an unavailable node is
    /// overridden so that its whole memory counts as unavailable.
    pub fn adjusted_mem_utilization(&self) -> (r: Utilization)
        requires
            self.wf(),
        ensures
            r == spec_adjusted_mem_util(*self),
            !self.state.spec_is_available() ==> r.allocated == 0 && r.utilized == 0
                && r.blocked == 0 && r.unavailable == r.capacity,
            r.wf() || (self.state.spec_is_available() && self.mem_alloc > self.mem),
    {
        let u = self.mem_utilization();
        if self.state.is_available() {
            u
        } else {
            Utilization {
                utilized: 0,
                allocated: 0,
                blocked: 0,
                unavailable: u.capacity,
                capacity: u.capacity,
            }
        }
    }

    /// GPU figures as they enter a partition sum, with the same override.
    pub fn adjusted_gpu_utilization(&self, mem_per_cpu: u64) -> (r: Utilization)
        requires
            self.wf(),
        ensures
            r == spec_adjusted_gpu_util(*self, mem_per_cpu),
            !self.state.spec_is_available() ==> r.allocated == 0 && r.utilized == 0
                && r.blocked == 0 && r.unavailable == r.capacity,
            r.wf(),
    {
        let u = self.gpu_utilization(mem_per_cpu);
        if self.state.is_available() {
            u
        } else {
            Utilization {
                utilized: 0,
                allocated: 0,
                blocked: 0,
                unavailable: u.capacity,
                capacity: u.capacity,
            }
        }
    }
}

} // verus!
