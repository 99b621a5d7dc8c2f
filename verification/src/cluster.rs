//! Cluster assembly: node records are sorted by partition and name,
//! grouped into partitions, the partitions ordered by descending node
//! count, and job records attached to the partition and nodes they name.

use vstd::multiset::Multiset;
use vstd::prelude::*;

use crate::jobs::Job;
use crate::nodes::{Node, PartitionName};
use crate::partitions::Partition;
use crate::text::{lemma_lex_le_antisymmetric, lemma_lex_le_total, lemma_lex_le_transitive};
use crate::text::{lex_le, str_eq, str_le};

verus! {

broadcast use {
    vstd::seq_lib::group_to_multiset_ensures,
    vstd::multiset::group_multiset_axioms,
};

/// Names either a partition or a node of the cluster.
pub enum Identifier {
    Partition(String),
    Node(String),
}

/// The cluster assembly entry points.
pub struct Slurm {}

// ---------------------------------------------------------------------------
// Orders
// ---------------------------------------------------------------------------

/// A partition name as displayed: the label with the default marker.
pub open spec fn part_display(p: PartitionName) -> Seq<char> {
    p.label@ + if p.default {
        seq!['*']
    } else {
        Seq::empty()
    }
}

/// Node order: by displayed partition name, then by node name.
pub open spec fn node_le(a: Node, b: Node) -> bool {
    if part_display(a.partition) == part_display(b.partition) {
        lex_le(a.name@, b.name@)
    } else {
        lex_le(part_display(a.partition), part_display(b.partition))
    }
}

pub open spec fn nodes_sorted(s: Seq<Node>) -> bool {
    forall|k: int, l: int| #![trigger s[k], s[l]] 0 <= k < l < s.len() ==> node_le(s[k], s[l])
}

pub proof fn lemma_node_le_total(a: Node, b: Node)
    ensures
        node_le(a, b) || node_le(b, a),
{
    lemma_lex_le_total(part_display(a.partition), part_display(b.partition));
    lemma_lex_le_total(a.name@, b.name@);
}

pub proof fn lemma_node_le_transitive(a: Node, b: Node, c: Node)
    requires
        node_le(a, b),
        node_le(b, c),
    ensures
        node_le(a, c),
{
    let da = part_display(a.partition);
    let db = part_display(b.partition);
    let dc = part_display(c.partition);
    if da == db && db == dc {
        lemma_lex_le_transitive(a.name@, b.name@, c.name@);
    } else if da == db {
        // b and c order by display, so a and c do too
    } else if db == dc {
    } else {
        lemma_lex_le_transitive(da, db, dc);
        if da == dc {
            lemma_lex_le_antisymmetric(da, db);
        }
    }
}

/// Partition order: by descending node count, ties by displayed name.
pub open spec fn part_le(a: Partition, b: Partition) -> bool {
    a.nodes@.len() > b.nodes@.len() || (a.nodes@.len() == b.nodes@.len() && lex_le(
        part_display(a.name),
        part_display(b.name),
    ))
}

pub open spec fn parts_sorted(s: Seq<Partition>) -> bool {
    forall|k: int, l: int| #![trigger s[k], s[l]] 0 <= k < l < s.len() ==> part_le(s[k], s[l])
}

pub proof fn lemma_part_le_total(a: Partition, b: Partition)
    ensures
        part_le(a, b) || part_le(b, a),
{
    lemma_lex_le_total(part_display(a.name), part_display(b.name));
}

pub proof fn lemma_part_le_transitive(a: Partition, b: Partition, c: Partition)
    requires
        part_le(a, b),
        part_le(b, c),
    ensures
        part_le(a, c),
{
    if a.nodes@.len() == b.nodes@.len() && b.nodes@.len() == c.nodes@.len() {
        lemma_lex_le_transitive(
            part_display(a.name),
            part_display(b.name),
            part_display(c.name),
        );
    }
}

/// Compares two nodes by partition display, then name.
fn node_le_exec(a: &Node, b: &Node) -> (r: bool)
    ensures
        r == node_le(*a, *b),
{
    let da = a.partition.to_text();
    let db = b.partition.to_text();
    if str_eq(da.as_str(), db.as_str()) {
        str_le(a.name.as_str(), b.name.as_str())
    } else {
        str_le(da.as_str(), db.as_str())
    }
}

/// Compares two partitions by descending size, then displayed name.
fn part_le_exec(a: &Partition, b: &Partition) -> (r: bool)
    ensures
        r == part_le(*a, *b),
{
    if a.nodes.len() != b.nodes.len() {
        a.nodes.len() > b.nodes.len()
    } else {
        let da = a.name.to_text();
        let db = b.name.to_text();
        str_le(da.as_str(), db.as_str())
    }
}

// ---------------------------------------------------------------------------
// Sorting nodes
// ---------------------------------------------------------------------------

/// Inserts a node behind every node that sorts at or before it.
fn insert_node_sorted(out: &mut Vec<Node>, node: Node)
    requires
        nodes_sorted(old(out)@),
    ensures
        nodes_sorted(final(out)@),
        final(out)@.to_multiset() == old(out)@.to_multiset().insert(node),
        final(out)@.len() == old(out)@.len() + 1,
{
    let mut pos: usize = 0;
    while pos < out.len() && node_le_exec(&out[pos], &node)
        invariant
            pos <= out@.len(),
            *out == *old(out),
            forall|k: int| 0 <= k < pos ==> node_le(#[trigger] out@[k], node),
        decreases out@.len() - pos,
    {
        pos += 1;
    }
    proof {
        if pos < out@.len() {
            lemma_node_le_total(out@[pos as int], node);
        }
        assert forall|l: int| pos <= l < out@.len() implies node_le(
            node,
            #[trigger] out@[l],
        ) by {
            lemma_node_le_total(out@[pos as int], node);
            if l > pos {
                lemma_node_le_transitive(node, out@[pos as int], out@[l]);
            }
        }
    }
    let ghost pre = out@;
    out.insert(pos, node);
    proof {
        vstd::seq_lib::to_multiset_insert(pre, pos as int, node);
        pre.insert_ensures(pos as int, node);
        assert forall|k: int, l: int|
            #![trigger out@[k], out@[l]]
            0 <= k < l < out@.len() implies node_le(out@[k], out@[l]) by {
            if k < pos && l < pos {
            } else if k < pos && l == pos {
            } else if k == pos && l > pos {
            } else if k < pos && l > pos {
                lemma_node_le_transitive(out@[k], node, out@[l]);
            }
        }
    }
}

/// Sorts the node records by partition display and name.
fn sort_nodes(nodes: Vec<Node>) -> (r: Vec<Node>)
    ensures
        nodes_sorted(r@),
        r@.to_multiset() == nodes@.to_multiset(),
        r@.len() == nodes@.len(),
{
    let mut rest = nodes;
    let mut out: Vec<Node> = Vec::new();
    proof {
        assert(out@.to_multiset() =~= Multiset::<Node>::empty());
    }
    while rest.len() > 0
        invariant
            nodes_sorted(out@),
            out@.to_multiset().add(rest@.to_multiset()) == nodes@.to_multiset(),
            out@.len() + rest@.len() == nodes@.len(),
        decreases rest@.len(),
    {
        let ghost pre = rest@;
        let n = rest.remove(0);
        proof {
            assert(pre.remove(0).to_multiset() == pre.to_multiset().remove(pre[0]));
            assert(out@.to_multiset().insert(n).add(pre.remove(0).to_multiset())
                =~= out@.to_multiset().add(pre.to_multiset()));
        }
        insert_node_sorted(&mut out, n);
    }
    proof {
        assert(rest@.to_multiset() =~= Multiset::<Node>::empty());
        assert(out@.to_multiset().add(rest@.to_multiset()) =~= out@.to_multiset());
    }
    out
}

// ---------------------------------------------------------------------------
// Grouping
// ---------------------------------------------------------------------------

/// The concatenation of every partition's node list.
pub open spec fn all_nodes(ps: Seq<Partition>) -> Seq<Node>
    decreases ps.len(),
{
    if ps.len() == 0 {
        Seq::empty()
    } else {
        ps[0].nodes@ + all_nodes(ps.drop_first())
    }
}

pub proof fn lemma_all_nodes_last(ps: Seq<Partition>)
    requires
        ps.len() > 0,
    ensures
        all_nodes(ps) == all_nodes(ps.drop_last()) + ps.last().nodes@,
    decreases ps.len(),
{
    if ps.len() == 1 {
        assert(ps.drop_last() =~= Seq::<Partition>::empty());
        assert(ps.drop_first() =~= Seq::<Partition>::empty());
        assert(all_nodes(ps) =~= all_nodes(ps.drop_last()) + ps.last().nodes@);
    } else {
        lemma_all_nodes_last(ps.drop_first());
        assert(ps.drop_first().drop_last() =~= ps.drop_last().drop_first());
        assert(ps.drop_first().last() == ps.last());
        assert(all_nodes(ps) =~= all_nodes(ps.drop_last()) + ps.last().nodes@);
    }
}

/// Inserting a partition adds exactly its nodes to the flattened multiset.
pub proof fn lemma_all_nodes_insert(ps: Seq<Partition>, pos: int, p: Partition)
    requires
        0 <= pos <= ps.len(),
    ensures
        all_nodes(ps.insert(pos, p)).to_multiset() == all_nodes(ps).to_multiset().add(
            p.nodes@.to_multiset(),
        ),
    decreases pos,
{
    if pos == 0 {
        assert(ps.insert(0, p)[0] == p);
        assert(ps.insert(0, p).drop_first() =~= ps);
        assert(all_nodes(ps.insert(0, p)) == p.nodes@ + all_nodes(ps));
        vstd::seq_lib::lemma_multiset_commutative(p.nodes@, all_nodes(ps));
        assert(all_nodes(ps.insert(0, p)).to_multiset() =~= all_nodes(ps).to_multiset().add(
            p.nodes@.to_multiset(),
        ));
    } else {
        lemma_all_nodes_insert(ps.drop_first(), pos - 1, p);
        assert(ps.insert(pos, p)[0] == ps[0]);
        assert(ps.insert(pos, p).drop_first() =~= ps.drop_first().insert(pos - 1, p));
        assert(all_nodes(ps.insert(pos, p)) == ps[0].nodes@ + all_nodes(
            ps.drop_first().insert(pos - 1, p),
        ));
        vstd::seq_lib::lemma_multiset_commutative(
            ps[0].nodes@,
            all_nodes(ps.drop_first().insert(pos - 1, p)),
        );
        vstd::seq_lib::lemma_multiset_commutative(ps[0].nodes@, all_nodes(ps.drop_first()));
        assert(all_nodes(ps) == ps[0].nodes@ + all_nodes(ps.drop_first()));
        assert(all_nodes(ps.insert(pos, p)).to_multiset() =~= all_nodes(ps).to_multiset().add(
            p.nodes@.to_multiset(),
        ));
    }
}

/// Every node of every partition appears in the flattened list.
pub proof fn lemma_all_nodes_contains(ps: Seq<Partition>, i: int, k: int)
    requires
        0 <= i < ps.len(),
        0 <= k < ps[i].nodes@.len(),
    ensures
        all_nodes(ps).contains(ps[i].nodes@[k]),
    decreases i,
{
    if i == 0 {
        assert(all_nodes(ps)[k] == ps[0].nodes@[k]);
    } else {
        lemma_all_nodes_contains(ps.drop_first(), i - 1, k);
        let x = ps[i].nodes@[k];
        let j = choose|j: int|
            0 <= j < all_nodes(ps.drop_first()).len() && all_nodes(ps.drop_first())[j] == x;
        assert(all_nodes(ps)[ps[0].nodes@.len() + j] == x);
    }
}

/// A partition as the grouper builds it: at least one node, no jobs yet,
/// named after its first node, all labels equal, nodes in order.
pub open spec fn group_coherent(p: Partition) -> bool {
    &&& p.nodes@.len() > 0
    &&& p.jobs@.len() == 0
    &&& p.name.label@ == p.nodes@[0].partition.label@
    &&& p.name.default == p.nodes@[0].partition.default
    &&& (forall|k: int|
        0 <= k < p.nodes@.len() ==> (#[trigger] p.nodes@[k]).partition.label@
            == p.name.label@)
    &&& nodes_sorted(p.nodes@)
}

/// Groups a sorted node list into partitions: consecutive nodes with the
/// same label join one partition.
fn group_nodes(sorted: Vec<Node>) -> (r: Vec<Partition>)
    requires
        nodes_sorted(sorted@),
    ensures
        all_nodes(r@) == sorted@,
        forall|i: int| 0 <= i < r@.len() ==> group_coherent(#[trigger] r@[i]),
{
    let mut rest = sorted;
    let mut groups: Vec<Partition> = Vec::new();
    let ghost whole = rest@;
    let total = rest.len();
    let mut i: usize = 0;
    proof {
        assert(whole.len() == total);
        assert(all_nodes(groups@) =~= whole.take(0));
    }
    while rest.len() > 0
        invariant
            nodes_sorted(whole),
            whole.len() <= usize::MAX,
            i + rest@.len() == whole.len(),
            i == 0 ==> groups@.len() == 0,
            rest@ == whole.skip(i as int),
            all_nodes(groups@) == whole.take(i as int),
            forall|g: int| 0 <= g < groups@.len() ==> group_coherent(#[trigger] groups@[g]),
            i > 0 ==> groups@.len() > 0 && groups@.last().nodes@.last() == whole[i - 1],
        decreases rest@.len(),
    {
        let ghost pre = rest@;
        let node = rest.remove(0);
        proof {
            assert(node == whole[i as int]);
            assert(pre.remove(0) =~= whole.skip(i + 1));
        }
        let ng = groups.len();
        let join_last: bool = if ng > 0 {
            groups[ng - 1].name.same(&node.partition)
        } else {
            false
        };
        if join_last {
            let ghost pre_groups = groups@;
            let mut g = match groups.pop() {
                Some(g) => g,
                None => {
                    proof {
                        assert(false);
                    }
                    unreached()
                },
            };
            let ghost pre_nodes = g.nodes@;
            proof {
                assert(g == pre_groups.last());
                lemma_all_nodes_last(pre_groups);
                assert forall|k: int|
                    0 <= k < pre_nodes.len() implies node_le(#[trigger] pre_nodes[k], node) by {
                    assert(pre_nodes.last() == whole[i - 1]);
                    assert(node_le(whole[i - 1], whole[i as int]));
                    if k < pre_nodes.len() - 1 {
                        lemma_node_le_transitive(pre_nodes[k], pre_nodes.last(), node);
                    }
                }
            }
            g.nodes.push(node);
            let ghost g2 = g;
            groups.push(g);
            proof {
                assert(groups@.drop_last() =~= pre_groups.drop_last());
                lemma_all_nodes_last(groups@);
                assert(all_nodes(pre_groups.drop_last()) + pre_nodes + seq![whole[i as int]]
                    =~= whole.take(i + 1));
                assert(all_nodes(groups@) =~= whole.take(i + 1));
                assert(g2.nodes@ == pre_nodes.push(whole[i as int]));
                assert(group_coherent(g2));
            }
        } else {
            let name = node.partition.clone();
            let mut nodes_vec: Vec<Node> = Vec::new();
            nodes_vec.push(node);
            let p = Partition { name, jobs: Vec::new(), nodes: nodes_vec };
            let ghost pre_groups = groups@;
            groups.push(p);
            proof {
                assert(groups@.drop_last() =~= pre_groups);
                lemma_all_nodes_last(groups@);
                assert(all_nodes(pre_groups) + seq![whole[i as int]] =~= whole.take(i + 1));
                assert(all_nodes(groups@) =~= whole.take(i + 1));
                assert(group_coherent(p));
            }
        }
        i += 1;
    }
    proof {
        assert(whole.take(whole.len() as int) =~= whole);
    }
    groups
}

// ---------------------------------------------------------------------------
// Ordering partitions
// ---------------------------------------------------------------------------

/// Inserts a partition behind every partition that sorts at or before it.
fn insert_partition_sorted(out: &mut Vec<Partition>, p: Partition)
    requires
        parts_sorted(old(out)@),
    ensures
        parts_sorted(final(out)@),
        exists|pos: int|
            0 <= pos <= old(out)@.len() && final(out)@ == old(out)@.insert(pos, p),
{
    let mut pos: usize = 0;
    while pos < out.len() && part_le_exec(&out[pos], &p)
        invariant
            pos <= out@.len(),
            *out == *old(out),
            forall|k: int| 0 <= k < pos ==> part_le(#[trigger] out@[k], p),
        decreases out@.len() - pos,
    {
        pos += 1;
    }
    proof {
        assert forall|l: int| pos <= l < out@.len() implies part_le(
            p,
            #[trigger] out@[l],
        ) by {
            lemma_part_le_total(out@[pos as int], p);
            if l > pos {
                lemma_part_le_transitive(p, out@[pos as int], out@[l]);
            }
        }
    }
    let ghost pre = out@;
    out.insert(pos, p);
    proof {
        pre.insert_ensures(pos as int, p);
        assert forall|k: int, l: int|
            #![trigger out@[k], out@[l]]
            0 <= k < l < out@.len() implies part_le(out@[k], out@[l]) by {
            if k < pos && l > pos {
                lemma_part_le_transitive(out@[k], p, out@[l]);
            }
        }
        assert(out@ == pre.insert(pos as int, p));
    }
}

impl Slurm {
    /// Builds the partition list from the flat node records: nodes are
    /// sorted by partition and name, grouped by partition label, and the
    /// partitions ordered by descending node count (ties by name).  Every
    /// input node lands in exactly one partition, which the node multiset
    /// equality states; job lists start empty.
    #[verifier::rlimit(60)]
    pub fn collect_partitions(nodes: Vec<Node>) -> (r: Vec<Partition>)
        ensures
            all_nodes(r@).to_multiset() == nodes@.to_multiset(),
            forall|i: int| 0 <= i < r@.len() ==> group_coherent(#[trigger] r@[i]),
            parts_sorted(r@),
            forall|i: int, k: int|
                #![trigger r@[i].nodes@[k]]
                0 <= i < r@.len() && 0 <= k < r@[i].nodes@.len() ==> nodes@.contains(
                    r@[i].nodes@[k],
                ),
    {
        let sorted = sort_nodes(nodes);
        let ghost sorted_view = sorted@;
        let ghost input_ms = nodes@.to_multiset();
        let groups = group_nodes(sorted);
        let mut rest = groups;
        let mut out: Vec<Partition> = Vec::new();
        let ghost gw = rest@;
        let total = rest.len();
        let mut i: usize = 0;
        proof {
            assert(gw.len() == total);
            assert(all_nodes(out@).to_multiset() =~= all_nodes(gw.take(0)).to_multiset());
        }
        while rest.len() > 0
            invariant
                gw.len() <= usize::MAX,
                i + rest@.len() == gw.len(),
                rest@ == gw.skip(i as int),
                parts_sorted(out@),
                all_nodes(out@).to_multiset() == all_nodes(gw.take(i as int)).to_multiset(),
                forall|g: int| 0 <= g < gw.len() ==> group_coherent(#[trigger] gw[g]),
                forall|g: int| 0 <= g < out@.len() ==> group_coherent(#[trigger] out@[g]),
            decreases rest@.len(),
        {
            let ghost pre = rest@;
            let p = rest.remove(0);
            proof {
                assert(p == gw[i as int]);
                assert(pre.remove(0) =~= gw.skip(i + 1));
            }
            let ghost pre_out = out@;
            insert_partition_sorted(&mut out, p);
            proof {
                let pos = choose|pos: int|
                    0 <= pos <= pre_out.len() && out@ == pre_out.insert(pos, p);
                lemma_all_nodes_insert(pre_out, pos, p);
                assert(gw.take(i + 1).drop_last() =~= gw.take(i as int));
                assert(gw.take(i + 1).last() == gw[i as int]);
                lemma_all_nodes_last(gw.take(i + 1));
                vstd::seq_lib::lemma_multiset_commutative(
                    all_nodes(gw.take(i as int)),
                    gw[i as int].nodes@,
                );
                assert(all_nodes(out@).to_multiset() =~= all_nodes(
                    gw.take(i + 1),
                ).to_multiset());
                pre_out.insert_ensures(pos, p);
                assert forall|g: int| 0 <= g < out@.len() implies group_coherent(
                    #[trigger] out@[g],
                ) by {
                    if g < pos {
                        assert(out@[g] == pre_out[g]);
                    } else if g == pos {
                        assert(out@[g] == p);
                    } else {
                        assert(out@[g] == pre_out[g - 1]);
                    }
                }
            }
            i += 1;
        }
        proof {
            assert(gw.take(gw.len() as int) =~= gw);
            assert(all_nodes(out@).to_multiset() == sorted_view.to_multiset());
            assert forall|i2: int, k: int|
                #![trigger out@[i2].nodes@[k]]
                0 <= i2 < out@.len() && 0 <= k < out@[i2].nodes@.len() implies nodes@.contains(
                out@[i2].nodes@[k],
            ) by {
                lemma_all_nodes_contains(out@, i2, k);
                let x = out@[i2].nodes@[k];
                assert(all_nodes(out@).to_multiset().count(x) > 0);
            }
        }
        out
    }
}

// ---------------------------------------------------------------------------
// Attaching jobs
// ---------------------------------------------------------------------------

/// The job records as mathematical values.
pub open spec fn jviews(js: Seq<Job>) -> Seq<crate::jobs::JobView> {
    js.map_values(|j: Job| j@)
}

/// A job belongs to partition `i` when that is the first partition whose
/// label matches the job's partition.
pub open spec fn goes_to(jv: crate::jobs::JobView, ps: Seq<Partition>, i: int) -> bool {
    &&& jv.partition_label == ps[i].name.label@
    &&& (forall|k: int| 0 <= k < i ==> (#[trigger] ps[k]).name.label@ != jv.partition_label)
}

/// The jobs visible to partition `i`.
pub open spec fn partition_job_filter(ps: Seq<Partition>, i: int) -> spec_fn(
    crate::jobs::JobView,
) -> bool {
    |jv: crate::jobs::JobView| goes_to(jv, ps, i)
}

/// The jobs attached to the node called `name` of partition `i`: those
/// visible to the partition that run somewhere and name this node.
pub open spec fn node_job_filter(ps: Seq<Partition>, i: int, name: Seq<char>) -> spec_fn(
    crate::jobs::JobView,
) -> bool {
    |jv: crate::jobs::JobView|
        goes_to(jv, ps, i) && jv.nodelist.len() > 0 && jv.nodelist.contains(name)
}

/// Two nodes that agree on everything except their attached job list.
pub open spec fn same_but_jobs(a: Node, b: Node) -> bool {
    &&& a.name == b.name
    &&& a.partition == b.partition
    &&& a.state == b.state
    &&& a.cpus == b.cpus
    &&& a.cpu_load == b.cpu_load
    &&& a.cpu_state == b.cpu_state
    &&& a.mem == b.mem
    &&& a.mem_alloc == b.mem_alloc
    &&& a.mem_free == b.mem_free
    &&& a.gpus == b.gpus
    &&& a.gpus_used == b.gpus_used
    &&& a.gres == b.gres
    &&& a.gres_used == b.gres_used
}

/// Whether an already-placed partition carries this job's label.
fn earlier_match(placed: &Vec<Partition>, job: &Job) -> (r: bool)
    ensures
        r == (exists|k: int|
            0 <= k < placed@.len() && (#[trigger] placed@[k]).name.label@
                == job.partition.label@),
{
    let mut k: usize = 0;
    let mut found = false;
    while k < placed.len()
        invariant
            k <= placed@.len(),
            found == (exists|m: int|
                0 <= m < k && (#[trigger] placed@[m]).name.label@ == job.partition.label@),
        decreases placed@.len() - k,
    {
        if str_eq(placed[k].name.label.as_str(), job.partition.label.as_str()) {
            found = true;
            assert(placed@[k as int].name.label@ == job.partition.label@);
        }
        k += 1;
    }
    found
}

/// Whether the job's node list names this node.
fn nodelist_has(job: &Job, name: &String) -> (r: bool)
    ensures
        r == job@.nodelist.contains(name@),
{
    let mut k: usize = 0;
    let mut found = false;
    while k < job.nodelist.len()
        invariant
            k <= job.nodelist@.len(),
            found == (exists|m: int|
                0 <= m < k && (#[trigger] job.nodelist@[m])@ == name@),
        decreases job.nodelist@.len() - k,
    {
        if str_eq(job.nodelist[k].as_str(), name.as_str()) {
            found = true;
            assert(job.nodelist@[k as int]@ == name@);
        }
        k += 1;
    }
    proof {
        if found {
            let m = choose|m: int| 0 <= m < k && (#[trigger] job.nodelist@[m])@ == name@;
            assert(job@.nodelist[m] == name@);
        }
        if job@.nodelist.contains(name@) {
            let m = choose|m: int|
                0 <= m < job@.nodelist.len() && job@.nodelist[m] == name@;
            assert(job.nodelist@[m]@ == name@);
        }
    }
    found
}

impl Slurm {
    /// Attaches each job to the first partition whose label matches its
    /// own, and further to every member node its node list names; a job
    /// whose partition matches nothing is dropped.  Earlier list entries
    /// are untouched except for the appended jobs.
    #[verifier::rlimit(80)]
    pub fn collect_jobs(jobs: Vec<Job>, partitions: Vec<Partition>) -> (r: Vec<Partition>)
        ensures
            r@.len() == partitions@.len(),
            forall|i: int|
                0 <= i < r@.len() ==> (#[trigger] r@[i]).name == partitions@[i].name,
            forall|i: int|
                0 <= i < r@.len() ==> (#[trigger] r@[i]).jobs@.map_values(|j: Job| j@)
                    == partitions@[i].jobs@.map_values(|j: Job| j@) + jviews(jobs@).filter(
                    partition_job_filter(partitions@, i),
                ),
            forall|i: int|
                0 <= i < r@.len() ==> (#[trigger] r@[i]).nodes@.len()
                    == partitions@[i].nodes@.len(),
            forall|i: int, k: int|
                #![trigger r@[i].nodes@[k]]
                0 <= i < r@.len() && 0 <= k < r@[i].nodes@.len() ==> same_but_jobs(
                    r@[i].nodes@[k],
                    partitions@[i].nodes@[k],
                ) && r@[i].nodes@[k].jobs@.map_values(|j: Job| j@)
                    == partitions@[i].nodes@[k].jobs@.map_values(|j: Job| j@) + jviews(
                    jobs@,
                ).filter(node_job_filter(partitions@, i, partitions@[i].nodes@[k].name@)),
    {
        let ghost orig = partitions@;
        let mut rest = partitions;
        let mut result: Vec<Partition> = Vec::new();
        let total = rest.len();
        let mut i: usize = 0;
        proof {
            assert(orig.len() == total);
        }
        while rest.len() > 0
            invariant
                orig.len() <= usize::MAX,
                i + rest@.len() == orig.len(),
                rest@ == orig.skip(i as int),
                result@.len() == i,
                forall|m: int|
                    0 <= m < i ==> (#[trigger] result@[m]).name == orig[m].name,
                forall|m: int|
                    0 <= m < i ==> (#[trigger] result@[m]).jobs@.map_values(|j: Job| j@)
                        == orig[m].jobs@.map_values(|j: Job| j@) + jviews(jobs@).filter(
                        partition_job_filter(orig, m),
                    ),
                forall|m: int|
                    0 <= m < i ==> (#[trigger] result@[m]).nodes@.len()
                        == orig[m].nodes@.len(),
                forall|m: int, k: int|
                    #![trigger result@[m].nodes@[k]]
                    0 <= m < i && 0 <= k < result@[m].nodes@.len() ==> same_but_jobs(
                        result@[m].nodes@[k],
                        orig[m].nodes@[k],
                    ) && result@[m].nodes@[k].jobs@.map_values(|j: Job| j@)
                        == orig[m].nodes@[k].jobs@.map_values(|j: Job| j@) + jviews(
                        jobs@,
                    ).filter(node_job_filter(orig, m, orig[m].nodes@[k].name@)),
            decreases rest@.len(),
        {
            let ghost pre = rest@;
            let p = rest.remove(0);
            proof {
                assert(p == orig[i as int]);
                assert(pre.remove(0) =~= orig.skip(i + 1));
            }
            let Partition { name, jobs: base_jobs, nodes: base_nodes } = p;
            let ghost pf = partition_job_filter(orig, i as int);
            let mut pjobs = base_jobs;
            let mut jx: usize = 0;
            proof {
                jviews(jobs@.take(0)).filter_lemma(pf);
                assert(jobs@.take(0) =~= Seq::<Job>::empty());
                assert(jviews(jobs@.take(0)) =~= Seq::<crate::jobs::JobView>::empty());
                assert(jviews(jobs@.take(0)).filter(pf) =~= Seq::<
                    crate::jobs::JobView,
                >::empty());
                assert(pjobs@.map_values(|j: Job| j@) =~= orig[i as int].jobs@.map_values(
                    |j: Job| j@,
                ) + jviews(jobs@.take(0)).filter(pf));
            }
            while jx < jobs.len()
                invariant
                    jx <= jobs@.len(),
                    i < orig.len(),
                    result@.len() == i,
                    pf == partition_job_filter(orig, i as int),
                    name == orig[i as int].name,
                    forall|m: int|
                        0 <= m < i ==> (#[trigger] result@[m]).name == orig[m].name,
                    pjobs@.map_values(|j: Job| j@) == orig[i as int].jobs@.map_values(
                        |j: Job| j@,
                    ) + jviews(jobs@.take(jx as int)).filter(pf),
                decreases jobs@.len() - jx,
            {
                let ghost jv = jobs@[jx as int]@;
                proof {
                    assert(jobs@.take(jx + 1) =~= jobs@.take(jx as int).push(
                        jobs@[jx as int],
                    ));
                    assert(jviews(jobs@.take(jx + 1)) =~= jviews(jobs@.take(jx as int)).push(
                        jv,
                    ));
                    jviews(jobs@.take(jx as int)).lemma_filter_push(jv, pf);
                }
                let matched = str_eq(
                    name.label.as_str(),
                    jobs[jx].partition.label.as_str(),
                ) && !earlier_match(&result, &jobs[jx]);
                proof {
                    assert(matched == goes_to(jv, orig, i as int)) by {
                        assert forall|k: int| 0 <= k < i implies ((#[trigger] orig[k]).name.label@
                            == jv.partition_label) == (result@[k].name.label@
                            == jv.partition_label) by {}
                    }
                }
                if matched {
                    let ghost old_pjobs = pjobs@;
                    pjobs.push(jobs[jx].clone());
                    proof {
                        assert(pjobs@.map_values(|j: Job| j@) =~= old_pjobs.map_values(
                            |j: Job| j@,
                        ).push(jv));
                        assert(pjobs@.map_values(|j: Job| j@) =~= orig[i as int].jobs@.map_values(
                            |j: Job| j@,
                        ) + jviews(jobs@.take(jx + 1)).filter(pf));
                    }
                }
                jx += 1;
            }
            proof {
                assert(jobs@.take(jobs@.len() as int) =~= jobs@);
            }
            // attach jobs to the member nodes
            let ghost onodes = orig[i as int].nodes@;
            let mut rest_nodes = base_nodes;
            let mut new_nodes: Vec<Node> = Vec::new();
            let ntotal = rest_nodes.len();
            let mut k: usize = 0;
            proof {
                assert(onodes.len() == ntotal);
            }
            while rest_nodes.len() > 0
                invariant
                    i < orig.len(),
                    result@.len() == i,
                    onodes == orig[i as int].nodes@,
                    onodes.len() <= usize::MAX,
                    k + rest_nodes@.len() == onodes.len(),
                    rest_nodes@ == onodes.skip(k as int),
                    new_nodes@.len() == k,
                    name == orig[i as int].name,
                    forall|m: int|
                        0 <= m < i ==> (#[trigger] result@[m]).name == orig[m].name,
                    forall|m: int|
                        0 <= m < k ==> same_but_jobs(
                            #[trigger] new_nodes@[m],
                            onodes[m],
                        ) && new_nodes@[m].jobs@.map_values(|j: Job| j@)
                            == onodes[m].jobs@.map_values(|j: Job| j@) + jviews(
                            jobs@,
                        ).filter(node_job_filter(orig, i as int, onodes[m].name@)),
                decreases rest_nodes@.len(),
            {
                let ghost pren = rest_nodes@;
                let mut node = rest_nodes.remove(0);
                proof {
                    assert(node == onodes[k as int]);
                    assert(pren.remove(0) =~= onodes.skip(k + 1));
                }
                let ghost node_orig = node;
                let ghost nf = node_job_filter(orig, i as int, node_orig.name@);
                let mut jx2: usize = 0;
                proof {
                    jviews(jobs@.take(0)).filter_lemma(nf);
                    assert(jobs@.take(0) =~= Seq::<Job>::empty());
                    assert(jviews(jobs@.take(0)) =~= Seq::<crate::jobs::JobView>::empty());
                    assert(jviews(jobs@.take(0)).filter(nf) =~= Seq::<
                        crate::jobs::JobView,
                    >::empty());
                    assert(node.jobs@.map_values(|j: Job| j@) =~= node_orig.jobs@.map_values(
                        |j: Job| j@,
                    ) + jviews(jobs@.take(0)).filter(nf));
                }
                while jx2 < jobs.len()
                    invariant
                        jx2 <= jobs@.len(),
                        i < orig.len(),
                        result@.len() == i,
                        nf == node_job_filter(orig, i as int, node_orig.name@),
                        name == orig[i as int].name,
                        same_but_jobs(node, node_orig),
                        forall|m: int|
                            0 <= m < i ==> (#[trigger] result@[m]).name == orig[m].name,
                        node.jobs@.map_values(|j: Job| j@) == node_orig.jobs@.map_values(
                            |j: Job| j@,
                        ) + jviews(jobs@.take(jx2 as int)).filter(nf),
                    decreases jobs@.len() - jx2,
                {
                    let ghost jv = jobs@[jx2 as int]@;
                    proof {
                        assert(jobs@.take(jx2 + 1) =~= jobs@.take(jx2 as int).push(
                            jobs@[jx2 as int],
                        ));
                        assert(jviews(jobs@.take(jx2 + 1)) =~= jviews(
                            jobs@.take(jx2 as int),
                        ).push(jv));
                        jviews(jobs@.take(jx2 as int)).lemma_filter_push(jv, nf);
                    }
                    let matched = str_eq(
                        name.label.as_str(),
                        jobs[jx2].partition.label.as_str(),
                    ) && !earlier_match(&result, &jobs[jx2]) && jobs[jx2].nodelist.len() > 0
                        && nodelist_has(&jobs[jx2], &node.name);
                    proof {
                        assert(jv.nodelist.len() == jobs@[jx2 as int].nodelist@.len());
                        assert(matched == nf(jv)) by {
                            assert forall|k2: int|
                                0 <= k2 < i implies ((#[trigger] orig[k2]).name.label@
                                == jv.partition_label) == (result@[k2].name.label@
                                == jv.partition_label) by {}
                        }
                    }
                    if matched {
                        let ghost old_njobs = node.jobs@;
                        let cloned_job = jobs[jx2].clone();
                        node.jobs.push(cloned_job);
                        proof {
                            assert(node.jobs@.map_values(|j: Job| j@) =~= old_njobs.map_values(
                                |j: Job| j@,
                            ).push(jv));
                            assert(node.jobs@.map_values(|j: Job| j@)
                                =~= node_orig.jobs@.map_values(|j: Job| j@) + jviews(
                                jobs@.take(jx2 + 1),
                            ).filter(nf));
                        }
                    }
                    jx2 += 1;
                }
                proof {
                    assert(jobs@.take(jobs@.len() as int) =~= jobs@);
                }
                new_nodes.push(node);
                k += 1;
            }
            proof {
                assert(onodes.skip(onodes.len() as int) =~= Seq::<Node>::empty());
            }
            result.push(Partition { name, jobs: pjobs, nodes: new_nodes });
            i += 1;
        }
        proof {
            assert(orig.skip(orig.len() as int) =~= Seq::<Partition>::empty());
        }
        result
    }
}

} // verus!
