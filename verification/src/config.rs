//! Scheduler configuration: the default memory allocations that drive the
//! CPU-blocking model, scanned out of the configuration tool's key=value
//! output.  Running the tool happens outside the library; the scanners here
//! take its text.

use vstd::prelude::*;

use crate::text::{
    find_char, first_index_of, parse_u64, spec_split, spec_trim, split_str, str_eq, trim_str,
    uint_ok, uint_value,
};

verus! {

/// Default memory allocation, by what it is granted per.
#[derive(Clone, Copy, Debug, PartialEq, Eq, Structural, Default)]
pub enum DefaultMem {
    /// No default allocation configured.
    #[default]
    Unlimited,
    /// Megabytes per allocated CPU.
    PerCPU(u64),
    /// Megabytes per allocated GPU.
    PerGPU(u64),
    /// Megabytes per allocated node.
    PerNode(u64),
}

/// Per-partition configuration override.
#[derive(Clone, Copy, Debug, PartialEq, Eq, Structural, Default)]
pub struct PartitionConfig {
    pub default_mem: DefaultMem,
}

/// Global cluster configuration.
#[derive(Clone, Debug, PartialEq, Eq, Default)]
pub struct SlurmConfig {
    pub default_mem: DefaultMem,
    /// Per-partition overrides, keyed by partition name, each name once.
    pub partitions: Vec<(String, PartitionConfig)>,
}

/// What a numeric limit decodes to: `UNLIMITED` and anything non-numeric
/// are silently ignored.
pub open spec fn spec_limit(v: Seq<char>) -> Option<u64> {
    let t = spec_trim(v);
    if uint_ok(t) && uint_value(t) <= u64::MAX {
        Some(uint_value(t) as u64)
    } else {
        None
    }
}

/// The three keys that configure a default memory allocation.
pub open spec fn mem_key(k: Seq<char>) -> bool {
    k == "DefMemPerCPU"@ || k == "DefMemPerGPU"@ || k == "DefMemPerNode"@
}

/// The allocation a key and a parsed limit configure.  The per-node key
/// behaves like the per-CPU key, matching the scheduler's accounting.
pub open spec fn spec_default_mem(k: Seq<char>, limit: u64) -> DefaultMem {
    if k == "DefMemPerGPU"@ {
        DefaultMem::PerGPU(limit)
    } else {
        DefaultMem::PerCPU(limit)
    }
}

impl SlurmConfig {
    /// Parses a numeric limit, ignoring `UNLIMITED` and malformed values.
    pub fn parse_limits(value: &str) -> (r: Option<u64>)
        ensures
            r == spec_limit(value@),
    {
        let t = trim_str(value);
        parse_u64(t)
    }

    /// Decodes one default-memory option.
    pub fn parse_default_mem(key: &str, value: &str) -> (r: Option<DefaultMem>)
        requires
            mem_key(spec_trim(key@)),
        ensures
            r == (match spec_limit(value@) {
                Some(limit) => Some(spec_default_mem(spec_trim(key@), limit)),
                None => None,
            }),
    {
        let limit = match Self::parse_limits(value) {
            Some(v) => v,
            None => {
                return None;
            },
        };
        let k = trim_str(key);
        if str_eq(k, "DefMemPerGPU") {
            Some(DefaultMem::PerGPU(limit))
        } else {
            Some(DefaultMem::PerCPU(limit))
        }
    }

    /// Scans the configuration listing: the last decodable default-memory
    /// line wins.
    pub fn parse_show_config(text: &str) -> (r: SlurmConfig)
        ensures
            r.default_mem == spec_config_scan(spec_split(text@, '\n'), DefaultMem::Unlimited),
            r.partitions@.len() == 0,
    {
        let lines = split_str(text, '\n');
        let ghost all = spec_split(text@, '\n');
        let mut current = DefaultMem::Unlimited;
        let mut i: usize = 0;
        proof {
            assert(all.skip(0) =~= all);
        }
        while i < lines.len()
            invariant
                i <= lines@.len(),
                all == spec_split(text@, '\n'),
                all == lines@.map_values(|t: String| t@),
                spec_config_scan(all, DefaultMem::Unlimited) == spec_config_scan(
                    all.skip(i as int),
                    current,
                ),
            decreases lines@.len() - i,
        {
            proof {
                assert(all.skip(i as int)[0] == all[i as int]);
                assert(all[i as int] == lines@[i as int]@);
                assert(all.skip(i as int).drop_first() =~= all.skip(i + 1));
            }
            let line = lines[i].as_str();
            let eq = find_char(line, '=');
            let n = line.unicode_len();
            if eq < n {
                let key = trim_str(line.substring_char(0, eq));
                let value = line.substring_char(eq + 1, n);
                proof {
                    assert(key@ == spec_trim(line@.take(eq as int)));
                    assert(value@ =~= line@.skip(eq + 1));
                    crate::text::lemma_trim_idempotent(line@.take(eq as int));
                }
                if str_eq(key, "DefMemPerCPU") || str_eq(key, "DefMemPerGPU") || str_eq(
                    key,
                    "DefMemPerNode",
                ) {
                    match Self::parse_default_mem(key, value) {
                        Some(limit) => {
                            current = limit;
                        },
                        None => (),
                    }
                }
            }
            i += 1;
        }
        proof {
            assert(all.skip(lines@.len() as int) =~= Seq::<Seq<char>>::empty());
        }
        SlurmConfig { default_mem: current, partitions: Vec::new() }
    }

    /// Scans the per-partition listing, one partition per line; lines
    /// without a partition name carry nothing, and a name seen again
    /// replaces its earlier entry.
    pub fn parse_show_partition(text: &str) -> (r: Vec<(String, PartitionConfig)>)
        ensures
            r@.map_values(|e: (String, PartitionConfig)| (e.0@, e.1)) == spec_partition_scan(
                spec_split(text@, '\n'),
                Seq::empty(),
            ),
    {
        let lines = split_str(text, '\n');
        let ghost all = spec_split(text@, '\n');
        let mut acc: Vec<(String, PartitionConfig)> = Vec::new();
        let mut i: usize = 0;
        proof {
            assert(all.skip(0) =~= all);
            assert(acc@.map_values(|e: (String, PartitionConfig)| (e.0@, e.1)) =~= Seq::<
                (Seq<char>, PartitionConfig),
            >::empty());
        }
        while i < lines.len()
            invariant
                i <= lines@.len(),
                all == spec_split(text@, '\n'),
                all == lines@.map_values(|t: String| t@),
                spec_partition_scan(all, Seq::empty()) == spec_partition_scan(
                    all.skip(i as int),
                    acc@.map_values(|e: (String, PartitionConfig)| (e.0@, e.1)),
                ),
            decreases lines@.len() - i,
        {
            proof {
                assert(all.skip(i as int)[0] == all[i as int]);
                assert(all[i as int] == lines@[i as int]@);
                assert(all.skip(i as int).drop_first() =~= all.skip(i + 1));
            }
            match Self::parse_partition_line(lines[i].as_str()) {
                Some((pname, config)) => {
                    upsert(&mut acc, pname, config);
                },
                None => (),
            }
            i += 1;
        }
        proof {
            assert(all.skip(lines@.len() as int) =~= Seq::<Seq<char>>::empty());
        }
        acc
    }

    /// Decodes one line of the per-partition listing: space-separated
    /// `key=value` tokens, of which `PartitionName` names the partition
    /// (last occurrence wins) and the first decodable default-memory key,
    /// per-CPU before per-GPU before per-node, sets its override.
    pub fn parse_partition_line(line: &str) -> (r: Option<(String, PartitionConfig)>)
        ensures
            r is Some <==> spec_partition_line(line@) is Some,
            r matches Some((name, config)) ==> Some((name@, config)) == spec_partition_line(
                line@,
            ),
    {
        let tokens = split_str(line, ' ');
        let pname = match lookup_token(&tokens, "PartitionName") {
            Some(v) => v,
            None => {
                return None;
            },
        };
        let mut config = PartitionConfig { default_mem: DefaultMem::Unlimited };
        let cpu_limit = match lookup_token(&tokens, "DefMemPerCPU") {
            Some(v) => Self::parse_limits(v.as_str()),
            None => None,
        };
        let gpu_limit = match lookup_token(&tokens, "DefMemPerGPU") {
            Some(v) => Self::parse_limits(v.as_str()),
            None => None,
        };
        let node_limit = match lookup_token(&tokens, "DefMemPerNode") {
            Some(v) => Self::parse_limits(v.as_str()),
            None => None,
        };
        match cpu_limit {
            Some(limit) => {
                config.default_mem = DefaultMem::PerCPU(limit);
            },
            None => {
                match gpu_limit {
                    Some(limit) => {
                        config.default_mem = DefaultMem::PerGPU(limit);
                    },
                    None => {
                        match node_limit {
                            Some(limit) => {
                                config.default_mem = DefaultMem::PerCPU(limit);
                            },
                            None => (),
                        }
                    },
                }
            },
        }
        Some((pname, config))
    }
}

/// The value of the last `key=value` token carrying this key.
pub open spec fn spec_lookup(tokens: Seq<Seq<char>>, key: Seq<char>) -> Option<Seq<char>>
    decreases tokens.len(),
{
    if tokens.len() == 0 {
        None
    } else {
        let t = tokens.last();
        let eq = first_index_of(t, '=');
        if eq < t.len() && spec_trim(t.take(eq)) == key {
            Some(t.skip(eq + 1))
        } else {
            spec_lookup(tokens.drop_last(), key)
        }
    }
}

/// Looks up the last token of the form `key=value` and returns its value.
fn lookup_token(tokens: &Vec<String>, key: &str) -> (r: Option<String>)
    ensures
        r is Some <==> spec_lookup(tokens@.map_values(|t: String| t@), key@) is Some,
        r matches Some(v) ==> Some(v@) == spec_lookup(
            tokens@.map_values(|t: String| t@),
            key@,
        ),
{
    let ghost all = tokens@.map_values(|t: String| t@);
    let mut i: usize = tokens.len();
    proof {
        assert(all.take(tokens@.len() as int) =~= all);
    }
    while i > 0
        invariant
            i <= tokens@.len(),
            all == tokens@.map_values(|t: String| t@),
            spec_lookup(all, key@) == spec_lookup(all.take(i as int), key@),
        decreases i,
    {
        i = i - 1;
        proof {
            assert(all.take(i + 1).last() == all[i as int]);
            assert(all[i as int] == tokens@[i as int]@);
            assert(all.take(i + 1).drop_last() =~= all.take(i as int));
        }
        let t = tokens[i].as_str();
        let eq = find_char(t, '=');
        let n = t.unicode_len();
        if eq < n {
            let k = trim_str(t.substring_char(0, eq));
            proof {
                assert(k@ == spec_trim(t@.take(eq as int)));
            }
            if str_eq(k, key) {
                let v = t.substring_char(eq + 1, n);
                proof {
                    assert(v@ =~= t@.skip(eq + 1));
                }
                return Some(String::from_str(v));
            }
        }
    }
    proof {
        assert(all.take(0) =~= Seq::<Seq<char>>::empty());
    }
    None
}

/// What one line decodes to.
pub open spec fn spec_partition_line(line: Seq<char>) -> Option<(Seq<char>, PartitionConfig)> {
    let tokens = spec_split(line, ' ');
    match spec_lookup(tokens, "PartitionName"@) {
        None => None,
        Some(pname) => {
            let cpu = limit_of(spec_lookup(tokens, "DefMemPerCPU"@));
            let gpu = limit_of(spec_lookup(tokens, "DefMemPerGPU"@));
            let node = limit_of(spec_lookup(tokens, "DefMemPerNode"@));
            let dm = match cpu {
                Some(l) => DefaultMem::PerCPU(l),
                None => match gpu {
                    Some(l) => DefaultMem::PerGPU(l),
                    None => match node {
                        Some(l) => DefaultMem::PerCPU(l),
                        None => DefaultMem::Unlimited,
                    },
                },
            };
            Some((pname, PartitionConfig { default_mem: dm }))
        },
    }
}

pub open spec fn limit_of(v: Option<Seq<char>>) -> Option<u64> {
    match v {
        Some(t) => spec_limit(t),
        None => None,
    }
}

/// Replaces the entry with this name, or appends one.
pub open spec fn spec_upsert(
    acc: Seq<(Seq<char>, PartitionConfig)>,
    name: Seq<char>,
    config: PartitionConfig,
) -> Seq<(Seq<char>, PartitionConfig)> {
    let i = first_key_index(acc, name);
    if i < acc.len() {
        acc.update(i, (name, config))
    } else {
        acc.push((name, config))
    }
}

pub open spec fn first_key_index(acc: Seq<(Seq<char>, PartitionConfig)>, name: Seq<char>) -> int
    decreases acc.len(),
{
    if acc.len() == 0 {
        0
    } else if acc[0].0 == name {
        0
    } else {
        1 + first_key_index(acc.drop_first(), name)
    }
}

proof fn lemma_first_key_index_is(
    acc: Seq<(Seq<char>, PartitionConfig)>,
    name: Seq<char>,
    k: int,
)
    requires
        0 <= k <= acc.len(),
        forall|j: int| 0 <= j < k ==> (#[trigger] acc[j]).0 != name,
        k == acc.len() || acc[k].0 == name,
    ensures
        first_key_index(acc, name) == k,
    decreases k,
{
    if k > 0 {
        lemma_first_key_index_is(acc.drop_first(), name, k - 1);
    }
}

/// Stores a partition's configuration under its name, replacing any
/// earlier entry with the same name.
fn upsert(acc: &mut Vec<(String, PartitionConfig)>, name: String, config: PartitionConfig)
    ensures
        final(acc)@.map_values(|e: (String, PartitionConfig)| (e.0@, e.1)) == spec_upsert(
            old(acc)@.map_values(|e: (String, PartitionConfig)| (e.0@, e.1)),
            name@,
            config,
        ),
{
    let ghost all = old(acc)@.map_values(|e: (String, PartitionConfig)| (e.0@, e.1));
    let mut i: usize = 0;
    while i < acc.len()
        invariant
            i <= acc@.len(),
            *acc == *old(acc),
            all == old(acc)@.map_values(|e: (String, PartitionConfig)| (e.0@, e.1)),
            forall|j: int| 0 <= j < i ==> (#[trigger] all[j]).0 != name@,
        decreases acc@.len() - i,
    {
        proof {
            assert(all[i as int] == (acc@[i as int].0@, acc@[i as int].1));
        }
        if str_eq(acc[i].0.as_str(), name.as_str()) {
            proof {
                lemma_first_key_index_is(all, name@, i as int);
            }
            acc.set(i, (name, config));
            proof {
                assert(acc@.map_values(|e: (String, PartitionConfig)| (e.0@, e.1))
                    =~= all.update(i as int, (name@, config)));
            }
            return ;
        }
        i += 1;
    }
    proof {
        lemma_first_key_index_is(all, name@, all.len() as int);
    }
    acc.push((name, config));
    proof {
        assert(acc@.map_values(|e: (String, PartitionConfig)| (e.0@, e.1)) =~= all.push(
            (name@, config),
        ));
    }
}

/// Folds the configuration lines over the current default allocation.
pub open spec fn spec_config_scan(lines: Seq<Seq<char>>, current: DefaultMem) -> DefaultMem
    decreases lines.len(),
{
    if lines.len() == 0 {
        current
    } else {
        let l = lines[0];
        let eq = first_index_of(l, '=');
        let next = if eq < l.len() && mem_key(spec_trim(l.take(eq))) {
            match spec_limit(l.skip(eq + 1)) {
                Some(limit) => spec_default_mem(spec_trim(l.take(eq)), limit),
                None => current,
            }
        } else {
            current
        };
        spec_config_scan(lines.drop_first(), next)
    }
}

/// Folds the per-partition lines over the accumulated entries.
pub open spec fn spec_partition_scan(
    lines: Seq<Seq<char>>,
    acc: Seq<(Seq<char>, PartitionConfig)>,
) -> Seq<(Seq<char>, PartitionConfig)>
    decreases lines.len(),
{
    if lines.len() == 0 {
        acc
    } else {
        let next = match spec_partition_line(lines[0]) {
            Some((name, config)) => spec_upsert(acc, name, config),
            None => acc,
        };
        spec_partition_scan(lines.drop_first(), next)
    }
}

} // verus!
