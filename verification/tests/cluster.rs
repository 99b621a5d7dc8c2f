use slurmboard::cluster::Slurm;
use slurmboard::jobs::{Job, JobState, Time};
use slurmboard::nodes::{CPUState, Node, NodeState, PartitionName, SlurmState};
use slurmboard::Utilization;

fn node(name: &str, partition: &str, allocated: u64, total: u64) -> Node {
    Node {
        name: name.to_string(),
        partition: PartitionName::from_str(partition),
        state: NodeState {
            state: SlurmState::Mixed,
            responds: true,
        },
        cpus: total,
        cpu_load: None,
        cpu_state: CPUState {
            allocated,
            idle: total - allocated,
            other: 0,
            total,
        },
        mem: 1000,
        mem_alloc: 0,
        mem_free: None,
        gpus: 0,
        gpus_used: 0,
        gres: String::new(),
        gres_used: String::new(),
        jobs: Vec::new(),
    }
}

fn job(id: u64, partition: &str, nodelist: &[&str]) -> Job {
    Job {
        id,
        nodelist: nodelist.iter().map(|s| s.to_string()).collect(),
        partition: PartitionName::from_str(partition),
        state: JobState::Running,
        user: "alice".to_string(),
        tasks: 1,
        nodes: 0,
        cpus: 1,
        mem: 100,
        gpus: 0,
        time: Time::Invalid,
        name: "work".to_string(),
        gres: String::new(),
        tres: String::new(),
    }
}

#[test]
fn partitions_are_grouped_and_ordered_by_size() {
    let nodes = vec![
        node("n3", "small", 1, 2),
        node("n1", "gpu", 2, 4),
        node("n2", "gpu", 4, 8),
    ];
    let parts = Slurm::collect_partitions(nodes);
    assert_eq!(parts.len(), 2);
    assert_eq!(parts[0].name.label, "gpu");
    assert_eq!(parts[0].nodes.len(), 2);
    assert_eq!(parts[0].nodes[0].name, "n1");
    assert_eq!(parts[0].nodes[1].name, "n2");
    assert_eq!(parts[1].name.label, "small");
    assert_eq!(parts[1].nodes.len(), 1);
    assert!(parts[0].jobs.is_empty());
}

#[test]
fn equal_sizes_order_by_name() {
    let nodes = vec![node("x", "beta", 0, 1), node("y", "alpha", 0, 1)];
    let parts = Slurm::collect_partitions(nodes);
    assert_eq!(parts[0].name.label, "alpha");
    assert_eq!(parts[1].name.label, "beta");
}

#[test]
fn partition_cpu_totals_add_up() {
    // Two nodes in one partition with 4 and 8 CPUs, 2 and 4 allocated:
    // the partition has capacity 12 and allocation 6 (in hundredths).
    let nodes = vec![node("n1", "gpu", 2, 4), node("n2", "gpu", 4, 8)];
    let parts = Slurm::collect_partitions(nodes);
    assert_eq!(parts.len(), 1);
    let u: Utilization = parts[0].cpu_utilization(0);
    assert_eq!(u.capacity, 1200);
    assert_eq!(u.allocated, 600);
    assert!(u.allocated + u.unavailable <= u.capacity);
}

#[test]
fn jobs_attach_to_their_partition_and_nodes() {
    let nodes = vec![node("n1", "gpu", 2, 4), node("n2", "gpu", 4, 8)];
    let parts = Slurm::collect_partitions(nodes);
    let jobs = vec![
        job(1, "gpu", &["n1"]),
        job(2, "gpu", &[]),
        job(3, "elsewhere", &["n9"]),
    ];
    let parts = Slurm::collect_jobs(jobs, parts);
    assert_eq!(parts.len(), 1);
    // both gpu jobs are visible to the partition; the unmatched one is dropped
    assert_eq!(parts[0].jobs.len(), 2);
    assert_eq!(parts[0].jobs[0].id, 1);
    assert_eq!(parts[0].jobs[1].id, 2);
    // only the scheduled job reaches its node
    assert_eq!(parts[0].nodes[0].jobs.len(), 1);
    assert_eq!(parts[0].nodes[0].jobs[0].id, 1);
    assert!(parts[0].nodes[1].jobs.is_empty());
    assert_eq!(parts[0].users(), 1);
}

#[test]
fn job_lands_in_first_matching_partition_only() {
    let nodes = vec![
        node("a1", "alpha", 0, 1),
        node("a2", "alpha", 0, 1),
        node("b1", "beta", 0, 1),
    ];
    let parts = Slurm::collect_partitions(nodes);
    let parts = Slurm::collect_jobs(vec![job(9, "beta", &["b1"])], parts);
    assert_eq!(parts[0].name.label, "alpha");
    assert!(parts[0].jobs.is_empty());
    assert_eq!(parts[1].jobs.len(), 1);
    assert_eq!(parts[1].nodes[0].jobs.len(), 1);
}
