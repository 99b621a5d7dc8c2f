use slurmboard::bar::{BarCell, BarColor};
use slurmboard::jobs::{JobState, Time};
use slurmboard::nodes::{CPUState, Node, NodeState, PartitionName, SlurmState};
use slurmboard::Utilization;

fn bare_node() -> Node {
    Node {
        name: "node01".to_string(),
        partition: PartitionName::from_str("main"),
        state: NodeState {
            state: SlurmState::Mixed,
            responds: true,
        },
        cpus: 4,
        cpu_load: None,
        cpu_state: CPUState {
            allocated: 0,
            idle: 4,
            other: 0,
            total: 4,
        },
        mem: 8000,
        mem_alloc: 0,
        mem_free: None,
        gpus: 0,
        gpus_used: 0,
        gres: String::new(),
        gres_used: String::new(),
        jobs: Vec::new(),
    }
}

#[test]
fn cpu_utilization_blocks_by_memory() {
    // A node with 2 of 4 CPUs allocated, load 1.5, 4000 MB allocated, and
    // 2000 MB configured per CPU: the memory reservation blocks 2 CPUs.
    let mut n = bare_node();
    n.cpu_state = CPUState {
        allocated: 2,
        idle: 2,
        other: 0,
        total: 4,
    };
    n.cpu_load = Some(150);
    n.mem_alloc = 4000;
    let u = n.cpu_utilization(2000);
    assert_eq!(
        u,
        Utilization {
            utilized: 150,
            allocated: 200,
            blocked: 200,
            unavailable: 0,
            capacity: 400,
        }
    );
    assert!(u.allocated + u.unavailable <= u.capacity);
}

#[test]
fn cpu_load_is_capped_at_allocation() {
    let mut n = bare_node();
    n.cpu_state = CPUState {
        allocated: 1,
        idle: 3,
        other: 0,
        total: 4,
    };
    n.cpu_load = Some(350);
    let u = n.cpu_utilization(0);
    assert_eq!(u.utilized, 100);
    assert_eq!(u.blocked, 100);
}

#[test]
fn mem_utilization_branches() {
    // Spare CPUs exist: allocated memory blocks.
    let mut n = bare_node();
    n.cpu_state = CPUState {
        allocated: 2,
        idle: 2,
        other: 0,
        total: 4,
    };
    n.mem_alloc = 3000;
    n.mem_free = Some(6000);
    let u = n.mem_utilization();
    assert_eq!(u.utilized, 200_000); // 8000 - 6000, capped by 3000 -> 2000 MB
    assert_eq!(u.allocated, 300_000);
    assert_eq!(u.blocked, 300_000);
    assert_eq!(u.unavailable, 0);
    assert_eq!(u.capacity, 800_000);

    // No spare CPUs but usable ones: the whole memory blocks.
    let mut n = bare_node();
    n.cpu_state = CPUState {
        allocated: 4,
        idle: 0,
        other: 0,
        total: 4,
    };
    n.mem_alloc = 1000;
    let u = n.mem_utilization();
    assert_eq!(u.blocked, 800_000);
    assert_eq!(u.unavailable, 0);

    // No usable CPUs at all: the unallocated rest is unavailable.
    let mut n = bare_node();
    n.cpu_state = CPUState {
        allocated: 0,
        idle: 0,
        other: 4,
        total: 4,
    };
    n.mem_alloc = 1000;
    let u = n.mem_utilization();
    assert_eq!(u.blocked, 0);
    assert_eq!(u.unavailable, 700_000);
}

#[test]
fn gpu_utilization_blocks_without_cpu_headroom() {
    let mut n = bare_node();
    n.cpu_state = CPUState {
        allocated: 4,
        idle: 0,
        other: 0,
        total: 4,
    };
    n.gpus = 8;
    n.gpus_used = 3;
    let u = n.gpu_utilization(0);
    assert_eq!(u.utilized, 0);
    assert_eq!(u.allocated, 300);
    assert_eq!(u.blocked, 500);
    assert_eq!(u.unavailable, 0);
    assert_eq!(u.capacity, 800);

    let mut n = bare_node();
    n.gpus = 8;
    n.gpus_used = 3;
    let u = n.gpu_utilization(0);
    assert_eq!(u.blocked, 0);
}

#[test]
fn down_node_contributes_only_unavailable_capacity() {
    let mut n = bare_node();
    n.state = NodeState {
        state: SlurmState::Down,
        responds: true,
    };
    n.mem_alloc = 4000;
    n.gpus = 2;
    n.gpus_used = 2;
    let m = n.adjusted_mem_utilization();
    assert_eq!(m.allocated, 0);
    assert_eq!(m.utilized, 0);
    assert_eq!(m.blocked, 0);
    assert_eq!(m.unavailable, m.capacity);
    assert_eq!(m.capacity, 800_000);
    let g = n.adjusted_gpu_utilization(0);
    assert_eq!(g.allocated, 0);
    assert_eq!(g.unavailable, g.capacity);
    assert_eq!(g.capacity, 200);
}

#[test]
fn sum_is_element_wise_and_keeps_the_invariant() {
    let a = Utilization {
        utilized: 1,
        allocated: 2,
        blocked: 3,
        unavailable: 4,
        capacity: 10,
    };
    let b = Utilization {
        utilized: 10,
        allocated: 20,
        blocked: 30,
        unavailable: 40,
        capacity: 100,
    };
    let s = Utilization::sum(&vec![a, b]);
    assert_eq!(s.utilized, 11);
    assert_eq!(s.allocated, 22);
    assert_eq!(s.blocked, 33);
    assert_eq!(s.unavailable, 44);
    assert_eq!(s.capacity, 110);
    assert!(s.allocated + s.unavailable <= s.capacity);
}

#[test]
fn available_may_go_negative() {
    let u = Utilization {
        utilized: 0,
        allocated: 100,
        blocked: 900,
        unavailable: 0,
        capacity: 400,
    };
    assert_eq!(u.available(), -600);
}

#[test]
fn bar_is_exactly_as_wide_as_asked() {
    let u = Utilization {
        utilized: 100,
        allocated: 200,
        blocked: 200,
        unavailable: 0,
        capacity: 400,
    };
    for w in [1u16, 3, 8, 17, 80] {
        assert_eq!(u.to_line(w).len(), w as usize);
    }
    assert_eq!(u.to_line(0).len(), 0);
    let empty = Utilization {
        utilized: 0,
        allocated: 0,
        blocked: 0,
        unavailable: 0,
        capacity: 0,
    };
    assert_eq!(empty.to_line(10).len(), 0);
}

#[test]
fn bar_colors_follow_the_segments() {
    // Two quarters allocated, one more blocked, the rest free: the blocked
    // segment shows only what exceeds the allocation.
    let u = Utilization {
        utilized: 0,
        allocated: 200,
        blocked: 300,
        unavailable: 0,
        capacity: 400,
    };
    let cells = u.to_line(4);
    assert_eq!(cells.len(), 4);
    assert_eq!(cells[0].fg, BarColor::Yellow);
    assert_eq!(cells[1].fg, BarColor::Yellow);
    assert_eq!(cells[2].fg, BarColor::Magenta);
    assert_eq!(cells[3].fg, BarColor::Gray);
    for c in &cells {
        assert_eq!(c.glyph, 0);
    }
}

#[test]
fn bar_rounding_fills_with_the_last_color() {
    let u = Utilization {
        utilized: 0,
        allocated: 0,
        blocked: 0,
        unavailable: 0,
        capacity: 3,
    };
    let cells = u.to_line(2);
    assert_eq!(
        cells,
        vec![
            BarCell {
                glyph: 0,
                fg: BarColor::Gray,
                bg: BarColor::Gray
            };
            2
        ]
    );
}

#[test]
fn users_counts_distinct_job_owners() {
    let mut n = bare_node();
    let mk = |user: &str| slurmboard::jobs::Job {
        id: 1,
        nodelist: Vec::new(),
        partition: PartitionName::from_str("main"),
        state: JobState::Running,
        user: user.to_string(),
        tasks: 1,
        nodes: 0,
        cpus: 1,
        mem: 0,
        gpus: 0,
        time: Time::Invalid,
        name: "j".to_string(),
        gres: String::new(),
        tres: String::new(),
    };
    n.jobs = vec![mk("alice"), mk("bob"), mk("alice")];
    assert_eq!(n.users(), 2);
}
