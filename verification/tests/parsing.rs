use slurmboard::error::CollectError;
use slurmboard::jobs::{parse_memory, Job, JobDuration, JobState, Time};
use slurmboard::nodes::{parse_gpus, CPUState, Node, NodeState, PartitionName, SlurmState};

#[test]
fn cpu_state_tuple_decodes() {
    let c = CPUState::parse("2/2/0/4").unwrap();
    assert_eq!(c.allocated, 2);
    assert_eq!(c.idle, 2);
    assert_eq!(c.other, 0);
    assert_eq!(c.total, 4);
}

#[test]
fn cpu_state_extra_fields_are_ignored() {
    let c = CPUState::parse("1/2/3/4/5").unwrap();
    assert_eq!(c.total, 4);
}

#[test]
fn cpu_state_rejects_short_and_bad_tuples() {
    assert!(CPUState::parse("1/2/3").is_err());
    assert!(CPUState::parse("-1/2/3/4").is_err());
    assert!(CPUState::parse("a/2/3/4").is_err());
    assert!(CPUState::parse("").is_err());
    match CPUState::parse("1/2/3") {
        Err(CollectError::Parse { field, value }) => {
            assert_eq!(field, "CPUS(A/I/O/T)");
            assert_eq!(value, "1/2/3");
        }
        other => panic!("expected a parse error, got {:?}", other),
    }
}

#[test]
fn duration_round_trip() {
    let t = Time::parse("1-02:03:04").unwrap();
    assert_eq!(
        t,
        Time::Duration(JobDuration {
            days: 1,
            hours: 2,
            minutes: 3,
            seconds: 4
        })
    );
    assert_eq!(t.to_text(), "1-02:03:04");
    let back = Time::parse(&t.to_text()).unwrap();
    assert_eq!(back, t);
}

#[test]
fn duration_invalid_sentinel() {
    assert_eq!(Time::parse("INVALID").unwrap(), Time::Invalid);
    assert_eq!(Time::parse("INVALID").unwrap().to_text(), "INVALID");
}

#[test]
fn duration_short_forms() {
    assert_eq!(
        Time::parse("03:04").unwrap(),
        Time::Duration(JobDuration {
            days: 0,
            hours: 0,
            minutes: 3,
            seconds: 4
        })
    );
    assert_eq!(
        Time::parse("12:03:04").unwrap(),
        Time::Duration(JobDuration {
            days: 0,
            hours: 12,
            minutes: 3,
            seconds: 4
        })
    );
    assert!(Time::parse("42").is_err());
    assert!(Time::parse("x:y").is_err());
    assert!(Time::parse("1-").is_err());
}

#[test]
fn invalid_sorts_below_every_duration() {
    let d = Time::Duration(JobDuration {
        days: 0,
        hours: 0,
        minutes: 0,
        seconds: 0,
    });
    assert!(Time::Invalid < d);
}

#[test]
fn memory_units_convert_exactly() {
    assert_eq!(parse_memory("2G").unwrap(), 2048);
    assert_eq!(parse_memory("1T").unwrap(), 1_048_576);
    assert_eq!(parse_memory("512M").unwrap(), 512);
    assert_eq!(parse_memory("1024K").unwrap(), 1);
}

#[test]
fn memory_fractions_truncate() {
    assert_eq!(parse_memory("1.5G").unwrap(), 1536);
    assert_eq!(parse_memory("0.5M").unwrap(), 0);
    assert_eq!(parse_memory("1000K").unwrap(), 0);
}

#[test]
fn memory_rejects_bad_values() {
    assert!(parse_memory("").is_err());
    assert!(parse_memory("16").is_err());
    assert!(parse_memory("16X").is_err());
    assert!(parse_memory("G").is_err());
    match parse_memory("16Q") {
        Err(CollectError::Extraction { field, value }) => {
            assert_eq!(field, "mem");
            assert_eq!(value, "16Q");
        }
        other => panic!("expected an extraction error, got {:?}", other),
    }
}

#[test]
fn job_state_decodes_exact_tokens() {
    assert_eq!(JobState::from_wire("RUNNING").unwrap(), JobState::Running);
    assert_eq!(JobState::from_wire("BOOT_FAIL").unwrap(), JobState::BootFail);
    assert_eq!(
        JobState::from_wire("OUT_OF_MEMORY").unwrap(),
        JobState::OutOfMemory
    );
    assert!(JobState::from_wire("running").is_err());
    assert!(JobState::from_wire("SOMETHING_NEW").is_err());
}

#[test]
fn node_state_decodes_case_insensitively() {
    let s = NodeState::parse("mixed").unwrap();
    assert_eq!(s.state, SlurmState::Mixed);
    assert!(s.responds);
    let s = NodeState::parse("DOWN*").unwrap();
    assert_eq!(s.state, SlurmState::Down);
    assert!(!s.responds);
    let s = NodeState::parse("maint").unwrap();
    assert_eq!(s.state, SlurmState::Maintenance);
    assert!(NodeState::parse("resting").is_err());
}

#[test]
fn node_state_availability() {
    let ok = NodeState {
        state: SlurmState::Idle,
        responds: true,
    };
    assert!(ok.is_available());
    let down = NodeState {
        state: SlurmState::Down,
        responds: true,
    };
    assert!(!down.is_available());
    let silent = NodeState {
        state: SlurmState::Idle,
        responds: false,
    };
    assert!(!silent.is_available());
}

#[test]
fn partition_name_strips_default_marker() {
    let p = PartitionName::from_str("main*");
    assert_eq!(p.label, "main");
    assert!(p.default);
    assert_eq!(p.len(), 5);
    assert_eq!(p.to_text(), "main*");
    let q = PartitionName::from_str("main");
    assert!(!q.default);
    assert_eq!(q.len(), 4);
    assert!(p.same(&q));
}

#[test]
fn gres_gpu_counts() {
    assert_eq!(parse_gpus("gpu:a100:2(S:0)", "GRES").unwrap(), 2);
    assert_eq!(parse_gpus("gpu:4", "GRES").unwrap(), 4);
    assert_eq!(parse_gpus("mps:100,gpu:tesla:8", "GRES").unwrap(), 8);
    assert_eq!(parse_gpus("", "GRES").unwrap(), 0);
    assert_eq!(parse_gpus("mps:100", "GRES").unwrap(), 0);
    assert!(parse_gpus("gpu:", "GRES").is_err());
}

#[test]
fn tres_per_node_gpus() {
    let mut job = sample_job();
    job.tres = "gres/gpu:a100:2".to_string();
    job.update_from_tres().unwrap();
    assert_eq!(job.gpus, 2);

    let mut job = sample_job();
    job.tres = String::new();
    job.update_from_tres().unwrap();
    assert_eq!(job.gpus, 0);

    let mut job = sample_job();
    job.tres = "gpu:3".to_string();
    job.update_from_tres().unwrap();
    assert_eq!(job.gpus, 3);
}

#[test]
fn tres_alloc_cpu_and_memory() {
    let mut job = sample_job();
    job.gres = "cpu=4,mem=16G,node=1".to_string();
    job.update_from_gres().unwrap();
    assert_eq!(job.cpus, 4);
    assert_eq!(job.mem, 16384);

    let mut job = sample_job();
    job.gres = String::new();
    job.update_from_gres().unwrap();
    assert_eq!(job.cpus, 0);
    assert_eq!(job.mem, 0);

    let mut job = sample_job();
    job.gres = "cpu=bad".to_string();
    assert!(job.update_from_gres().is_err());
}

#[test]
fn node_table_parses_one_record() {
    let text = "ALLOCMEM|CPUS|CPU_LOAD|CPUS(A/I/O/T)|FREE_MEM|GRES|GRES_USED|MEMORY|NODELIST|PARTITION|STATE\n\
4000|4|1.50|2/2/0/4|1000|gpu:a100:2(S:0)|gpu:a100:1(IDX:0)|8000|node01|main*|mixed\n";
    let nodes = Node::parse_table(text).unwrap();
    assert_eq!(nodes.len(), 1);
    let n = &nodes[0];
    assert_eq!(n.mem_alloc, 4000);
    assert_eq!(n.cpus, 4);
    assert_eq!(n.cpu_load, Some(150));
    assert_eq!(n.cpu_state.allocated, 2);
    assert_eq!(n.cpu_state.total, 4);
    assert_eq!(n.mem_free, Some(1000));
    assert_eq!(n.gpus, 2);
    assert_eq!(n.gpus_used, 1);
    assert_eq!(n.mem, 8000);
    assert_eq!(n.name, "node01");
    assert_eq!(n.partition.label, "main");
    assert!(n.partition.default);
    assert_eq!(n.state.state, SlurmState::Mixed);
    assert!(n.jobs.is_empty());
}

#[test]
fn node_table_absent_load_and_free_mem() {
    let text = "header\n100|2|N/A|1/1/0/2|N/A|(null)|(null)|2000|n1|p|idle\n";
    let nodes = Node::parse_table(text).unwrap();
    assert_eq!(nodes[0].cpu_load, None);
    assert_eq!(nodes[0].mem_free, None);
    assert_eq!(nodes[0].gpus, 0);
}

#[test]
fn node_table_aborts_on_one_bad_record() {
    let text = "header\n100|2|0.0|1/1/0/2|0|x|x|2000|n1|p|idle\n100|2|0.0|oops|0|x|x|2000|n2|p|idle\n";
    assert!(Node::parse_table(text).is_err());
}

#[test]
fn job_table_parses_one_record() {
    let text = "JOBID|NODELIST|PARTITION|STATE|USER|TASKS|TRES_ALLOC|TRES_PER_NODE|TIME|NAME\n\
42|node01,node02|main|RUNNING|alice|8|cpu=4,mem=16G|gres/gpu:a100:2|1-02:03:04|training run\n";
    let jobs = Job::parse_table(text).unwrap();
    assert_eq!(jobs.len(), 1);
    let j = &jobs[0];
    assert_eq!(j.id, 42);
    assert_eq!(j.nodelist, vec!["node01".to_string(), "node02".to_string()]);
    assert_eq!(j.partition.label, "main");
    assert_eq!(j.state, JobState::Running);
    assert_eq!(j.user, "alice");
    assert_eq!(j.tasks, 8);
    assert_eq!(j.cpus, 4);
    assert_eq!(j.mem, 16384);
    assert_eq!(j.gpus, 2);
    assert_eq!(
        j.time,
        Time::Duration(JobDuration {
            days: 1,
            hours: 2,
            minutes: 3,
            seconds: 4
        })
    );
    assert_eq!(j.name, "training run");
}

#[test]
fn job_table_empty_nodelist_means_pending() {
    let text = "header\n7||batch|PENDING|bob|1|cpu=1|N/A|00:00|queued\n";
    let jobs = Job::parse_table(text).unwrap();
    assert!(jobs[0].nodelist.is_empty());
    assert_eq!(jobs[0].state, JobState::Pending);
}

fn sample_job() -> Job {
    Job {
        id: 1,
        nodelist: Vec::new(),
        partition: PartitionName::from_str("p"),
        state: JobState::Running,
        user: "u".to_string(),
        tasks: 1,
        nodes: 0,
        cpus: 0,
        mem: 0,
        gpus: 0,
        time: Time::Invalid,
        name: "j".to_string(),
        gres: String::new(),
        tres: String::new(),
    }
}
