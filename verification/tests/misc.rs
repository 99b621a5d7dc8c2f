use slurmboard::config::{DefaultMem, SlurmConfig};
use slurmboard::jobs::squeue_format;
use slurmboard::misc::{format_string, mb_to_string, unique_values};
use slurmboard::nodes::sinfo_format;

#[test]
fn unique_values_counts_distinct_strings() {
    let v = vec![
        "a".to_string(),
        "b".to_string(),
        "a".to_string(),
        "c".to_string(),
        "b".to_string(),
    ];
    assert_eq!(unique_values(&v), 3);
    assert_eq!(unique_values(&Vec::new()), 0);
}

#[test]
fn format_string_joins_fields() {
    let fields = vec!["A".to_string(), "B".to_string()];
    assert_eq!(format_string(&fields), "A:0|,B:0");
    assert_eq!(format_string(&Vec::new()), "");
}

#[test]
fn command_format_arguments() {
    assert_eq!(
        sinfo_format(),
        "AllocMem:0|,CPUs:0|,CPUsLoad:0|,CPUsState:0|,FreeMem:0|,Gres:0|,GresUsed:0|,Memory:0|,NodeList:0|,Partition:0|,StateLong:0"
    );
    assert_eq!(
        squeue_format(),
        "JobID:0|,NodeList:0|,Partition:0|,State:0|,UserName:0|,NumTasks:0|,Tres-Alloc:0|,Tres-Per-Node:0|,TimeUsed:0|,Name:0"
    );
}

#[test]
fn memory_sizes_for_display() {
    assert_eq!(mb_to_string(0), "0M");
    assert_eq!(mb_to_string(512), "512M");
    assert_eq!(mb_to_string(1023), "1023M");
    assert_eq!(mb_to_string(1024), "1.0G");
    assert_eq!(mb_to_string(1536), "1.5G");
    assert_eq!(mb_to_string(1048576), "1.0T");
    assert_eq!(mb_to_string(1536000), "1.5T");
}

#[test]
fn limits_parse_or_are_ignored() {
    assert_eq!(SlurmConfig::parse_limits(" 15948 "), Some(15948));
    assert_eq!(SlurmConfig::parse_limits("UNLIMITED"), None);
    assert_eq!(SlurmConfig::parse_limits(""), None);
    assert_eq!(SlurmConfig::parse_limits("12x"), None);
}

#[test]
fn default_mem_options_decode() {
    assert_eq!(
        SlurmConfig::parse_default_mem("DefMemPerCPU", "2000"),
        Some(DefaultMem::PerCPU(2000))
    );
    assert_eq!(
        SlurmConfig::parse_default_mem("DefMemPerGPU", "8000"),
        Some(DefaultMem::PerGPU(8000))
    );
    // the per-node key is accounted like the per-CPU key
    assert_eq!(
        SlurmConfig::parse_default_mem("DefMemPerNode", "4000"),
        Some(DefaultMem::PerCPU(4000))
    );
    assert_eq!(SlurmConfig::parse_default_mem("DefMemPerCPU", "UNLIMITED"), None);
}

#[test]
fn configuration_scan_takes_the_last_value() {
    let text = "ClusterName = c1\nDefMemPerCPU = UNLIMITED\nDefMemPerCPU = 15948\nNoise\n";
    let config = SlurmConfig::parse_show_config(text);
    assert_eq!(config.default_mem, DefaultMem::PerCPU(15948));
    assert!(config.partitions.is_empty());
}

#[test]
fn partition_configuration_scan() {
    let text = "PartitionName=gpu DefMemPerGPU=8000 Nodes=n[1-4]\nPartitionName=cpu DefMemPerCPU=2000\nNoLine\nPartitionName=cpu DefMemPerCPU=3000\n";
    let parts = SlurmConfig::parse_show_partition(text);
    assert_eq!(parts.len(), 2);
    assert_eq!(parts[0].0, "gpu");
    assert_eq!(parts[0].1.default_mem, DefaultMem::PerGPU(8000));
    assert_eq!(parts[1].0, "cpu");
    assert_eq!(parts[1].1.default_mem, DefaultMem::PerCPU(3000));
}

#[test]
fn scrollbar_builder_keeps_fields() {
    let bar = slurmboard::scrollbar::RightScrollbar::default()
        .items(10)
        .header(1)
        .selected(Some(4));
    assert_eq!(bar.items, 10);
    assert_eq!(bar.header, 1);
    assert_eq!(bar.selected, 4);
    assert_eq!(
        slurmboard::scrollbar::RightScrollbar::default().selected(None).selected,
        0
    );
}

#[test]
fn stock_arguments() {
    let args = slurmboard::args::Args::default();
    assert_eq!(args.def_mem_per_cpu, 15948);
    assert_eq!(args.interval, 5);
    assert_eq!(args.sinfo, "sinfo");
    assert_eq!(args.squeue, "squeue");
    assert!(!args.version);
}
