use docker_exporter::collector::Collector;
use docker_exporter::config::Config;
use docker_exporter::docker::{
    BlkioServiceBytesStat, BlkioStats, Container, ContainerInspect, ContainerProbe,
    ContainerState, ContainerStats, CpuStats, CpuUsage, DataUsage, Image, MemoryStats, Network,
    Snapshot, Volume, VolumeUsage, get_data_usage, list_containers,
};
use docker_exporter::metrics::{MetricName, MetricValue, RunState};
use docker_exporter::trackers::ContainerTracker;

fn container(id: &str, name: Option<&str>) -> Container {
    Container {
        id: id.to_string(),
        names: match name {
            Some(n) => vec![n.to_string()],
            None => Vec::new(),
        },
    }
}

fn inspect(running: bool, restarting: bool, restarts: u32, started: &str) -> ContainerInspect {
    ContainerInspect {
        state: ContainerState { running, restarting, started_at: started.to_string() },
        restart_count: restarts,
    }
}

fn stats(usage: u64, tif: Option<u64>, inf: Option<u64>) -> ContainerStats {
    ContainerStats {
        cpu_stats: CpuStats { cpu_usage: CpuUsage { total_usage: 5 }, system_cpu_usage: 9 },
        memory_stats: MemoryStats { total_inactive_file: tif, inactive_file: inf, usage },
        networks: vec![
            Network { rx_bytes: 3, tx_bytes: 4 },
            Network { rx_bytes: 10, tx_bytes: 20 },
        ],
        blkio_stats: BlkioStats {
            io_service_bytes_recursive: vec![
                BlkioServiceBytesStat { op: "Read".to_string(), value: 10 },
                BlkioServiceBytesStat { op: "WRITE".to_string(), value: 7 },
                BlkioServiceBytesStat { op: "total".to_string(), value: 100 },
            ],
        },
    }
}

fn probe(id: &str, ins: Option<ContainerInspect>, st: Option<ContainerStats>) -> ContainerProbe {
    ContainerProbe { id: id.to_string(), inspect: ins, stats: st }
}

fn config(volumes: bool, images: bool) -> Config {
    Config { port: 9417, collect_image_metrics: images, collect_volume_metrics: volumes }
}

const ID1: &str = "abcdef0123456789";
const ID2: &str = "1234567890abcdef";
const ID3: &str = "fedcba9876543210";

#[test]
fn display_label_falls_back_to_identifier_prefix() {
    let c = container(ID1, None);
    assert_eq!(ContainerTracker::get_display_name(&c), "abcdef012345");
}

#[test]
fn display_label_strips_slashes_and_ignores_trivial_alias() {
    let c = container(ID1, Some("/web"));
    assert_eq!(ContainerTracker::get_display_name(&c), "web");
    let trivial = container(ID1, Some(" / "));
    assert_eq!(ContainerTracker::get_display_name(&trivial), "abcdef012345");
}

#[test]
fn tracker_set_mirrors_snapshot_exactly() {
    let mut col = Collector::new();
    let cfg = config(false, false);
    let s1 = Snapshot {
        containers: vec![container(ID1, Some("/one")), container(ID2, Some("/two"))],
        volumes: Vec::new(),
        images: Vec::new(),
    };
    assert!(col.update(&cfg, Some(s1), &Vec::new()));
    assert_eq!(col.live_container_count(), 2);
    let s2 = Snapshot {
        containers: vec![container(ID2, Some("/two")), container(ID3, Some("/three"))],
        volumes: Vec::new(),
        images: Vec::new(),
    };
    assert!(col.update(&cfg, Some(s2), &Vec::new()));
    let ids: Vec<String> = col.container_trackers().iter().map(|t| t.id.clone()).collect();
    assert_eq!(ids.len(), 2);
    assert!(ids.contains(&ID2.to_string()));
    assert!(ids.contains(&ID3.to_string()));
    assert_eq!(col.live_container_count(), 2);
}

#[test]
fn second_reconciliation_registers_and_unregisters_nothing() {
    let mut col = Collector::new();
    let cfg = config(false, false);
    let snap = |dummy: ()| {
        let _ = dummy;
        Snapshot {
            containers: vec![container(ID1, Some("/one")), container(ID2, None)],
            volumes: Vec::new(),
            images: Vec::new(),
        }
    };
    assert!(col.update(&cfg, Some(snap(())), &Vec::new()));
    let rows_before = col.registry().len();
    let labels_before: Vec<String> =
        col.container_trackers().iter().map(|t| t.label().clone()).collect();
    assert!(col.update(&cfg, Some(snap(())), &Vec::new()));
    assert_eq!(col.registry().len(), rows_before);
    let labels_after: Vec<String> =
        col.container_trackers().iter().map(|t| t.label().clone()).collect();
    assert_eq!(labels_before, labels_after);
}

#[test]
fn total_snapshot_failure_counts_once_and_freezes_everything() {
    let mut col = Collector::new();
    let cfg = config(false, false);
    let s1 = Snapshot {
        containers: vec![container(ID1, Some("/one"))],
        volumes: Vec::new(),
        images: Vec::new(),
    };
    assert!(col.update(&cfg, Some(s1), &Vec::new()));
    let failures = col.failure_count();
    let rows = col.registry().len();
    assert!(!col.update(&cfg, None, &Vec::new()));
    assert_eq!(col.failure_count(), failures + 1);
    assert_eq!(col.registry().len(), rows);
    assert_eq!(col.container_trackers().len(), 1);
    assert_eq!(col.live_container_count(), 1);
}

#[test]
fn failed_inspect_counts_once_and_freezes_handles() {
    let mut col = Collector::new();
    let cfg = config(false, false);
    let s1 = Snapshot {
        containers: vec![container(ID1, Some("/one"))],
        volumes: Vec::new(),
        images: Vec::new(),
    };
    let probes = vec![probe(ID1, None, None)];
    assert!(col.update(&cfg, Some(s1), &probes));
    assert_eq!(col.failure_count(), 1);
    let label = "one".to_string();
    assert_eq!(
        col.registry().get(MetricName::RunningState, &label),
        Some(MetricValue::State(RunState::Stopped))
    );
    assert_eq!(col.registry().get(MetricName::RestartCount, &label), Some(MetricValue::Num(0)));
}

#[test]
fn failed_stats_counts_once_but_commits_state_handles() {
    let mut col = Collector::new();
    let cfg = config(false, false);
    let s1 = Snapshot {
        containers: vec![container(ID1, Some("/one"))],
        volumes: Vec::new(),
        images: Vec::new(),
    };
    let probes = vec![probe(ID1, Some(inspect(true, false, 3, "")), None)];
    assert!(col.update(&cfg, Some(s1), &probes));
    assert_eq!(col.failure_count(), 1);
    let label = "one".to_string();
    assert_eq!(
        col.registry().get(MetricName::RunningState, &label),
        Some(MetricValue::State(RunState::Running))
    );
    assert_eq!(col.registry().get(MetricName::RestartCount, &label), Some(MetricValue::Num(3)));
    assert_eq!(col.registry().get(MetricName::CpuUsed, &label), Some(MetricValue::Num(0)));
}

#[test]
fn full_refresh_sets_usage_handles() {
    let mut col = Collector::new();
    let cfg = config(false, false);
    let s1 = Snapshot {
        containers: vec![container(ID1, Some("/one"))],
        volumes: Vec::new(),
        images: Vec::new(),
    };
    let probes = vec![probe(
        ID1,
        Some(inspect(true, false, 1, "2020-01-01T00:00:00Z")),
        Some(stats(1000, Some(300), None)),
    )];
    assert!(col.update(&cfg, Some(s1), &probes));
    assert_eq!(col.failure_count(), 0);
    let label = "one".to_string();
    let reg = col.registry();
    assert_eq!(reg.get(MetricName::MemoryUsed, &label), Some(MetricValue::Num(700)));
    assert_eq!(reg.get(MetricName::CpuUsed, &label), Some(MetricValue::Num(5)));
    assert_eq!(reg.get(MetricName::CpuCapacity, &label), Some(MetricValue::Num(9)));
    assert_eq!(reg.get(MetricName::NetworkIn, &label), Some(MetricValue::Num(13)));
    assert_eq!(reg.get(MetricName::NetworkOut, &label), Some(MetricValue::Num(24)));
    assert_eq!(reg.get(MetricName::DiskRead, &label), Some(MetricValue::Num(10)));
    assert_eq!(reg.get(MetricName::DiskWrite, &label), Some(MetricValue::Num(7)));
    assert_eq!(reg.get(MetricName::StartTime, &label), Some(MetricValue::Num(1577836800)));
}

#[test]
fn memory_used_floors_at_zero_and_prefers_total_counter() {
    let mut col = Collector::new();
    let cfg = config(false, false);
    let s1 = Snapshot {
        containers: vec![container(ID1, Some("/one"))],
        volumes: Vec::new(),
        images: Vec::new(),
    };
    let probes =
        vec![probe(ID1, Some(inspect(true, false, 0, "")), Some(stats(100, Some(40), Some(90))))];
    assert!(col.update(&cfg, Some(s1), &probes));
    let label = "one".to_string();
    assert_eq!(col.registry().get(MetricName::MemoryUsed, &label), Some(MetricValue::Num(60)));
}

#[test]
fn restarting_state_encodes_between_running_and_stopped() {
    let mut col = Collector::new();
    let cfg = config(false, false);
    let s1 = Snapshot {
        containers: vec![container(ID1, Some("/one"))],
        volumes: Vec::new(),
        images: Vec::new(),
    };
    let probes = vec![probe(ID1, Some(inspect(false, true, 0, "")), None)];
    assert!(col.update(&cfg, Some(s1), &probes));
    assert_eq!(col.failure_count(), 0);
    let label = "one".to_string();
    assert_eq!(
        col.registry().get(MetricName::RunningState, &label),
        Some(MetricValue::State(RunState::Restarting))
    );
}

#[test]
fn nonpositive_or_unreadable_start_time_is_ignored() {
    let mut col = Collector::new();
    let cfg = config(false, false);
    let s1 = Snapshot {
        containers: vec![container(ID1, Some("/one"))],
        volumes: Vec::new(),
        images: Vec::new(),
    };
    let probes = vec![probe(ID1, Some(inspect(false, false, 0, "0001-01-01T00:00:00Z")), None)];
    assert!(col.update(&cfg, Some(s1), &probes));
    let label = "one".to_string();
    assert_eq!(col.registry().get(MetricName::StartTime, &label), Some(MetricValue::Num(0)));
}

#[test]
fn destroyed_tracker_leaves_no_series_behind() {
    let mut col = Collector::new();
    let cfg = config(false, false);
    let s1 = Snapshot {
        containers: vec![container(ID1, Some("/one"))],
        volumes: Vec::new(),
        images: Vec::new(),
    };
    assert!(col.update(&cfg, Some(s1), &Vec::new()));
    assert!(col.registry().len() > 0);
    let s2 = Snapshot { containers: Vec::new(), volumes: Vec::new(), images: Vec::new() };
    assert!(col.update(&cfg, Some(s2), &Vec::new()));
    assert_eq!(col.registry().len(), 0);
    assert_eq!(col.live_container_count(), 0);
}

#[test]
fn volume_and_image_sections_follow_their_switches() {
    let mut col = Collector::new();
    let cfg = config(true, true);
    let snap = Snapshot {
        containers: Vec::new(),
        volumes: vec![Volume {
            name: "data".to_string(),
            usage_data: VolumeUsage { ref_count: 2, size: 4096 },
        }],
        images: vec![Image {
            id: "sha256:aa11".to_string(),
            containers: 3,
            repo_tags: Vec::new(),
            size: 777,
        }],
    };
    assert!(col.update(&cfg, Some(snap), &Vec::new()));
    let vname = "data".to_string();
    let itag = "aa11".to_string();
    assert_eq!(col.registry().get(MetricName::VolumeSize, &vname), Some(MetricValue::Num(4096)));
    assert_eq!(col.registry().get(MetricName::VolumeRefCount, &vname), Some(MetricValue::Num(2)));
    assert_eq!(
        col.registry().get(MetricName::ImageContainerCount, &itag),
        Some(MetricValue::Num(3))
    );
    assert_eq!(col.registry().get(MetricName::ImageSize, &itag), Some(MetricValue::Num(777)));
    let gone = Snapshot { containers: Vec::new(), volumes: Vec::new(), images: Vec::new() };
    assert!(col.update(&cfg, Some(gone), &Vec::new()));
    assert_eq!(col.registry().get(MetricName::VolumeSize, &vname), None);
    assert_eq!(col.registry().get(MetricName::ImageSize, &itag), None);
}

#[test]
fn probe_duration_falls_into_doubling_buckets() {
    let mut col = Collector::new();
    col.observe_probe_duration(1500);
    col.observe_probe_duration(500);
    col.observe_probe_duration(999999);
    let h = col.probe_duration();
    assert_eq!(h.bucket_count(0), 1);
    assert_eq!(h.bucket_count(1), 1);
    assert_eq!(h.bucket_count(7), 1);
    assert_eq!(h.total(), 1500 + 500 + 999999);
}

#[test]
fn env_values_read_as_booleans() {
    assert!(Config::is_truthy(Some("1"), false));
    assert!(Config::is_truthy(Some("true"), false));
    assert!(Config::is_truthy(Some("TRUE"), false));
    assert!(!Config::is_truthy(Some("0"), true));
    assert!(!Config::is_truthy(Some("yes"), true));
    assert!(Config::is_truthy(None, true));
    assert!(!Config::is_truthy(None, false));
}

#[test]
fn snapshot_shaping_keeps_payloads_and_failures() {
    assert!(list_containers(None).is_none());
    let s = list_containers(Some(vec![container(ID1, None)])).unwrap();
    assert_eq!(s.containers.len(), 1);
    assert!(s.volumes.is_empty() && s.images.is_empty());
    assert!(get_data_usage(None).is_none());
    let d = DataUsage {
        images: Vec::new(),
        containers: vec![container(ID1, None)],
        volumes: vec![Volume {
            name: "v".to_string(),
            usage_data: VolumeUsage { ref_count: 0, size: 1 },
        }],
    };
    let s2 = get_data_usage(Some(d)).unwrap();
    assert_eq!(s2.containers.len(), 1);
    assert_eq!(s2.volumes.len(), 1);
    assert!(s2.images.is_empty());
}

#[test]
fn listed_volume_is_reset_in_place_without_reregistration() {
    let mut col = Collector::new();
    let cfg = config(true, false);
    let vol = |size: u64, refs: u32| Snapshot {
        containers: Vec::new(),
        volumes: vec![Volume {
            name: "data".to_string(),
            usage_data: VolumeUsage { ref_count: refs, size },
        }],
        images: Vec::new(),
    };
    assert!(col.update(&cfg, Some(vol(4096, 2)), &Vec::new()));
    let rows = col.registry().len();
    assert!(col.update(&cfg, Some(vol(8192, 5)), &Vec::new()));
    assert_eq!(col.registry().len(), rows);
    let vname = "data".to_string();
    assert_eq!(col.registry().get(MetricName::VolumeSize, &vname), Some(MetricValue::Num(8192)));
    assert_eq!(col.registry().get(MetricName::VolumeRefCount, &vname), Some(MetricValue::Num(5)));
}

#[test]
fn listed_image_is_reset_in_place_without_reregistration() {
    let mut col = Collector::new();
    let cfg = config(false, true);
    let img = |count: u32, size: u64| Snapshot {
        containers: Vec::new(),
        volumes: Vec::new(),
        images: vec![Image {
            id: "sha256:bb22".to_string(),
            containers: count,
            repo_tags: vec!["app:latest".to_string()],
            size,
        }],
    };
    assert!(col.update(&cfg, Some(img(1, 100)), &Vec::new()));
    let rows = col.registry().len();
    assert!(col.update(&cfg, Some(img(4, 250)), &Vec::new()));
    assert_eq!(col.registry().len(), rows);
    let tag = "app:latest".to_string();
    assert_eq!(
        col.registry().get(MetricName::ImageContainerCount, &tag),
        Some(MetricValue::Num(4))
    );
    assert_eq!(col.registry().get(MetricName::ImageSize, &tag), Some(MetricValue::Num(250)));
}

#[test]
fn survivor_keeps_unwritten_handles_across_cycles() {
    let mut col = Collector::new();
    let cfg = config(false, false);
    let snap = || Snapshot {
        containers: vec![container(ID1, Some("/one"))],
        volumes: Vec::new(),
        images: Vec::new(),
    };
    let full = vec![probe(
        ID1,
        Some(inspect(true, false, 1, "2020-01-01T00:00:00Z")),
        Some(stats(1000, Some(300), None)),
    )];
    assert!(col.update(&cfg, Some(snap()), &full));
    let partial = vec![probe(ID1, Some(inspect(false, false, 2, "")), None)];
    assert!(col.update(&cfg, Some(snap()), &partial));
    assert_eq!(col.failure_count(), 0);
    let label = "one".to_string();
    let reg = col.registry();
    assert_eq!(reg.get(MetricName::MemoryUsed, &label), Some(MetricValue::Num(700)));
    assert_eq!(reg.get(MetricName::NetworkIn, &label), Some(MetricValue::Num(13)));
    assert_eq!(reg.get(MetricName::StartTime, &label), Some(MetricValue::Num(1577836800)));
    assert_eq!(reg.get(MetricName::RestartCount, &label), Some(MetricValue::Num(2)));
    assert_eq!(
        reg.get(MetricName::RunningState, &label),
        Some(MetricValue::State(RunState::Stopped))
    );
}
