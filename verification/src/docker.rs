//! The decoded shape of what the container runtime reports, and the two ways
//! a probe's snapshot is assembled from it.
//!
//! Transport and JSON decoding live outside the library; these types carry
//! only the fields the reconciliation logic reads.

use vstd::prelude::*;

verus! {

/// One listed container: its stable identifier and its aliases.
pub struct Container {
    pub id: String,
    pub names: Vec<String>,
}

/// The life-cycle portion of a container's detail record.
pub struct ContainerState {
    pub running: bool,
    pub restarting: bool,
    pub started_at: String,
}

/// The detail (`inspect`) record for one container.
pub struct ContainerInspect {
    pub state: ContainerState,
    pub restart_count: u32,
}

/// Memory counters from a container's statistics record. Of the runtime's
/// cache-counter table only the two keys the working-set calculation reads
/// are carried, each absent when the table lacks it.
pub struct MemoryStats {
    pub total_inactive_file: Option<u64>,
    pub inactive_file: Option<u64>,
    pub usage: u64,
}

/// Accumulated CPU time consumed by the container.
pub struct CpuUsage {
    pub total_usage: u64,
}

/// CPU counters from a container's statistics record.
pub struct CpuStats {
    pub cpu_usage: CpuUsage,
    pub system_cpu_usage: u64,
}

/// Byte counters of one network interface.
pub struct Network {
    pub rx_bytes: u64,
    pub tx_bytes: u64,
}

/// One block-device counter: an operation label and a byte count.
pub struct BlkioServiceBytesStat {
    pub op: String,
    pub value: u64,
}

/// Block-device counters from a container's statistics record.
pub struct BlkioStats {
    pub io_service_bytes_recursive: Vec<BlkioServiceBytesStat>,
}

/// The resource-usage (`stats`) record for one container.
pub struct ContainerStats {
    pub cpu_stats: CpuStats,
    pub memory_stats: MemoryStats,
    pub networks: Vec<Network>,
    pub blkio_stats: BlkioStats,
}

/// One listed image.
pub struct Image {
    pub id: String,
    pub containers: u32,
    pub repo_tags: Vec<String>,
    pub size: u64,
}

/// Usage counters of one volume.
pub struct VolumeUsage {
    pub ref_count: u32,
    pub size: u64,
}

/// One listed volume.
pub struct Volume {
    pub name: String,
    pub usage_data: VolumeUsage,
}

/// The combined usage report: every live image, container and volume.
pub struct DataUsage {
    pub images: Vec<Image>,
    pub containers: Vec<Container>,
    pub volumes: Vec<Volume>,
}

/// What one probe cycle reconciles against: the observed containers, and the
/// observed volumes and images where those are collected.
pub struct Snapshot {
    pub containers: Vec<Container>,
    pub volumes: Vec<Volume>,
    pub images: Vec<Image>,
}

/// The outcome of one container's per-entity queries within a probe cycle:
/// its detail record and - where one was sought - its statistics record,
/// each absent when the query failed.
pub struct ContainerProbe {
    pub id: String,
    pub inspect: Option<ContainerInspect>,
    pub stats: Option<ContainerStats>,
}

/// Shapes the outcome of the containers-only listing into a probe snapshot:
/// the fast path, taken when neither volume nor image metrics are collected.
/// A failed listing stays a failed snapshot.
pub fn list_containers(response: Option<Vec<Container>>) -> (r: Option<Snapshot>)
    ensures
        match response {
            Some(cs) => r matches Some(s) && s.containers == cs && s.volumes@.len() == 0
                && s.images@.len() == 0,
            None => r is None,
        },
{
    match response {
        Some(cs) => Some(
            Snapshot { containers: cs, volumes: Vec::new(), images: Vec::new() },
        ),
        None => None,
    }
}

/// Shapes the outcome of the combined usage report into a probe snapshot.
/// A failed report stays a failed snapshot.
pub fn get_data_usage(response: Option<DataUsage>) -> (r: Option<Snapshot>)
    ensures
        match response {
            Some(d) => r matches Some(s) && s.containers == d.containers && s.volumes == d.volumes
                && s.images == d.images,
            None => r is None,
        },
{
    match response {
        Some(d) => Some(
            Snapshot { containers: d.containers, volumes: d.volumes, images: d.images },
        ),
        None => None,
    }
}

/// The epoch seconds a string denotes when read as an RFC 3339 timestamp,
/// or nothing when it cannot be read as one.
pub uninterp spec fn rfc3339_seconds(s: Seq<char>) -> Option<i64>;

/// Relies on `chrono::DateTime::parse_from_rfc3339` and
/// `chrono::DateTime::timestamp`: whether a string parses as an RFC 3339
/// timestamp, and which epoch second it denotes, depend on its characters
/// alone.
#[verifier::external_body]
pub fn parse_rfc3339_seconds(s: &str) -> (r: Option<i64>)
    ensures
        r == rfc3339_seconds(s@),
{
    chrono::DateTime::parse_from_rfc3339(s).ok().map(|d| d.timestamp())
}

} // verus!
