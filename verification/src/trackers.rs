//! Per-entity trackers: one per live container, volume or image, each owning
//! a fixed set of registered handles and knowing how to refresh them.

use crate::docker::{
    BlkioServiceBytesStat, Container, ContainerInspect, ContainerState, ContainerStats, Image,
    MemoryStats, Network, Volume, parse_rfc3339_seconds, rfc3339_seconds,
};
use crate::metrics::{MetricName, MetricValue, Registry, RunState};
use crate::text;
use vstd::prelude::*;

verus! {

/// The ten metrics a container tracker owns.
pub open spec fn is_container_metric(m: MetricName) -> bool {
    m == MetricName::CpuUsed || m == MetricName::CpuCapacity || m == MetricName::MemoryUsed || m
        == MetricName::RestartCount || m == MetricName::RunningState || m == MetricName::StartTime
        || m == MetricName::NetworkIn || m == MetricName::NetworkOut || m == MetricName::DiskRead
        || m == MetricName::DiskWrite
}

/// The two metrics a volume tracker owns.
pub open spec fn is_volume_metric(m: MetricName) -> bool {
    m == MetricName::VolumeSize || m == MetricName::VolumeRefCount
}

/// The two metrics an image tracker owns.
pub open spec fn is_image_metric(m: MetricName) -> bool {
    m == MetricName::ImageContainerCount || m == MetricName::ImageSize
}

/// What a container handle shows before its first refresh: stopped, and zero
/// everywhere else.
pub open spec fn init_container_value(m: MetricName) -> MetricValue {
    if m == MetricName::RunningState {
        MetricValue::State(RunState::Stopped)
    } else {
        MetricValue::Num(0)
    }
}

/// The label a container is published under: its first alias - stripped of
/// leading slashes - when that alias has more than one character beyond
/// surrounding white space, else the first twelve characters of its
/// identifier.
pub open spec fn display_name(c: Container) -> Seq<char> {
    if c.names@.len() > 0 && text::trimmed(c.names@[0]@).len() > 1 {
        text::strip_slashes(c.names@[0]@)
    } else {
        c.id@.subrange(0, 12)
    }
}

/// A container record a label can be derived from: a non-trivial alias, or
/// an identifier of at least twelve characters to fall back on.
pub open spec fn wf_display(c: Container) -> bool {
    (c.names@.len() > 0 && text::trimmed(c.names@[0]@).len() > 1) || c.id@.len() >= 12
}

/// The label an image is published under: its first repository tag when it
/// has one, else its identifier stripped of the leading digest prefix.
pub open spec fn image_label(i: Image) -> Seq<char> {
    if i.repo_tags@.len() > 0 {
        i.repo_tags@[0]@
    } else {
        text::strip_sha256(i.id@)
    }
}

/// The running-state encoding: running, restarting, otherwise stopped.
pub open spec fn run_state_of(st: ContainerState) -> RunState {
    if st.running {
        RunState::Running
    } else if st.restarting {
        RunState::Restarting
    } else {
        RunState::Stopped
    }
}

/// The cache counter the working-set calculation subtracts: the total
/// inactive-file counter when present, else the inactive-file counter, else
/// zero.
pub open spec fn cache_of(m: MemoryStats) -> u64 {
    match m.total_inactive_file {
        Some(v) => v,
        None => match m.inactive_file {
            Some(v) => v,
            None => 0,
        },
    }
}

/// Working-set memory: usage less the reclaimable cache counter, floored at
/// zero.
pub open spec fn mem_used(m: MemoryStats) -> u128 {
    if m.usage >= cache_of(m) {
        (m.usage - cache_of(m)) as u128
    } else {
        0
    }
}

/// The sum of a sequence of counters, as an unbounded integer.
pub open spec fn sum64(s: Seq<u64>) -> int
    decreases s.len(),
{
    if s.len() == 0 {
        0
    } else {
        s[0] + sum64(s.drop_first())
    }
}

proof fn lemma_sum64_push(s: Seq<u64>, x: u64)
    ensures
        sum64(s.push(x)) == sum64(s) + x,
    decreases s.len(),
{
    if s.len() == 0 {
        assert(s.push(x).len() == 1);
        assert(s.push(x)[0] == x);
        assert(s.push(x).drop_first() =~= Seq::<u64>::empty());
        assert(sum64(Seq::<u64>::empty()) == 0);
        assert(sum64(s) == 0);
    } else {
        assert(s.push(x).drop_first() =~= s.drop_first().push(x));
        lemma_sum64_push(s.drop_first(), x);
    }
}

proof fn lemma_sum64_bound(s: Seq<u64>)
    ensures
        0 <= sum64(s) <= s.len() * 0xFFFF_FFFF_FFFF_FFFF,
    decreases s.len(),
{
    if s.len() > 0 {
        lemma_sum64_bound(s.drop_first());
    }
}

/// The received-bytes counters of a set of interfaces.
pub open spec fn rx_of(ns: Seq<Network>) -> Seq<u64> {
    ns.map_values(|n: Network| n.rx_bytes)
}

/// The transmitted-bytes counters of a set of interfaces.
pub open spec fn tx_of(ns: Seq<Network>) -> Seq<u64> {
    ns.map_values(|n: Network| n.tx_bytes)
}

/// Bytes received across all reported interfaces.
pub open spec fn network_in(ns: Seq<Network>) -> int {
    sum64(rx_of(ns))
}

/// Bytes transmitted across all reported interfaces.
pub open spec fn network_out(ns: Seq<Network>) -> int {
    sum64(tx_of(ns))
}

/// Each block-device entry's contribution toward the operation `op`: its
/// byte count when its label matches `op` up to ASCII case, else zero.
pub open spec fn op_bytes(es: Seq<BlkioServiceBytesStat>, op: Seq<char>) -> Seq<u64> {
    es.map_values(
        |e: BlkioServiceBytesStat|
            if text::eq_fold(e.op@, op) {
                e.value
            } else {
                0u64
            },
    )
}

/// Total bytes of block-device entries whose label matches `op` up to ASCII
/// case.
pub open spec fn disk_total(es: Seq<BlkioServiceBytesStat>, op: Seq<char>) -> int {
    sum64(op_bytes(es, op))
}

/// The read-operation label.
pub open spec fn read_chars() -> Seq<char> {
    seq!['r', 'e', 'a', 'd']
}

/// The write-operation label.
pub open spec fn write_chars() -> Seq<char> {
    seq!['w', 'r', 'i', 't', 'e']
}

fn sum_rx(ns: &Vec<Network>) -> (r: u128)
    ensures
        r == network_in(ns@),
{
    let mut acc: u128 = 0;
    let n = ns.len();
    for i in 0..n
        invariant
            n == ns@.len(),
            acc == sum64(rx_of(ns@).subrange(0, i as int)),
    {
        proof {
            lemma_sum64_bound(rx_of(ns@).subrange(0, i as int));
        }
        acc = acc + (ns[i].rx_bytes as u128);
        proof {
            assert(rx_of(ns@).subrange(0, i + 1) =~= rx_of(ns@).subrange(0, i as int).push(
                ns@[i as int].rx_bytes,
            ));
            lemma_sum64_push(rx_of(ns@).subrange(0, i as int), ns@[i as int].rx_bytes);
        }
    }
    proof {
        assert(rx_of(ns@).subrange(0, n as int) =~= rx_of(ns@));
    }
    acc
}

fn sum_tx(ns: &Vec<Network>) -> (r: u128)
    ensures
        r == network_out(ns@),
{
    let mut acc: u128 = 0;
    let n = ns.len();
    for i in 0..n
        invariant
            n == ns@.len(),
            acc == sum64(tx_of(ns@).subrange(0, i as int)),
    {
        proof {
            lemma_sum64_bound(tx_of(ns@).subrange(0, i as int));
        }
        acc = acc + (ns[i].tx_bytes as u128);
        proof {
            assert(tx_of(ns@).subrange(0, i + 1) =~= tx_of(ns@).subrange(0, i as int).push(
                ns@[i as int].tx_bytes,
            ));
            lemma_sum64_push(tx_of(ns@).subrange(0, i as int), ns@[i as int].tx_bytes);
        }
    }
    proof {
        assert(tx_of(ns@).subrange(0, n as int) =~= tx_of(ns@));
    }
    acc
}

fn sum_op(es: &Vec<BlkioServiceBytesStat>, op: &str) -> (r: u128)
    ensures
        r == disk_total(es@, op@),
{
    let mut acc: u128 = 0;
    let n = es.len();
    for i in 0..n
        invariant
            n == es@.len(),
            acc == sum64(op_bytes(es@, op@).subrange(0, i as int)),
    {
        proof {
            lemma_sum64_bound(op_bytes(es@, op@).subrange(0, i as int));
        }
        let e = &es[i];
        let contribution: u64 = if text::eq_ignore_ascii_case(e.op.as_str(), op) {
            e.value
        } else {
            0
        };
        acc = acc + (contribution as u128);
        proof {
            assert(contribution == op_bytes(es@, op@)[i as int]);
            assert(op_bytes(es@, op@).subrange(0, i + 1) =~= op_bytes(es@, op@).subrange(
                0,
                i as int,
            ).push(op_bytes(es@, op@)[i as int]));
            lemma_sum64_push(op_bytes(es@, op@).subrange(0, i as int), op_bytes(es@, op@)[i as int]);
        }
    }
    proof {
        assert(op_bytes(es@, op@).subrange(0, n as int) =~= op_bytes(es@, op@));
    }
    acc
}

/// None of the ten container handles under label `l` is registered yet.
pub open spec fn container_keys_free(reg: Registry, l: Seq<char>) -> bool {
    &&& !reg.contains((MetricName::CpuUsed, l))
    &&& !reg.contains((MetricName::CpuCapacity, l))
    &&& !reg.contains((MetricName::MemoryUsed, l))
    &&& !reg.contains((MetricName::RestartCount, l))
    &&& !reg.contains((MetricName::RunningState, l))
    &&& !reg.contains((MetricName::StartTime, l))
    &&& !reg.contains((MetricName::NetworkIn, l))
    &&& !reg.contains((MetricName::NetworkOut, l))
    &&& !reg.contains((MetricName::DiskRead, l))
    &&& !reg.contains((MetricName::DiskWrite, l))
}

/// The tracker of one live container: the ten handles published under its
/// display label.
pub struct ContainerTracker {
    pub id: String,
    pub label: String,
}

impl ContainerTracker {
    /// The label this tracker's handles are keyed by.
    pub open spec fn label_chars(self) -> Seq<char> {
        self.label@
    }

    /// All ten of this tracker's handles are registered.
    pub open spec fn registered(self, reg: Registry) -> bool {
        &&& reg.contains((MetricName::CpuUsed, self.label_chars()))
        &&& reg.contains((MetricName::CpuCapacity, self.label_chars()))
        &&& reg.contains((MetricName::MemoryUsed, self.label_chars()))
        &&& reg.contains((MetricName::RestartCount, self.label_chars()))
        &&& reg.contains((MetricName::RunningState, self.label_chars()))
        &&& reg.contains((MetricName::StartTime, self.label_chars()))
        &&& reg.contains((MetricName::NetworkIn, self.label_chars()))
        &&& reg.contains((MetricName::NetworkOut, self.label_chars()))
        &&& reg.contains((MetricName::DiskRead, self.label_chars()))
        &&& reg.contains((MetricName::DiskWrite, self.label_chars()))
    }

    /// The label this tracker's handles are keyed by.
    pub fn label(&self) -> (r: &String)
        ensures
            r@ == self.label_chars(),
    {
        &self.label
    }

    /// The display label of a container record.
    pub fn get_display_name(c: &Container) -> (r: String)
        requires
            wf_display(*c),
        ensures
            r@ == display_name(*c),
    {
        if c.names.len() > 0 {
            let first = &c.names[0];
            if text::trimmed_len(first.as_str()) > 1 {
                return text::trim_leading_slashes(first.as_str());
            }
        }
        let id_str = c.id.as_str();
        id_str.substring_char(0, 12).to_owned()
    }

    /// Builds the tracker for a newly observed container, registering all
    /// ten of its handles at their initial values. The caller owes a label
    /// no other live container handle uses.
    #[verifier::rlimit(100)]
    pub fn new(c: Container, reg: &mut Registry) -> (t: ContainerTracker)
        requires
            old(reg).wf(),
            wf_display(c),
            container_keys_free(*old(reg), display_name(c)),
        ensures
            final(reg).wf(),
            t.id@ == c.id@,
            t.label_chars() == display_name(c),
            t.registered(*final(reg)),
            forall|k: (MetricName, Seq<char>)|
                final(reg).contains(k) == (old(reg).contains(k) || (is_container_metric(k.0) && k.1
                    == display_name(c))),
            forall|m: MetricName|
                is_container_metric(m) ==> #[trigger] final(reg).value_of((m, display_name(c)))
                    == init_container_value(m),
            forall|k: (MetricName, Seq<char>)|
                old(reg).contains(k) ==> final(reg).value_of(k) == old(reg).value_of(k),
    {
        let label = Self::get_display_name(&c);
        reg.register(MetricName::CpuUsed, label.clone(), MetricValue::Num(0));
        reg.register(MetricName::CpuCapacity, label.clone(), MetricValue::Num(0));
        reg.register(MetricName::MemoryUsed, label.clone(), MetricValue::Num(0));
        reg.register(MetricName::RestartCount, label.clone(), MetricValue::Num(0));
        reg.register(
            MetricName::RunningState,
            label.clone(),
            MetricValue::State(RunState::Stopped),
        );
        reg.register(MetricName::StartTime, label.clone(), MetricValue::Num(0));
        reg.register(MetricName::NetworkIn, label.clone(), MetricValue::Num(0));
        reg.register(MetricName::NetworkOut, label.clone(), MetricValue::Num(0));
        reg.register(MetricName::DiskRead, label.clone(), MetricValue::Num(0));
        reg.register(MetricName::DiskWrite, label.clone(), MetricValue::Num(0));
        ContainerTracker { id: c.id, label }
    }

    /// Applies a successful detail record: the three state handles move; a
    /// start timestamp moves only when it parses and is strictly positive.
    fn apply_inspect(&self, reg: &mut Registry, ins: &ContainerInspect)
        requires
            old(reg).wf(),
            self.registered(*old(reg)),
        ensures
            final(reg).wf(),
            forall|k: (MetricName, Seq<char>)|
                final(reg).contains(k) == old(reg).contains(k),
            final(reg).value_of((MetricName::RunningState, self.label_chars()))
                == MetricValue::State(run_state_of(ins.state)),
            final(reg).value_of((MetricName::RestartCount, self.label_chars()))
                == MetricValue::Num(ins.restart_count as u128),
            final(reg).value_of((MetricName::StartTime, self.label_chars())) == match rfc3339_seconds(
                ins.state.started_at@,
            ) {
                Some(t) => if t > 0 {
                    MetricValue::Num(t as u128)
                } else {
                    old(reg).value_of((MetricName::StartTime, self.label_chars()))
                },
                None => old(reg).value_of((MetricName::StartTime, self.label_chars())),
            },
            forall|k: (MetricName, Seq<char>)|
                old(reg).contains(k) && !(k.1 == self.label_chars() && (k.0
                    == MetricName::RunningState || k.0 == MetricName::RestartCount || k.0
                    == MetricName::StartTime)) ==> final(reg).value_of(k) == old(reg).value_of(k),
    {
        reg.set_value(
            MetricName::RunningState,
            &self.label,
            MetricValue::State(
                if ins.state.running {
                    RunState::Running
                } else if ins.state.restarting {
                    RunState::Restarting
                } else {
                    RunState::Stopped
                },
            ),
        );
        reg.set_value(
            MetricName::RestartCount,
            &self.label,
            MetricValue::Num(ins.restart_count as u128),
        );
        let parsed = parse_rfc3339_seconds(ins.state.started_at.as_str());
        match parsed {
            Some(t) => {
                if t > 0 {
                    reg.set_value(MetricName::StartTime, &self.label, MetricValue::Num(t as u128));
                }
            },
            None => (),
        }
    }

    /// Applies a successful statistics record: the seven resource-usage
    /// handles move to the values the record denotes.
    #[verifier::rlimit(100)]
    fn apply_stats(&self, reg: &mut Registry, st: &ContainerStats)
        requires
            old(reg).wf(),
            self.registered(*old(reg)),
        ensures
            final(reg).wf(),
            forall|k: (MetricName, Seq<char>)|
                final(reg).contains(k) == old(reg).contains(k),
            final(reg).value_of((MetricName::CpuUsed, self.label_chars())) == MetricValue::Num(
                st.cpu_stats.cpu_usage.total_usage as u128,
            ),
            final(reg).value_of((MetricName::CpuCapacity, self.label_chars())) == MetricValue::Num(
                st.cpu_stats.system_cpu_usage as u128,
            ),
            final(reg).value_of((MetricName::MemoryUsed, self.label_chars())) == MetricValue::Num(
                mem_used(st.memory_stats),
            ),
            final(reg).value_of((MetricName::NetworkIn, self.label_chars())) == MetricValue::Num(
                network_in(st.networks@) as u128,
            ),
            final(reg).value_of((MetricName::NetworkOut, self.label_chars())) == MetricValue::Num(
                network_out(st.networks@) as u128,
            ),
            final(reg).value_of((MetricName::DiskRead, self.label_chars())) == MetricValue::Num(
                disk_total(st.blkio_stats.io_service_bytes_recursive@, read_chars()) as u128,
            ),
            final(reg).value_of((MetricName::DiskWrite, self.label_chars())) == MetricValue::Num(
                disk_total(st.blkio_stats.io_service_bytes_recursive@, write_chars()) as u128,
            ),
            forall|k: (MetricName, Seq<char>)|
                old(reg).contains(k) && !(k.1 == self.label_chars() && (k.0 == MetricName::CpuUsed
                    || k.0 == MetricName::CpuCapacity || k.0 == MetricName::MemoryUsed || k.0
                    == MetricName::NetworkIn || k.0 == MetricName::NetworkOut || k.0
                    == MetricName::DiskRead || k.0 == MetricName::DiskWrite)) ==> final(reg).value_of(k) == old(reg).value_of(k),
    {
        reg.set_value(
            MetricName::CpuUsed,
            &self.label,
            MetricValue::Num(st.cpu_stats.cpu_usage.total_usage as u128),
        );
        reg.set_value(
            MetricName::CpuCapacity,
            &self.label,
            MetricValue::Num(st.cpu_stats.system_cpu_usage as u128),
        );
        let cache: u64 = match st.memory_stats.total_inactive_file {
            Some(v) => v,
            None => match st.memory_stats.inactive_file {
                Some(v) => v,
                None => 0,
            },
        };
        let used: u64 = if st.memory_stats.usage >= cache {
            st.memory_stats.usage - cache
        } else {
            0
        };
        reg.set_value(MetricName::MemoryUsed, &self.label, MetricValue::Num(used as u128));
        let rx = sum_rx(&st.networks);
        reg.set_value(MetricName::NetworkIn, &self.label, MetricValue::Num(rx));
        let tx = sum_tx(&st.networks);
        reg.set_value(MetricName::NetworkOut, &self.label, MetricValue::Num(tx));
        proof {
            reveal_strlit("read");
            reveal_strlit("write");
            assert("read"@ =~= read_chars());
            assert("write"@ =~= write_chars());
        }
        let rd = sum_op(&st.blkio_stats.io_service_bytes_recursive, "read");
        reg.set_value(MetricName::DiskRead, &self.label, MetricValue::Num(rd));
        let wr = sum_op(&st.blkio_stats.io_service_bytes_recursive, "write");
        reg.set_value(MetricName::DiskWrite, &self.label, MetricValue::Num(wr));
    }

    /// One refresh of this tracker from the outcome of its per-container
    /// queries. A failed detail query freezes every handle; a detail record
    /// for an entity that is not running commits the state handles and
    /// leaves the usage handles; a failed statistics query after a
    /// successful detail query likewise keeps the usage handles frozen.
    /// Reports whether the refresh fully succeeded.
    pub fn update(
        &self,
        reg: &mut Registry,
        inspect: Option<&ContainerInspect>,
        stats: Option<&ContainerStats>,
    ) -> (ok: bool)
        requires
            old(reg).wf(),
            self.registered(*old(reg)),
        ensures
            final(reg).wf(),
            forall|k: (MetricName, Seq<char>)|
                final(reg).contains(k) == old(reg).contains(k),
            match inspect {
                None => !ok && final(reg).rows() == old(reg).rows(),
                Some(ins) => {
                    &&& ok == (!ins.state.running || stats is Some)
                    &&& final(reg).value_of((MetricName::RunningState, self.label_chars()))
                        == MetricValue::State(run_state_of(ins.state))
                    &&& final(reg).value_of((MetricName::RestartCount, self.label_chars()))
                        == MetricValue::Num(ins.restart_count as u128)
                    &&& final(reg).value_of((MetricName::StartTime, self.label_chars()))
                        == match rfc3339_seconds(ins.state.started_at@) {
                        Some(t) => if t > 0 {
                            MetricValue::Num(t as u128)
                        } else {
                            old(reg).value_of((MetricName::StartTime, self.label_chars()))
                        },
                        None => old(reg).value_of((MetricName::StartTime, self.label_chars())),
                    }
                    &&& match (ins.state.running, stats) {
                        (true, Some(st)) => usage_refreshed(*final(reg), self.label_chars(), *st),
                        _ => usage_frozen(*old(reg), *final(reg), self.label_chars()),
                    }
                },
            },
            forall|k: (MetricName, Seq<char>)|
                old(reg).contains(k) && !(k.1 == self.label_chars() && is_container_metric(k.0))
                    ==> final(reg).value_of(k) == old(reg).value_of(k),
    {
        match inspect {
            None => false,
            Some(ins) => {
                self.apply_inspect(reg, ins);
                if !ins.state.running {
                    return true;
                }
                match stats {
                    None => false,
                    Some(st) => {
                        self.apply_stats(reg, st);
                        true
                    },
                }
            },
        }
    }

    /// Unregisters all ten of this tracker's handles; what the table no
    /// longer holds is simply gone.
    pub fn release(&self, reg: &mut Registry)
        requires
            old(reg).wf(),
        ensures
            final(reg).wf(),
            forall|k: (MetricName, Seq<char>)|
                final(reg).contains(k) == (old(reg).contains(k) && !(is_container_metric(k.0) && k.1
                    == self.label_chars())),
            forall|k: (MetricName, Seq<char>)|
                old(reg).contains(k) && !(is_container_metric(k.0) && k.1 == self.label_chars())
                    ==> final(reg).value_of(k) == old(reg).value_of(k),
    {
        reg.unregister(MetricName::CpuUsed, &self.label);
        reg.unregister(MetricName::CpuCapacity, &self.label);
        reg.unregister(MetricName::MemoryUsed, &self.label);
        reg.unregister(MetricName::RestartCount, &self.label);
        reg.unregister(MetricName::RunningState, &self.label);
        reg.unregister(MetricName::StartTime, &self.label);
        reg.unregister(MetricName::NetworkIn, &self.label);
        reg.unregister(MetricName::NetworkOut, &self.label);
        reg.unregister(MetricName::DiskRead, &self.label);
        reg.unregister(MetricName::DiskWrite, &self.label);
    }
}

/// The seven usage handles under label `l` show the values statistics
/// record `st` denotes.
pub open spec fn usage_refreshed(reg: Registry, l: Seq<char>, st: ContainerStats) -> bool {
    &&& reg.value_of((MetricName::CpuUsed, l)) == MetricValue::Num(
        st.cpu_stats.cpu_usage.total_usage as u128,
    )
    &&& reg.value_of((MetricName::CpuCapacity, l)) == MetricValue::Num(
        st.cpu_stats.system_cpu_usage as u128,
    )
    &&& reg.value_of((MetricName::MemoryUsed, l)) == MetricValue::Num(mem_used(st.memory_stats))
    &&& reg.value_of((MetricName::NetworkIn, l)) == MetricValue::Num(
        network_in(st.networks@) as u128,
    )
    &&& reg.value_of((MetricName::NetworkOut, l)) == MetricValue::Num(
        network_out(st.networks@) as u128,
    )
    &&& reg.value_of((MetricName::DiskRead, l)) == MetricValue::Num(
        disk_total(st.blkio_stats.io_service_bytes_recursive@, read_chars()) as u128,
    )
    &&& reg.value_of((MetricName::DiskWrite, l)) == MetricValue::Num(
        disk_total(st.blkio_stats.io_service_bytes_recursive@, write_chars()) as u128,
    )
}

/// All ten container handles under label `l` kept whatever they showed
/// before.
pub open spec fn handles_kept(pre: Registry, post: Registry, l: Seq<char>) -> bool {
    &&& post.value_of((MetricName::CpuUsed, l)) == pre.value_of((MetricName::CpuUsed, l))
    &&& post.value_of((MetricName::CpuCapacity, l)) == pre.value_of((MetricName::CpuCapacity, l))
    &&& post.value_of((MetricName::MemoryUsed, l)) == pre.value_of((MetricName::MemoryUsed, l))
    &&& post.value_of((MetricName::RestartCount, l)) == pre.value_of((MetricName::RestartCount, l))
    &&& post.value_of((MetricName::RunningState, l)) == pre.value_of((MetricName::RunningState, l))
    &&& post.value_of((MetricName::StartTime, l)) == pre.value_of((MetricName::StartTime, l))
    &&& post.value_of((MetricName::NetworkIn, l)) == pre.value_of((MetricName::NetworkIn, l))
    &&& post.value_of((MetricName::NetworkOut, l)) == pre.value_of((MetricName::NetworkOut, l))
    &&& post.value_of((MetricName::DiskRead, l)) == pre.value_of((MetricName::DiskRead, l))
    &&& post.value_of((MetricName::DiskWrite, l)) == pre.value_of((MetricName::DiskWrite, l))
}

/// All ten container handles under label `l` show their initial values.
pub open spec fn handles_init(reg: Registry, l: Seq<char>) -> bool {
    &&& reg.value_of((MetricName::CpuUsed, l)) == init_container_value(MetricName::CpuUsed)
    &&& reg.value_of((MetricName::CpuCapacity, l)) == init_container_value(MetricName::CpuCapacity)
    &&& reg.value_of((MetricName::MemoryUsed, l)) == init_container_value(MetricName::MemoryUsed)
    &&& reg.value_of((MetricName::RestartCount, l)) == init_container_value(
        MetricName::RestartCount,
    )
    &&& reg.value_of((MetricName::RunningState, l)) == init_container_value(
        MetricName::RunningState,
    )
    &&& reg.value_of((MetricName::StartTime, l)) == init_container_value(MetricName::StartTime)
    &&& reg.value_of((MetricName::NetworkIn, l)) == init_container_value(MetricName::NetworkIn)
    &&& reg.value_of((MetricName::NetworkOut, l)) == init_container_value(MetricName::NetworkOut)
    &&& reg.value_of((MetricName::DiskRead, l)) == init_container_value(MetricName::DiskRead)
    &&& reg.value_of((MetricName::DiskWrite, l)) == init_container_value(MetricName::DiskWrite)
}

/// The seven usage handles under label `l` show their initial zeros.
pub open spec fn usage_init(reg: Registry, l: Seq<char>) -> bool {
    &&& reg.value_of((MetricName::CpuUsed, l)) == MetricValue::Num(0)
    &&& reg.value_of((MetricName::CpuCapacity, l)) == MetricValue::Num(0)
    &&& reg.value_of((MetricName::MemoryUsed, l)) == MetricValue::Num(0)
    &&& reg.value_of((MetricName::NetworkIn, l)) == MetricValue::Num(0)
    &&& reg.value_of((MetricName::NetworkOut, l)) == MetricValue::Num(0)
    &&& reg.value_of((MetricName::DiskRead, l)) == MetricValue::Num(0)
    &&& reg.value_of((MetricName::DiskWrite, l)) == MetricValue::Num(0)
}

/// The seven usage handles under label `l` kept whatever they showed before.
pub open spec fn usage_frozen(pre: Registry, post: Registry, l: Seq<char>) -> bool {
    &&& post.value_of((MetricName::CpuUsed, l)) == pre.value_of((MetricName::CpuUsed, l))
    &&& post.value_of((MetricName::CpuCapacity, l)) == pre.value_of((MetricName::CpuCapacity, l))
    &&& post.value_of((MetricName::MemoryUsed, l)) == pre.value_of((MetricName::MemoryUsed, l))
    &&& post.value_of((MetricName::NetworkIn, l)) == pre.value_of((MetricName::NetworkIn, l))
    &&& post.value_of((MetricName::NetworkOut, l)) == pre.value_of((MetricName::NetworkOut, l))
    &&& post.value_of((MetricName::DiskRead, l)) == pre.value_of((MetricName::DiskRead, l))
    &&& post.value_of((MetricName::DiskWrite, l)) == pre.value_of((MetricName::DiskWrite, l))
}

/// The tracker of one live volume: its two handles, keyed by the volume's
/// name.
pub struct VolumeTracker {
    pub name: String,
}

impl VolumeTracker {
    /// Both of this tracker's handles are registered.
    pub open spec fn registered(self, reg: Registry) -> bool {
        &&& reg.contains((MetricName::VolumeSize, self.name@))
        &&& reg.contains((MetricName::VolumeRefCount, self.name@))
    }

    /// Builds the tracker for a newly observed volume and takes its first
    /// reading. The caller owes a name no other live volume handle uses.
    pub fn new(v: Volume, reg: &mut Registry) -> (t: VolumeTracker)
        requires
            old(reg).wf(),
            !old(reg).contains((MetricName::VolumeSize, v.name@)),
            !old(reg).contains((MetricName::VolumeRefCount, v.name@)),
        ensures
            final(reg).wf(),
            t.name@ == v.name@,
            t.registered(*final(reg)),
            forall|k: (MetricName, Seq<char>)|
                final(reg).contains(k) == (old(reg).contains(k) || (is_volume_metric(k.0) && k.1
                    == v.name@)),
            final(reg).value_of((MetricName::VolumeSize, v.name@)) == MetricValue::Num(
                v.usage_data.size as u128,
            ),
            final(reg).value_of((MetricName::VolumeRefCount, v.name@)) == MetricValue::Num(
                v.usage_data.ref_count as u128,
            ),
            forall|k: (MetricName, Seq<char>)|
                old(reg).contains(k) ==> final(reg).value_of(k) == old(reg).value_of(k),
    {
        reg.register(
            MetricName::VolumeSize,
            v.name.clone(),
            MetricValue::Num(v.usage_data.size as u128),
        );
        reg.register(
            MetricName::VolumeRefCount,
            v.name.clone(),
            MetricValue::Num(v.usage_data.ref_count as u128),
        );
        VolumeTracker { name: v.name }
    }

    /// Points both handles at the supplied volume record's counters; pure
    /// bookkeeping that cannot fail.
    pub fn update(&self, reg: &mut Registry, v: &Volume)
        requires
            old(reg).wf(),
            self.registered(*old(reg)),
        ensures
            final(reg).wf(),
            forall|k: (MetricName, Seq<char>)|
                final(reg).contains(k) == old(reg).contains(k),
            final(reg).value_of((MetricName::VolumeSize, self.name@)) == MetricValue::Num(
                v.usage_data.size as u128,
            ),
            final(reg).value_of((MetricName::VolumeRefCount, self.name@)) == MetricValue::Num(
                v.usage_data.ref_count as u128,
            ),
            forall|k: (MetricName, Seq<char>)|
                old(reg).contains(k) && !(k.1 == self.name@ && is_volume_metric(k.0)) ==> final(reg).value_of(k) == old(reg).value_of(k),
    {
        reg.set_value(
            MetricName::VolumeSize,
            &self.name,
            MetricValue::Num(v.usage_data.size as u128),
        );
        reg.set_value(
            MetricName::VolumeRefCount,
            &self.name,
            MetricValue::Num(v.usage_data.ref_count as u128),
        );
    }

    /// Unregisters both handles.
    pub fn release(&self, reg: &mut Registry)
        requires
            old(reg).wf(),
        ensures
            final(reg).wf(),
            forall|k: (MetricName, Seq<char>)|
                final(reg).contains(k) == (old(reg).contains(k) && !(is_volume_metric(k.0) && k.1
                    == self.name@)),
            forall|k: (MetricName, Seq<char>)|
                old(reg).contains(k) && !(is_volume_metric(k.0) && k.1 == self.name@) ==> final(reg).value_of(k) == old(reg).value_of(k),
    {
        reg.unregister(MetricName::VolumeSize, &self.name);
        reg.unregister(MetricName::VolumeRefCount, &self.name);
    }
}

/// The tracker of one live image: its two handles, keyed by the image's
/// primary tag or trimmed identifier.
pub struct ImageTracker {
    pub id: String,
    pub label: String,
}

impl ImageTracker {
    /// The label this tracker's handles are keyed by.
    pub open spec fn label_chars(self) -> Seq<char> {
        self.label@
    }

    /// Both of this tracker's handles are registered.
    pub open spec fn registered(self, reg: Registry) -> bool {
        &&& reg.contains((MetricName::ImageContainerCount, self.label_chars()))
        &&& reg.contains((MetricName::ImageSize, self.label_chars()))
    }

    /// The label this tracker's handles are keyed by.
    pub fn label(&self) -> (r: &String)
        ensures
            r@ == self.label_chars(),
    {
        &self.label
    }

    /// The published label of an image record.
    pub fn get_label(i: &Image) -> (r: String)
        ensures
            r@ == image_label(*i),
    {
        if i.repo_tags.len() > 0 {
            i.repo_tags[0].clone()
        } else {
            text::trim_sha256_prefix(i.id.as_str())
        }
    }

    /// Builds the tracker for a newly observed image and takes its first
    /// reading. The caller owes a label no other live image handle uses.
    pub fn new(i: Image, reg: &mut Registry) -> (t: ImageTracker)
        requires
            old(reg).wf(),
            !old(reg).contains((MetricName::ImageContainerCount, image_label(i))),
            !old(reg).contains((MetricName::ImageSize, image_label(i))),
        ensures
            final(reg).wf(),
            t.id@ == i.id@,
            t.label_chars() == image_label(i),
            t.registered(*final(reg)),
            forall|k: (MetricName, Seq<char>)|
                final(reg).contains(k) == (old(reg).contains(k) || (is_image_metric(k.0) && k.1
                    == image_label(i))),
            final(reg).value_of((MetricName::ImageContainerCount, image_label(i)))
                == MetricValue::Num(i.containers as u128),
            final(reg).value_of((MetricName::ImageSize, image_label(i))) == MetricValue::Num(
                i.size as u128,
            ),
            forall|k: (MetricName, Seq<char>)|
                old(reg).contains(k) ==> final(reg).value_of(k) == old(reg).value_of(k),
    {
        let label = Self::get_label(&i);
        reg.register(
            MetricName::ImageContainerCount,
            label.clone(),
            MetricValue::Num(i.containers as u128),
        );
        reg.register(MetricName::ImageSize, label.clone(), MetricValue::Num(i.size as u128));
        ImageTracker { id: i.id, label }
    }

    /// Points both handles at the supplied image record's counters; pure
    /// bookkeeping that cannot fail.
    pub fn update(&self, reg: &mut Registry, i: &Image)
        requires
            old(reg).wf(),
            self.registered(*old(reg)),
        ensures
            final(reg).wf(),
            forall|k: (MetricName, Seq<char>)|
                final(reg).contains(k) == old(reg).contains(k),
            final(reg).value_of((MetricName::ImageContainerCount, self.label_chars()))
                == MetricValue::Num(i.containers as u128),
            final(reg).value_of((MetricName::ImageSize, self.label_chars())) == MetricValue::Num(
                i.size as u128,
            ),
            forall|k: (MetricName, Seq<char>)|
                old(reg).contains(k) && !(k.1 == self.label_chars() && is_image_metric(k.0)) ==> final(reg).value_of(k) == old(reg).value_of(k),
    {
        reg.set_value(
            MetricName::ImageContainerCount,
            &self.label,
            MetricValue::Num(i.containers as u128),
        );
        reg.set_value(MetricName::ImageSize, &self.label, MetricValue::Num(i.size as u128));
    }

    /// Unregisters both handles.
    pub fn release(&self, reg: &mut Registry)
        requires
            old(reg).wf(),
        ensures
            final(reg).wf(),
            forall|k: (MetricName, Seq<char>)|
                final(reg).contains(k) == (old(reg).contains(k) && !(is_image_metric(k.0) && k.1
                    == self.label_chars())),
            forall|k: (MetricName, Seq<char>)|
                old(reg).contains(k) && !(is_image_metric(k.0) && k.1 == self.label_chars()) ==> final(reg).value_of(k) == old(reg).value_of(k),
    {
        reg.unregister(MetricName::ImageContainerCount, &self.label);
        reg.unregister(MetricName::ImageSize, &self.label);
    }
}

} // verus!
