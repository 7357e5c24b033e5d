//! The metric handle registry and the probe-duration histogram.
//!
//! A handle is one externally readable numeric series, keyed by a metric and
//! a label. The registry is the process-wide table of live handles: entries
//! are added only when a tracker is constructed and removed only when it is
//! released, so the table never holds a stale or duplicate series.

use vstd::prelude::*;

verus! {

/// The fixed set of per-entity metrics the exporter publishes.
#[derive(Clone, Copy, PartialEq, Eq, Structural, Debug)]
pub enum MetricName {
    CpuUsed,
    CpuCapacity,
    MemoryUsed,
    RestartCount,
    RunningState,
    StartTime,
    NetworkIn,
    NetworkOut,
    DiskRead,
    DiskWrite,
    VolumeSize,
    VolumeRefCount,
    ImageContainerCount,
    ImageSize,
}

/// The reported life-cycle state of a container.
#[derive(Clone, Copy, PartialEq, Eq, Structural, Debug)]
pub enum RunState {
    Running,
    Restarting,
    Stopped,
}

/// What a handle currently shows: a plain number, or the tri-valued
/// running state (rendered as 1, 0.5 and 0 by the exposition layer).
#[derive(Clone, Copy, PartialEq, Eq, Structural, Debug)]
pub enum MetricValue {
    Num(u128),
    State(RunState),
}

/// One live handle: a metric, the label that scopes it to an entity, and its
/// current value.
pub struct RegistryEntry {
    pub metric: MetricName,
    pub label: String,
    pub value: MetricValue,
}

/// The identity of a handle, as the contracts speak of it.
pub open spec fn key_of(e: RegistryEntry) -> (MetricName, Seq<char>) {
    (e.metric, e.label@)
}

/// The process-wide table of registered metric handles.
pub struct Registry {
    entries: Vec<RegistryEntry>,
}

impl Registry {
    /// The table's rows, oldest registration first.
    pub closed spec fn rows(self) -> Seq<RegistryEntry> {
        self.entries@
    }

    /// No two live handles share a key.
    pub open spec fn wf(self) -> bool {
        forall|i: int, j: int|
            0 <= i < j < self.rows().len() ==> key_of(self.rows()[i]) != key_of(self.rows()[j])
    }

    /// Whether a handle with this key is registered.
    pub open spec fn contains(self, k: (MetricName, Seq<char>)) -> bool {
        exists|i: int| 0 <= i < self.rows().len() && key_of(self.rows()[i]) == k
    }

    /// The row index of the handle with key `k`.
    pub open spec fn index_of(self, k: (MetricName, Seq<char>)) -> int {
        choose|i: int| 0 <= i < self.rows().len() && key_of(self.rows()[i]) == k
    }

    /// The value the handle with key `k` currently shows.
    pub open spec fn value_of(self, k: (MetricName, Seq<char>)) -> MetricValue {
        self.rows()[self.index_of(k)].value
    }

    proof fn lemma_row_determines(self, k: (MetricName, Seq<char>), i: int)
        requires
            self.wf(),
            0 <= i < self.rows().len(),
            key_of(self.rows()[i]) == k,
        ensures
            self.contains(k),
            self.index_of(k) == i,
            self.value_of(k) == self.rows()[i].value,
    {
        assert(self.contains(k));
        let j = self.index_of(k);
        if i < j {
            assert(key_of(self.rows()[i]) != key_of(self.rows()[j]));
        } else if j < i {
            assert(key_of(self.rows()[j]) != key_of(self.rows()[i]));
        }
    }

    /// An empty table.
    pub fn new() -> (r: Registry)
        ensures
            r.wf(),
            r.rows().len() == 0,
            forall|k: (MetricName, Seq<char>)| !r.contains(k),
    {
        Registry { entries: Vec::new() }
    }

    fn position(&self, metric: MetricName, label: &String) -> (r: Option<usize>)
        ensures
            match r {
                Some(i) => 0 <= i < self.rows().len() && key_of(self.rows()[i as int]) == (
                metric,
                label@,
                ),
                None => !self.contains((metric, label@)),
            },
    {
        let n = self.entries.len();
        for i in 0..n
            invariant
                n == self.rows().len(),
                forall|j: int| 0 <= j < i ==> key_of(self.rows()[j]) != (metric, label@),
        {
            let e = &self.entries[i];
            if e.metric == metric && e.label == *label {
                return Some(i);
            }
        }
        None
    }

    /// Registers a new handle. The caller owes a key that is not yet taken:
    /// a clash means two trackers would publish the same series, which the
    /// design treats as a programming error, not a runtime condition.
    pub fn register(&mut self, metric: MetricName, label: String, value: MetricValue)
        requires
            old(self).wf(),
            !old(self).contains((metric, label@)),
        ensures
            final(self).wf(),
            final(self).rows() == old(self).rows().push(
                RegistryEntry { metric, label, value },
            ),
            final(self).contains((metric, label@)),
            final(self).value_of((metric, label@)) == value,
            forall|k: (MetricName, Seq<char>)|
                k != (metric, label@) ==> final(self).contains(k) == old(self).contains(k),
            forall|k: (MetricName, Seq<char>)|
                k != (metric, label@) && old(self).contains(k) ==> final(self).value_of(k) == old(
                    self,
                ).value_of(k),
    {
        let ghost old_rows = self.entries@;
        let ghost lab = label@;
        self.entries.push(RegistryEntry { metric, label, value });
        proof {
            let n = self.rows().len() - 1;
            assert forall|i: int, j: int| 0 <= i < j < self.rows().len() implies key_of(
                self.rows()[i],
            ) != key_of(self.rows()[j]) by {
                if j == n {
                    if key_of(self.rows()[i]) == (metric, lab) {
                        old(self).lemma_row_determines((metric, lab), i);
                    }
                }
            }
            self.lemma_row_determines((metric, lab), n);
            assert forall|k: (MetricName, Seq<char>)| k != (metric, lab) implies self.contains(k)
                == old(self).contains(k) && (old(self).contains(k) ==> self.value_of(k) == old(
                self,
            ).value_of(k)) by {
                if old(self).contains(k) {
                    let i = old(self).index_of(k);
                    self.lemma_row_determines(k, i);
                } else if self.contains(k) {
                    let i = self.index_of(k);
                    assert(key_of(old_rows[i]) == k);
                }
            }
        }
    }

    /// Points the handle with this key at a new value. Only values move this
    /// way; registration never does.
    pub fn set_value(&mut self, metric: MetricName, label: &String, value: MetricValue)
        requires
            old(self).wf(),
            old(self).contains((metric, label@)),
        ensures
            final(self).wf(),
            final(self).rows().len() == old(self).rows().len(),
            forall|i: int|
                0 <= i < old(self).rows().len() ==> key_of(final(self).rows()[i]) == key_of(
                    old(self).rows()[i],
                ),
            forall|k: (MetricName, Seq<char>)|
                final(self).contains(k) == old(self).contains(k),
            final(self).value_of((metric, label@)) == value,
            forall|k: (MetricName, Seq<char>)|
                k != (metric, label@) && old(self).contains(k) ==> final(self).value_of(k) == old(
                    self,
                ).value_of(k),
    {
        let ghost lab = label@;
        let pos = self.position(metric, label);
        match pos {
            Some(i) => {
                let e = &mut self.entries[i];
                e.value = value;
                proof {
                    assert forall|k: (MetricName, Seq<char>)| self.contains(k) == old(
                        self,
                    ).contains(k) by {
                        if old(self).contains(k) {
                            let w = old(self).index_of(k);
                            assert(key_of(self.rows()[w]) == k);
                        } else if self.contains(k) {
                            let w = self.index_of(k);
                            assert(key_of(old(self).rows()[w]) == k);
                        }
                    }
                    self.lemma_row_determines((metric, lab), i as int);
                    assert forall|k: (MetricName, Seq<char>)|
                        k != (metric, lab) && old(self).contains(k) implies self.value_of(k) == old(
                        self,
                    ).value_of(k) by {
                        let w = old(self).index_of(k);
                        old(self).lemma_row_determines(k, w);
                        self.lemma_row_determines(k, w);
                    }
                }
            },
            None => {
                proof {
                    assert(false);
                }
            },
        }
    }

    /// Removes the handle with this key, if it is registered; removing a key
    /// the table has already lost is not an error.
    pub fn unregister(&mut self, metric: MetricName, label: &String)
        requires
            old(self).wf(),
        ensures
            final(self).wf(),
            !final(self).contains((metric, label@)),
            forall|k: (MetricName, Seq<char>)|
                k != (metric, label@) ==> final(self).contains(k) == old(self).contains(k),
            forall|k: (MetricName, Seq<char>)|
                k != (metric, label@) && old(self).contains(k) ==> final(self).value_of(k) == old(
                    self,
                ).value_of(k),
            !old(self).contains((metric, label@)) ==> final(self).rows() == old(self).rows(),
    {
        let ghost lab = label@;
        let pos = self.position(metric, label);
        match pos {
            Some(i) => {
                self.entries.remove(i);
                proof {
                    let orows = old(self).rows();
                    assert forall|x: int, y: int|
                        0 <= x < y < self.rows().len() implies key_of(self.rows()[x]) != key_of(
                        self.rows()[y],
                    ) by {
                        let ox: int = if x < i { x } else { x + 1 };
                        let oy: int = if y < i { y } else { y + 1 };
                        assert(self.rows()[x] == orows[ox]);
                        assert(self.rows()[y] == orows[oy]);
                    }
                    assert forall|k: (MetricName, Seq<char>)|
                        k != (metric, lab) implies self.contains(k) == old(self).contains(k) && (
                        old(self).contains(k) ==> self.value_of(k) == old(self).value_of(k)) by {
                        if old(self).contains(k) {
                            let w = old(self).index_of(k);
                            old(self).lemma_row_determines(k, w);
                            let nw: int = if w < i { w } else { w - 1 };
                            assert(self.rows()[nw] == orows[w]);
                            self.lemma_row_determines(k, nw);
                        } else {
                            if self.contains(k) {
                                let w = self.index_of(k);
                                let ow: int = if w < i { w } else { w + 1 };
                                assert(key_of(orows[ow]) == k);
                            }
                        }
                    }
                    if self.contains((metric, lab)) {
                        let w = self.index_of((metric, lab));
                        let ow: int = if w < i { w } else { w + 1 };
                        assert(key_of(orows[ow]) == (metric, lab));
                        old(self).lemma_row_determines((metric, lab), ow);
                        old(self).lemma_row_determines((metric, lab), i as int);
                    }
                }
            },
            None => (),
        }
    }

    /// The value the handle with this key shows, if it is registered.
    pub fn get(&self, metric: MetricName, label: &String) -> (r: Option<MetricValue>)
        requires
            self.wf(),
        ensures
            r == if self.contains((metric, label@)) {
                Some(self.value_of((metric, label@)))
            } else {
                Option::<MetricValue>::None
            },
    {
        let pos = self.position(metric, label);
        match pos {
            Some(i) => {
                proof {
                    self.lemma_row_determines((metric, label@), i as int);
                }
                Some(self.entries[i].value)
            },
            None => None,
        }
    }

    /// How many handles are registered.
    pub fn len(&self) -> (r: usize)
        ensures
            r == self.rows().len(),
    {
        self.entries.len()
    }

    /// The row at an index, for the exposition layer to walk.
    pub fn row_at(&self, i: usize) -> (e: &RegistryEntry)
        requires
            i < self.rows().len(),
        ensures
            *e == self.rows()[i as int],
    {
        &self.entries[i]
    }
}

/// Which histogram bucket a probe duration in milliseconds falls into: the
/// upper bounds double from one second up to sixty-four, and the last bucket
/// takes everything beyond.
pub open spec fn bucket_of(ms: u64) -> int {
    if ms <= 1000 {
        0
    } else if ms <= 2000 {
        1
    } else if ms <= 4000 {
        2
    } else if ms <= 8000 {
        3
    } else if ms <= 16000 {
        4
    } else if ms <= 32000 {
        5
    } else if ms <= 64000 {
        6
    } else {
        7
    }
}

/// The distribution of probe durations, in milliseconds.
pub struct Histogram {
    counts: Vec<u64>,
    total_ms: u128,
}

impl Histogram {
    /// Seven doubling buckets and one overflow bucket.
    pub open spec fn wf(self) -> bool {
        self.bucket_counts().len() == 8
    }

    /// How many observations each bucket has taken.
    pub closed spec fn bucket_counts(self) -> Seq<u64> {
        self.counts@
    }

    /// The sum of all observed durations.
    pub closed spec fn total_millis(self) -> u128 {
        self.total_ms
    }

    /// An empty distribution.
    pub fn new() -> (r: Histogram)
        ensures
            r.wf(),
            r.total_millis() == 0,
            forall|i: int| 0 <= i < 8 ==> r.bucket_counts()[i] == 0,
            r.bucket_counts().len() == 8,
    {
        let mut counts: Vec<u64> = Vec::new();
        for i in 0..8usize
            invariant
                counts@.len() == i,
                forall|j: int| 0 <= j < i ==> counts@[j] == 0,
        {
            counts.push(0);
        }
        Histogram { counts, total_ms: 0 }
    }

    /// Takes one observed duration into the distribution. Counts saturate
    /// rather than wrap.
    pub fn observe(&mut self, ms: u64)
        requires
            old(self).wf(),
        ensures
            final(self).wf(),
            final(self).bucket_counts() == old(self).bucket_counts().update(
                bucket_of(ms),
                old(self).bucket_counts()[bucket_of(ms)].saturating_add(1),
            ),
            final(self).total_millis() == old(self).total_millis().saturating_add(ms as u128),
    {
        let b: usize = if ms <= 1000 {
            0
        } else if ms <= 2000 {
            1
        } else if ms <= 4000 {
            2
        } else if ms <= 8000 {
            3
        } else if ms <= 16000 {
            4
        } else if ms <= 32000 {
            5
        } else if ms <= 64000 {
            6
        } else {
            7
        };
        let c = self.counts[b];
        self.counts[b] = c.saturating_add(1);
        self.total_ms = self.total_ms.saturating_add(ms as u128);
    }

    /// One bucket's count, for the exposition layer.
    pub fn bucket_count(&self, i: usize) -> (r: u64)
        requires
            self.wf(),
            i < 8,
        ensures
            r == self.bucket_counts()[i as int],
    {
        self.counts[i]
    }

    /// The sum of all observed durations, for the exposition layer.
    pub fn total(&self) -> (r: u128)
        ensures
            r == self.total_millis(),
    {
        self.total_ms
    }
}

} // verus!
