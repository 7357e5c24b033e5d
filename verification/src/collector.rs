//! The reconciler: keeps each tracker collection congruent with the latest
//! snapshot, drives refreshes, and accounts for probe failures.

use crate::config::Config;
use crate::docker::{Container, ContainerProbe, Image, Snapshot, Volume};
use crate::metrics::{Histogram, MetricName, MetricValue, Registry};
use crate::docker::rfc3339_seconds;
use crate::trackers::{
    ContainerTracker, ImageTracker, VolumeTracker, container_keys_free, display_name,
    handles_init, handles_kept, image_label, init_container_value, is_container_metric,
    is_image_metric, is_volume_metric, run_state_of, usage_frozen, usage_init, usage_refreshed,
    wf_display,
};
use vstd::prelude::*;

verus! {

/// Whether some listed container carries this identifier.
pub open spec fn has_container_id(listed: Seq<Container>, id: Seq<char>) -> bool {
    exists|j: int| 0 <= j < listed.len() && listed[j].id@ == id
}

/// Whether some tracker in the collection tracks this identifier.
pub open spec fn tracked_id(ts: Seq<ContainerTracker>, id: Seq<char>) -> bool {
    exists|x: int| 0 <= x < ts.len() && ts[x].id@ == id
}

/// Whether some tracker in the collection publishes under this label.
pub open spec fn tracked_label(ts: Seq<ContainerTracker>, l: Seq<char>) -> bool {
    exists|x: int| 0 <= x < ts.len() && ts[x].label_chars() == l
}

/// Whether some listed volume carries this name.
pub open spec fn has_volume_name(listed: Seq<Volume>, n: Seq<char>) -> bool {
    exists|j: int| 0 <= j < listed.len() && listed[j].name@ == n
}

/// Whether some volume tracker tracks this name.
pub open spec fn tracked_volume(ts: Seq<VolumeTracker>, n: Seq<char>) -> bool {
    exists|x: int| 0 <= x < ts.len() && ts[x].name@ == n
}

/// Whether some listed image carries this identifier.
pub open spec fn has_image_id(listed: Seq<Image>, id: Seq<char>) -> bool {
    exists|j: int| 0 <= j < listed.len() && listed[j].id@ == id
}

/// Whether some image tracker tracks this identifier.
pub open spec fn tracked_image_id(ts: Seq<ImageTracker>, id: Seq<char>) -> bool {
    exists|x: int| 0 <= x < ts.len() && ts[x].id@ == id
}

/// Whether some image tracker publishes under this label.
pub open spec fn tracked_image_label(ts: Seq<ImageTracker>, l: Seq<char>) -> bool {
    exists|x: int| 0 <= x < ts.len() && ts[x].label_chars() == l
}

/// Whether `t` stands, as it is, among the first `hi` volume trackers.
pub open spec fn volume_from(ts: Seq<VolumeTracker>, t: VolumeTracker, hi: int) -> bool {
    exists|p: int| 0 <= p < hi && t == ts[p]
}

/// Whether `t` stands, as it is, among the first `hi` image trackers.
pub open spec fn image_from(ts: Seq<ImageTracker>, t: ImageTracker, hi: int) -> bool {
    exists|p: int| 0 <= p < hi && t == ts[p]
}

/// Whether `t` is the tracker of one of the first `hi` listed images: same
/// identifier, and the label derived from that record.
pub open spec fn image_fresh_for(listed: Seq<Image>, t: ImageTracker, hi: int) -> bool {
    exists|j: int| 0 <= j < hi && listed[j].id@ == t.id@ && t.label_chars() == image_label(listed[j])
}

/// What image reconciliation asks of a snapshot, given the standing image
/// trackers: no two distinct newcomers share a label, and a newcomer never
/// carries a surviving tracker's label.
pub open spec fn images_admissible(old_ts: Seq<ImageTracker>, listed: Seq<Image>) -> bool {
    &&& forall|i: int, j: int|
        0 <= i < listed.len() && 0 <= j < listed.len() && listed[i].id@ != listed[j].id@
            ==> image_label(listed[i]) != image_label(listed[j])
    &&& forall|x: int, j: int|
        0 <= x < old_ts.len() && 0 <= j < listed.len() && has_image_id(listed, old_ts[x].id@) && !tracked_image_id(
            old_ts,
            listed[j].id@,
        ) ==> old_ts[x].label_chars() != image_label(listed[j])
}

/// The container trackers that survive reconciliation against `listed`:
/// those whose identifier is still listed, in their standing order.
pub open spec fn survivors(
    ts: Seq<ContainerTracker>,
    listed: Seq<Container>,
) -> Seq<ContainerTracker>
    decreases ts.len(),
{
    if ts.len() == 0 {
        Seq::empty()
    } else if has_container_id(listed, ts.last().id@) {
        survivors(ts.drop_last(), listed).push(ts.last())
    } else {
        survivors(ts.drop_last(), listed)
    }
}

/// Whether `t` stands, as it is, among the first `hi` trackers of `ts`,
/// at a position whose identifier is still listed.
pub open spec fn stands_in(
    ts: Seq<ContainerTracker>,
    listed: Seq<Container>,
    t: ContainerTracker,
    hi: int,
) -> bool {
    exists|p: int| 0 <= p < hi && t == ts[p] && has_container_id(listed, ts[p].id@)
}

/// Whether `t` is the tracker of one of the first `hi` listed containers:
/// same identifier, and the label derived from that record.
pub open spec fn fresh_for(listed: Seq<Container>, t: ContainerTracker, hi: int) -> bool {
    exists|j: int|
        0 <= j < hi && listed[j].id@ == t.id@ && t.label_chars() == display_name(listed[j])
}

/// The shape container reconciliation leaves behind: survivors first, in
/// order, then one new tracker for each newly listed identifier, and the
/// tracked identifiers equal the listed identifiers exactly.
pub open spec fn containers_reconciled(
    old_ts: Seq<ContainerTracker>,
    listed: Seq<Container>,
    new_ts: Seq<ContainerTracker>,
) -> bool {
    let surv = survivors(old_ts, listed);
    &&& new_ts.len() >= surv.len()
    &&& new_ts.subrange(0, surv.len() as int) == surv
    &&& forall|x: int|
        surv.len() <= x < new_ts.len() ==> !tracked_id(old_ts, #[trigger] new_ts[x].id@)
    &&& forall|x: int|
        surv.len() <= x < new_ts.len() ==> fresh_for(
            listed,
            #[trigger] new_ts[x],
            listed.len() as int,
        )
    &&& forall|j: int| 0 <= j < listed.len() ==> tracked_id(new_ts, #[trigger] listed[j].id@)
    &&& forall|x: int| 0 <= x < new_ts.len() ==> has_container_id(listed, #[trigger] new_ts[x].id@)
}

/// What container reconciliation asks of a snapshot, given the standing
/// trackers: every listed container can be labeled, and no label clash can
/// arise - distinct newcomers carry distinct labels, and a newcomer never
/// carries a surviving tracker's label. A clash would mean publishing two
/// series under one key, which the design treats as a programming error.
pub open spec fn containers_admissible(
    old_ts: Seq<ContainerTracker>,
    listed: Seq<Container>,
) -> bool {
    &&& forall|j: int| 0 <= j < listed.len() ==> wf_display(#[trigger] listed[j])
    &&& forall|i: int, j: int|
        0 <= i < listed.len() && 0 <= j < listed.len() && listed[i].id@ != listed[j].id@
            ==> display_name(listed[i]) != display_name(listed[j])
    &&& forall|x: int, j: int|
        0 <= x < old_ts.len() && 0 <= j < listed.len() && has_container_id(
            listed,
            old_ts[x].id@,
        ) && !tracked_id(old_ts, listed[j].id@) ==> old_ts[x].label_chars() != display_name(
            listed[j],
        )
}

/// The reconciler: the live tracker collections, the registry their handles
/// live in, and the three probe-cycle summary metrics.
pub struct Collector {
    registry: Registry,
    container_count: u64,
    probe_duration: Histogram,
    probe_failures: u64,
    container_trackers: Vec<ContainerTracker>,
    volume_trackers: Vec<VolumeTracker>,
    image_trackers: Vec<ImageTracker>,
}

impl Collector {
    /// The registry holding every live handle.
    pub closed spec fn reg(self) -> Registry {
        self.registry
    }

    /// The live container trackers, in standing order.
    pub closed spec fn cts(self) -> Seq<ContainerTracker> {
        self.container_trackers@
    }

    /// The live volume trackers, in standing order.
    pub closed spec fn vts(self) -> Seq<VolumeTracker> {
        self.volume_trackers@
    }

    /// The live image trackers, in standing order.
    pub closed spec fn its(self) -> Seq<ImageTracker> {
        self.image_trackers@
    }

    /// The live-container-count summary metric.
    pub closed spec fn count(self) -> u64 {
        self.container_count
    }

    /// The probe-failure summary counter.
    pub closed spec fn failures(self) -> u64 {
        self.probe_failures
    }

    /// The probe-duration summary distribution.
    pub closed spec fn duration(self) -> Histogram {
        self.probe_duration
    }

    /// Whether a handle key belongs to one of the live trackers.
    pub open spec fn owned(self, k: (MetricName, Seq<char>)) -> bool {
        ||| (is_container_metric(k.0) && tracked_label(self.cts(), k.1))
        ||| (is_volume_metric(k.0) && tracked_volume(self.vts(), k.1))
        ||| (is_image_metric(k.0) && tracked_image_label(self.its(), k.1))
    }

    /// The reconciler's invariant: the registry holds exactly the live
    /// trackers' handles and nothing else; within each collection the
    /// identifiers and the labels are pairwise distinct; the live-count
    /// metric shows the container-tracker count; and the running-state
    /// handles only ever show a state encoding.
    pub open spec fn wf(self) -> bool {
        &&& self.reg().wf()
        &&& forall|k: (MetricName, Seq<char>)| #[trigger] self.reg().contains(k) == self.owned(k)
        &&& forall|x: int, y: int|
            0 <= x < y < self.cts().len() ==> self.cts()[x].id@ != self.cts()[y].id@
        &&& forall|x: int, y: int|
            0 <= x < y < self.cts().len() ==> self.cts()[x].label_chars()
                != self.cts()[y].label_chars()
        &&& forall|x: int, y: int|
            0 <= x < y < self.vts().len() ==> self.vts()[x].name@ != self.vts()[y].name@
        &&& forall|x: int, y: int|
            0 <= x < y < self.its().len() ==> self.its()[x].id@ != self.its()[y].id@
        &&& forall|x: int, y: int|
            0 <= x < y < self.its().len() ==> self.its()[x].label_chars()
                != self.its()[y].label_chars()
        &&& self.count() == self.cts().len()
        &&& self.duration().wf()
        &&& forall|k: (MetricName, Seq<char>)|
            #[trigger] self.reg().contains(k) && k.0 == MetricName::RunningState ==> self.reg().value_of(
                k,
            ) is State
    }

    /// The invariant only reads the registry, the tracker collections, the
    /// live count and the distribution's shape: two states that agree there
    /// are equally well formed.
    proof fn lemma_wf_same_parts(a: Collector, b: Collector)
        requires
            a.wf(),
            b.reg() == a.reg(),
            b.cts() == a.cts(),
            b.vts() == a.vts(),
            b.its() == a.its(),
            b.count() == a.count(),
            b.duration().wf(),
        ensures
            b.wf(),
    {
        assert forall|k: (MetricName, Seq<char>)| #[trigger] b.reg().contains(k) == b.owned(
            k,
        ) by {
            assert(a.reg().contains(k) == a.owned(k));
        }
        assert forall|k: (MetricName, Seq<char>)|
            #[trigger] b.reg().contains(k) && k.0 == MetricName::RunningState implies b.reg().value_of(
            k,
        ) is State by {
            assert(a.reg().contains(k) && a.reg().value_of(k) is State);
        }
    }

    /// A fresh reconciler: no trackers, no handles, zeroed summary metrics.
    pub fn new() -> (r: Collector)
        ensures
            r.wf(),
            r.cts().len() == 0,
            r.vts().len() == 0,
            r.its().len() == 0,
            r.reg().rows().len() == 0,
            r.count() == 0,
            r.failures() == 0,
            forall|i: int| 0 <= i < 8 ==> r.duration().bucket_counts()[i] == 0,
    {
        let r = Collector {
            registry: Registry::new(),
            container_count: 0,
            probe_duration: Histogram::new(),
            probe_failures: 0,
            container_trackers: Vec::new(),
            volume_trackers: Vec::new(),
            image_trackers: Vec::new(),
        };
        proof {
            assert(forall|k: (MetricName, Seq<char>)| !r.owned(k));
        }
        r
    }

    /// Read access to the registry, for the exposition layer.
    pub fn registry(&self) -> (r: &Registry)
        ensures
            *r == self.reg(),
    {
        &self.registry
    }

    /// The probe-failure counter's current value.
    pub fn failure_count(&self) -> (r: u64)
        ensures
            r == self.failures(),
    {
        self.probe_failures
    }

    /// The live-container-count metric's current value.
    pub fn live_container_count(&self) -> (r: u64)
        ensures
            r == self.count(),
    {
        self.container_count
    }

    /// The probe-duration distribution, for the exposition layer.
    pub fn probe_duration(&self) -> (r: &Histogram)
        ensures
            *r == self.duration(),
    {
        &self.probe_duration
    }

    /// The live container trackers, for the exposition layer and for tests.
    pub fn container_trackers(&self) -> (r: &Vec<ContainerTracker>)
        ensures
            r@ == self.cts(),
    {
        &self.container_trackers
    }

    /// The live volume trackers.
    pub fn volume_trackers(&self) -> (r: &Vec<VolumeTracker>)
        ensures
            r@ == self.vts(),
    {
        &self.volume_trackers
    }

    /// The live image trackers.
    pub fn image_trackers(&self) -> (r: &Vec<ImageTracker>)
        ensures
            r@ == self.its(),
    {
        &self.image_trackers
    }

    /// Takes one probe's wall-clock duration into the distribution; the
    /// cycle feeds it whatever the probe's outcome was.
    pub fn observe_probe_duration(&mut self, ms: u64)
        requires
            old(self).wf(),
        ensures
            final(self).wf(),
            final(self).duration().bucket_counts() == old(self).duration().bucket_counts().update(
                crate::metrics::bucket_of(ms),
                old(self).duration().bucket_counts()[crate::metrics::bucket_of(ms)].saturating_add(
                    1,
                ),
            ),
            final(self).duration().total_millis() == old(self).duration().total_millis().saturating_add(
                ms as u128,
            ),
            final(self).reg() == old(self).reg(),
            final(self).cts() == old(self).cts(),
            final(self).vts() == old(self).vts(),
            final(self).its() == old(self).its(),
            final(self).count() == old(self).count(),
            final(self).failures() == old(self).failures(),
    {
        self.probe_duration.observe(ms);
        proof {
            Self::lemma_wf_same_parts(*old(self), *self);
        }
    }
}

/// Every tracker whose identifier is still listed stands somewhere among
/// the survivors.
proof fn lemma_survivors_complete(ts: Seq<ContainerTracker>, listed: Seq<Container>, q: int)
    requires
        0 <= q < ts.len(),
        has_container_id(listed, ts[q].id@),
    ensures
        exists|x: int|
            0 <= x < survivors(ts, listed).len() && survivors(ts, listed)[x] == ts[q],
    decreases ts.len(),
{
    if q == ts.len() - 1 {
        assert(survivors(ts, listed).last() == ts[q]);
    } else {
        lemma_survivors_complete(ts.drop_last(), listed, q);
        let x = choose|x: int|
            0 <= x < survivors(ts.drop_last(), listed).len() && survivors(ts.drop_last(), listed)[x]
                == ts.drop_last()[q];
        assert(survivors(ts, listed)[x] == ts[q]);
    }
}

/// Each survivor stands for one distinct tracker of the collection, so a
/// collection with pairwise-distinct identifiers and labels keeps them
/// pairwise distinct among its survivors.
proof fn lemma_survivors_facts(ts: Seq<ContainerTracker>, listed: Seq<Container>)
    requires
        forall|x: int, y: int| 0 <= x < y < ts.len() ==> ts[x].id@ != ts[y].id@,
        forall|x: int, y: int| 0 <= x < y < ts.len() ==> ts[x].label_chars() != ts[y].label_chars(),
    ensures
        forall|x: int|
            0 <= x < survivors(ts, listed).len() ==> stands_in(
                ts,
                listed,
                #[trigger] survivors(ts, listed)[x],
                ts.len() as int,
            ),
        forall|x: int, y: int|
            0 <= x < y < survivors(ts, listed).len() ==> survivors(ts, listed)[x].id@ != survivors(
                ts,
                listed,
            )[y].id@,
        forall|x: int, y: int|
            0 <= x < y < survivors(ts, listed).len() ==> survivors(ts, listed)[x].label_chars()
                != survivors(ts, listed)[y].label_chars(),
    decreases ts.len(),
{
    if ts.len() > 0 {
        lemma_survivors_facts(ts.drop_last(), listed);
        assert forall|x: int|
            0 <= x < survivors(ts, listed).len() implies stands_in(
            ts,
            listed,
            #[trigger] survivors(ts, listed)[x],
            ts.len() as int,
        ) by {
            if x < survivors(ts.drop_last(), listed).len() {
                assert(survivors(ts, listed)[x] == survivors(ts.drop_last(), listed)[x]);
                assert(stands_in(
                    ts.drop_last(),
                    listed,
                    survivors(ts.drop_last(), listed)[x],
                    ts.len() - 1,
                ));
                let p = choose|p: int|
                    0 <= p < ts.len() - 1 && survivors(ts.drop_last(), listed)[x]
                        == ts.drop_last()[p] && has_container_id(listed, ts.drop_last()[p].id@);
                assert(ts.drop_last()[p] == ts[p]);
                assert(survivors(ts, listed)[x] == ts[p] && has_container_id(listed, ts[p].id@));
            } else {
                assert(has_container_id(listed, ts.last().id@));
                assert(survivors(ts, listed)[x] == ts[ts.len() - 1]);
            }
        }
        assert forall|x: int, y: int|
            0 <= x < y < survivors(ts, listed).len() implies survivors(ts, listed)[x].id@
            != survivors(ts, listed)[y].id@ && survivors(ts, listed)[x].label_chars() != survivors(
            ts,
            listed,
        )[y].label_chars() by {
            if y < survivors(ts.drop_last(), listed).len() {
                assert(survivors(ts, listed)[x] == survivors(ts.drop_last(), listed)[x]);
                assert(survivors(ts, listed)[y] == survivors(ts.drop_last(), listed)[y]);
            } else {
                assert(survivors(ts, listed)[y] == ts[ts.len() - 1]);
                assert(survivors(ts, listed)[x] == survivors(ts.drop_last(), listed)[x]);
                assert(stands_in(
                    ts.drop_last(),
                    listed,
                    survivors(ts.drop_last(), listed)[x],
                    ts.len() - 1,
                ));
                let p = choose|p: int|
                    0 <= p < ts.len() - 1 && survivors(ts.drop_last(), listed)[x]
                        == ts.drop_last()[p] && has_container_id(listed, ts.drop_last()[p].id@);
                assert(survivors(ts, listed)[x] == ts[p]);
            }
        }
    }
}

impl Collector {
    /// Brings the container-tracker collection in line with the listed
    /// containers: trackers of unlisted identifiers are released, newly
    /// listed identifiers get a fresh tracker with handles at their initial
    /// values, survivors keep their handles untouched, and the live-count
    /// metric moves to the resulting collection size.
    #[verifier::rlimit(100)]
    pub fn reconcile_containers(&mut self, listed: Vec<Container>)
        requires
            old(self).wf(),
            containers_admissible(old(self).cts(), listed@),
        ensures
            final(self).wf(),
            containers_reconciled(old(self).cts(), listed@, final(self).cts()),
            final(self).vts() == old(self).vts(),
            final(self).its() == old(self).its(),
            final(self).failures() == old(self).failures(),
            final(self).duration() == old(self).duration(),
            final(self).count() == final(self).cts().len(),
            forall|k: (MetricName, Seq<char>)|
                !is_container_metric(k.0) ==> #[trigger] final(self).reg().contains(k) == old(self).reg().contains(k),
            forall|k: (MetricName, Seq<char>)|
                !is_container_metric(k.0) && old(self).reg().contains(k)
                    ==> #[trigger] final(self).reg().value_of(k) == old(self).reg().value_of(k),
            forall|k: (MetricName, Seq<char>)|
                is_container_metric(k.0) && tracked_label(
                    survivors(old(self).cts(), listed@),
                    k.1,
                ) && old(self).reg().contains(k) ==> #[trigger] final(self).reg().contains(k)
                    && final(self).reg().value_of(k) == old(self).reg().value_of(k),
            forall|k: (MetricName, Seq<char>)|
                is_container_metric(k.0) && #[trigger] final(self).reg().contains(k)
                    && !tracked_label(survivors(old(self).cts(), listed@), k.1) ==> final(self).reg().value_of(k) == init_container_value(k.0),
    {
        let ghost orig = old(self).cts();
        let ghost glisted = listed@;
        let ghost n0 = orig.len() as int;
        let mut pending: Vec<ContainerTracker> = Vec::new();
        core::mem::swap(&mut pending, &mut self.container_trackers);
        proof {
            assert(pending@ =~= orig.subrange(0, n0));
            assert(self.cts() =~= survivors(orig.subrange(0, 0), glisted));
        }
        while pending.len() > 0
            invariant
                n0 == orig.len(),
                glisted == listed@,
                pending@.len() <= n0,
                pending@ == orig.subrange(n0 - pending@.len(), n0),
                self.cts() == survivors(orig.subrange(0, n0 - pending@.len()), glisted),
                forall|x: int|
                    0 <= x < self.cts().len() ==> stands_in(
                        orig,
                        glisted,
                        #[trigger] self.cts()[x],
                        n0 - pending@.len(),
                    ),
                forall|x: int, y: int| 0 <= x < y < n0 ==> orig[x].id@ != orig[y].id@,
                forall|x: int, y: int|
                    0 <= x < y < n0 ==> orig[x].label_chars() != orig[y].label_chars(),
                self.vts() == old(self).vts(),
                self.its() == old(self).its(),
                self.count() == old(self).count(),
                self.failures() == old(self).failures(),
                self.duration() == old(self).duration(),
                self.reg().wf(),
                forall|k: (MetricName, Seq<char>)|
                    #[trigger] self.reg().contains(k) == ((is_container_metric(k.0)
                        && tracked_label(self.cts() + pending@, k.1)) || (is_volume_metric(k.0)
                        && tracked_volume(self.vts(), k.1)) || (is_image_metric(k.0)
                        && tracked_image_label(self.its(), k.1))),
                forall|k: (MetricName, Seq<char>)|
                    #[trigger] self.reg().contains(k) ==> self.reg().value_of(k) == old(self).reg().value_of(k) && old(self).reg().contains(k),
            decreases pending@.len(),
        {
            let ghost d = n0 - pending@.len();
            let ghost pre_kept = self.cts();
            let ghost pre_pending = pending@;
            let t = pending.remove(0);
            proof {
                assert(pre_pending =~= orig.subrange(d, n0));
                assert(orig.subrange(d, n0)[0] == orig[d]);
                assert(t == pre_pending[0]);
                assert(t == orig[d]);
                assert(pending@ == pre_pending.remove(0));
                assert(pre_pending.remove(0) =~= orig.subrange(d + 1, n0));
                assert(pre_pending =~= seq![t] + pending@);
                assert(orig.subrange(0, d + 1) =~= orig.subrange(0, d).push(t));
                assert(orig.subrange(0, d + 1).drop_last() =~= orig.subrange(0, d));
                assert(orig.subrange(0, d + 1).len() == d + 1);
                assert(orig.subrange(0, d + 1).last() == orig[d]);
            }
            if listed_has_container(&listed, &t.id) {
                self.container_trackers.push(t);
                proof {
                    assert(self.cts() == survivors(orig.subrange(0, d + 1), glisted));
                    assert(self.cts() + pending@ =~= pre_kept + pre_pending);
                    assert forall|x: int|
                        0 <= x < self.cts().len() implies stands_in(
                        orig,
                        glisted,
                        #[trigger] self.cts()[x],
                        d + 1,
                    ) by {
                        if x < pre_kept.len() {
                            assert(self.cts()[x] == pre_kept[x]);
                            assert(stands_in(orig, glisted, pre_kept[x], d));
                            let p = choose|p: int|
                                0 <= p < d && pre_kept[x] == orig[p] && has_container_id(
                                    glisted,
                                    orig[p].id@,
                                );
                            assert(self.cts()[x] == orig[p]);
                        } else {
                            assert(self.cts()[x] == orig[d]);
                        }
                    }
                }
            } else {
                t.release(&mut self.registry);
                proof {
                    assert(self.cts() == survivors(orig.subrange(0, d + 1), glisted));
                    assert forall|x: int|
                        0 <= x < self.cts().len() implies stands_in(
                        orig,
                        glisted,
                        #[trigger] self.cts()[x],
                        d + 1,
                    ) by {
                        assert(self.cts()[x] == pre_kept[x]);
                        assert(stands_in(orig, glisted, pre_kept[x], d));
                        let p = choose|p: int|
                            0 <= p < d && pre_kept[x] == orig[p] && has_container_id(
                                glisted,
                                orig[p].id@,
                            );
                        assert(self.cts()[x] == orig[p]);
                    }
                    let mix_pre = pre_kept + pre_pending;
                    let mix = self.cts() + pending@;
                    assert forall|k: (MetricName, Seq<char>)|
                        #[trigger] self.reg().contains(k) == ((is_container_metric(k.0)
                            && tracked_label(mix, k.1)) || (is_volume_metric(k.0) && tracked_volume(
                            self.vts(),
                            k.1,
                        )) || (is_image_metric(k.0) && tracked_image_label(self.its(), k.1))) by {
                        if tracked_label(mix, k.1) {
                            let x = choose|x: int|
                                0 <= x < mix.len() && mix[x].label_chars() == k.1;
                            if x < pre_kept.len() {
                                assert(stands_in(orig, glisted, pre_kept[x], d));
                                let p = choose|p: int|
                                    0 <= p < d && pre_kept[x] == orig[p] && has_container_id(
                                        glisted,
                                        orig[p].id@,
                                    );
                                assert(mix[x] == orig[p]);
                                assert(orig[p].label_chars() != orig[d].label_chars());
                                assert(mix_pre[x].label_chars() == k.1);
                            } else {
                                assert(mix[x] == pending@[x - pre_kept.len()]);
                                assert(pending@[x - pre_kept.len()] == orig[x - pre_kept.len() + d
                                    + 1]);
                                assert(mix[x].label_chars() != orig[d].label_chars());
                                assert(mix_pre[x + 1] == mix[x]);
                            }
                            assert(k.1 != t.label_chars());
                            assert(tracked_label(mix_pre, k.1));
                        }
                        if self.reg().contains(k) && is_container_metric(k.0) {
                            assert(!(is_container_metric(k.0) && k.1 == t.label_chars()));
                            assert(tracked_label(mix_pre, k.1));
                            let x = choose|x: int|
                                0 <= x < mix_pre.len() && mix_pre[x].label_chars() == k.1;
                            if x < pre_kept.len() {
                                assert(mix[x] == mix_pre[x]);
                                assert(tracked_label(mix, k.1));
                            } else if x == pre_kept.len() {
                                assert(mix_pre[x] == t);
                                assert(false);
                            } else {
                                assert(mix[x - 1] == mix_pre[x]);
                                assert(tracked_label(mix, k.1));
                            }
                        }
                    }
                }
            }
        }
        proof {
            assert(orig.subrange(0, n0) =~= orig);
            assert(self.cts() + pending@ =~= self.cts());
            lemma_survivors_facts(orig, glisted);
        }
        let ghost surv = survivors(orig, glisted);
        let ghost reg1 = self.reg();
        let ghost m = glisted.len() as int;
        proof {
            assert(self.cts() == surv);
            assert(self.cts().subrange(0, surv.len() as int) =~= surv);
            assert(listed@ =~= glisted.subrange(0, m));
            assert forall|x: int|
                0 <= x < self.cts().len() implies stands_in(
                orig,
                glisted,
                #[trigger] self.cts()[x],
                n0,
            ) by {
                assert(self.cts()[x] == surv[x]);
                assert(stands_in(orig, glisted, surv[x], n0));
            }
            assert forall|x: int, y: int| 0 <= x < y < self.cts().len() implies self.cts()[x].id@
                != self.cts()[y].id@ && self.cts()[x].label_chars()
                != self.cts()[y].label_chars() by {
                assert(self.cts()[x] == surv[x] && self.cts()[y] == surv[y]);
            }
            assert forall|x: int| 0 <= x < self.cts().len() implies has_container_id(
                glisted,
                #[trigger] self.cts()[x].id@,
            ) by {
                assert(self.cts()[x] == surv[x]);
                assert(stands_in(orig, glisted, surv[x], n0));
                let p = choose|p: int|
                    0 <= p < n0 && surv[x] == orig[p] && has_container_id(glisted, orig[p].id@);
            }
            assert forall|k: (MetricName, Seq<char>)| #[trigger] reg1.contains(k) == ((
            is_container_metric(k.0) && tracked_label(surv, k.1)) || (is_volume_metric(k.0)
                && tracked_volume(self.vts(), k.1)) || (is_image_metric(k.0)
                && tracked_image_label(self.its(), k.1))) by {
                assert(reg1.contains(k) == ((is_container_metric(k.0) && tracked_label(
                    self.cts() + pending@,
                    k.1,
                )) || (is_volume_metric(k.0) && tracked_volume(self.vts(), k.1)) || (
                is_image_metric(k.0) && tracked_image_label(self.its(), k.1))));
            }
        }
        let mut adds = listed;
        while adds.len() > 0
            invariant
                n0 == orig.len(),
                m == glisted.len(),
                adds@.len() <= m,
                adds@ == glisted.subrange(m - adds@.len(), m),
                surv == survivors(orig, glisted),
                self.cts().len() >= surv.len(),
                self.cts().subrange(0, surv.len() as int) == surv,
                forall|x: int|
                    0 <= x < surv.len() ==> stands_in(orig, glisted, #[trigger] self.cts()[x], n0),
                forall|x: int|
                    surv.len() <= x < self.cts().len() ==> !tracked_id(
                        orig,
                        #[trigger] self.cts()[x].id@,
                    ),
                forall|x: int|
                    surv.len() <= x < self.cts().len() ==> fresh_for(
                        glisted,
                        #[trigger] self.cts()[x],
                        m - adds@.len(),
                    ),
                forall|j: int|
                    0 <= j < m - adds@.len() ==> tracked_id(self.cts(), #[trigger] glisted[j].id@),
                forall|x: int|
                    0 <= x < self.cts().len() ==> has_container_id(
                        glisted,
                        #[trigger] self.cts()[x].id@,
                    ),
                forall|x: int, y: int|
                    0 <= x < y < self.cts().len() ==> self.cts()[x].id@ != self.cts()[y].id@,
                forall|x: int, y: int|
                    0 <= x < y < self.cts().len() ==> self.cts()[x].label_chars()
                        != self.cts()[y].label_chars(),
                forall|x: int, y: int| 0 <= x < y < n0 ==> orig[x].id@ != orig[y].id@,
                containers_admissible(orig, glisted),
                self.vts() == old(self).vts(),
                self.its() == old(self).its(),
                self.count() == old(self).count(),
                self.failures() == old(self).failures(),
                self.duration() == old(self).duration(),
                self.reg().wf(),
                forall|k: (MetricName, Seq<char>)|
                    #[trigger] self.reg().contains(k) == ((is_container_metric(k.0)
                        && tracked_label(self.cts(), k.1)) || (is_volume_metric(k.0)
                        && tracked_volume(self.vts(), k.1)) || (is_image_metric(k.0)
                        && tracked_image_label(self.its(), k.1))),
                forall|k: (MetricName, Seq<char>)|
                    #[trigger] reg1.contains(k) ==> self.reg().contains(k) && self.reg().value_of(k)
                        == reg1.value_of(k),
                forall|k: (MetricName, Seq<char>)|
                    #[trigger] self.reg().contains(k) && !reg1.contains(k) && is_container_metric(
                        k.0,
                    ) ==> self.reg().value_of(k) == init_container_value(k.0),
                forall|k: (MetricName, Seq<char>)|
                    #[trigger] reg1.contains(k) == ((is_container_metric(k.0) && tracked_label(
                        surv,
                        k.1,
                    )) || (is_volume_metric(k.0) && tracked_volume(self.vts(), k.1)) || (
                    is_image_metric(k.0) && tracked_image_label(self.its(), k.1))),
                forall|k: (MetricName, Seq<char>)|
                    #[trigger] reg1.contains(k) ==> reg1.value_of(k) == old(self).reg().value_of(k)
                        && old(self).reg().contains(k),
            decreases adds@.len(),
        {
            let ghost d2 = m - adds@.len();
            let ghost pre_cts = self.cts();
            let ghost pre_adds = adds@;
            let c = adds.remove(0);
            proof {
                assert(pre_adds =~= glisted.subrange(d2, m));
                assert(glisted.subrange(d2, m)[0] == glisted[d2]);
                assert(c == pre_adds[0]);
                assert(c == glisted[d2]);
                assert(adds@ == pre_adds.remove(0));
                assert(pre_adds.remove(0) =~= glisted.subrange(d2 + 1, m));
                assert(has_container_id(glisted, c.id@));
            }
            let already = trackers_have_id(&self.container_trackers, &c.id);
            if already {
                proof {
                    assert forall|x: int|
                        0 <= x < surv.len() implies stands_in(
                        orig,
                        glisted,
                        #[trigger] self.cts()[x],
                        n0,
                    ) by {
                        assert(self.cts()[x] == pre_cts[x]);
                        assert(stands_in(orig, glisted, pre_cts[x], n0));
                    }
                    assert forall|x: int|
                        surv.len() <= x < self.cts().len() implies fresh_for(
                        glisted,
                        #[trigger] self.cts()[x],
                        d2 + 1,
                    ) by {
                        assert(self.cts()[x] == pre_cts[x]);
                        assert(fresh_for(glisted, pre_cts[x], d2));
                        let j = choose|j: int|
                            0 <= j < d2 && glisted[j].id@ == pre_cts[x].id@ && pre_cts[x].label_chars() == display_name(glisted[j]);
                        assert(glisted[j].id@ == self.cts()[x].id@ && self.cts()[x].label_chars()
                            == display_name(glisted[j]));
                    }
                }
            } else {
                proof {
                    if tracked_id(orig, c.id@) {
                        let q = choose|q: int| 0 <= q < n0 && orig[q].id@ == c.id@;
                        lemma_survivors_complete(orig, glisted, q);
                        let x = choose|x: int|
                            0 <= x < surv.len() && surv[x] == orig[q];
                        assert(self.cts()[x] == surv[x]);
                        assert(tracked_id(self.cts(), c.id@));
                        assert(false);
                    }
                    assert forall|x: int|
                        0 <= x < self.cts().len() implies #[trigger] self.cts()[x].label_chars()
                        != display_name(c) by {
                        if x < surv.len() {
                            assert(stands_in(orig, glisted, self.cts()[x], n0));
                            let p = choose|p: int|
                                0 <= p < n0 && self.cts()[x] == orig[p] && has_container_id(
                                    glisted,
                                    orig[p].id@,
                                );
                            assert(orig[p].label_chars() != display_name(glisted[d2]));
                        } else {
                            assert(fresh_for(glisted, self.cts()[x], d2));
                            let j = choose|j: int|
                                0 <= j < d2 && glisted[j].id@ == self.cts()[x].id@
                                    && self.cts()[x].label_chars() == display_name(glisted[j]);
                            assert(glisted[j].id@ != c.id@);
                            assert(display_name(glisted[j]) != display_name(glisted[d2]));
                        }
                    }
                    assert(!tracked_label(self.cts(), display_name(c)));
                    assert(container_keys_free(self.reg(), display_name(c)));
                }
                let ghost pre_reg = self.reg();
                let t = ContainerTracker::new(c, &mut self.registry);
                self.container_trackers.push(t);
                proof {
                    assert(self.cts() =~= pre_cts.push(t));
                    assert(self.cts().len() == pre_cts.len() + 1);
                    assert(self.cts()[pre_cts.len() as int] == t);
                    assert(self.cts().subrange(0, surv.len() as int) =~= pre_cts.subrange(
                        0,
                        surv.len() as int,
                    ));
                    assert forall|x: int| 0 <= x < pre_cts.len() implies #[trigger] self.cts()[x]
                        == pre_cts[x] by {}
                    assert forall|x: int|
                        0 <= x < surv.len() implies stands_in(
                        orig,
                        glisted,
                        #[trigger] self.cts()[x],
                        n0,
                    ) by {
                        assert(self.cts()[x] == pre_cts[x]);
                        assert(stands_in(orig, glisted, pre_cts[x], n0));
                    }
                    assert forall|x: int|
                        surv.len() <= x < self.cts().len() implies !tracked_id(
                        orig,
                        self.cts()[x].id@,
                    ) && fresh_for(glisted, #[trigger] self.cts()[x], d2 + 1) by {
                        if x < pre_cts.len() {
                            assert(self.cts()[x] == pre_cts[x]);
                            assert(fresh_for(glisted, pre_cts[x], d2));
                            let j = choose|j: int|
                                0 <= j < d2 && glisted[j].id@ == pre_cts[x].id@
                                    && pre_cts[x].label_chars() == display_name(glisted[j]);
                            assert(glisted[j].id@ == self.cts()[x].id@ && self.cts()[
                                x].label_chars() == display_name(glisted[j]));
                        } else {
                            assert(self.cts()[x] == t);
                            assert(glisted[d2].id@ == t.id@ && t.label_chars() == display_name(
                                glisted[d2],
                            ));
                        }
                    }
                    assert forall|j: int| 0 <= j < d2 + 1 implies tracked_id(
                        self.cts(),
                        #[trigger] glisted[j].id@,
                    ) by {
                        if j < d2 {
                            assert(tracked_id(pre_cts, glisted[j].id@));
                            let x = choose|x: int|
                                0 <= x < pre_cts.len() && pre_cts[x].id@ == glisted[j].id@;
                            assert(self.cts()[x] == pre_cts[x]);
                        } else {
                            assert(self.cts()[pre_cts.len() as int].id@ == glisted[d2].id@);
                        }
                    }
                    assert forall|k: (MetricName, Seq<char>)|
                        #[trigger] self.reg().contains(k) == ((is_container_metric(k.0)
                            && tracked_label(self.cts(), k.1)) || (is_volume_metric(k.0)
                            && tracked_volume(self.vts(), k.1)) || (is_image_metric(k.0)
                            && tracked_image_label(self.its(), k.1))) by {
                        if tracked_label(pre_cts, k.1) {
                            let x = choose|x: int|
                                0 <= x < pre_cts.len() && pre_cts[x].label_chars() == k.1;
                            assert(self.cts()[x].label_chars() == k.1);
                            assert(tracked_label(self.cts(), k.1));
                        }
                        if k.1 == t.label_chars() {
                            assert(self.cts()[pre_cts.len() as int].label_chars() == k.1);
                            assert(tracked_label(self.cts(), k.1));
                        }
                        if tracked_label(self.cts(), k.1) && k.1 != t.label_chars() {
                            let x = choose|x: int|
                                0 <= x < self.cts().len() && self.cts()[x].label_chars() == k.1;
                            assert(x < pre_cts.len());
                            assert(pre_cts[x].label_chars() == k.1);
                            assert(tracked_label(pre_cts, k.1));
                        }
                    }
                }
            }
        }
        proof {
            assert(glisted.subrange(0, m) =~= glisted);
        }
        let n = self.container_trackers.len();
        self.container_count = n as u64;
        proof {
            assert forall|k: (MetricName, Seq<char>)|
                !is_container_metric(k.0) implies #[trigger] self.reg().contains(k) == old(self).reg().contains(k) by {
                if old(self).reg().contains(k) {
                    assert(old(self).owned(k));
                    assert(reg1.contains(k));
                }
                if self.reg().contains(k) {
                    assert(reg1.contains(k));
                }
            }
            assert forall|k: (MetricName, Seq<char>)|
                !is_container_metric(k.0) && #[trigger] old(self).reg().contains(k) implies self.reg().value_of(k) == old(self).reg().value_of(k) by {
                assert(old(self).owned(k));
                assert(reg1.contains(k));
            }
            assert forall|k: (MetricName, Seq<char>)|
                is_container_metric(k.0) && #[trigger] self.reg().contains(k) && !tracked_label(
                    surv,
                    k.1,
                ) implies self.reg().value_of(k) == init_container_value(k.0) by {
                assert(!reg1.contains(k));
            }
            assert forall|k: (MetricName, Seq<char>)|
                is_container_metric(k.0) && tracked_label(surv, k.1) && old(self).reg().contains(
                    k,
                ) implies #[trigger] self.reg().contains(k) && self.reg().value_of(k) == old(self).reg().value_of(k) by {
                assert(reg1.contains(k));
            }
            assert forall|k: (MetricName, Seq<char>)|
                #[trigger] self.reg().contains(k) && k.0 == MetricName::RunningState implies self.reg().value_of(
                k,
            ) is State by {
                assert(is_container_metric(k.0));
                if reg1.contains(k) {
                    assert(old(self).reg().contains(k));
                    assert(old(self).reg().value_of(k) is State);
                } else {
                    assert(self.reg().value_of(k) == init_container_value(k.0));
                }
            }
        }
    }
}

impl Collector {
    /// One refresh round: every container tracker takes in the outcome of
    /// its per-container queries - each through its own `update`, whose
    /// contract pins what every handle shows afterwards - and the failure
    /// counter grows by the number of refreshes that failed; by nothing
    /// when none did.
    #[verifier::rlimit(100)]
    pub fn refresh_containers(&mut self, probes: &Vec<ContainerProbe>)
        requires
            old(self).wf(),
        ensures
            final(self).wf(),
            final(self).cts() == old(self).cts(),
            final(self).vts() == old(self).vts(),
            final(self).its() == old(self).its(),
            final(self).count() == old(self).count(),
            final(self).duration() == old(self).duration(),
            final(self).failures() == counter_add(
                old(self).failures(),
                fail_count(old(self).cts(), probes@),
            ),
            forall|k: (MetricName, Seq<char>)|
                #[trigger] final(self).reg().contains(k) == old(self).reg().contains(k),
            forall|x: int|
                0 <= x < old(self).cts().len() ==> tracker_refreshed(
                    old(self).reg(),
                    final(self).reg(),
                    #[trigger] old(self).cts()[x],
                    probes@,
                ),
            forall|k: (MetricName, Seq<char>)|
                !is_container_metric(k.0) && #[trigger] old(self).reg().contains(k) ==> final(self).reg().value_of(k) == old(self).reg().value_of(k),
    {
        let ghost r0 = self.reg();
        let ghost ts = self.cts();
        let ghost ps = probes@;
        let mut fails: u64 = 0;
        let n = self.container_trackers.len();
        proof {
            assert(ts.subrange(0, 0) =~= Seq::<ContainerTracker>::empty());
        }
        for i in 0..n
            invariant
                n == ts.len(),
                ps == probes@,
                ts == old(self).cts(),
                self.cts() == ts,
                self.vts() == old(self).vts(),
                self.its() == old(self).its(),
                self.count() == old(self).count(),
                self.duration() == old(self).duration(),
                self.failures() == old(self).failures(),
                r0 == old(self).reg(),
                r0.wf(),
                forall|x: int, y: int|
                    0 <= x < y < ts.len() ==> ts[x].label_chars() != ts[y].label_chars(),
                forall|k: (MetricName, Seq<char>)|
                    #[trigger] r0.contains(k) == old(self).owned(k),
                fails <= i,
                fails == fail_count(ts.subrange(0, i as int), ps),
                self.reg().wf(),
                forall|k: (MetricName, Seq<char>)|
                    #[trigger] self.reg().contains(k) == r0.contains(k),
                forall|x: int|
                    0 <= x < i ==> tracker_refreshed(r0, self.reg(), #[trigger] ts[x], ps),
                forall|x: int|
                    i <= x < ts.len() ==> handles_kept(
                        r0,
                        self.reg(),
                        #[trigger] ts[x].label_chars(),
                    ),
                forall|k: (MetricName, Seq<char>)|
                    !is_container_metric(k.0) && #[trigger] r0.contains(k) ==> self.reg().value_of(
                        k,
                    ) == r0.value_of(k),
                forall|k: (MetricName, Seq<char>)|
                    #[trigger] self.reg().contains(k) && k.0 == MetricName::RunningState
                        ==> self.reg().value_of(k) is State,
        {
            let ghost pre_reg = self.reg();
            let t = &self.container_trackers[i];
            proof {
                assert(ts[i as int].label_chars() == t.label_chars());
                assert(tracked_label(ts, t.label_chars()));
                assert(ts[i as int].registered(pre_reg));
            }
            let found = find_probe(probes, &t.id);
            let ok = match found {
                Some(pr) => t.update(&mut self.registry, pr.inspect.as_ref(), pr.stats.as_ref()),
                None => t.update(&mut self.registry, None, None),
            };
            if !ok {
                fails = fails + 1;
            }
            proof {
                let active = ts[i as int].label_chars();
                assert(ok == !probe_failed(ps, ts[i as int]));
                assert forall|x: int|
                    i + 1 <= x < ts.len() implies handles_kept(
                    r0,
                    self.reg(),
                    #[trigger] ts[x].label_chars(),
                ) by {
                    assert(handles_kept(r0, pre_reg, ts[x].label_chars()));
                    assert(ts[x].label_chars() != active);
                    assert(tracked_label(ts, ts[x].label_chars()));
                    assert(ts[x].registered(pre_reg));
                    lemma_frozen_step(pre_reg, self.reg(), ts[x], active);
                    lemma_kept_trans(r0, pre_reg, self.reg(), ts[x].label_chars());
                }
                assert(tracker_refreshed(r0, self.reg(), ts[i as int], ps)) by {
                    assert(handles_kept(r0, pre_reg, active));
                }
                assert forall|x: int|
                    0 <= x < i + 1 implies tracker_refreshed(r0, self.reg(), #[trigger] ts[x], ps) by {
                    if x < i {
                        assert(tracker_refreshed(r0, pre_reg, ts[x], ps));
                        assert(ts[x].label_chars() != active);
                        assert(tracked_label(ts, ts[x].label_chars()));
                        assert(ts[x].registered(pre_reg));
                        lemma_frozen_step(pre_reg, self.reg(), ts[x], active);
                        lemma_refreshed_persists(r0, pre_reg, self.reg(), ts[x], ps);
                    }
                }
                assert(ts.subrange(0, i + 1).drop_last() =~= ts.subrange(0, i as int));
                assert(ts.subrange(0, i + 1).last() == ts[i as int]);
                assert forall|k: (MetricName, Seq<char>)|
                    #[trigger] self.reg().contains(k) && k.0 == MetricName::RunningState implies self.reg().value_of(
                    k,
                ) is State by {
                    if k.1 != active {
                        assert(pre_reg.contains(k));
                        assert(self.reg().value_of(k) == pre_reg.value_of(k));
                    }
                }
            }
        }
        proof {
            assert(ts.subrange(0, n as int) =~= ts);
        }
        self.probe_failures = self.probe_failures.saturating_add(fails);
        proof {
            assert forall|k: (MetricName, Seq<char>)| #[trigger] self.reg().contains(k)
                == self.owned(k) by {
                assert(self.reg().contains(k) == r0.contains(k));
                assert(r0.contains(k) == old(self).owned(k));
            }
        }
    }
}

impl Collector {
    /// One probe cycle against an already-fetched snapshot. A failed
    /// snapshot is a total failure: one tick of the failure counter, no
    /// tracker or handle moves, and a `false` that tells the caller the
    /// registry is stale. A successful snapshot reconciles the container
    /// trackers, refreshes each from its probe record (survivors relative
    /// to the handles they already showed, newcomers from their initial
    /// values), counts the refreshes that failed, and - where configured -
    /// reconciles the volume and image trackers too, re-reading each listed
    /// record into its tracker's handles; a section whose switch is off
    /// keeps its trackers and handle values untouched.
    #[verifier::rlimit(100)]
    pub fn update(
        &mut self,
        config: &Config,
        snap: Option<Snapshot>,
        probes: &Vec<ContainerProbe>,
    ) -> (ok: bool)
        requires
            old(self).wf(),
            match snap {
                Some(s) => containers_admissible(old(self).cts(), s.containers@) && (
                config.collect_image_metrics ==> images_admissible(old(self).its(), s.images@)),
                None => true,
            },
        ensures
            final(self).wf(),
            final(self).duration() == old(self).duration(),
            match snap {
                None => {
                    &&& !ok
                    &&& final(self).cts() == old(self).cts()
                    &&& final(self).vts() == old(self).vts()
                    &&& final(self).its() == old(self).its()
                    &&& final(self).reg().rows() == old(self).reg().rows()
                    &&& final(self).count() == old(self).count()
                    &&& final(self).failures() == counter_add(old(self).failures(), 1)
                },
                Some(s) => {
                    &&& ok
                    &&& containers_reconciled(old(self).cts(), s.containers@, final(self).cts())
                    &&& final(self).count() == final(self).cts().len()
                    &&& final(self).failures() == counter_add(
                        old(self).failures(),
                        fail_count(final(self).cts(), probes@),
                    )
                    &&& forall|x: int|
                        0 <= x < survivors(old(self).cts(), s.containers@).len()
                            ==> tracker_refreshed(
                            old(self).reg(),
                            final(self).reg(),
                            #[trigger] final(self).cts()[x],
                            probes@,
                        )
                    &&& forall|x: int|
                        survivors(old(self).cts(), s.containers@).len() <= x < final(self).cts().len()
                            ==> fresh_tracker_refreshed(
                            final(self).reg(),
                            #[trigger] final(self).cts()[x],
                            probes@,
                        )
                    &&& config.collect_volume_metrics ==> forall|n: Seq<char>|
                        #[trigger] tracked_volume(final(self).vts(), n) == has_volume_name(
                            s.volumes@,
                            n,
                        )
                    &&& config.collect_volume_metrics ==> forall|j: int|
                        #![trigger s.volumes@[j]]
                        0 <= j < s.volumes@.len() && (forall|j2: int|
                            j < j2 < s.volumes@.len() ==> s.volumes@[j2].name@
                                != s.volumes@[j].name@) ==> final(self).reg().value_of(
                            (MetricName::VolumeSize, s.volumes@[j].name@),
                        ) == MetricValue::Num(s.volumes@[j].usage_data.size as u128) && final(self).reg().value_of(
                            (MetricName::VolumeRefCount, s.volumes@[j].name@),
                        ) == MetricValue::Num(s.volumes@[j].usage_data.ref_count as u128)
                    &&& !config.collect_volume_metrics ==> final(self).vts() == old(self).vts()
                    &&& !config.collect_volume_metrics ==> forall|k: (MetricName, Seq<char>)|
                        is_volume_metric(k.0) ==> #[trigger] final(self).reg().contains(k) == old(
                            self,
                        ).reg().contains(k) && (old(self).reg().contains(k) ==> final(self).reg().value_of(
                            k,
                        ) == old(self).reg().value_of(k))
                    &&& config.collect_image_metrics ==> forall|id: Seq<char>|
                        #[trigger] tracked_image_id(final(self).its(), id) == has_image_id(
                            s.images@,
                            id,
                        )
                    &&& config.collect_image_metrics ==> forall|x: int, j: int|
                        #![trigger final(self).its()[x], s.images@[j]]
                        0 <= x < final(self).its().len() && 0 <= j < s.images@.len()
                            && s.images@[j].id@ == final(self).its()[x].id@ && (forall|j2: int|
                            j < j2 < s.images@.len() ==> s.images@[j2].id@ != s.images@[j].id@)
                            ==> final(self).reg().value_of(
                            (MetricName::ImageContainerCount, final(self).its()[x].label_chars()),
                        ) == MetricValue::Num(s.images@[j].containers as u128) && final(self).reg().value_of(
                            (MetricName::ImageSize, final(self).its()[x].label_chars()),
                        ) == MetricValue::Num(s.images@[j].size as u128)
                    &&& !config.collect_image_metrics ==> final(self).its() == old(self).its()
                    &&& !config.collect_image_metrics ==> forall|k: (MetricName, Seq<char>)|
                        is_image_metric(k.0) ==> #[trigger] final(self).reg().contains(k) == old(
                            self,
                        ).reg().contains(k) && (old(self).reg().contains(k) ==> final(self).reg().value_of(
                            k,
                        ) == old(self).reg().value_of(k))
                },
            },
    {
        match snap {
            None => {
                self.probe_failures = self.probe_failures.saturating_add(1);
                proof {
                    Self::lemma_wf_same_parts(*old(self), *self);
                }
                false
            },
            Some(s) => {
                let Snapshot { containers, volumes, images } = s;
                let ghost gcs = containers@;
                let ghost gvols = volumes@;
                let ghost gimgs = images@;
                let ghost surv = survivors(old(self).cts(), gcs);
                self.reconcile_containers(containers);
                let ghost c1 = *self;
                proof {
                    lemma_survivors_facts(old(self).cts(), gcs);
                    assert forall|x: int|
                        0 <= x < surv.len() implies handles_kept(
                        old(self).reg(),
                        c1.reg(),
                        #[trigger] c1.cts()[x].label_chars(),
                    ) && c1.cts()[x].registered(old(self).reg()) by {
                        let t = c1.cts()[x];
                        assert(t == surv[x]);
                        assert(stands_in(old(self).cts(), gcs, surv[x], old(self).cts().len() as int));
                        let p = choose|p: int|
                            0 <= p < old(self).cts().len() && surv[x] == old(self).cts()[p]
                                && has_container_id(gcs, old(self).cts()[p].id@);
                        assert(tracked_label(old(self).cts(), t.label_chars()));
                        assert(t.registered(old(self).reg()));
                        assert(tracked_label(surv, t.label_chars()));
                        assert(old(self).reg().contains((MetricName::CpuUsed, t.label_chars())));
                        assert(old(self).reg().contains((MetricName::CpuCapacity, t.label_chars())));
                        assert(old(self).reg().contains((MetricName::MemoryUsed, t.label_chars())));
                        assert(old(self).reg().contains((MetricName::RestartCount, t.label_chars())));
                        assert(old(self).reg().contains((MetricName::RunningState, t.label_chars())));
                        assert(old(self).reg().contains((MetricName::StartTime, t.label_chars())));
                        assert(old(self).reg().contains((MetricName::NetworkIn, t.label_chars())));
                        assert(old(self).reg().contains((MetricName::NetworkOut, t.label_chars())));
                        assert(old(self).reg().contains((MetricName::DiskRead, t.label_chars())));
                        assert(old(self).reg().contains((MetricName::DiskWrite, t.label_chars())));
                        assert(tracked_label(c1.cts(), t.label_chars()));
                        assert(c1.reg().contains((MetricName::CpuUsed, t.label_chars())));
                        assert(c1.reg().contains((MetricName::CpuCapacity, t.label_chars())));
                        assert(c1.reg().contains((MetricName::MemoryUsed, t.label_chars())));
                        assert(c1.reg().contains((MetricName::RestartCount, t.label_chars())));
                        assert(c1.reg().contains((MetricName::RunningState, t.label_chars())));
                        assert(c1.reg().contains((MetricName::StartTime, t.label_chars())));
                        assert(c1.reg().contains((MetricName::NetworkIn, t.label_chars())));
                        assert(c1.reg().contains((MetricName::NetworkOut, t.label_chars())));
                        assert(c1.reg().contains((MetricName::DiskRead, t.label_chars())));
                        assert(c1.reg().contains((MetricName::DiskWrite, t.label_chars())));
                    }
                    assert forall|x: int|
                        surv.len() <= x < c1.cts().len() implies handles_init(
                        c1.reg(),
                        #[trigger] c1.cts()[x].label_chars(),
                    ) by {
                        let t = c1.cts()[x];
                        assert forall|y: int|
                            0 <= y < surv.len() implies surv[y].label_chars()
                            != t.label_chars() by {
                            assert(c1.cts()[y] == surv[y]);
                        }
                        assert(!tracked_label(surv, t.label_chars()));
                        assert(tracked_label(c1.cts(), t.label_chars()));
                        assert(c1.reg().contains((MetricName::CpuUsed, t.label_chars())));
                        assert(c1.reg().contains((MetricName::CpuCapacity, t.label_chars())));
                        assert(c1.reg().contains((MetricName::MemoryUsed, t.label_chars())));
                        assert(c1.reg().contains((MetricName::RestartCount, t.label_chars())));
                        assert(c1.reg().contains((MetricName::RunningState, t.label_chars())));
                        assert(c1.reg().contains((MetricName::StartTime, t.label_chars())));
                        assert(c1.reg().contains((MetricName::NetworkIn, t.label_chars())));
                        assert(c1.reg().contains((MetricName::NetworkOut, t.label_chars())));
                        assert(c1.reg().contains((MetricName::DiskRead, t.label_chars())));
                        assert(c1.reg().contains((MetricName::DiskWrite, t.label_chars())));
                    }
                }
                self.refresh_containers(probes);
                let ghost c2 = *self;
                if config.collect_volume_metrics {
                    self.reconcile_volumes(volumes);
                }
                let ghost c3 = *self;
                if config.collect_image_metrics {
                    self.reconcile_images(images);
                }
                proof {
                    assert forall|x: int|
                        0 <= x < c2.cts().len() implies handles_kept(
                        c2.reg(),
                        self.reg(),
                        #[trigger] c2.cts()[x].label_chars(),
                    ) by {
                        let l = c2.cts()[x].label_chars();
                        assert(tracked_label(c2.cts(), l));
                        assert(c2.reg().contains((MetricName::CpuUsed, l)));
                        assert(c2.reg().contains((MetricName::CpuCapacity, l)));
                        assert(c2.reg().contains((MetricName::MemoryUsed, l)));
                        assert(c2.reg().contains((MetricName::RestartCount, l)));
                        assert(c2.reg().contains((MetricName::RunningState, l)));
                        assert(c2.reg().contains((MetricName::StartTime, l)));
                        assert(c2.reg().contains((MetricName::NetworkIn, l)));
                        assert(c2.reg().contains((MetricName::NetworkOut, l)));
                        assert(c2.reg().contains((MetricName::DiskRead, l)));
                        assert(c2.reg().contains((MetricName::DiskWrite, l)));
                        assert(c3.reg().contains((MetricName::CpuUsed, l)));
                        assert(c3.reg().contains((MetricName::CpuCapacity, l)));
                        assert(c3.reg().contains((MetricName::MemoryUsed, l)));
                        assert(c3.reg().contains((MetricName::RestartCount, l)));
                        assert(c3.reg().contains((MetricName::RunningState, l)));
                        assert(c3.reg().contains((MetricName::StartTime, l)));
                        assert(c3.reg().contains((MetricName::NetworkIn, l)));
                        assert(c3.reg().contains((MetricName::NetworkOut, l)));
                        assert(c3.reg().contains((MetricName::DiskRead, l)));
                        assert(c3.reg().contains((MetricName::DiskWrite, l)));
                        lemma_kept_trans(c2.reg(), c3.reg(), self.reg(), l);
                    }
                    assert forall|x: int|
                        0 <= x < surv.len() implies tracker_refreshed(
                        old(self).reg(),
                        self.reg(),
                        #[trigger] self.cts()[x],
                        probes@,
                    ) by {
                        let t = self.cts()[x];
                        assert(t == surv[x] && t == c1.cts()[x] && t == c2.cts()[x]);
                        assert(tracker_refreshed(c1.reg(), c2.reg(), t, probes@));
                        lemma_refreshed_pre_transfer(old(self).reg(), c1.reg(), c2.reg(), t, probes@);
                        assert(handles_kept(c2.reg(), self.reg(), t.label_chars()));
                        lemma_refreshed_persists(old(self).reg(), c2.reg(), self.reg(), t, probes@);
                    }
                    assert forall|x: int|
                        surv.len() <= x < self.cts().len() implies fresh_tracker_refreshed(
                        self.reg(),
                        #[trigger] self.cts()[x],
                        probes@,
                    ) by {
                        let t = self.cts()[x];
                        assert(t == c1.cts()[x] && t == c2.cts()[x]);
                        assert(tracker_refreshed(c1.reg(), c2.reg(), t, probes@));
                        assert(handles_init(c1.reg(), t.label_chars()));
                        lemma_refreshed_from_init(c1.reg(), c2.reg(), t, probes@);
                        assert(handles_kept(c2.reg(), self.reg(), t.label_chars()));
                        lemma_fresh_refreshed_persists(c2.reg(), self.reg(), t, probes@);
                    }
                    if config.collect_volume_metrics {
                        assert forall|j: int|
                            #![trigger gvols[j]]
                            0 <= j < gvols.len() && (forall|j2: int|
                                j < j2 < gvols.len() ==> gvols[j2].name@ != gvols[j].name@) implies self.reg().value_of(
                            (MetricName::VolumeSize, gvols[j].name@),
                        ) == MetricValue::Num(gvols[j].usage_data.size as u128) && self.reg().value_of(
                            (MetricName::VolumeRefCount, gvols[j].name@),
                        ) == MetricValue::Num(gvols[j].usage_data.ref_count as u128) by {
                            assert(tracked_volume(c3.vts(), gvols[j].name@));
                            assert(c3.reg().contains((MetricName::VolumeSize, gvols[j].name@)));
                            assert(c3.reg().contains((MetricName::VolumeRefCount, gvols[j].name@)));
                        }
                    }
                }
                true
            },
        }
    }
}

/// Every collection whose identifiers are all still listed survives
/// reconciliation unchanged.
proof fn lemma_survivors_all(ts: Seq<ContainerTracker>, listed: Seq<Container>)
    requires
        forall|x: int| 0 <= x < ts.len() ==> has_container_id(listed, #[trigger] ts[x].id@),
    ensures
        survivors(ts, listed) == ts,
    decreases ts.len(),
{
    if ts.len() > 0 {
        lemma_survivors_all(ts.drop_last(), listed);
        assert(survivors(ts, listed) =~= ts);
    } else {
        assert(survivors(ts, listed) =~= ts);
    }
}

/// Reconciling the container trackers twice against one snapshot does all
/// its work the first time: the second reconciliation keeps the collection
/// exactly as it stands and neither registers nor unregisters any handle.
pub proof fn lemma_reconcile_idempotent(
    a: Collector,
    b: Collector,
    c: Collector,
    listed: Seq<Container>,
)
    requires
        a.wf(),
        b.wf(),
        c.wf(),
        containers_reconciled(a.cts(), listed, b.cts()),
        containers_reconciled(b.cts(), listed, c.cts()),
        c.vts() == b.vts(),
        c.its() == b.its(),
    ensures
        c.cts() == b.cts(),
        forall|k: (MetricName, Seq<char>)|
            #[trigger] c.reg().contains(k) == b.reg().contains(k),
{
    lemma_survivors_all(b.cts(), listed);
    assert(c.cts().subrange(0, b.cts().len() as int) == b.cts());
    if c.cts().len() > b.cts().len() {
        let x = b.cts().len() as int;
        assert(has_container_id(listed, c.cts()[x].id@));
        let j = choose|j: int| 0 <= j < listed.len() && listed[j].id@ == c.cts()[x].id@;
        assert(tracked_id(b.cts(), listed[j].id@));
        assert(!tracked_id(b.cts(), c.cts()[x].id@));
        assert(false);
    }
    assert(c.cts() =~= b.cts());
    assert forall|k: (MetricName, Seq<char>)| #[trigger] c.reg().contains(k) == b.reg().contains(
        k,
    ) by {
        assert(c.reg().contains(k) == c.owned(k));
        assert(b.reg().contains(k) == b.owned(k));
    }
}

impl Collector {
    /// Brings the volume-tracker collection in line with the listed
    /// volumes: trackers of unlisted names are released; each listed volume
    /// updates its standing tracker in place, or gets a fresh one whose
    /// construction takes the first reading.
    #[verifier::rlimit(100)]
    pub fn reconcile_volumes(&mut self, listed: Vec<Volume>)
        requires
            old(self).wf(),
        ensures
            final(self).wf(),
            final(self).cts() == old(self).cts(),
            final(self).its() == old(self).its(),
            final(self).count() == old(self).count(),
            final(self).failures() == old(self).failures(),
            final(self).duration() == old(self).duration(),
            forall|n: Seq<char>|
                #[trigger] tracked_volume(final(self).vts(), n) == has_volume_name(listed@, n),
            forall|j: int|
                #![trigger listed@[j]]
                0 <= j < listed@.len() && (forall|j2: int|
                    j < j2 < listed@.len() ==> listed@[j2].name@ != listed@[j].name@) ==> final(self).reg().value_of((MetricName::VolumeSize, listed@[j].name@)) == MetricValue::Num(
                    listed@[j].usage_data.size as u128,
                ) && final(self).reg().value_of((MetricName::VolumeRefCount, listed@[j].name@))
                    == MetricValue::Num(listed@[j].usage_data.ref_count as u128),
            forall|k: (MetricName, Seq<char>)|
                !is_volume_metric(k.0) ==> #[trigger] final(self).reg().contains(k) == old(self).reg().contains(k),
            forall|k: (MetricName, Seq<char>)|
                !is_volume_metric(k.0) && old(self).reg().contains(k)
                    ==> #[trigger] final(self).reg().value_of(k) == old(self).reg().value_of(k),
    {
        let ghost orig = old(self).vts();
        let ghost glisted = listed@;
        let ghost n0 = orig.len() as int;
        let mut pending: Vec<VolumeTracker> = Vec::new();
        core::mem::swap(&mut pending, &mut self.volume_trackers);
        proof {
            assert(pending@ =~= orig.subrange(0, n0));
        }
        while pending.len() > 0
            invariant
                n0 == orig.len(),
                glisted == listed@,
                pending@.len() <= n0,
                pending@ == orig.subrange(n0 - pending@.len(), n0),
                forall|x: int|
                    0 <= x < self.vts().len() ==> volume_from(
                        orig,
                        #[trigger] self.vts()[x],
                        n0 - pending@.len(),
                    ) && has_volume_name(glisted, self.vts()[x].name@),
                forall|p: int|
                    0 <= p < n0 - pending@.len() && has_volume_name(
                        glisted,
                        #[trigger] orig[p].name@,
                    ) ==> tracked_volume(self.vts(), orig[p].name@),
                forall|x: int, y: int| 0 <= x < y < n0 ==> orig[x].name@ != orig[y].name@,
                forall|x: int, y: int|
                    0 <= x < y < self.vts().len() ==> self.vts()[x].name@ != self.vts()[y].name@,
                self.cts() == old(self).cts(),
                self.its() == old(self).its(),
                self.count() == old(self).count(),
                self.failures() == old(self).failures(),
                self.duration() == old(self).duration(),
                self.reg().wf(),
                forall|k: (MetricName, Seq<char>)|
                    #[trigger] self.reg().contains(k) == ((is_container_metric(k.0)
                        && tracked_label(self.cts(), k.1)) || (is_volume_metric(k.0)
                        && tracked_volume(self.vts() + pending@, k.1)) || (is_image_metric(k.0)
                        && tracked_image_label(self.its(), k.1))),
                forall|k: (MetricName, Seq<char>)|
                    #[trigger] self.reg().contains(k) ==> self.reg().value_of(k) == old(self).reg().value_of(k) && old(self).reg().contains(k),
            decreases pending@.len(),
        {
            let ghost d = n0 - pending@.len();
            let ghost pre_kept = self.vts();
            let ghost pre_pending = pending@;
            let t = pending.remove(0);
            proof {
                assert(pre_pending =~= orig.subrange(d, n0));
                assert(orig.subrange(d, n0)[0] == orig[d]);
                assert(t == pre_pending[0]);
                assert(t == orig[d]);
                assert(pending@ == pre_pending.remove(0));
                assert(pre_pending.remove(0) =~= orig.subrange(d + 1, n0));
                assert(pre_pending =~= seq![t] + pending@);
            }
            if listed_has_volume(&listed, &t.name) {
                self.volume_trackers.push(t);
                proof {
                    assert(self.vts() + pending@ =~= pre_kept + pre_pending);
                    assert forall|x: int|
                        0 <= x < self.vts().len() implies volume_from(
                        orig,
                        #[trigger] self.vts()[x],
                        d + 1,
                    ) && has_volume_name(glisted, self.vts()[x].name@) by {
                        if x < pre_kept.len() {
                            assert(self.vts()[x] == pre_kept[x]);
                            assert(volume_from(orig, pre_kept[x], d));
                            let p = choose|p: int| 0 <= p < d && pre_kept[x] == orig[p];
                            assert(self.vts()[x] == orig[p]);
                        } else {
                            assert(self.vts()[x] == orig[d]);
                        }
                    }
                    assert forall|p: int|
                        0 <= p < d + 1 && has_volume_name(
                            glisted,
                            #[trigger] orig[p].name@,
                        ) implies tracked_volume(self.vts(), orig[p].name@) by {
                        if p < d {
                            assert(tracked_volume(pre_kept, orig[p].name@));
                            let x = choose|x: int|
                                0 <= x < pre_kept.len() && pre_kept[x].name@ == orig[p].name@;
                            assert(self.vts()[x].name@ == orig[p].name@);
                        } else {
                            assert(self.vts()[pre_kept.len() as int].name@ == orig[d].name@);
                        }
                    }
                }
            } else {
                t.release(&mut self.registry);
                proof {
                    let mix_pre = pre_kept + pre_pending;
                    let mix = self.vts() + pending@;
                    assert forall|x: int|
                        0 <= x < self.vts().len() implies volume_from(
                        orig,
                        #[trigger] self.vts()[x],
                        d + 1,
                    ) && has_volume_name(glisted, self.vts()[x].name@) by {
                        assert(self.vts()[x] == pre_kept[x]);
                        assert(volume_from(orig, pre_kept[x], d));
                        let p = choose|p: int| 0 <= p < d && pre_kept[x] == orig[p];
                        assert(self.vts()[x] == orig[p]);
                    }
                    assert forall|k: (MetricName, Seq<char>)|
                        #[trigger] self.reg().contains(k) == ((is_container_metric(k.0)
                            && tracked_label(self.cts(), k.1)) || (is_volume_metric(k.0)
                            && tracked_volume(mix, k.1)) || (is_image_metric(k.0)
                            && tracked_image_label(self.its(), k.1))) by {
                        if tracked_volume(mix, k.1) {
                            let x = choose|x: int| 0 <= x < mix.len() && mix[x].name@ == k.1;
                            if x < pre_kept.len() {
                                assert(volume_from(orig, pre_kept[x], d));
                                let p = choose|p: int| 0 <= p < d && pre_kept[x] == orig[p];
                                assert(mix[x] == orig[p]);
                                assert(orig[p].name@ != orig[d].name@);
                                assert(mix_pre[x].name@ == k.1);
                            } else {
                                assert(mix[x] == pending@[x - pre_kept.len()]);
                                assert(pending@[x - pre_kept.len()] == orig[x - pre_kept.len() + d
                                    + 1]);
                                assert(mix[x].name@ != orig[d].name@);
                                assert(mix_pre[x + 1] == mix[x]);
                            }
                            assert(k.1 != t.name@);
                            assert(tracked_volume(mix_pre, k.1));
                        }
                        if self.reg().contains(k) && is_volume_metric(k.0) {
                            assert(!(is_volume_metric(k.0) && k.1 == t.name@));
                            assert(tracked_volume(mix_pre, k.1));
                            let x = choose|x: int|
                                0 <= x < mix_pre.len() && mix_pre[x].name@ == k.1;
                            if x < pre_kept.len() {
                                assert(mix[x] == mix_pre[x]);
                                assert(tracked_volume(mix, k.1));
                            } else if x == pre_kept.len() {
                                assert(mix_pre[x] == t);
                                assert(false);
                            } else {
                                assert(mix[x - 1] == mix_pre[x]);
                                assert(tracked_volume(mix, k.1));
                            }
                        }
                    }
                }
            }
        }
        proof {
            assert(orig.subrange(0, n0) =~= orig);
            assert(self.vts() + pending@ =~= self.vts());
        }
        let ghost m = glisted.len() as int;
        let ghost reg1 = self.reg();
        let ghost vts1 = self.vts();
        proof {
            assert(listed@ =~= glisted.subrange(0, m));
        }
        let mut adds = listed;
        while adds.len() > 0
            invariant
                n0 == orig.len(),
                m == glisted.len(),
                adds@.len() <= m,
                adds@ == glisted.subrange(m - adds@.len(), m),
                forall|x: int|
                    0 <= x < self.vts().len() ==> has_volume_name(
                        glisted,
                        #[trigger] self.vts()[x].name@,
                    ) || tracked_volume(vts1, self.vts()[x].name@),
                forall|x: int|
                    0 <= x < vts1.len() ==> tracked_volume(self.vts(), #[trigger] vts1[x].name@),
                forall|x: int|
                    0 <= x < self.vts().len() ==> tracked_volume(
                        vts1,
                        #[trigger] self.vts()[x].name@,
                    ) || (exists|j: int|
                        0 <= j < m - adds@.len() && glisted[j].name@ == self.vts()[x].name@),
                forall|j: int|
                    0 <= j < m - adds@.len() ==> tracked_volume(
                        self.vts(),
                        #[trigger] glisted[j].name@,
                    ),
                forall|j: int|
                    #![trigger glisted[j]]
                    0 <= j < m - adds@.len() && (forall|j2: int|
                        j < j2 < m - adds@.len() ==> glisted[j2].name@ != glisted[j].name@)
                        ==> self.reg().value_of((MetricName::VolumeSize, glisted[j].name@))
                        == MetricValue::Num(glisted[j].usage_data.size as u128) && self.reg().value_of(
                        (MetricName::VolumeRefCount, glisted[j].name@),
                    ) == MetricValue::Num(glisted[j].usage_data.ref_count as u128),
                forall|x: int|
                    0 <= x < vts1.len() ==> has_volume_name(glisted, #[trigger] vts1[x].name@),
                forall|x: int, y: int|
                    0 <= x < y < self.vts().len() ==> self.vts()[x].name@ != self.vts()[y].name@,
                self.cts() == old(self).cts(),
                self.its() == old(self).its(),
                self.count() == old(self).count(),
                self.failures() == old(self).failures(),
                self.duration() == old(self).duration(),
                self.reg().wf(),
                forall|k: (MetricName, Seq<char>)|
                    #[trigger] self.reg().contains(k) == ((is_container_metric(k.0)
                        && tracked_label(self.cts(), k.1)) || (is_volume_metric(k.0)
                        && tracked_volume(self.vts(), k.1)) || (is_image_metric(k.0)
                        && tracked_image_label(self.its(), k.1))),
                forall|k: (MetricName, Seq<char>)|
                    !is_volume_metric(k.0) ==> #[trigger] self.reg().contains(k) == reg1.contains(k)
                        && (reg1.contains(k) ==> self.reg().value_of(k) == reg1.value_of(k)),
                forall|k: (MetricName, Seq<char>)|
                    #[trigger] reg1.contains(k) ==> reg1.value_of(k) == old(self).reg().value_of(k)
                        && old(self).reg().contains(k),
                forall|k: (MetricName, Seq<char>)|
                    #[trigger] self.reg().contains(k) && k.0 == MetricName::RunningState
                        ==> self.reg().value_of(k) is State,
            decreases adds@.len(),
        {
            let ghost d2 = m - adds@.len();
            let ghost pre_vts = self.vts();
            let ghost pre_adds = adds@;
            let ghost pre_reg_step = self.reg();
            let v = adds.remove(0);
            proof {
                assert(pre_adds =~= glisted.subrange(d2, m));
                assert(glisted.subrange(d2, m)[0] == glisted[d2]);
                assert(v == pre_adds[0]);
                assert(v == glisted[d2]);
                assert(adds@ == pre_adds.remove(0));
                assert(pre_adds.remove(0) =~= glisted.subrange(d2 + 1, m));
                assert(has_volume_name(glisted, v.name@));
            }
            let pos = find_volume(&self.volume_trackers, &v.name);
            match pos {
                Some(i) => {
                    proof {
                        assert(self.vts()[i as int].name@ == v.name@);
                        assert(tracked_volume(self.vts(), v.name@));
                        assert(self.vts()[i as int].registered(self.reg()));
                    }
                    let t = &self.volume_trackers[i];
                    t.update(&mut self.registry, &v);
                    proof {
                        assert(tracked_volume(self.vts(), glisted[d2].name@));
                    }
                },
                None => {
                    proof {
                        assert(!tracked_volume(self.vts(), v.name@));
                        assert(!self.reg().contains((MetricName::VolumeSize, v.name@)));
                        assert(!self.reg().contains((MetricName::VolumeRefCount, v.name@)));
                    }
                    let t = VolumeTracker::new(v, &mut self.registry);
                    self.volume_trackers.push(t);
                    proof {
                        assert(self.vts() =~= pre_vts.push(t));
                        assert(self.vts()[pre_vts.len() as int] == t);
                        assert forall|x: int| 0 <= x < pre_vts.len() implies #[trigger] self.vts()[x]
                            == pre_vts[x] by {}
                        assert forall|x: int|
                            0 <= x < vts1.len() implies tracked_volume(
                            self.vts(),
                            #[trigger] vts1[x].name@,
                        ) by {
                            assert(tracked_volume(pre_vts, vts1[x].name@));
                            let y = choose|y: int|
                                0 <= y < pre_vts.len() && pre_vts[y].name@ == vts1[x].name@;
                            assert(self.vts()[y].name@ == vts1[x].name@);
                        }
                        assert forall|j: int|
                            0 <= j < d2 + 1 implies tracked_volume(
                            self.vts(),
                            #[trigger] glisted[j].name@,
                        ) by {
                            if j < d2 {
                                assert(tracked_volume(pre_vts, glisted[j].name@));
                                let y = choose|y: int|
                                    0 <= y < pre_vts.len() && pre_vts[y].name@ == glisted[j].name@;
                                assert(self.vts()[y].name@ == glisted[j].name@);
                            } else {
                                assert(self.vts()[pre_vts.len() as int].name@ == glisted[d2].name@);
                            }
                        }
                        assert forall|k: (MetricName, Seq<char>)|
                            #[trigger] self.reg().contains(k) == ((is_container_metric(k.0)
                                && tracked_label(self.cts(), k.1)) || (is_volume_metric(k.0)
                                && tracked_volume(self.vts(), k.1)) || (is_image_metric(k.0)
                                && tracked_image_label(self.its(), k.1))) by {
                            if tracked_volume(pre_vts, k.1) {
                                let x = choose|x: int|
                                    0 <= x < pre_vts.len() && pre_vts[x].name@ == k.1;
                                assert(self.vts()[x].name@ == k.1);
                                assert(tracked_volume(self.vts(), k.1));
                            }
                            if k.1 == t.name@ {
                                assert(self.vts()[pre_vts.len() as int].name@ == k.1);
                                assert(tracked_volume(self.vts(), k.1));
                            }
                            if tracked_volume(self.vts(), k.1) && k.1 != t.name@ {
                                let x = choose|x: int|
                                    0 <= x < self.vts().len() && self.vts()[x].name@ == k.1;
                                assert(x < pre_vts.len());
                                assert(pre_vts[x].name@ == k.1);
                                assert(tracked_volume(pre_vts, k.1));
                            }
                        }
                    }
                },
            }
            proof {
                let ghost pre_reg2 = pre_reg_step;
                assert forall|j: int|
                    #![trigger glisted[j]]
                    0 <= j < d2 + 1 && (forall|j2: int|
                        j < j2 < d2 + 1 ==> glisted[j2].name@ != glisted[j].name@) implies self.reg().value_of(
                    (MetricName::VolumeSize, glisted[j].name@),
                ) == MetricValue::Num(glisted[j].usage_data.size as u128) && self.reg().value_of(
                    (MetricName::VolumeRefCount, glisted[j].name@),
                ) == MetricValue::Num(glisted[j].usage_data.ref_count as u128) by {
                    if j == d2 {
                        assert(self.reg().value_of((MetricName::VolumeSize, v.name@))
                            == MetricValue::Num(v.usage_data.size as u128));
                    } else {
                        assert(glisted[d2].name@ != glisted[j].name@);
                        assert forall|j2: int| j < j2 < d2 implies glisted[j2].name@ != glisted[j].name@ by {}
                        assert(pre_reg2.value_of((MetricName::VolumeSize, glisted[j].name@))
                            == MetricValue::Num(glisted[j].usage_data.size as u128));
                        assert(tracked_volume(pre_vts, glisted[j].name@));
                        assert(pre_reg2.contains((MetricName::VolumeSize, glisted[j].name@)));
                        assert(pre_reg2.contains((MetricName::VolumeRefCount, glisted[j].name@)));
                    }
                }
            }
        }
        proof {
            assert(glisted.subrange(0, m) =~= glisted);
            assert forall|k: (MetricName, Seq<char>)|
                !is_volume_metric(k.0) implies #[trigger] self.reg().contains(k) == old(self).reg().contains(k) by {
                if old(self).reg().contains(k) {
                    assert(old(self).owned(k));
                    assert(reg1.contains(k));
                }
                if self.reg().contains(k) {
                    assert(reg1.contains(k));
                }
            }
            assert forall|k: (MetricName, Seq<char>)|
                !is_volume_metric(k.0) && #[trigger] old(self).reg().contains(k) implies self.reg().value_of(k) == old(self).reg().value_of(k) by {
                assert(old(self).owned(k));
                assert(reg1.contains(k));
                assert(self.reg().contains(k));
            }
            assert forall|n: Seq<char>| #[trigger] tracked_volume(self.vts(), n)
                == has_volume_name(glisted, n) by {
                if tracked_volume(self.vts(), n) {
                    let x = choose|x: int| 0 <= x < self.vts().len() && self.vts()[x].name@ == n;
                    if !has_volume_name(glisted, n) {
                        assert(tracked_volume(vts1, n));
                        let y = choose|y: int| 0 <= y < vts1.len() && vts1[y].name@ == n;
                        assert(has_volume_name(glisted, vts1[y].name@));
                        assert(false);
                    }
                }
                if has_volume_name(glisted, n) {
                    let j = choose|j: int| 0 <= j < m && glisted[j].name@ == n;
                    assert(tracked_volume(self.vts(), glisted[j].name@));
                }
            }
        }
    }
}

impl Collector {
    /// Brings the image-tracker collection in line with the listed images:
    /// trackers of unlisted identifiers are released; each listed image
    /// updates its standing tracker in place, or gets a fresh one whose
    /// construction takes the first reading.
    #[verifier::rlimit(100)]
    pub fn reconcile_images(&mut self, listed: Vec<Image>)
        requires
            old(self).wf(),
            images_admissible(old(self).its(), listed@),
        ensures
            final(self).wf(),
            final(self).cts() == old(self).cts(),
            final(self).vts() == old(self).vts(),
            final(self).count() == old(self).count(),
            final(self).failures() == old(self).failures(),
            final(self).duration() == old(self).duration(),
            forall|id: Seq<char>|
                #[trigger] tracked_image_id(final(self).its(), id) == has_image_id(listed@, id),
            forall|x: int, j: int|
                #![trigger final(self).its()[x], listed@[j]]
                0 <= x < final(self).its().len() && 0 <= j < listed@.len() && listed@[j].id@
                    == final(self).its()[x].id@ && (forall|j2: int|
                    j < j2 < listed@.len() ==> listed@[j2].id@ != listed@[j].id@) ==> final(self).reg().value_of(
                    (MetricName::ImageContainerCount, final(self).its()[x].label_chars()),
                ) == MetricValue::Num(listed@[j].containers as u128) && final(self).reg().value_of(
                    (MetricName::ImageSize, final(self).its()[x].label_chars()),
                ) == MetricValue::Num(listed@[j].size as u128),
            forall|k: (MetricName, Seq<char>)|
                !is_image_metric(k.0) ==> #[trigger] final(self).reg().contains(k) == old(self).reg().contains(k),
            forall|k: (MetricName, Seq<char>)|
                !is_image_metric(k.0) && old(self).reg().contains(k)
                    ==> #[trigger] final(self).reg().value_of(k) == old(self).reg().value_of(k),
    {
        let ghost orig = old(self).its();
        let ghost glisted = listed@;
        let ghost n0 = orig.len() as int;
        let mut pending: Vec<ImageTracker> = Vec::new();
        core::mem::swap(&mut pending, &mut self.image_trackers);
        proof {
            assert(pending@ =~= orig.subrange(0, n0));
        }
        while pending.len() > 0
            invariant
                n0 == orig.len(),
                glisted == listed@,
                pending@.len() <= n0,
                pending@ == orig.subrange(n0 - pending@.len(), n0),
                forall|x: int|
                    0 <= x < self.its().len() ==> image_from(
                        orig,
                        #[trigger] self.its()[x],
                        n0 - pending@.len(),
                    ) && has_image_id(glisted, self.its()[x].id@),
                forall|p: int|
                    0 <= p < n0 - pending@.len() && has_image_id(glisted, #[trigger] orig[p].id@)
                        ==> tracked_image_id(self.its(), orig[p].id@),
                forall|x: int, y: int| 0 <= x < y < n0 ==> orig[x].id@ != orig[y].id@,
                forall|x: int, y: int|
                    0 <= x < y < n0 ==> orig[x].label_chars() != orig[y].label_chars(),
                forall|x: int, y: int|
                    0 <= x < y < self.its().len() ==> self.its()[x].id@ != self.its()[y].id@,
                forall|x: int, y: int|
                    0 <= x < y < self.its().len() ==> self.its()[x].label_chars() != self.its()[y].label_chars(),
                self.cts() == old(self).cts(),
                self.vts() == old(self).vts(),
                self.count() == old(self).count(),
                self.failures() == old(self).failures(),
                self.duration() == old(self).duration(),
                self.reg().wf(),
                forall|k: (MetricName, Seq<char>)|
                    #[trigger] self.reg().contains(k) == ((is_container_metric(k.0)
                        && tracked_label(self.cts(), k.1)) || (is_volume_metric(k.0)
                        && tracked_volume(self.vts(), k.1)) || (is_image_metric(k.0)
                        && tracked_image_label(self.its() + pending@, k.1))),
                forall|k: (MetricName, Seq<char>)|
                    #[trigger] self.reg().contains(k) ==> self.reg().value_of(k) == old(self).reg().value_of(k) && old(self).reg().contains(k),
            decreases pending@.len(),
        {
            let ghost d = n0 - pending@.len();
            let ghost pre_kept = self.its();
            let ghost pre_pending = pending@;
            let t = pending.remove(0);
            proof {
                assert(pre_pending =~= orig.subrange(d, n0));
                assert(orig.subrange(d, n0)[0] == orig[d]);
                assert(t == pre_pending[0]);
                assert(t == orig[d]);
                assert(pending@ == pre_pending.remove(0));
                assert(pre_pending.remove(0) =~= orig.subrange(d + 1, n0));
                assert(pre_pending =~= seq![t] + pending@);
            }
            if listed_has_image(&listed, &t.id) {
                self.image_trackers.push(t);
                proof {
                    assert(self.its() + pending@ =~= pre_kept + pre_pending);
                    assert forall|x: int|
                        0 <= x < self.its().len() implies image_from(
                        orig,
                        #[trigger] self.its()[x],
                        d + 1,
                    ) && has_image_id(glisted, self.its()[x].id@) by {
                        if x < pre_kept.len() {
                            assert(self.its()[x] == pre_kept[x]);
                            assert(image_from(orig, pre_kept[x], d));
                            let p = choose|p: int| 0 <= p < d && pre_kept[x] == orig[p];
                            assert(self.its()[x] == orig[p]);
                        } else {
                            assert(self.its()[x] == orig[d]);
                        }
                    }
                    assert forall|p: int|
                        0 <= p < d + 1 && has_image_id(
                            glisted,
                            #[trigger] orig[p].id@,
                        ) implies tracked_image_id(self.its(), orig[p].id@) by {
                        if p < d {
                            assert(tracked_image_id(pre_kept, orig[p].id@));
                            let x = choose|x: int|
                                0 <= x < pre_kept.len() && pre_kept[x].id@ == orig[p].id@;
                            assert(self.its()[x].id@ == orig[p].id@);
                        } else {
                            assert(self.its()[pre_kept.len() as int].id@ == orig[d].id@);
                        }
                    }
                    assert forall|x: int, y: int|
                        0 <= x < y < self.its().len() implies self.its()[x].id@ != self.its()[y].id@
                        && self.its()[x].label_chars() != self.its()[y].label_chars() by {
                        if y == pre_kept.len() {
                            assert(image_from(orig, pre_kept[x], d));
                            let p = choose|p: int| 0 <= p < d && pre_kept[x] == orig[p];
                            assert(self.its()[x] == orig[p]);
                            assert(self.its()[y] == orig[d]);
                        } else {
                            assert(self.its()[x] == pre_kept[x] && self.its()[y] == pre_kept[y]);
                        }
                    }
                }
            } else {
                t.release(&mut self.registry);
                proof {
                    let mix_pre = pre_kept + pre_pending;
                    let mix = self.its() + pending@;
                    assert forall|x: int|
                        0 <= x < self.its().len() implies image_from(
                        orig,
                        #[trigger] self.its()[x],
                        d + 1,
                    ) && has_image_id(glisted, self.its()[x].id@) by {
                        assert(self.its()[x] == pre_kept[x]);
                        assert(image_from(orig, pre_kept[x], d));
                        let p = choose|p: int| 0 <= p < d && pre_kept[x] == orig[p];
                        assert(self.its()[x] == orig[p]);
                    }
                    assert forall|k: (MetricName, Seq<char>)|
                        #[trigger] self.reg().contains(k) == ((is_container_metric(k.0)
                            && tracked_label(self.cts(), k.1)) || (is_volume_metric(k.0)
                            && tracked_volume(self.vts(), k.1)) || (is_image_metric(k.0)
                            && tracked_image_label(mix, k.1))) by {
                        if tracked_image_label(mix, k.1) {
                            let x = choose|x: int|
                                0 <= x < mix.len() && mix[x].label_chars() == k.1;
                            if x < pre_kept.len() {
                                assert(image_from(orig, pre_kept[x], d));
                                let p = choose|p: int| 0 <= p < d && pre_kept[x] == orig[p];
                                assert(mix[x] == orig[p]);
                                assert(orig[p].label_chars() != orig[d].label_chars());
                                assert(mix_pre[x].label_chars() == k.1);
                            } else {
                                assert(mix[x] == pending@[x - pre_kept.len()]);
                                assert(pending@[x - pre_kept.len()] == orig[x - pre_kept.len() + d
                                    + 1]);
                                assert(mix[x].label_chars() != orig[d].label_chars());
                                assert(mix_pre[x + 1] == mix[x]);
                            }
                            assert(k.1 != t.label_chars());
                            assert(tracked_image_label(mix_pre, k.1));
                        }
                        if self.reg().contains(k) && is_image_metric(k.0) {
                            assert(!(is_image_metric(k.0) && k.1 == t.label_chars()));
                            assert(tracked_image_label(mix_pre, k.1));
                            let x = choose|x: int|
                                0 <= x < mix_pre.len() && mix_pre[x].label_chars() == k.1;
                            if x < pre_kept.len() {
                                assert(mix[x] == mix_pre[x]);
                                assert(tracked_image_label(mix, k.1));
                            } else if x == pre_kept.len() {
                                assert(mix_pre[x] == t);
                                assert(false);
                            } else {
                                assert(mix[x - 1] == mix_pre[x]);
                                assert(tracked_image_label(mix, k.1));
                            }
                        }
                    }
                }
            }
        }
        proof {
            assert(orig.subrange(0, n0) =~= orig);
            assert(self.its() + pending@ =~= self.its());
        }
        let ghost m = glisted.len() as int;
        let ghost reg1 = self.reg();
        let ghost its1 = self.its();
        proof {
            assert(listed@ =~= glisted.subrange(0, m));
        }
        let mut adds = listed;
        while adds.len() > 0
            invariant
                n0 == orig.len(),
                m == glisted.len(),
                adds@.len() <= m,
                adds@ == glisted.subrange(m - adds@.len(), m),
                images_admissible(orig, glisted),
                forall|x: int, y: int| 0 <= x < y < n0 ==> orig[x].id@ != orig[y].id@,
                forall|x: int|
                    0 <= x < self.its().len() ==> has_image_id(
                        glisted,
                        #[trigger] self.its()[x].id@,
                    ),
                forall|x: int|
                    0 <= x < self.its().len() ==> image_from(orig, #[trigger] self.its()[x], n0)
                        || image_fresh_for(glisted, self.its()[x], m - adds@.len()),
                forall|p: int|
                    0 <= p < n0 && has_image_id(glisted, #[trigger] orig[p].id@)
                        ==> tracked_image_id(self.its(), orig[p].id@),
                forall|j: int|
                    0 <= j < m - adds@.len() ==> tracked_image_id(
                        self.its(),
                        #[trigger] glisted[j].id@,
                    ),
                forall|x: int, j: int|
                    #![trigger self.its()[x], glisted[j]]
                    0 <= x < self.its().len() && 0 <= j < m - adds@.len() && glisted[j].id@
                        == self.its()[x].id@ && (forall|j2: int|
                        j < j2 < m - adds@.len() ==> glisted[j2].id@ != glisted[j].id@)
                        ==> self.reg().value_of(
                        (MetricName::ImageContainerCount, self.its()[x].label_chars()),
                    ) == MetricValue::Num(glisted[j].containers as u128) && self.reg().value_of(
                        (MetricName::ImageSize, self.its()[x].label_chars()),
                    ) == MetricValue::Num(glisted[j].size as u128),
                forall|x: int, y: int|
                    0 <= x < y < self.its().len() ==> self.its()[x].id@ != self.its()[y].id@,
                forall|x: int, y: int|
                    0 <= x < y < self.its().len() ==> self.its()[x].label_chars() != self.its()[y].label_chars(),
                self.cts() == old(self).cts(),
                self.vts() == old(self).vts(),
                self.count() == old(self).count(),
                self.failures() == old(self).failures(),
                self.duration() == old(self).duration(),
                self.reg().wf(),
                forall|k: (MetricName, Seq<char>)|
                    #[trigger] self.reg().contains(k) == ((is_container_metric(k.0)
                        && tracked_label(self.cts(), k.1)) || (is_volume_metric(k.0)
                        && tracked_volume(self.vts(), k.1)) || (is_image_metric(k.0)
                        && tracked_image_label(self.its(), k.1))),
                forall|k: (MetricName, Seq<char>)|
                    !is_image_metric(k.0) ==> #[trigger] self.reg().contains(k) == reg1.contains(k)
                        && (reg1.contains(k) ==> self.reg().value_of(k) == reg1.value_of(k)),
                forall|k: (MetricName, Seq<char>)|
                    #[trigger] reg1.contains(k) ==> reg1.value_of(k) == old(self).reg().value_of(k)
                        && old(self).reg().contains(k),
                forall|k: (MetricName, Seq<char>)|
                    #[trigger] self.reg().contains(k) && k.0 == MetricName::RunningState
                        ==> self.reg().value_of(k) is State,
            decreases adds@.len(),
        {
            let ghost d2 = m - adds@.len();
            let ghost pre_its = self.its();
            let ghost pre_adds = adds@;
            let ghost pre_reg_step = self.reg();
            let im = adds.remove(0);
            proof {
                assert(pre_adds =~= glisted.subrange(d2, m));
                assert(glisted.subrange(d2, m)[0] == glisted[d2]);
                assert(im == pre_adds[0]);
                assert(im == glisted[d2]);
                assert(adds@ == pre_adds.remove(0));
                assert(pre_adds.remove(0) =~= glisted.subrange(d2 + 1, m));
                assert(has_image_id(glisted, im.id@));
            }
            let pos = find_image(&self.image_trackers, &im.id);
            match pos {
                Some(i) => {
                    proof {
                        assert(self.its()[i as int].id@ == im.id@);
                        assert(tracked_image_label(self.its(), self.its()[i as int].label_chars()));
                        assert(self.its()[i as int].registered(self.reg()));
                    }
                    let t = &self.image_trackers[i];
                    t.update(&mut self.registry, &im);
                    proof {
                        assert(tracked_image_id(self.its(), glisted[d2].id@));
                    }
                },
                None => {
                    proof {
                        assert(!tracked_image_id(self.its(), im.id@));
                        if tracked_image_id(orig, im.id@) {
                            let q = choose|q: int| 0 <= q < n0 && orig[q].id@ == im.id@;
                            assert(tracked_image_id(self.its(), orig[q].id@));
                            assert(false);
                        }
                        assert forall|x: int|
                            0 <= x < self.its().len() implies #[trigger] self.its()[x].label_chars()
                            != image_label(im) by {
                            if image_from(orig, self.its()[x], n0) {
                                let p = choose|p: int| 0 <= p < n0 && self.its()[x] == orig[p];
                                assert(has_image_id(glisted, orig[p].id@));
                                assert(orig[p].label_chars() != image_label(glisted[d2]));
                            } else {
                                assert(image_fresh_for(glisted, self.its()[x], d2));
                                let j = choose|j: int|
                                    0 <= j < d2 && glisted[j].id@ == self.its()[x].id@
                                        && self.its()[x].label_chars() == image_label(glisted[j]);
                                assert(glisted[j].id@ != im.id@);
                                assert(image_label(glisted[j]) != image_label(glisted[d2]));
                            }
                        }
                        assert(!tracked_image_label(self.its(), image_label(im)));
                        assert(!self.reg().contains((MetricName::ImageContainerCount, image_label(im))));
                        assert(!self.reg().contains((MetricName::ImageSize, image_label(im))));
                    }
                    let t = ImageTracker::new(im, &mut self.registry);
                    self.image_trackers.push(t);
                    proof {
                        assert(self.its() =~= pre_its.push(t));
                        assert(self.its()[pre_its.len() as int] == t);
                        assert forall|x: int| 0 <= x < pre_its.len() implies #[trigger] self.its()[x]
                            == pre_its[x] by {}
                        assert forall|x: int|
                            0 <= x < self.its().len() implies image_from(
                            orig,
                            #[trigger] self.its()[x],
                            n0,
                        ) || image_fresh_for(glisted, self.its()[x], d2 + 1) by {
                            if x < pre_its.len() {
                                if image_fresh_for(glisted, pre_its[x], d2) {
                                    let j = choose|j: int|
                                        0 <= j < d2 && glisted[j].id@ == pre_its[x].id@ && pre_its[x].label_chars() == image_label(glisted[j]);
                                    assert(glisted[j].id@ == self.its()[x].id@ && self.its()[x].label_chars() == image_label(glisted[j]));
                                }
                            } else {
                                assert(self.its()[x] == t);
                                assert(glisted[d2].id@ == t.id@ && t.label_chars() == image_label(
                                    glisted[d2],
                                ));
                            }
                        }
                        assert forall|p: int|
                            0 <= p < n0 && has_image_id(
                                glisted,
                                #[trigger] orig[p].id@,
                            ) implies tracked_image_id(self.its(), orig[p].id@) by {
                            assert(tracked_image_id(pre_its, orig[p].id@));
                            let x = choose|x: int|
                                0 <= x < pre_its.len() && pre_its[x].id@ == orig[p].id@;
                            assert(self.its()[x].id@ == orig[p].id@);
                        }
                        assert forall|j: int|
                            0 <= j < d2 + 1 implies tracked_image_id(
                            self.its(),
                            #[trigger] glisted[j].id@,
                        ) by {
                            if j < d2 {
                                assert(tracked_image_id(pre_its, glisted[j].id@));
                                let x = choose|x: int|
                                    0 <= x < pre_its.len() && pre_its[x].id@ == glisted[j].id@;
                                assert(self.its()[x].id@ == glisted[j].id@);
                            } else {
                                assert(self.its()[pre_its.len() as int].id@ == glisted[d2].id@);
                            }
                        }
                        assert forall|k: (MetricName, Seq<char>)|
                            #[trigger] self.reg().contains(k) == ((is_container_metric(k.0)
                                && tracked_label(self.cts(), k.1)) || (is_volume_metric(k.0)
                                && tracked_volume(self.vts(), k.1)) || (is_image_metric(k.0)
                                && tracked_image_label(self.its(), k.1))) by {
                            if tracked_image_label(pre_its, k.1) {
                                let x = choose|x: int|
                                    0 <= x < pre_its.len() && pre_its[x].label_chars() == k.1;
                                assert(self.its()[x].label_chars() == k.1);
                                assert(tracked_image_label(self.its(), k.1));
                            }
                            if k.1 == t.label_chars() {
                                assert(self.its()[pre_its.len() as int].label_chars() == k.1);
                                assert(tracked_image_label(self.its(), k.1));
                            }
                            if tracked_image_label(self.its(), k.1) && k.1 != t.label_chars() {
                                let x = choose|x: int|
                                    0 <= x < self.its().len() && self.its()[x].label_chars() == k.1;
                                assert(x < pre_its.len());
                                assert(pre_its[x].label_chars() == k.1);
                                assert(tracked_image_label(pre_its, k.1));
                            }
                        }
                    }
                },
            }
            proof {
                assert forall|x: int, j: int|
                    #![trigger self.its()[x], glisted[j]]
                    0 <= x < self.its().len() && 0 <= j < d2 + 1 && glisted[j].id@ == self.its()[x].id@ && (forall|j2: int|
                        j < j2 < d2 + 1 ==> glisted[j2].id@ != glisted[j].id@) implies self.reg().value_of(
                    (MetricName::ImageContainerCount, self.its()[x].label_chars()),
                ) == MetricValue::Num(glisted[j].containers as u128) && self.reg().value_of(
                    (MetricName::ImageSize, self.its()[x].label_chars()),
                ) == MetricValue::Num(glisted[j].size as u128) by {
                    if j == d2 {
                        assert(self.its()[x].id@ == im.id@);
                    } else {
                        assert(glisted[d2].id@ != glisted[j].id@);
                        assert forall|j2: int| j < j2 < d2 implies glisted[j2].id@ != glisted[j].id@ by {}
                        assert(x < pre_its.len() && self.its()[x] == pre_its[x]);
                        assert(pre_reg_step.value_of(
                            (MetricName::ImageContainerCount, pre_its[x].label_chars()),
                        ) == MetricValue::Num(glisted[j].containers as u128));
                        assert(tracked_image_label(pre_its, pre_its[x].label_chars()));
                        assert(pre_reg_step.contains(
                            (MetricName::ImageContainerCount, pre_its[x].label_chars()),
                        ));
                        assert(pre_reg_step.contains(
                            (MetricName::ImageSize, pre_its[x].label_chars()),
                        ));
                    }
                }
            }
        }
        proof {
            assert(glisted.subrange(0, m) =~= glisted);
            assert forall|k: (MetricName, Seq<char>)|
                !is_image_metric(k.0) implies #[trigger] self.reg().contains(k) == old(self).reg().contains(k) by {
                if old(self).reg().contains(k) {
                    assert(old(self).owned(k));
                    assert(reg1.contains(k));
                }
                if self.reg().contains(k) {
                    assert(reg1.contains(k));
                }
            }
            assert forall|k: (MetricName, Seq<char>)|
                !is_image_metric(k.0) && #[trigger] old(self).reg().contains(k) implies self.reg().value_of(k) == old(self).reg().value_of(k) by {
                assert(old(self).owned(k));
                assert(reg1.contains(k));
                assert(self.reg().contains(k));
            }
            assert forall|id: Seq<char>| #[trigger] tracked_image_id(self.its(), id)
                == has_image_id(glisted, id) by {
                if tracked_image_id(self.its(), id) {
                    let x = choose|x: int| 0 <= x < self.its().len() && self.its()[x].id@ == id;
                    assert(has_image_id(glisted, self.its()[x].id@));
                }
                if has_image_id(glisted, id) {
                    let j = choose|j: int| 0 <= j < m && glisted[j].id@ == id;
                    assert(tracked_image_id(self.its(), glisted[j].id@));
                }
            }
        }
    }
}

/// Whether any listed image carries the identifier, decided by scan.
fn listed_has_image(listed: &Vec<Image>, id: &String) -> (r: bool)
    ensures
        r == has_image_id(listed@, id@),
{
    let n = listed.len();
    for j in 0..n
        invariant
            n == listed@.len(),
            forall|x: int| 0 <= x < j ==> listed@[x].id@ != id@,
    {
        if listed[j].id == *id {
            return true;
        }
    }
    false
}

/// The standing image tracker with this identifier, if any, by index.
fn find_image(ts: &Vec<ImageTracker>, id: &String) -> (r: Option<usize>)
    ensures
        match r {
            Some(i) => 0 <= i < ts@.len() && ts@[i as int].id@ == id@,
            None => !tracked_image_id(ts@, id@),
        },
{
    let n = ts.len();
    for x in 0..n
        invariant
            n == ts@.len(),
            forall|y: int| 0 <= y < x ==> ts@[y].id@ != id@,
    {
        if ts[x].id == *id {
            return Some(x);
        }
    }
    None
}

/// Whether any listed volume carries the name, decided by scan.
fn listed_has_volume(listed: &Vec<Volume>, name: &String) -> (r: bool)
    ensures
        r == has_volume_name(listed@, name@),
{
    let n = listed.len();
    for j in 0..n
        invariant
            n == listed@.len(),
            forall|x: int| 0 <= x < j ==> listed@[x].name@ != name@,
    {
        if listed[j].name == *name {
            return true;
        }
    }
    false
}

/// The standing volume tracker with this name, if any, by index.
fn find_volume(ts: &Vec<VolumeTracker>, name: &String) -> (r: Option<usize>)
    ensures
        match r {
            Some(i) => 0 <= i < ts@.len() && ts@[i as int].name@ == name@,
            None => !tracked_volume(ts@, name@),
        },
{
    let n = ts.len();
    for x in 0..n
        invariant
            n == ts@.len(),
            forall|y: int| 0 <= y < x ==> ts@[y].name@ != name@,
    {
        if ts[x].name == *name {
            return Some(x);
        }
    }
    None
}

/// The first probe record carrying this identifier, if any.
pub open spec fn probe_for(ps: Seq<ContainerProbe>, id: Seq<char>) -> Option<ContainerProbe>
    decreases ps.len(),
{
    if ps.len() == 0 {
        None
    } else if ps[0].id@ == id {
        Some(ps[0])
    } else {
        probe_for(ps.drop_first(), id)
    }
}

/// Whether this tracker's refresh counts as a failure: no probe record, a
/// failed detail query, or a running entity whose statistics query failed.
pub open spec fn probe_failed(ps: Seq<ContainerProbe>, t: ContainerTracker) -> bool {
    match probe_for(ps, t.id@) {
        None => true,
        Some(p) => match p.inspect {
            None => true,
            Some(ins) => ins.state.running && p.stats is None,
        },
    }
}

/// How many of the trackers' refreshes count as failures.
pub open spec fn fail_count(ts: Seq<ContainerTracker>, ps: Seq<ContainerProbe>) -> int
    decreases ts.len(),
{
    if ts.len() == 0 {
        0
    } else {
        fail_count(ts.drop_last(), ps) + if probe_failed(ps, ts.last()) {
            1int
        } else {
            0int
        }
    }
}

/// A counter's value after taking `n` more failures, saturating at the top.
pub open spec fn counter_add(a: u64, n: int) -> u64 {
    if a + n > u64::MAX {
        u64::MAX
    } else {
        (a + n) as u64
    }
}

/// What one refresh leaves of one tracker's handles, relative to the
/// registry as the refresh round found it: a failed detail query freezes all
/// ten; a successful one moves the state handles, and the usage handles move
/// only when the entity runs and its statistics query succeeded.
pub open spec fn tracker_refreshed(
    pre: Registry,
    post: Registry,
    t: ContainerTracker,
    ps: Seq<ContainerProbe>,
) -> bool {
    match probe_for(ps, t.id@) {
        None => handles_kept(pre, post, t.label_chars()),
        Some(p) => match p.inspect {
            None => handles_kept(pre, post, t.label_chars()),
            Some(ins) => {
                &&& post.value_of((MetricName::RunningState, t.label_chars()))
                    == MetricValue::State(run_state_of(ins.state))
                &&& post.value_of((MetricName::RestartCount, t.label_chars())) == MetricValue::Num(
                    ins.restart_count as u128,
                )
                &&& post.value_of((MetricName::StartTime, t.label_chars())) == match rfc3339_seconds(
                    ins.state.started_at@,
                ) {
                    Some(sec) => if sec > 0 {
                        MetricValue::Num(sec as u128)
                    } else {
                        pre.value_of((MetricName::StartTime, t.label_chars()))
                    },
                    None => pre.value_of((MetricName::StartTime, t.label_chars())),
                }
                &&& if ins.state.running {
                    match p.stats {
                        Some(st) => usage_refreshed(post, t.label_chars(), st),
                        None => usage_frozen(pre, post, t.label_chars()),
                    }
                } else {
                    usage_frozen(pre, post, t.label_chars())
                }
            },
        },
    }
}

/// What one probe cycle leaves of a newly created tracker's handles:
/// construction put them at their initial values, and the refresh moved
/// exactly the ones its queries reached.
pub open spec fn fresh_tracker_refreshed(
    post: Registry,
    t: ContainerTracker,
    ps: Seq<ContainerProbe>,
) -> bool {
    match probe_for(ps, t.id@) {
        None => handles_init(post, t.label_chars()),
        Some(p) => match p.inspect {
            None => handles_init(post, t.label_chars()),
            Some(ins) => {
                &&& post.value_of((MetricName::RunningState, t.label_chars()))
                    == MetricValue::State(run_state_of(ins.state))
                &&& post.value_of((MetricName::RestartCount, t.label_chars())) == MetricValue::Num(
                    ins.restart_count as u128,
                )
                &&& post.value_of((MetricName::StartTime, t.label_chars())) == match rfc3339_seconds(
                    ins.state.started_at@,
                ) {
                    Some(sec) => if sec > 0 {
                        MetricValue::Num(sec as u128)
                    } else {
                        MetricValue::Num(0)
                    },
                    None => MetricValue::Num(0),
                }
                &&& if ins.state.running {
                    match p.stats {
                        Some(st) => usage_refreshed(post, t.label_chars(), st),
                        None => usage_init(post, t.label_chars()),
                    }
                } else {
                    usage_init(post, t.label_chars())
                }
            },
        },
    }
}

/// A refresh that only touched another label leaves this tracker's ten
/// handles where they were.
proof fn lemma_frozen_step(pre: Registry, post: Registry, t: ContainerTracker, active: Seq<char>)
    requires
        t.label_chars() != active,
        t.registered(pre),
        forall|k: (MetricName, Seq<char>)|
            pre.contains(k) && !(k.1 == active && is_container_metric(k.0))
                ==> #[trigger] post.value_of(k) == pre.value_of(k),
    ensures
        handles_kept(pre, post, t.label_chars()),
{
}

/// Keeping handles still is transitive across refresh rounds.
proof fn lemma_kept_trans(r0: Registry, r1: Registry, r2: Registry, l: Seq<char>)
    requires
        handles_kept(r0, r1, l),
        handles_kept(r1, r2, l),
    ensures
        handles_kept(r0, r2, l),
{
}

/// A tracker's refresh outcome survives later rounds that keep its handles.
proof fn lemma_refreshed_persists(
    r0: Registry,
    pre: Registry,
    post: Registry,
    t: ContainerTracker,
    ps: Seq<ContainerProbe>,
)
    requires
        tracker_refreshed(r0, pre, t, ps),
        handles_kept(pre, post, t.label_chars()),
    ensures
        tracker_refreshed(r0, post, t, ps),
{
}

/// A refresh outcome stated against one pre-state holds against any other
/// pre-state whose handles it matched.
proof fn lemma_refreshed_pre_transfer(
    r0: Registry,
    r1: Registry,
    post: Registry,
    t: ContainerTracker,
    ps: Seq<ContainerProbe>,
)
    requires
        tracker_refreshed(r1, post, t, ps),
        handles_kept(r0, r1, t.label_chars()),
    ensures
        tracker_refreshed(r0, post, t, ps),
{
}

/// A refresh outcome over handles that started at their initial values is
/// the fresh-tracker outcome.
proof fn lemma_refreshed_from_init(
    r1: Registry,
    post: Registry,
    t: ContainerTracker,
    ps: Seq<ContainerProbe>,
)
    requires
        tracker_refreshed(r1, post, t, ps),
        handles_init(r1, t.label_chars()),
    ensures
        fresh_tracker_refreshed(post, t, ps),
{
}

/// A fresh tracker's cycle outcome survives later rounds that keep its
/// handles.
proof fn lemma_fresh_refreshed_persists(
    pre: Registry,
    post: Registry,
    t: ContainerTracker,
    ps: Seq<ContainerProbe>,
)
    requires
        fresh_tracker_refreshed(pre, t, ps),
        handles_kept(pre, post, t.label_chars()),
    ensures
        fresh_tracker_refreshed(post, t, ps),
{
}

/// The first probe record carrying the identifier, found by scan.
fn find_probe<'a>(ps: &'a Vec<ContainerProbe>, id: &String) -> (r: Option<&'a ContainerProbe>)
    ensures
        match r {
            Some(p) => probe_for(ps@, id@) == Some(*p),
            None => probe_for(ps@, id@) is None,
        },
{
    let n = ps.len();
    proof {
        assert(ps@.subrange(0, n as int) =~= ps@);
    }
    for j in 0..n
        invariant
            n == ps@.len(),
            probe_for(ps@, id@) == probe_for(ps@.subrange(j as int, n as int), id@),
    {
        let ghost tail = ps@.subrange(j as int, n as int);
        proof {
            assert(tail[0] == ps@[j as int]);
            assert(tail.drop_first() =~= ps@.subrange(j + 1, n as int));
        }
        if ps[j].id == *id {
            return Some(&ps[j]);
        }
    }
    proof {
        assert(ps@.subrange(n as int, n as int) =~= Seq::<ContainerProbe>::empty());
    }
    None
}

/// Whether any listed container carries the identifier, decided by scan.
fn listed_has_container(listed: &Vec<Container>, id: &String) -> (r: bool)
    ensures
        r == has_container_id(listed@, id@),
{
    let n = listed.len();
    for j in 0..n
        invariant
            n == listed@.len(),
            forall|x: int| 0 <= x < j ==> listed@[x].id@ != id@,
    {
        if listed[j].id == *id {
            return true;
        }
    }
    false
}

/// Whether any tracker in the collection tracks the identifier.
fn trackers_have_id(ts: &Vec<ContainerTracker>, id: &String) -> (r: bool)
    ensures
        r == tracked_id(ts@, id@),
{
    let n = ts.len();
    for x in 0..n
        invariant
            n == ts@.len(),
            forall|y: int| 0 <= y < x ==> ts@[y].id@ != id@,
    {
        if ts[x].id == *id {
            return true;
        }
    }
    false
}

} // verus!
