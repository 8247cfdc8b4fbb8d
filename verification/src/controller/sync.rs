//! Reconciling the inventory with what was discovered.

use vstd::prelude::*;

use crate::controller::{lemma_ids_after_remove, Controller};
use crate::instance::{Instance, InstanceStatus};
use crate::registry::{law_append_is_local, law_remove_is_local};
use crate::state::{lemma_take_one, VmOwnership};
use crate::text::texts;

verus! {

/// What is to be done after a discovery pass.
#[derive(Debug)]
pub enum SyncEffect {
    /// Close the client of the discovered VM at this position: the VM is tracked
    /// already.
    CloseDuplicate(usize),
    /// Keep the client of the discovered VM at this position, and tell the
    /// engine of the VM.
    Added(usize),
    /// Close the client of this VM, and tell the engine that it is gone.
    Removed(String),
}

/// The content of a [`SyncEffect`].
pub enum SyncEffectView {
    /// The discovered VM at this position is tracked already.
    CloseDuplicate(int),
    /// The discovered VM at this position is new.
    Added(int),
    /// This VM is gone.
    Removed(Seq<char>),
}

impl View for SyncEffect {
    type V = SyncEffectView;

    open spec fn view(&self) -> SyncEffectView {
        match *self {
            SyncEffect::CloseDuplicate(i) => SyncEffectView::CloseDuplicate(i as int),
            SyncEffect::Added(i) => SyncEffectView::Added(i as int),
            SyncEffect::Removed(id) => SyncEffectView::Removed(id@),
        }
    }
}

/// Outcome of a discovery pass.
#[derive(Debug)]
pub struct SyncReport {
    /// Number of VMs added.
    pub added: usize,
    /// Number of VMs removed.
    pub removed: usize,
    /// What is to be done, in order.
    pub effects: Vec<SyncEffect>,
}

/// The identifiers of discovered VMs.
pub open spec fn instance_ids(found: Seq<Instance>) -> Seq<Seq<char>> {
    found.map_values(|instance: Instance| instance.id@)
}

/// The tracked identifiers after the discovered ones were added, each once.
pub open spec fn merged(ids: Seq<Seq<char>>, found: Seq<Seq<char>>) -> Seq<Seq<char>>
    decreases found.len(),
{
    if found.len() == 0 {
        ids
    } else {
        let front = merged(ids, found.drop_last());
        if front.contains(found.last()) {
            front
        } else {
            front.push(found.last())
        }
    }
}

/// What is to be done with each discovered VM.
pub open spec fn discovery_effects(ids: Seq<Seq<char>>, found: Seq<Seq<char>>) -> Seq<SyncEffectView>
    decreases found.len(),
{
    if found.len() == 0 {
        seq![]
    } else {
        let front = discovery_effects(ids, found.drop_last());
        if merged(ids, found.drop_last()).contains(found.last()) {
            front.push(SyncEffectView::CloseDuplicate(found.len() - 1))
        } else {
            front.push(SyncEffectView::Added(found.len() - 1))
        }
    }
}

/// The identifiers that were not discovered.
pub open spec fn stale(ids: Seq<Seq<char>>, found: Seq<Seq<char>>) -> Seq<Seq<char>> {
    ids.filter(|id: Seq<char>| !found.contains(id))
}

/// The identifiers that were discovered.
pub open spec fn current(ids: Seq<Seq<char>>, found: Seq<Seq<char>>) -> Seq<Seq<char>> {
    ids.filter(|id: Seq<char>| found.contains(id))
}

/// What is to be done with the VMs that are gone.
pub open spec fn removal_effects(gone: Seq<Seq<char>>) -> Seq<SyncEffectView> {
    gone.map_values(|id: Seq<char>| SyncEffectView::Removed(id))
}

/// The content of a list of effects.
pub open spec fn effect_views(effects: Seq<SyncEffect>) -> Seq<SyncEffectView> {
    effects.map_values(|effect: SyncEffect| effect@)
}

/// A discovered VM as it enters the inventory: with its recorded classification.
pub open spec fn adopted(instance: Instance, ownership: VmOwnership) -> Instance {
    Instance {
        status: InstanceStatus {
            ownership_classification: ownership.of(instance.id@),
            ..instance.status
        },
        ..instance
    }
}

/// Whether a controller is what another one becomes by a discovery pass, and a report is
/// that of the pass.
pub open spec fn synced(
    before: Controller,
    after: Controller,
    discovered: Seq<Instance>,
    report: SyncReport,
) -> bool {
    let ids = before.instances.ids();
    let found = instance_ids(discovered);
    &&& before.wf()
    &&& after.wf()
    &&& after.same_but_instances(before)
    &&& after.instances.ids() == current(merged(ids, found), found)
    &&& report.added == merged(ids, found).len() - ids.len()
    &&& report.removed == stale(merged(ids, found), found).len()
    &&& effect_views(report.effects@) == discovery_effects(ids, found) + removal_effects(
        stale(merged(ids, found), found),
    )
    &&& forall|id: Seq<char>|
        before.instances.has(id) ==> #[trigger] after.instances.lookup(id) == if found.contains(
            id,
        ) {
            before.instances.lookup(id)
        } else {
            None
        }
    &&& forall|k: int|
        0 <= k < found.len() && !merged(ids, found.take(k)).contains(found[k])
            ==> after.instances.lookup(#[trigger] found[k]) == Some(
            adopted(discovered[k], before.vm_ownership),
        )
}

impl Controller {
    /// Take one discovered VM into the inventory, unless it is tracked already.
    fn adopt(&mut self, instance: Instance) -> (r: bool)
        requires
            old(self).wf(),
        ensures
            final(self).wf(),
            final(self).same_but_instances(*old(self)),
            r == !old(self).instances.has(instance.id@),
            !r ==> *final(self) == *old(self),
            r ==> final(self).instances.ids() == old(self).instances.ids().push(instance.id@),
            r ==> forall|other: Seq<char>|
                #![trigger final(self).instances.lookup(other)]
                final(self).instances.lookup(other) == if other == instance.id@ {
                    Some(adopted(instance, old(self).vm_ownership))
                } else {
                    old(self).instances.lookup(other)
                },
    {
        if self.instances.contains_key(instance.id.as_str()) {
            return false;
        }
        let ghost before = self.instances;
        let mut record = instance;
        record.status.ownership_classification = self.vm_ownership.classification(
            record.id.as_str(),
        );
        let id = record.id.clone();
        self.instances.insert(id, record);
        proof {
            law_append_is_local(before, self.instances, id@, record);
        }
        true
    }

    /// Drop the tracked VMs that are not among the seen ones.
    fn drop_stale(&mut self, seen: &Vec<String>) -> (r: Vec<String>)
        requires
            old(self).wf(),
        ensures
            final(self).wf(),
            final(self).same_but_instances(*old(self)),
            texts(r@) == stale(old(self).instances.ids(), texts(seen@)),
            final(self).instances.ids() == current(old(self).instances.ids(), texts(seen@)),
            forall|other: Seq<char>|
                #![trigger final(self).instances.lookup(other)]
                final(self).instances.lookup(other) == if texts(seen@).contains(other) {
                    old(self).instances.lookup(other)
                } else {
                    None
                },
    {
        let mut gone: Vec<String> = Vec::new();
        let mut kept: usize = 0;
        let ghost start = *self;
        let ghost all = self.instances.ids();
        let ghost found = texts(seen@);
        let ghost mut done: int = 0;
        proof {
            reveal(Seq::filter);
            assert(texts(gone@) =~= stale(all.take(0), found));
            assert(all.skip(0) =~= all);
            assert(current(all.take(0), found) + all.skip(0) =~= all);
        }
        while kept < self.instances.len()
            invariant
                self.wf(),
                self.same_but_instances(start),
                start == *old(self),
                start.wf(),
                all == start.instances.ids(),
                found == texts(seen@),
                0 <= done <= all.len(),
                kept == current(all.take(done), found).len(),
                self.instances.ids() == current(all.take(done), found) + all.skip(done),
                texts(gone@) == stale(all.take(done), found),
                forall|other: Seq<char>|
                    #![trigger self.instances.lookup(other)]
                    self.instances.lookup(other) == if found.contains(other)
                        || !all.take(done).contains(other) {
                        start.instances.lookup(other)
                    } else {
                        None
                    },
            decreases all.len() - done,
        {
            let id = self.instances.id_at(kept).clone();
            let ghost before = self.instances;
            let ghost front = current(all.take(done), found);
            proof {
                assert(id@ == all[done]);
                lemma_take_one(all, done);
                assert(all.take(done + 1).drop_last() =~= all.take(done));
                assert(all.take(done + 1).last() == all[done]);
                reveal(Seq::filter);
            }
            if listed_in(seen, &id) {
                proof {
                    assert(front.push(all[done]) + all.skip(done + 1) =~= front + all.skip(done));
                    assert forall|other: Seq<char>|
                        #![trigger self.instances.lookup(other)]
                        self.instances.lookup(other) == if found.contains(other) || !all.take(
                            done + 1,
                        ).contains(other) {
                            start.instances.lookup(other)
                        } else {
                            None
                        } by {}
                    done = done + 1;
                }
                kept += 1;
            } else {
                self.instances.remove(id.as_str());
                let ghost gone_before = gone@;
                gone.push(id);
                proof {
                    assert(before.ids()[kept as int] == id@);
                    assert(before.has(id@));
                    let at = before.ids().index_of(id@);
                    assert(before.ids()[at] == id@);
                    assert(at == kept);
                    law_remove_is_local(before, self.instances, id@);
                    assert(self.instances.ids() =~= front + all.skip(done + 1));
                    assert(texts(gone@) =~= texts(gone_before).push(id@));
                    lemma_ids_after_remove(before, self.instances, id@);
                    assert forall|other: Seq<char>|
                        #![trigger self.instances.lookup(other)]
                        self.instances.lookup(other) == if found.contains(other) || !all.take(
                            done + 1,
                        ).contains(other) {
                            start.instances.lookup(other)
                        } else {
                            None
                        } by {
                        assert(before.lookup(other) == before.lookup(other));
                    }
                    done = done + 1;
                }
            }
        }
        proof {
            assert(all.skip(done).len() == 0);
            assert(all.take(done) =~= all);
            assert(current(all, found) + all.skip(done) =~= current(all, found));
            assert forall|other: Seq<char>|
                #![trigger self.instances.lookup(other)]
                self.instances.lookup(other) == if found.contains(other) {
                    start.instances.lookup(other)
                } else {
                    None
                } by {}
        }
        gone
    }

    /// Take the discovered VMs into the inventory, each once, and list their
    /// identifiers and what is to be done with them.
    #[verifier::rlimit(40)]
    fn adopt_all(&mut self, discovered: Vec<Instance>) -> (r: (Vec<String>, Vec<SyncEffect>, usize))
        requires
            old(self).wf(),
        ensures
            final(self).wf(),
            final(self).same_but_instances(*old(self)),
            ({
                let ids = old(self).instances.ids();
                let found = instance_ids(discovered@);
                &&& final(self).instances.ids() == merged(ids, found)
                &&& texts(r.0@) == found
                &&& effect_views(r.1@) == discovery_effects(ids, found)
                &&& r.2 == merged(ids, found).len() - ids.len()
                &&& forall|id: Seq<char>|
                    old(self).instances.has(id) ==> #[trigger] final(self).instances.lookup(id)
                        == old(self).instances.lookup(id)
                &&& forall|k: int|
                    0 <= k < found.len() && !merged(ids, found.take(k)).contains(found[k])
                        ==> final(self).instances.lookup(#[trigger] found[k]) == Some(
                        adopted(discovered@[k], old(self).vm_ownership),
                    )
            }),
    {
        let ghost start = *self;
        let ghost ids = self.instances.ids();
        let ghost all = discovered@;
        let ghost found = instance_ids(all);
        let count: usize = discovered.len();
        let mut seen: Vec<String> = Vec::new();
        let mut effects: Vec<SyncEffect> = Vec::new();
        let mut rest = discovered;
        let mut added: usize = 0;
        let mut i: usize = 0;
        proof {
            assert(all.skip(0) =~= all);
            assert(found.take(0) =~= Seq::<Seq<char>>::empty());
            assert(texts(seen@) =~= found.take(0));
            assert(effect_views(effects@) =~= discovery_effects(ids, found.take(0)));
        }
        while i < count
            invariant
                self.wf(),
                start == *old(self),
                self.same_but_instances(start),
                ids == start.instances.ids(),
                all == discovered@,
                found == instance_ids(all),
                count == all.len(),
                i <= count,
                rest@ == all.skip(i as int),
                texts(seen@) == found.take(i as int),
                self.instances.ids() == merged(ids, found.take(i as int)),
                added == merged(ids, found.take(i as int)).len() - ids.len(),
                added <= i,
                effect_views(effects@) == discovery_effects(ids, found.take(i as int)),
                forall|id: Seq<char>|
                    start.instances.has(id) ==> #[trigger] self.instances.lookup(id)
                        == start.instances.lookup(id),
                forall|k: int|
                    0 <= k < i && !merged(ids, found.take(k)).contains(found[k])
                        ==> self.instances.lookup(#[trigger] found[k]) == Some(
                        adopted(all[k], start.vm_ownership),
                    ),
            decreases count - i,
        {
            let ghost before = *self;
            let ghost effects_before = effects@;
            let ghost seen_before = seen@;
            let instance = rest.remove(0);
            let id = instance.id.clone();
            proof {
                assert(instance == all[i as int]);
                assert(found[i as int] == instance.id@);
                assert(rest@ =~= all.skip(i + 1));
                assert(found.take(i + 1).drop_last() =~= found.take(i as int));
                assert(found.take(i + 1).last() == found[i as int]);
            }
            let new = self.adopt(instance);
            if new {
                added += 1;
                effects.push(SyncEffect::Added(i));
            } else {
                effects.push(SyncEffect::CloseDuplicate(i));
            }
            seen.push(id);
            proof {
                assert(texts(seen@) =~= texts(seen_before).push(id@));
                assert(texts(seen@) =~= found.take(i + 1));
                assert(effect_views(effects@) =~= effect_views(effects_before).push(
                    effects@.last()@,
                ));
                assert forall|other: Seq<char>| start.instances.has(
                    other,
                ) implies #[trigger] self.instances.lookup(other) == start.instances.lookup(
                    other,
                ) by {
                    assert(before.instances.lookup(other) == start.instances.lookup(other));
                }
                assert forall|k: int| 0 <= k < i + 1 && !merged(ids, found.take(k)).contains(
                    found[k],
                ) implies self.instances.lookup(#[trigger] found[k]) == Some(
                    adopted(all[k], start.vm_ownership),
                ) by {
                    if k < i {
                        assert(before.instances.lookup(found[k]) == Some(
                            adopted(all[k], start.vm_ownership),
                        ));
                        assert(before.instances.has(found[k]));
                    }
                }
            }
            i += 1;
        }
        proof {
            assert(found.take(i as int) =~= found);
        }
        (seen, effects, added)
    }

    /// Reconcile a complete discovery result with the live inventory.
    pub fn sync_instances(&mut self, discovered: Vec<Instance>) -> (r: SyncReport)
        requires
            old(self).wf(),
        ensures
            final(self).wf(),
            final(self).same_but_instances(*old(self)),
            ({
                let ids = old(self).instances.ids();
                let found = instance_ids(discovered@);
                &&& final(self).instances.ids() == current(merged(ids, found), found)
                &&& r.added == merged(ids, found).len() - ids.len()
                &&& r.removed == stale(merged(ids, found), found).len()
                &&& effect_views(r.effects@) == discovery_effects(ids, found) + removal_effects(
                    stale(merged(ids, found), found),
                )
                &&& forall|id: Seq<char>|
                    old(self).instances.has(id) ==> #[trigger] final(self).instances.lookup(id)
                        == if found.contains(id) {
                        old(self).instances.lookup(id)
                    } else {
                        None
                    }
                &&& forall|k: int|
                    0 <= k < found.len() && !merged(ids, found.take(k)).contains(found[k])
                        ==> final(self).instances.lookup(#[trigger] found[k]) == Some(
                        adopted(discovered@[k], old(self).vm_ownership),
                    )
            }),
            synced(*old(self), *final(self), discovered@, r),
    {
        let ghost start = *self;
        let ghost ids = self.instances.ids();
        let ghost all = discovered@;
        let ghost found = instance_ids(all);
        let (seen, first_effects, added): (Vec<String>, Vec<SyncEffect>, usize) = self.adopt_all(
            discovered,
        );
        let mut effects = first_effects;
        let ghost middle = *self;
        let gone = self.drop_stale(&seen);
        let removed: usize = gone.len();
        let ghost first = effects@;
        let mut k: usize = 0;
        assert(effect_views(first) + removal_effects(texts(gone@).take(0)) =~= effect_views(first));
        while k < gone.len()
            invariant
                k <= gone.len(),
                effect_views(effects@) == effect_views(first) + removal_effects(
                    texts(gone@).take(k as int),
                ),
            decreases gone.len() - k,
        {
            let ghost before = effects@;
            let id = gone[k].clone();
            effects.push(SyncEffect::Removed(id));
            proof {
                assert(texts(gone@)[k as int] == id@);
                assert(effect_views(effects@) =~= effect_views(before).push(
                    SyncEffectView::Removed(id@),
                ));
                assert(removal_effects(texts(gone@).take(k + 1)) =~= removal_effects(
                    texts(gone@).take(k as int),
                ).push(SyncEffectView::Removed(id@)));
                assert(effect_views(effects@) =~= effect_views(first) + removal_effects(
                    texts(gone@).take(k + 1),
                ));
            }
            k += 1;
        }
        proof {
            assert(texts(gone@).take(k as int) =~= texts(gone@));
            assert forall|id: Seq<char>| start.instances.has(
                id,
            ) implies #[trigger] self.instances.lookup(id) == if found.contains(id) {
                start.instances.lookup(id)
            } else {
                None
            } by {
                assert(middle.instances.lookup(id) == start.instances.lookup(id));
            }
            assert forall|k: int| 0 <= k < found.len() && !merged(ids, found.take(k)).contains(
                found[k],
            ) implies self.instances.lookup(#[trigger] found[k]) == Some(
                adopted(all[k], start.vm_ownership),
            ) by {
                assert(found.contains(found[k]));
                assert(middle.instances.lookup(found[k]) == Some(
                    adopted(all[k], start.vm_ownership),
                ));
            }
        }
        SyncReport { added, removed, effects }
    }
}

/// Whether an identifier is in a list.
fn listed_in(list: &Vec<String>, id: &String) -> (r: bool)
    ensures
        r == texts(list@).contains(id@),
{
    let ghost all = texts(list@);
    let mut i: usize = 0;
    while i < list.len()
        invariant
            i <= list.len(),
            all == texts(list@),
            forall|j: int| 0 <= j < i ==> #[trigger] all[j] != id@,
        decreases list.len() - i,
    {
        assert(all[i as int] == list@[i as int]@);
        if list[i] == *id {
            return true;
        }
        i += 1;
    }
    false
}

// ---------------------------------------------------------------------
// Laws
// ---------------------------------------------------------------------

proof fn lemma_merged_contains(ids: Seq<Seq<char>>, found: Seq<Seq<char>>)
    ensures
        forall|id: Seq<char>| #[trigger]
            merged(ids, found).contains(id) <==> ids.contains(id) || found.contains(id),
    decreases found.len(),
{
    if found.len() > 0 {
        let front = merged(ids, found.drop_last());
        lemma_merged_contains(ids, found.drop_last());
        assert(found.drop_last() =~= found.take(found.len() - 1));
        lemma_take_one(found, found.len() - 1);
        assert(found.take(found.len() as int) =~= found);
        assert forall|id: Seq<char>| #[trigger]
            merged(ids, found).contains(id) <==> ids.contains(id) || found.contains(id) by {
            assert(front.contains(id) <==> ids.contains(id) || found.drop_last().contains(id));
            if !front.contains(found.last()) {
                let longer = front.push(found.last());
                if longer.contains(id) {
                    let at = longer.index_of(id);
                    if at < front.len() {
                        assert(front[at] == id);
                    }
                }
                if front.contains(id) {
                    let at = front.index_of(id);
                    assert(longer[at] == id);
                }
                assert(longer[front.len() as int] == found.last());
            }
        }
    }
}

proof fn lemma_filter_contains(s: Seq<Seq<char>>, pred: spec_fn(Seq<char>) -> bool)
    ensures
        forall|id: Seq<char>| #[trigger] s.filter(pred).contains(id) <==> s.contains(id) && pred(id),
    decreases s.len(),
{
    reveal(Seq::filter);
    if s.len() > 0 {
        let front = s.drop_last();
        lemma_filter_contains(front, pred);
        assert(front =~= s.take(s.len() - 1));
        lemma_take_one(s, s.len() - 1);
        assert(s.take(s.len() as int) =~= s);
        let sub = front.filter(pred);
        assert forall|id: Seq<char>| #[trigger]
            s.filter(pred).contains(id) <==> s.contains(id) && pred(id) by {
            assert(sub.contains(id) <==> front.contains(id) && pred(id));
            if pred(s.last()) {
                let longer = sub.push(s.last());
                if longer.contains(id) {
                    let at = longer.index_of(id);
                    if at < sub.len() {
                        assert(sub[at] == id);
                    }
                }
                if sub.contains(id) {
                    let at = sub.index_of(id);
                    assert(longer[at] == id);
                }
                assert(longer[sub.len() as int] == s.last());
            }
        }
    }
}

proof fn lemma_filter_all(s: Seq<Seq<char>>, pred: spec_fn(Seq<char>) -> bool)
    requires
        forall|id: Seq<char>| #[trigger] s.contains(id) ==> pred(id),
    ensures
        s.filter(pred) == s,
    decreases s.len(),
{
    reveal(Seq::filter);
    if s.len() > 0 {
        let front = s.drop_last();
        assert forall|id: Seq<char>| #[trigger] front.contains(id) implies pred(id) by {
            let at = front.index_of(id);
            assert(s[at] == id);
            assert(s.contains(id));
        }
        lemma_filter_all(front, pred);
        assert(s.contains(s[s.len() - 1]));
        assert(front.push(s.last()) =~= s);
    }
}

proof fn lemma_filter_none(s: Seq<Seq<char>>, pred: spec_fn(Seq<char>) -> bool)
    requires
        forall|id: Seq<char>| #[trigger] s.contains(id) ==> !pred(id),
    ensures
        s.filter(pred).len() == 0,
    decreases s.len(),
{
    reveal(Seq::filter);
    if s.len() > 0 {
        let front = s.drop_last();
        assert forall|id: Seq<char>| #[trigger] front.contains(id) implies !pred(id) by {
            let at = front.index_of(id);
            assert(s[at] == id);
            assert(s.contains(id));
        }
        lemma_filter_none(front, pred);
        assert(s.contains(s[s.len() - 1]));
    }
}

/// After a discovery pass the inventory holds exactly the discovered VMs.
pub proof fn law_sync_tracks_discovery(ids: Seq<Seq<char>>, found: Seq<Seq<char>>, id: Seq<char>)
    ensures
        current(merged(ids, found), found).contains(id) <==> found.contains(id),
{
    lemma_merged_contains(ids, found);
    lemma_filter_contains(merged(ids, found), |x: Seq<char>| found.contains(x));
    assert(merged(ids, found).contains(id) <==> ids.contains(id) || found.contains(id));
    assert(merged(ids, found).filter(|x: Seq<char>| found.contains(x)).contains(id) <==> merged(
        ids,
        found,
    ).contains(id) && found.contains(id));
}

proof fn lemma_merged_subset(ids: Seq<Seq<char>>, found: Seq<Seq<char>>)
    requires
        forall|id: Seq<char>| #[trigger] found.contains(id) ==> ids.contains(id),
    ensures
        merged(ids, found) == ids,
    decreases found.len(),
{
    if found.len() > 0 {
        let front = found.drop_last();
        assert forall|id: Seq<char>| #[trigger] front.contains(id) implies ids.contains(id) by {
            let at = front.index_of(id);
            assert(found[at] == id);
            assert(found.contains(id));
        }
        lemma_merged_subset(ids, front);
        assert(found.contains(found[found.len() - 1]));
    }
}

/// A discovery pass that finds the same VMs again changes nothing: no VM is added,
/// none is removed, and the order stays.
pub proof fn law_sync_is_idempotent(ids: Seq<Seq<char>>, found: Seq<Seq<char>>)
    ensures
        ({
            let after = current(merged(ids, found), found);
            &&& merged(after, found) == after
            &&& current(merged(after, found), found) == after
            &&& stale(merged(after, found), found).len() == 0
        }),
{
    let after = current(merged(ids, found), found);
    assert forall|id: Seq<char>| #[trigger] found.contains(id) implies after.contains(id) by {
        law_sync_tracks_discovery(ids, found, id);
    }
    lemma_merged_subset(after, found);
    assert forall|id: Seq<char>| #[trigger] after.contains(id) implies found.contains(id) by {
        law_sync_tracks_discovery(ids, found, id);
    }
    lemma_filter_all(after, |x: Seq<char>| found.contains(x));
    lemma_filter_none(after, |x: Seq<char>| !found.contains(x));
}

/// The reported counts account for the change of the inventory's size.
pub proof fn law_sync_counts_add_up(ids: Seq<Seq<char>>, found: Seq<Seq<char>>)
    ensures
        ids.len() + (merged(ids, found).len() - ids.len()) - stale(merged(ids, found), found).len()
            == current(merged(ids, found), found).len(),
{
    lemma_filter_split(merged(ids, found), found);
}

proof fn lemma_filter_split(s: Seq<Seq<char>>, found: Seq<Seq<char>>)
    ensures
        current(s, found).len() + stale(s, found).len() == s.len(),
    decreases s.len(),
{
    reveal(Seq::filter);
    if s.len() > 0 {
        lemma_filter_split(s.drop_last(), found);
    }
}

proof fn lemma_merged_distinct(ids: Seq<Seq<char>>, found: Seq<Seq<char>>)
    requires
        ids.no_duplicates(),
    ensures
        merged(ids, found).no_duplicates(),
    decreases found.len(),
{
    if found.len() > 0 {
        let front = merged(ids, found.drop_last());
        lemma_merged_distinct(ids, found.drop_last());
        if !front.contains(found.last()) {
            assert forall|i: int| 0 <= i < front.len() implies front[i] != found.last() by {
                assert(front.contains(front[i]));
            }
        }
    }
}

proof fn lemma_filter_distinct(s: Seq<Seq<char>>, pred: spec_fn(Seq<char>) -> bool)
    requires
        s.no_duplicates(),
    ensures
        s.filter(pred).no_duplicates(),
    decreases s.len(),
{
    reveal(Seq::filter);
    if s.len() > 0 {
        let front = s.drop_last();
        let sub = front.filter(pred);
        lemma_filter_distinct(front, pred);
        lemma_filter_contains(front, pred);
        assert forall|i: int| 0 <= i < sub.len() implies sub[i] != s.last() by {
            assert(sub.contains(sub[i]));
            let at = front.index_of(sub[i]);
            assert(s[at] == sub[i]);
        }
    }
}

/// The reported counts are those of the set differences: the number of discovered VMs
/// that were not tracked, and the number of tracked ones that were not discovered.
pub proof fn law_sync_counts_are_differences(ids: Seq<Seq<char>>, found: Seq<Seq<char>>)
    requires
        ids.no_duplicates(),
    ensures
        merged(ids, found).len() - ids.len() == found.to_set().difference(ids.to_set()).len(),
        stale(merged(ids, found), found).len() == ids.to_set().difference(found.to_set()).len(),
{
    let all = merged(ids, found);
    let gone = stale(all, found);
    let pred = |id: Seq<char>| !found.contains(id);
    lemma_merged_distinct(ids, found);
    lemma_merged_contains(ids, found);
    lemma_filter_contains(all, pred);
    lemma_filter_distinct(all, pred);
    all.unique_seq_to_set();
    ids.unique_seq_to_set();
    gone.unique_seq_to_set();
    let new = found.to_set().difference(ids.to_set());
    assert forall|id: Seq<char>| #[trigger]
        all.to_set().contains(id) <==> ids.to_set().union(new).contains(id) by {
        assert(all.contains(id) <==> ids.contains(id) || found.contains(id));
    }
    assert(all.to_set() =~= ids.to_set().union(new));
    vstd::set_lib::lemma_set_disjoint_lens(ids.to_set(), new);
    let left = ids.to_set().difference(found.to_set());
    assert forall|id: Seq<char>| #[trigger]
        gone.to_set().contains(id) <==> left.contains(id) by {
        assert(all.filter(pred).contains(id) <==> all.contains(id) && pred(id));
        assert(all.contains(id) <==> ids.contains(id) || found.contains(id));
    }
    assert(gone.to_set() =~= left);
}

/// Where an identifier occurs first.
proof fn lemma_first_place(found: Seq<Seq<char>>, id: Seq<char>) -> (k: int)
    requires
        found.contains(id),
    ensures
        0 <= k < found.len(),
        found[k] == id,
        !found.take(k).contains(id),
    decreases found.len(),
{
    let front = found.drop_last();
    if front.contains(id) {
        let k = lemma_first_place(front, id);
        assert(found.take(k) =~= front.take(k));
        k
    } else {
        let n = found.len() - 1;
        let at = found.index_of(id);
        if at < n {
            assert(front[at] == id);
        }
        assert(found.take(n) =~= front);
        n
    }
}

/// A VM that a discovery pass adds has, right after the pass, exactly the classification
/// that the ownership registry holds for it: managed where it is recorded as managed,
/// unmanaged where it is recorded as unmanaged, and none where it is not recorded.
pub proof fn law_added_vms_are_classified_as_recorded(
    before: Controller,
    after: Controller,
    discovered: Seq<Instance>,
    report: SyncReport,
    id: Seq<char>,
)
    requires
        synced(before, after, discovered, report),
        !before.instances.ids().contains(id),
        after.instances.ids().contains(id),
    ensures
        ({
            let vm = after.instances.vals()[after.instances.ids().index_of(id)];
            let recorded = before.vm_ownership.classified();
            &&& vm.status.ownership_classification is Some <==> recorded.ids().contains(id)
            &&& recorded.ids().contains(id) ==> vm.status.ownership_classification == Some(
                recorded.vals()[recorded.ids().index_of(id)],
            )
        }),
{
    let found = instance_ids(discovered);
    let ids = before.instances.ids();
    law_sync_tracks_discovery(ids, found, id);
    let k = lemma_first_place(found, id);
    lemma_merged_contains(ids, found.take(k));
    assert(!merged(ids, found.take(k)).contains(found[k]));
    assert(after.instances.lookup(found[k]) == Some(adopted(discovered[k], before.vm_ownership)));
    assert(discovered[k].id@ == found[k]);
}

/// A VM that a discovery pass adds is the first discovered one with its identifier: all of
/// its record but the classification is as it was discovered.
pub proof fn law_added_vms_are_as_discovered(
    before: Controller,
    after: Controller,
    discovered: Seq<Instance>,
    report: SyncReport,
    k: int,
)
    requires
        synced(before, after, discovered, report),
        0 <= k < discovered.len(),
        !before.instances.ids().contains(discovered[k].id@),
        forall|j: int| 0 <= j < k ==> (#[trigger] discovered[j]).id@ != discovered[k].id@,
    ensures
        after.instances.ids().contains(discovered[k].id@),
        ({
            let id = discovered[k].id@;
            let vm = after.instances.vals()[after.instances.ids().index_of(id)];
            (Instance {
                status: InstanceStatus {
                    ownership_classification: discovered[k].status.ownership_classification,
                    ..vm.status
                },
                ..vm
            }) == discovered[k]
        }),
{
    let found = instance_ids(discovered);
    let ids = before.instances.ids();
    let id = discovered[k].id@;
    assert(found[k] == id);
    assert(found.contains(id));
    law_sync_tracks_discovery(ids, found, id);
    lemma_merged_contains(ids, found.take(k));
    assert(!found.take(k).contains(id)) by {
        if found.take(k).contains(id) {
            let j = found.take(k).index_of(id);
            assert(found[j] == discovered[j].id@);
        }
    }
    assert(!merged(ids, found.take(k)).contains(found[k]));
    assert(after.instances.lookup(found[k]) == Some(adopted(discovered[k], before.vm_ownership)));
}

/// A VM that was tracked and is discovered again keeps its record; one that is not
/// discovered is gone; and the inventory holds nothing else.
pub proof fn law_tracked_vms_keep_their_records(
    before: Controller,
    after: Controller,
    discovered: Seq<Instance>,
    report: SyncReport,
    id: Seq<char>,
)
    requires
        synced(before, after, discovered, report),
    ensures
        after.instances.ids().contains(id) <==> exists|k: int|
            0 <= k < discovered.len() && (#[trigger] discovered[k]).id@ == id,
        before.instances.ids().contains(id) && after.instances.ids().contains(id)
            ==> after.instances.vals()[after.instances.ids().index_of(id)]
            == before.instances.vals()[before.instances.ids().index_of(id)],
        after.vm_ownership == before.vm_ownership,
        after.cfg == before.cfg,
        after.host_cpu_util == before.host_cpu_util,
{
    let found = instance_ids(discovered);
    law_sync_tracks_discovery(before.instances.ids(), found, id);
    if found.contains(id) {
        let k = found.index_of(id);
        assert(discovered[k].id@ == id);
    }
    if exists|k: int| 0 <= k < discovered.len() && (#[trigger] discovered[k]).id@ == id {
        let k = choose|k: int| 0 <= k < discovered.len() && (#[trigger] discovered[k]).id@ == id;
        assert(found[k] == id);
    }
    if before.instances.ids().contains(id) {
        assert(before.instances.has(id));
        assert(after.instances.lookup(id) == after.instances.lookup(id));
    }
}

proof fn lemma_effects(ids: Seq<Seq<char>>, found: Seq<Seq<char>>)
    ensures
        discovery_effects(ids, found).len() == found.len(),
        forall|i: int|
            0 <= i < found.len() ==> #[trigger] discovery_effects(ids, found)[i]
                == if ids.contains(found[i]) || found.take(i).contains(found[i]) {
                SyncEffectView::CloseDuplicate(i)
            } else {
                SyncEffectView::Added(i)
            },
    decreases found.len(),
{
    if found.len() > 0 {
        let front = found.drop_last();
        let n = front.len() as int;
        lemma_effects(ids, front);
        lemma_merged_contains(ids, front);
        assert(found.take(n) =~= front);
        assert forall|i: int| 0 <= i < found.len() implies #[trigger] discovery_effects(
            ids,
            found,
        )[i] == if ids.contains(found[i]) || found.take(i).contains(found[i]) {
            SyncEffectView::CloseDuplicate(i)
        } else {
            SyncEffectView::Added(i)
        } by {
            if i < n {
                assert(found.take(i) =~= front.take(i));
                assert(discovery_effects(ids, found)[i] == discovery_effects(ids, front)[i]);
            }
        }
    }
}

proof fn lemma_stale(ids: Seq<Seq<char>>, found: Seq<Seq<char>>, n: int)
    requires
        0 <= n <= found.len(),
    ensures
        stale(merged(ids, found.take(n)), found) == stale(ids, found),
    decreases n,
{
    reveal(Seq::filter);
    if n > 0 {
        lemma_stale(ids, found, n - 1);
        let shorter = found.take(n - 1);
        assert(found.take(n).drop_last() =~= shorter);
        assert(found.take(n).last() == found[n - 1]);
        assert(found.contains(found[n - 1]));
        if !merged(ids, shorter).contains(found[n - 1]) {
            let longer = merged(ids, shorter).push(found[n - 1]);
            assert(longer.drop_last() =~= merged(ids, shorter));
        }
    } else {
        assert(found.take(0) =~= Seq::<Seq<char>>::empty());
    }
}

/// What a discovery pass leaves to do: for each discovered VM in turn, its client is kept
/// and the engine told of it where the VM was neither tracked nor discovered before, and
/// else its client is closed; and then every tracked VM that was not discovered is taken
/// leave of, in the order of the inventory.
pub proof fn law_sync_effects(
    before: Controller,
    after: Controller,
    discovered: Seq<Instance>,
    report: SyncReport,
)
    requires
        synced(before, after, discovered, report),
    ensures
        ({
            let n = discovered.len();
            let ids = before.instances.ids();
            let found = instance_ids(discovered);
            let gone = ids.filter(|id: Seq<char>| !found.contains(id));
            &&& report.effects@.len() == n + gone.len()
            &&& forall|i: int|
                0 <= i < n ==> (#[trigger] report.effects@[i])@ == if ids.contains(found[i])
                    || found.take(i).contains(found[i]) {
                    SyncEffectView::CloseDuplicate(i)
                } else {
                    SyncEffectView::Added(i)
                }
            &&& forall|i: int|
                0 <= i < gone.len() ==> (#[trigger] report.effects@[n + i])@
                    == SyncEffectView::Removed(gone[i])
        }),
{
    let n = discovered.len();
    let ids = before.instances.ids();
    let found = instance_ids(discovered);
    lemma_effects(ids, found);
    lemma_stale(ids, found, found.len() as int);
    assert(found.take(found.len() as int) =~= found);
    let gone = ids.filter(|id: Seq<char>| !found.contains(id));
    assert(stale(merged(ids, found), found) == gone);
    let views = effect_views(report.effects@);
    assert(views.len() == report.effects@.len());
    assert forall|i: int| 0 <= i < n implies (#[trigger] report.effects@[i])@ == if ids.contains(
        found[i],
    ) || found.take(i).contains(found[i]) {
        SyncEffectView::CloseDuplicate(i)
    } else {
        SyncEffectView::Added(i)
    } by {
        assert(views[i] == discovery_effects(ids, found)[i]);
    }
    assert forall|i: int| 0 <= i < gone.len() implies (#[trigger] report.effects@[n + i])@
        == SyncEffectView::Removed(gone[i]) by {
        assert(views[n + i] == removal_effects(gone)[i]);
    }
}

} // verus!
