//! Deleting many stored entities at once.

use vstd::prelude::*;
use crate::activity::Activity;
use crate::attachment::Attachment;
use crate::error::Error;
use crate::part::Part;
use crate::service::Service;
use crate::serviceplan::ServicePlan;
use crate::store::MemStore;
use crate::usage::Usage;

verus! {

broadcast use vstd::std_specs::hash::group_hash_axioms;

/// Everything but the parts stays.
pub open spec fn purge_frame_parts(old: MemStore, new: MemStore) -> bool {
    &&& new.usages == old.usages
    &&& new.activities == old.activities
    &&& new.attachments == old.attachments
    &&& new.services == old.services
    &&& new.plans == old.plans
    &&& new.next_part_id == old.next_part_id
    &&& new.dir == old.dir
}

/// Everything but the usages stays.
pub open spec fn purge_frame_usages(old: MemStore, new: MemStore) -> bool {
    &&& new.parts == old.parts
    &&& new.activities == old.activities
    &&& new.attachments == old.attachments
    &&& new.services == old.services
    &&& new.plans == old.plans
    &&& new.next_part_id == old.next_part_id
    &&& new.dir == old.dir
}

/// Everything but the activities stays.
pub open spec fn purge_frame_activities(old: MemStore, new: MemStore) -> bool {
    &&& new.parts == old.parts
    &&& new.usages == old.usages
    &&& new.attachments == old.attachments
    &&& new.services == old.services
    &&& new.plans == old.plans
    &&& new.next_part_id == old.next_part_id
    &&& new.dir == old.dir
}

/// Everything but the attachments stays.
pub open spec fn purge_frame_attachments(old: MemStore, new: MemStore) -> bool {
    &&& new.parts == old.parts
    &&& new.usages == old.usages
    &&& new.activities == old.activities
    &&& new.services == old.services
    &&& new.plans == old.plans
    &&& new.next_part_id == old.next_part_id
    &&& new.dir == old.dir
}

/// Everything but the services stays.
pub open spec fn purge_frame_services(old: MemStore, new: MemStore) -> bool {
    &&& new.parts == old.parts
    &&& new.usages == old.usages
    &&& new.activities == old.activities
    &&& new.attachments == old.attachments
    &&& new.plans == old.plans
    &&& new.next_part_id == old.next_part_id
    &&& new.dir == old.dir
}

/// Everything but the plans stays.
pub open spec fn purge_frame_plans(old: MemStore, new: MemStore) -> bool {
    &&& new.parts == old.parts
    &&& new.usages == old.usages
    &&& new.activities == old.activities
    &&& new.attachments == old.attachments
    &&& new.services == old.services
    &&& new.next_part_id == old.next_part_id
    &&& new.dir == old.dir
}

/// How many of `ids` a removal one after the other finds among `keys`:
/// each stored key counts once.
pub open spec fn removed_count<K>(keys: Set<K>, ids: Seq<K>) -> nat
    decreases ids.len(),
{
    if ids.len() == 0 {
        0
    } else if keys.contains(ids[0]) {
        1 + removed_count(keys.remove(ids[0]), ids.drop_first())
    } else {
        removed_count(keys, ids.drop_first())
    }
}

impl MemStore {

    /// Remove the stored activities with the id of one of `activities`; how many were removed.
    pub fn activities_delete(&mut self, activities: &[Activity]) -> (r: Result<usize, Error>)
        requires
            old(self).wf(),
        ensures
            final(self).wf(),
            final(self).activities@ == old(self).activities@.filter(|x: Activity| !activities@.map_values(|y: Activity| y.id).contains(x.id)),
            r == Ok::<usize, Error>((old(self).activities@.len() - final(self).activities@.len()) as usize),
            purge_frame_activities(*old(self), *final(self)),
    {
        let ghost keys = activities@.map_values(|y: Activity| y.id);
        let ghost pred = |x: Activity| !keys.contains(x.id);
        let ghost orig = self.activities@;
        let mut kept: Vec<Activity> = Vec::new();
        let mut i: usize = 0;
        while i < self.activities.len()
            invariant
                0 <= i <= self.activities@.len(),
                self.activities@ == orig,
                keys == activities@.map_values(|y: Activity| y.id),
                pred == (|x: Activity| !keys.contains(x.id)),
                kept@ == orig.take(i as int).filter(pred),
                kept@.len() == orig.take(i as int).filter(pred).len(),
            decreases self.activities@.len() - i,
        {
            let x = &self.activities[i];
            let mut found = false;
            let mut j: usize = 0;
            while j < activities.len()
                invariant
                    0 <= j <= activities@.len(),
                    keys == activities@.map_values(|y: Activity| y.id),
                    found <==> keys.take(j as int).contains((*x).id),
                decreases activities@.len() - j,
            {
                proof {
                    crate::seqs::lemma_take_push_contains(keys, j as int);
                    assert(keys[j as int] == activities@[j as int].id);
                }
                if activities[j].id == x.id {
                    found = true;
                }
                j = j + 1;
            }
            let keep: bool = !found;
            let ghost kept0 = kept@;
            if keep {
                kept.push(x.duplicate());
            }
            proof {
                let s1 = orig.take(i + 1);
                assert(s1.drop_last() =~= orig.take(i as int));
                assert(s1.last() == *x);
                assert(keys.take(keys.len() as int) =~= keys);
                assert(pred(*x) == keep);
                reveal_with_fuel(Seq::filter, 1);
                if keep {
                    assert(s1.filter(pred) =~= orig.take(i as int).filter(pred).push(*x));
                    assert(kept@ =~= kept0.push(*x));
                } else {
                    assert(s1.filter(pred) =~= orig.take(i as int).filter(pred));
                }
            }
            i = i + 1;
        }
        proof {
            assert(orig.take(orig.len() as int) =~= orig);
            orig.filter_lemma(pred);
        }
        let n: usize = self.activities.len() - kept.len();
        self.activities = kept;
        Ok(n)
    }

    /// Remove the attachments of the parts of `parts`; how many were removed.
    pub fn attachments_delete_by_parts(&mut self, parts: &[Part]) -> (r: Result<usize, Error>)
        requires
            old(self).wf(),
        ensures
            final(self).wf(),
            final(self).attachments@ == old(self).attachments@.filter(|x: Attachment| !parts@.map_values(|y: Part| y.id).contains(x.part_id)),
            r == Ok::<usize, Error>((old(self).attachments@.len() - final(self).attachments@.len()) as usize),
            purge_frame_attachments(*old(self), *final(self)),
    {
        let ghost keys = parts@.map_values(|y: Part| y.id);
        let ghost pred = |x: Attachment| !keys.contains(x.part_id);
        let ghost orig = self.attachments@;
        let mut kept: Vec<Attachment> = Vec::new();
        let mut i: usize = 0;
        while i < self.attachments.len()
            invariant
                0 <= i <= self.attachments@.len(),
                self.attachments@ == orig,
                keys == parts@.map_values(|y: Part| y.id),
                pred == (|x: Attachment| !keys.contains(x.part_id)),
                kept@ == orig.take(i as int).filter(pred),
                kept@.len() == orig.take(i as int).filter(pred).len(),
            decreases self.attachments@.len() - i,
        {
            let x = &self.attachments[i];
            let mut found = false;
            let mut j: usize = 0;
            while j < parts.len()
                invariant
                    0 <= j <= parts@.len(),
                    keys == parts@.map_values(|y: Part| y.id),
                    found <==> keys.take(j as int).contains((*x).part_id),
                decreases parts@.len() - j,
            {
                proof {
                    crate::seqs::lemma_take_push_contains(keys, j as int);
                    assert(keys[j as int] == parts@[j as int].id);
                }
                if parts[j].id == x.part_id {
                    found = true;
                }
                j = j + 1;
            }
            let keep: bool = !found;
            let ghost kept0 = kept@;
            if keep {
                kept.push(*x);
            }
            proof {
                let s1 = orig.take(i + 1);
                assert(s1.drop_last() =~= orig.take(i as int));
                assert(s1.last() == *x);
                assert(keys.take(keys.len() as int) =~= keys);
                assert(pred(*x) == keep);
                reveal_with_fuel(Seq::filter, 1);
                if keep {
                    assert(s1.filter(pred) =~= orig.take(i as int).filter(pred).push(*x));
                    assert(kept@ =~= kept0.push(*x));
                } else {
                    assert(s1.filter(pred) =~= orig.take(i as int).filter(pred));
                }
            }
            i = i + 1;
        }
        proof {
            assert(orig.take(orig.len() as int) =~= orig);
            orig.filter_lemma(pred);
        }
        let n: usize = self.attachments.len() - kept.len();
        self.attachments = kept;
        Ok(n)
    }

    /// Remove the stored services with the id of one of `services`; how many were removed.
    pub fn services_delete(&mut self, services: &[Service]) -> (r: Result<usize, Error>)
        requires
            old(self).wf(),
        ensures
            final(self).wf(),
            final(self).services@.map_values(|z: Service| z@) == old(self).services@.filter(|x: Service| !services@.map_values(|y: Service| y.id).contains(x.id)).map_values(|z: Service| z@),
            r == Ok::<usize, Error>((old(self).services@.len() - final(self).services@.len()) as usize),
            purge_frame_services(*old(self), *final(self)),
    {
        let ghost keys = services@.map_values(|y: Service| y.id);
        let ghost pred = |x: Service| !keys.contains(x.id);
        let ghost orig = self.services@;
        let mut kept: Vec<Service> = Vec::new();
        let mut i: usize = 0;
        while i < self.services.len()
            invariant
                0 <= i <= self.services@.len(),
                self.services@ == orig,
                keys == services@.map_values(|y: Service| y.id),
                pred == (|x: Service| !keys.contains(x.id)),
                kept@.map_values(|z: Service| z@) == orig.take(i as int).filter(pred).map_values(|z: Service| z@),
                kept@.len() == orig.take(i as int).filter(pred).len(),
            decreases self.services@.len() - i,
        {
            let x = &self.services[i];
            let mut found = false;
            let mut j: usize = 0;
            while j < services.len()
                invariant
                    0 <= j <= services@.len(),
                    keys == services@.map_values(|y: Service| y.id),
                    found <==> keys.take(j as int).contains((*x).id),
                decreases services@.len() - j,
            {
                proof {
                    crate::seqs::lemma_take_push_contains(keys, j as int);
                    assert(keys[j as int] == services@[j as int].id);
                }
                if services[j].id == x.id {
                    found = true;
                }
                j = j + 1;
            }
            let keep: bool = !found;
            let ghost kept0 = kept@;
            if keep {
                kept.push(x.duplicate());
            }
            proof {
                let s1 = orig.take(i + 1);
                assert(s1.drop_last() =~= orig.take(i as int));
                assert(s1.last() == *x);
                assert(keys.take(keys.len() as int) =~= keys);
                assert(pred(*x) == keep);
                reveal_with_fuel(Seq::filter, 1);
                if keep {
                    assert(s1.filter(pred) =~= orig.take(i as int).filter(pred).push(*x));
                    assert(kept@.map_values(|z: Service| z@) =~= kept0.map_values(|z: Service| z@).push((*x)@));
                } else {
                    assert(s1.filter(pred) =~= orig.take(i as int).filter(pred));
                }
            }
            i = i + 1;
        }
        proof {
            assert(orig.take(orig.len() as int) =~= orig);
            orig.filter_lemma(pred);
        }
        let n: usize = self.services.len() - kept.len();
        self.services = kept;
        Ok(n)
    }

    /// Remove the stored plans with the id of one of `plans`; how many were removed.
    pub fn serviceplans_delete(&mut self, plans: &[ServicePlan]) -> (r: Result<usize, Error>)
        requires
            old(self).wf(),
        ensures
            final(self).wf(),
            final(self).plans@ == old(self).plans@.filter(|x: ServicePlan| !plans@.map_values(|y: ServicePlan| y.id).contains(x.id)),
            r == Ok::<usize, Error>((old(self).plans@.len() - final(self).plans@.len()) as usize),
            purge_frame_plans(*old(self), *final(self)),
    {
        let ghost keys = plans@.map_values(|y: ServicePlan| y.id);
        let ghost pred = |x: ServicePlan| !keys.contains(x.id);
        let ghost orig = self.plans@;
        let mut kept: Vec<ServicePlan> = Vec::new();
        let mut i: usize = 0;
        while i < self.plans.len()
            invariant
                0 <= i <= self.plans@.len(),
                self.plans@ == orig,
                keys == plans@.map_values(|y: ServicePlan| y.id),
                pred == (|x: ServicePlan| !keys.contains(x.id)),
                kept@ == orig.take(i as int).filter(pred),
                kept@.len() == orig.take(i as int).filter(pred).len(),
            decreases self.plans@.len() - i,
        {
            let x = &self.plans[i];
            let mut found = false;
            let mut j: usize = 0;
            while j < plans.len()
                invariant
                    0 <= j <= plans@.len(),
                    keys == plans@.map_values(|y: ServicePlan| y.id),
                    found <==> keys.take(j as int).contains((*x).id),
                decreases plans@.len() - j,
            {
                proof {
                    crate::seqs::lemma_take_push_contains(keys, j as int);
                    assert(keys[j as int] == plans@[j as int].id);
                }
                if plans[j].id == x.id {
                    found = true;
                }
                j = j + 1;
            }
            let keep: bool = !found;
            let ghost kept0 = kept@;
            if keep {
                kept.push(x.duplicate());
            }
            proof {
                let s1 = orig.take(i + 1);
                assert(s1.drop_last() =~= orig.take(i as int));
                assert(s1.last() == *x);
                assert(keys.take(keys.len() as int) =~= keys);
                assert(pred(*x) == keep);
                reveal_with_fuel(Seq::filter, 1);
                if keep {
                    assert(s1.filter(pred) =~= orig.take(i as int).filter(pred).push(*x));
                    assert(kept@ =~= kept0.push(*x));
                } else {
                    assert(s1.filter(pred) =~= orig.take(i as int).filter(pred));
                }
            }
            i = i + 1;
        }
        proof {
            assert(orig.take(orig.len() as int) =~= orig);
            orig.filter_lemma(pred);
        }
        let n: usize = self.plans.len() - kept.len();
        self.plans = kept;
        Ok(n)
    }

    /// Remove the stored parts with the id of one of `parts`; how many were
    /// removed.
    pub fn parts_delete(&mut self, parts: &[Part]) -> (r: Result<usize, Error>)
        requires
            old(self).wf(),
        ensures
            final(self).wf(),
            final(self).parts@ == old(self).parts@.remove_keys(parts@.map_values(|p: Part| p.id.0).to_set()),
            r == Ok::<usize, Error>(removed_count(old(self).parts@.dom(), parts@.map_values(|p: Part| p.id.0)) as usize),
            purge_frame_parts(*old(self), *final(self)),
    {
        let ghost ids = parts@.map_values(|p: Part| p.id.0);
        let ghost orig = self.parts@;
        let mut count: usize = 0;
        let mut i: usize = 0;
        proof {
            assert(ids.skip(0) =~= ids);
            assert(orig.remove_keys(ids.take(0).to_set()) =~= orig);
        }
        while i < parts.len()
            invariant
                0 <= i <= parts@.len(),
                ids == parts@.map_values(|p: Part| p.id.0),
                self.parts@ == orig.remove_keys(ids.take(i as int).to_set()),
                count + removed_count(self.parts@.dom(), ids.skip(i as int)) == removed_count(orig.dom(), ids),
                count <= i,
                purge_frame_parts(*old(self), *self),
                old(self).wf(),
                orig == old(self).parts@,
            decreases parts@.len() - i,
        {
            let id = parts[i].id.0;
            let ghost before = self.parts@;
            proof {
                assert(ids.skip(i as int)[0] == id);
                assert(ids.skip(i as int).drop_first() =~= ids.skip(i + 1));
                assert(ids.take(i + 1).to_set() =~= ids.take(i as int).to_set().insert(id)) by {
                    assert(ids.take(i + 1) =~= ids.take(i as int).push(id));
                    ids.take(i as int).lemma_push_to_set_commute(id);
                }
            }
            match self.parts.remove(&id) {
                Some(_) => {
                    count = count + 1;
                },
                None => {
                    proof { assert(before.dom().remove(id) =~= before.dom()); }
                },
            }
            proof {
                assert(self.parts@ =~= orig.remove_keys(ids.take(i + 1).to_set()));
                assert(self.parts@.dom() =~= before.dom().remove(id));
                assert(removed_count(before.dom(), ids.skip(i as int)) == if before.dom().contains(id) {
                    1 + removed_count(before.dom().remove(id), ids.skip(i + 1))
                } else {
                    removed_count(before.dom(), ids.skip(i + 1))
                });
            }
            i = i + 1;
        }
        proof {
            assert(ids.take(ids.len() as int) =~= ids);
            assert(ids.skip(ids.len() as int) =~= Seq::<i32>::empty());
            assert forall|k: i32| #[trigger] self.parts@.contains_key(k) implies self.parts@[k].id.0 == k by {
                assert(orig.contains_key(k));
            }
        }
        Ok(count)
    }

    /// Remove the stored usages with the id of one of `usages`; how many
    /// were removed.
    pub fn usages_delete(&mut self, usages: &[Usage]) -> (r: Result<usize, Error>)
        requires
            old(self).wf(),
        ensures
            final(self).wf(),
            final(self).usages@ == old(self).usages@.remove_keys(usages@.map_values(|u: Usage| u.id.0).to_set()),
            r == Ok::<usize, Error>(removed_count(old(self).usages@.dom(), usages@.map_values(|u: Usage| u.id.0)) as usize),
            purge_frame_usages(*old(self), *final(self)),
    {
        let ghost ids = usages@.map_values(|u: Usage| u.id.0);
        let ghost orig = self.usages@;
        let mut count: usize = 0;
        let mut i: usize = 0;
        proof {
            assert(ids.skip(0) =~= ids);
            assert(orig.remove_keys(ids.take(0).to_set()) =~= orig);
        }
        while i < usages.len()
            invariant
                0 <= i <= usages@.len(),
                ids == usages@.map_values(|u: Usage| u.id.0),
                self.usages@ == orig.remove_keys(ids.take(i as int).to_set()),
                count + removed_count(self.usages@.dom(), ids.skip(i as int)) == removed_count(orig.dom(), ids),
                count <= i,
                purge_frame_usages(*old(self), *self),
                old(self).wf(),
                orig == old(self).usages@,
            decreases usages@.len() - i,
        {
            let id = usages[i].id.0;
            let ghost before = self.usages@;
            proof {
                assert(ids.skip(i as int)[0] == id);
                assert(ids.skip(i as int).drop_first() =~= ids.skip(i + 1));
                assert(ids.take(i + 1).to_set() =~= ids.take(i as int).to_set().insert(id)) by {
                    assert(ids.take(i + 1) =~= ids.take(i as int).push(id));
                    ids.take(i as int).lemma_push_to_set_commute(id);
                }
            }
            match self.usages.remove(&id) {
                Some(_) => {
                    count = count + 1;
                },
                None => {
                    proof { assert(before.dom().remove(id) =~= before.dom()); }
                },
            }
            proof {
                assert(self.usages@ =~= orig.remove_keys(ids.take(i + 1).to_set()));
                assert(self.usages@.dom() =~= before.dom().remove(id));
                assert(removed_count(before.dom(), ids.skip(i as int)) == if before.dom().contains(id) {
                    1 + removed_count(before.dom().remove(id), ids.skip(i + 1))
                } else {
                    removed_count(before.dom(), ids.skip(i + 1))
                });
            }
            i = i + 1;
        }
        proof {
            assert(ids.take(ids.len() as int) =~= ids);
            assert(ids.skip(ids.len() as int) =~= Seq::<u128>::empty());
            assert forall|k: u128| #[trigger] self.usages@.contains_key(k) implies self.usages@[k].id.0 == k by {
                assert(orig.contains_key(k));
            }
        }
        Ok(count)
    }
}

} // verus!
