//! The timeline of which part is attached to which gear, and when.

use vstd::prelude::*;
use crate::part::PartId;
use crate::timestamp::Timestamp;
use crate::types::PartTypeId;
use crate::usage::{Usage, UsageId};
use crate::error::Error;
use crate::store::MemStore;
use crate::summary::Summary;
use crate::service::Service;
use crate::part::Part;
use crate::activity::{Activity, found_in, total_fits, total_usage};
use crate::timeline::{of_part, att_key, same_key, other_key, one_place, fits_between, one_per_hook, hook_fits};
use crate::seqs::{sorted_by_key, first_where};
use crate::service::{ServiceView, service_views, due_after, calculated, part_known, overflows_at};

verus! {

/// Timeline of attachments
///
/// * Every attachment of a part to a specified hook on a gear is an entry
/// * Start and end time are noted
#[derive(Clone, Copy, Debug)]
pub struct Attachment {
    /// the sub-part, which is attached to the hook
    pub part_id: PartId,
    /// when it was attached
    pub attached: Timestamp,
    /// The gear the part is attached to
    pub gear: PartId,
    /// the hook on that gear
    pub hook: PartTypeId,
    /// when it was removed again, "none" means "still attached"
    pub detached: Timestamp,
    /// the usage record of the attachment
    pub usage: UsageId,
}

/// Attachment with additional details
///
/// * the name is needed for attachments to parts which were sold
///   since the part will not be send to the client
/// * 'what' is an optimization
#[derive(Clone, Debug)]
pub struct AttachmentDetail {
    pub a: Attachment,
    pub name: String,
    pub what: PartTypeId,
}

impl Attachment {
    /// Whether the attachment is in force at `time`: attached at or before
    /// it and detached after it.
    pub open spec fn active_at(self, time: Timestamp) -> bool {
        self.attached.nanos <= time.nanos && time.nanos < self.detached.nanos
    }

    /// Create a new attachment with a fresh usage record id.
    pub fn new(
        part_id: PartId,
        attached: Timestamp,
        gear: PartId,
        hook: PartTypeId,
        detached: Timestamp,
    ) -> (r: Attachment)
        ensures
            r.part_id == part_id,
            r.attached == attached,
            r.gear == gear,
            r.hook == hook,
            r.detached == detached,
            r.usage.0 != 0,
    {
        Attachment { part_id, attached, gear, hook, detached, usage: UsageId::new() }
    }

    /// add redundant details for client simplicity
    pub fn add_details(self, name: &str, what: PartTypeId) -> (r: AttachmentDetail)
        ensures
            r.a == self,
            r.name@ == name@,
            r.what == what,
    {
        AttachmentDetail { name: name.to_owned(), what, a: self }
    }
}

/// The parts an activity of `gear` starting at `start` is accounted to:
/// the gear itself and every part attached to it at that time.
pub open spec fn involved(atts: Seq<Attachment>, gear: PartId, start: Timestamp, p: PartId) -> bool {
    p == gear || exists|a: Attachment|
        #[trigger] atts.contains(a) && a.gear == gear && a.active_at(start) && a.part_id == p
}

/// The gear itself is always among the parts an activity on it counts for,
/// so registering an activity with a gear always reports the gear.
pub proof fn lemma_gear_involved(atts: Seq<Attachment>, gear: PartId, start: Timestamp)
    ensures
        involved(atts, gear, start, gear),
{
}

/// `parts` holds a part with id `p`.
pub open spec fn lists_part(parts: Seq<Part>, p: PartId) -> bool {
    exists|x: Part| #[trigger] parts.contains(x) && x.id == p
}

/// The usage records an activity of `gear` starting at `start` counts for:
/// those of the attachments to the gear in force then, of the parts
/// involved, and of their services done after the start.
pub open spec fn counts_for(store: MemStore, gear: PartId, start: Timestamp, k: u128) -> bool {
    ||| exists|a: Attachment|
        #[trigger] store.attachments@.contains(a) && a.gear == gear && a.active_at(start) && a.usage.0 == k
    ||| exists|p: PartId|
        #[trigger] involved(store.attachments@, gear, start, p) && store.has_part(p) && store.part(p).usage.0 == k
    ||| exists|s: Service|
        #[trigger] store.services@.contains(s) && involved(store.attachments@, gear, start, s.part_id)
            && s.time.nanos > start.nanos && s.usage.0 == k
}

/// Every part involved in an activity of `gear` at `start` is stored.
pub open spec fn involved_parts_stored(store: MemStore, gear: PartId, start: Timestamp) -> bool {
    forall|p: PartId| #[trigger] involved(store.attachments@, gear, start, p) ==> store.has_part(p)
}

/// `new` is `old` with `usage` added to every usage record an activity of
/// `gear` at `start` counts for; attachments, services and which parts are
/// stored, with their usage records, are the same.
pub open spec fn accounted(old: MemStore, new: MemStore, gear: PartId, start: Timestamp, usage: Usage) -> bool {
    &&& new.attachments == old.attachments
    &&& new.services == old.services
    &&& forall|p: PartId| #[trigger] new.has_part(p) == old.has_part(p)
    &&& forall|p: PartId| #[trigger] new.part(p).usage == old.part(p).usage
    &&& forall|k: u128| #[trigger] new.usage_or_zero(UsageId(k)) ==
        if counts_for(old, gear, start, k) {
            old.usage_or_zero(UsageId(k)).spec_plus(usage)
        } else {
            old.usage_or_zero(UsageId(k))
        }
}

/// The usage records an activity counts for depend only on the
/// attachments, the services and the usage records of the stored parts.
pub proof fn lemma_counts_for_stable(a: MemStore, b: MemStore, gear: PartId, start: Timestamp, k: u128)
    requires
        b.attachments == a.attachments,
        b.services == a.services,
        forall|p: PartId| #[trigger] b.has_part(p) == a.has_part(p),
        forall|p: PartId| #[trigger] b.part(p).usage == a.part(p).usage,
    ensures
        counts_for(b, gear, start, k) == counts_for(a, gear, start, k),
{
    if exists|p: PartId|
        #[trigger] involved(a.attachments@, gear, start, p) && a.has_part(p) && a.part(p).usage.0 == k {
        let p = choose|p: PartId|
            #[trigger] involved(a.attachments@, gear, start, p) && a.has_part(p) && a.part(p).usage.0 == k;
        assert(b.has_part(p) && b.part(p).usage.0 == k);
    }
    if exists|p: PartId|
        #[trigger] involved(b.attachments@, gear, start, p) && b.has_part(p) && b.part(p).usage.0 == k {
        let p = choose|p: PartId|
            #[trigger] involved(b.attachments@, gear, start, p) && b.has_part(p) && b.part(p).usage.0 == k;
        assert(a.has_part(p) && a.part(p).usage.0 == k);
    }
}

/// Accounting an activity's usage to a gear and then taking it back
/// (accounting its negation at the same gear and time) leaves every usage
/// record as it was.
pub proof fn law_register_then_unregister(
    s0: MemStore,
    s1: MemStore,
    s2: MemStore,
    gear: PartId,
    start: Timestamp,
    usage: Usage,
)
    requires
        s0.wf(),
        accounted(s0, s1, gear, start, usage),
        accounted(s1, s2, gear, start, usage.spec_negated()),
        usage.neg_fits(),
        forall|k: u128| #[trigger] counts_for(s0, gear, start, k) ==> s0.usage_or_zero(UsageId(k)).sum_fits(usage),
    ensures
        forall|k: u128| #[trigger] s2.usage_or_zero(UsageId(k)) == s0.usage_or_zero(UsageId(k)),
{
    assert forall|k: u128| #[trigger] s2.usage_or_zero(UsageId(k)) == s0.usage_or_zero(UsageId(k)) by {
        lemma_counts_for_stable(s0, s1, gear, start, k);
        assert(s1.usage_or_zero(UsageId(k)) == if counts_for(s0, gear, start, k) {
            s0.usage_or_zero(UsageId(k)).spec_plus(usage)
        } else {
            s0.usage_or_zero(UsageId(k))
        });
        assert(s2.usage_or_zero(UsageId(k)) == if counts_for(s1, gear, start, k) {
            s1.usage_or_zero(UsageId(k)).spec_plus(usage.spec_negated())
        } else {
            s1.usage_or_zero(UsageId(k))
        });
        if counts_for(s0, gear, start, k) {
            assert(s0.usage_or_zero(UsageId(k)).sum_fits(usage));
        }
    }
}

/// Touching a part twice at the same time is touching it once.
pub proof fn lemma_touched_idempotent(p: Part, start: Timestamp)
    ensures
        crate::part::touched(crate::part::touched(p, start), start) == crate::part::touched(p, start),
{
}

impl Attachment {
    /// Account `usage` (an activity's usage, or its negation) to `gear` at `start`.
    ///
    /// Adds `usage` to the usage of every attachment to the gear in force at
    /// `start`, of the gear and the parts attached then, and of their
    /// services done after `start`; moves the parts' `last_used` and
    /// `purchase` to include `start`. Returns the changed usages and parts.
    /// Nothing happens without a gear. `NotFound` when an involved part is
    /// not stored (usages are then left as they were).
    #[verifier::spinoff_prover]
    #[verifier::rlimit(40)]
    pub fn register_activity(
        gear: Option<PartId>,
        start: Timestamp,
        usage: Usage,
        store: &mut MemStore,
    ) -> (r: Result<Summary, Error>)
        requires
            old(store).wf(),
            start.wf(),
            gear matches Some(g) ==> forall|k: u128| #[trigger] counts_for(*old(store), g, start, k)
                ==> old(store).usage_or_zero(UsageId(k)).sum_fits(usage),
        ensures
            final(store).wf(),
            final(store).activities == old(store).activities,
            final(store).attachments == old(store).attachments,
            final(store).services == old(store).services,
            final(store).plans == old(store).plans,
            final(store).next_part_id == old(store).next_part_id,
            final(store).dir == old(store).dir,
            gear is None ==> (r matches Ok(s) && s.is_empty()) && final(store).usages == old(store).usages
                && final(store).parts == old(store).parts,
            gear matches Some(g) ==> {
                &&& (r is Ok <==> involved_parts_stored(*old(store), g, start))
                &&& r is Err ==> (r matches Err(e) && e is NotFound) && final(store).usages == old(store).usages
                &&& r is Ok ==> accounted(*old(store), *final(store), g, start, usage)
                &&& r is Ok ==> forall|p: PartId| #[trigger] final(store).part(p) ==
                    if involved(old(store).attachments@, g, start, p) {
                        crate::part::touched(old(store).part(p), start)
                    } else {
                        old(store).part(p)
                    }
                &&& r matches Ok(s) ==> forall|k: u128|
                    #[trigger] crate::usage::mentions(s.usages@, k) <==> counts_for(*old(store), g, start, k)
            },
            gear matches Some(g) ==> (r matches Ok(s) ==> forall|x: Part| #[trigger] s.parts@.contains(x)
                ==> involved(old(store).attachments@, g, start, x.id) && x == final(store).part(x.id)),
            gear matches Some(g) ==> (r matches Ok(s) ==> forall|p: PartId| #[trigger] involved(old(store).attachments@, g, start, p)
                ==> lists_part(s.parts@, p)),
    {
        let g: PartId = match gear {
            None => return Ok(Summary::empty()),
            Some(x) => x,
        };
        let ghost old_store = *store;
        let ghost atts_all = store.attachments@;
        let attachments = store.attachment_get_by_gear_and_time(g, start);
        proof {
            crate::store::lemma_filter_members(atts_all, crate::store::gear_active_at(g, start));
        }
        // the usages of the attachments and the parts attached
        let mut ids: Vec<UsageId> = Vec::new();
        let mut partlist: Vec<PartId> = Vec::new();
        let mut i: usize = 0;
        while i < attachments.len()
            invariant
                0 <= i <= attachments@.len(),
                gear == Some(g),
                attachments@ == atts_all.filter(crate::store::gear_active_at(g, start)),
                forall|x: Attachment| #[trigger] attachments@.contains(x) <==>
                    (atts_all.contains(x) && x.gear == g && x.active_at(start)),
                ids@ == attachments@.take(i as int).map_values(|a: Attachment| a.usage),
                partlist@ == attachments@.take(i as int).map_values(|a: Attachment| a.part_id),
            decreases attachments@.len() - i,
        {
            ids.push(attachments[i].usage);
            partlist.push(attachments[i].part_id);
            proof {
                assert(attachments@.take(i + 1).map_values(|a: Attachment| a.usage)
                    =~= attachments@.take(i as int).map_values(|a: Attachment| a.usage).push(attachments@[i as int].usage));
                assert(attachments@.take(i + 1).map_values(|a: Attachment| a.part_id)
                    =~= attachments@.take(i as int).map_values(|a: Attachment| a.part_id).push(attachments@[i as int].part_id));
            }
            i = i + 1;
        }
        // we need to add g since it is not attached
        partlist.push(g);
        proof {
            assert(attachments@.take(attachments@.len() as int) =~= attachments@);
            crate::store::lemma_map_members(attachments@, |a: Attachment| a.usage);
            crate::store::lemma_map_members(attachments@, |a: Attachment| a.part_id);
            assert forall|p: PartId| #[trigger] partlist@.contains(p) <==> involved(atts_all, g, start, p) by {
                crate::store::lemma_contains_last(partlist@, p);
                assert(partlist@.drop_last() =~= attachments@.map_values(|a: Attachment| a.part_id));
                if involved(atts_all, g, start, p) && p != g {
                    let a = choose|a: Attachment|
                        #[trigger] atts_all.contains(a) && a.gear == g && a.active_at(start) && a.part_id == p;
                    assert(attachments@.contains(a));
                }
            }
        }
        let ghost ids0 = ids@;
        let mut parts: Vec<Part> = Vec::new();
        let mut j: usize = 0;
        while j < partlist.len()
            invariant
                0 <= j <= partlist@.len(),
                gear == Some(g),
                old_store == *old(store),
                start.wf(),
                store.wf(),
                store.usages == old_store.usages,
                store.activities == old_store.activities,
                store.attachments == old_store.attachments,
                store.attachments@ == atts_all,
                store.services == old_store.services,
                store.plans == old_store.plans,
                store.next_part_id == old_store.next_part_id,
                store.dir == old_store.dir,
                forall|p: PartId| #[trigger] partlist@.contains(p) <==> involved(atts_all, g, start, p),
                forall|x: UsageId| #[trigger] ids0.contains(x) <==>
                    (exists|a: Attachment| attachments@.contains(a) && a.usage == x),
                forall|x: Attachment| #[trigger] attachments@.contains(x) <==>
                    (atts_all.contains(x) && x.gear == g && x.active_at(start)),
                forall|p: PartId| #[trigger] store.has_part(p) == old_store.has_part(p),
                forall|p: PartId| #[trigger] store.part(p) ==
                    if partlist@.take(j as int).contains(p) {
                        crate::part::touched(old_store.part(p), start)
                    } else {
                        old_store.part(p)
                    },
                forall|q: int| 0 <= q < j ==> old_store.has_part(#[trigger] partlist@[q]),
                forall|x: UsageId| #[trigger] ids@.contains(x) ==> counts_for(old_store, g, start, x.0),
                forall|x: UsageId| #[trigger] ids0.contains(x) ==> ids@.contains(x),
                forall|q: int| 0 <= q < j ==> ids@.contains(old_store.part(#[trigger] partlist@[q]).usage),
                forall|q: int, s: Service| #![trigger partlist@[q], old_store.services@.contains(s)]
                    0 <= q < j && old_store.services@.contains(s)
                    && s.part_id == partlist@[q] && s.time.nanos > start.nanos
                    ==> ids@.contains(s.usage),
                forall|x: Part| #[trigger] parts@.contains(x) ==>
                    involved(atts_all, g, start, x.id) && x == crate::part::touched(old_store.part(x.id), start),
                forall|q: int| 0 <= q < j ==> exists|x: Part| #[trigger] parts@.contains(x) && x.id == #[trigger] partlist@[q],
            decreases partlist@.len() - j,
        {
            let pid: PartId = partlist[j];
            let ghost before = *store;
            let part = match pid.update_timestamps(start, &mut *store) {
                Ok(p) => p,
                Err(e) => {
                    proof {
                        assert(partlist@.contains(pid));
                        assert(involved(atts_all, g, start, pid));
                        assert(!old_store.has_part(pid));
                    }
                    return Err(e);
                },
            };
            let ghost ids_before = ids@;
            ids.push(part.usage());
            let mut sv = Service::get_usageids(part.id, start, store)?;
            let ghost sv_v = sv@;
            ids.append(&mut sv);
            let ghost parts_before = parts@;
            parts.push(part);
            proof {
                let pred = crate::service::serviced_after(pid, start);
                crate::store::lemma_filter_members(old_store.services@, pred);
                crate::store::lemma_map_members(old_store.services@.filter(pred), |s: Service| s.usage);
                assert(part.id == pid);
                assert(ids@ == ids_before.push(part.usage) + sv_v);
                assert forall|x: UsageId| #[trigger] ids@.contains(x) <==>
                    (ids_before.contains(x) || x == part.usage || sv_v.contains(x)) by {
                    let a = ids_before.push(part.usage);
                    assert(a.last() == part.usage);
                    assert(a.drop_last() == ids_before);
                    if ids@.contains(x) {
                        let k = choose|k: int| 0 <= k < ids@.len() && ids@[k] == x;
                        if k < a.len() {
                            assert(a[k] == x);
                            crate::store::lemma_contains_last(a, x);
                        } else {
                            assert(sv_v[k - a.len()] == x);
                        }
                    }
                    if ids_before.contains(x) || x == part.usage {
                        crate::store::lemma_contains_last(a, x);
                        let k = choose|k: int| 0 <= k < a.len() && a[k] == x;
                        assert(ids@[k] == x);
                    }
                    if sv_v.contains(x) {
                        let k = choose|k: int| 0 <= k < sv_v.len() && sv_v[k] == x;
                        assert(ids@[k + a.len()] == x);
                    }
                }
                assert(partlist@.contains(pid));
                assert(involved(atts_all, g, start, pid));
                assert forall|x: UsageId| #[trigger] ids@.contains(x) implies counts_for(old_store, g, start, x.0) by {
                    if x == part.usage {
                        assert(old_store.part(pid).usage == part.usage);
                        assert(involved(old_store.attachments@, g, start, pid));
                    } else if sv_v.contains(x) {
                        let s = choose|s: Service| old_store.services@.filter(pred).contains(s) && s.usage == x;
                        assert(old_store.services@.contains(s));
                    }
                }
                assert(partlist@.take(j + 1) == partlist@.take(j as int).push(pid));
                assert forall|p: PartId| #[trigger] store.has_part(p) == old_store.has_part(p) by {
                    assert(before.has_part(p) == old_store.has_part(p));
                    assert(store.parts@ == before.parts@.insert(pid.0, part));
                }
                assert forall|p: PartId| #[trigger] partlist@.take(j + 1).contains(p) <==>
                    (partlist@.take(j as int).contains(p) || p == pid) by {
                    crate::store::lemma_contains_last(partlist@.take(j + 1), p);
                    assert(partlist@.take(j + 1).drop_last() == partlist@.take(j as int));
                }
                assert forall|p: PartId| #[trigger] store.part(p) ==
                    if partlist@.take(j + 1).contains(p) {
                        crate::part::touched(old_store.part(p), start)
                    } else {
                        old_store.part(p)
                    } by {
                    assert(before.part(p) == if partlist@.take(j as int).contains(p) {
                        crate::part::touched(old_store.part(p), start)
                    } else {
                        old_store.part(p)
                    });
                    assert(store.parts@ == before.parts@.insert(pid.0, part));
                    if p == pid {
                        lemma_touched_idempotent(old_store.part(p), start);
                    } else {
                        assert(p.0 != pid.0);
                    }
                }
                assert forall|q: int, s: Service| #![trigger partlist@[q], old_store.services@.contains(s)]
                    0 <= q < j + 1 && old_store.services@.contains(s)
                    && s.part_id == partlist@[q] && s.time.nanos > start.nanos
                    implies ids@.contains(s.usage) by {
                    if q == j {
                        assert(old_store.services@.filter(pred).contains(s));
                        assert(sv_v.contains(s.usage));
                    }
                }
                assert forall|x: Part| #[trigger] parts@.contains(x) implies
                    involved(atts_all, g, start, x.id) && x == crate::part::touched(old_store.part(x.id), start) by {
                    crate::store::lemma_contains_last(parts@, x);
                    assert(parts@.drop_last() == parts_before);
                    if x == part {
                        assert(before.part(pid) == if partlist@.take(j as int).contains(pid) {
                            crate::part::touched(old_store.part(pid), start)
                        } else {
                            old_store.part(pid)
                        });
                        lemma_touched_idempotent(old_store.part(pid), start);
                    }
                }
                assert forall|q: int| 0 <= q < j + 1 implies exists|x: Part| #[trigger] parts@.contains(x) && x.id == #[trigger] partlist@[q] by {
                    assert(parts@.drop_last() == parts_before);
                    if q == j {
                        assert(parts@[parts@.len() - 1] == part);
                        assert(parts@.contains(part));
                    } else {
                        let x = choose|x: Part| #[trigger] parts_before.contains(x) && x.id == #[trigger] partlist@[q];
                        crate::store::lemma_contains_last(parts@, x);
                    }
                }
            }
            j = j + 1;
        }
        proof {
            assert(partlist@.take(partlist@.len() as int) =~= partlist@);
            assert(involved_parts_stored(old_store, g, start)) by {
                assert forall|p: PartId| #[trigger] involved(old_store.attachments@, g, start, p) implies old_store.has_part(p) by {
                    assert(partlist@.contains(p));
                    let q = choose|q: int| 0 <= q < partlist@.len() && partlist@[q] == p;
                }
            }
            // every counted usage is in `ids`
            assert forall|k: u128| #[trigger] counts_for(old_store, g, start, k) implies ids@.contains(UsageId(k)) by {
                if exists|a: Attachment|
                    #[trigger] old_store.attachments@.contains(a) && a.gear == g && a.active_at(start) && a.usage.0 == k {
                    let a = choose|a: Attachment|
                        #[trigger] old_store.attachments@.contains(a) && a.gear == g && a.active_at(start) && a.usage.0 == k;
                    assert(attachments@.contains(a));
                    assert(a.usage == UsageId(k));
                    assert(ids0.contains(a.usage));
                } else if exists|p: PartId|
                    #[trigger] involved(old_store.attachments@, g, start, p) && old_store.has_part(p) && old_store.part(p).usage.0 == k {
                    let p = choose|p: PartId|
                        #[trigger] involved(old_store.attachments@, g, start, p) && old_store.has_part(p) && old_store.part(p).usage.0 == k;
                    assert(partlist@.contains(p));
                    let q = choose|q: int| 0 <= q < partlist@.len() && partlist@[q] == p;
                    assert(ids@.contains(old_store.part(partlist@[q]).usage));
                    assert(old_store.part(p).usage == UsageId(k));
                } else {
                    let s = choose|s: Service|
                        #[trigger] old_store.services@.contains(s) && involved(old_store.attachments@, g, start, s.part_id)
                            && s.time.nanos > start.nanos && s.usage.0 == k;
                    assert(partlist@.contains(s.part_id));
                    let q = choose|q: int| 0 <= q < partlist@.len() && partlist@[q] == s.part_id;
                    assert(ids@.contains(s.usage));
                    assert(s.usage == UsageId(k));
                }
            }
        }
        let ghost after_loop = *store;
        let current = Usage::get_vec(&ids, store)?;
        proof {
            assert forall|q: int| 0 <= q < current@.len() implies (#[trigger] current@[q]).sum_fits(usage) by {
                assert(current@[q] == old_store.usage_or_zero(ids@[q]));
                assert(ids@.contains(ids@[q]));
                assert(UsageId(ids@[q].0) == ids@[q]);
            }
        }
        let usages = Usage::add_to_all(current, &usage);
        let ghost add_u = |k: u128| old_store.usage_or_zero(UsageId(k)).spec_plus(usage);
        proof {
            assert forall|q: int| 0 <= q < usages@.len() implies #[trigger] usages@[q] == add_u(usages@[q].id.0) by {
                assert(usages@[q] == old_store.usage_or_zero(ids@[q]).spec_plus(usage));
                assert(UsageId(ids@[q].0) == ids@[q]);
            }
        }
        let _n: usize = Usage::update_vec(&usages, &mut *store)?;
        proof {
            crate::usage::lemma_with_usages_uniform(old_store.usages@, usages@, add_u);
            assert forall|k: u128| #[trigger] crate::usage::mentions(usages@, k) <==> counts_for(old_store, g, start, k) by {
                if crate::usage::mentions(usages@, k) {
                    let q = choose|q: int| 0 <= q < usages@.len() && #[trigger] usages@[q].id.0 == k;
                    assert(usages@[q].id == ids@[q]);
                    assert(ids@.contains(ids@[q]));
                }
                if counts_for(old_store, g, start, k) {
                    let q = choose|q: int| 0 <= q < ids@.len() && ids@[q] == UsageId(k);
                    assert(usages@[q].id.0 == k);
                }
            }
            assert forall|p: PartId| #[trigger] store.part(p).usage == old_store.part(p).usage by {
                assert(after_loop.part(p) == if partlist@.take(partlist@.len() as int).contains(p) {
                    crate::part::touched(old_store.part(p), start)
                } else {
                    old_store.part(p)
                });
            }
            assert forall|k: u128| #[trigger] store.usage_or_zero(UsageId(k)) ==
                if counts_for(old_store, g, start, k) {
                    old_store.usage_or_zero(UsageId(k)).spec_plus(usage)
                } else {
                    old_store.usage_or_zero(UsageId(k))
                } by {
                if counts_for(old_store, g, start, k) {
                    assert(crate::usage::mentions(usages@, k));
                }
            }
        }
        proof {
            assert forall|p: PartId| #[trigger] store.has_part(p) == old_store.has_part(p) by {
                assert(after_loop.has_part(p) == old_store.has_part(p));
            }
            assert forall|p: PartId| #[trigger] store.part(p) ==
                if involved(old_store.attachments@, g, start, p) {
                    crate::part::touched(old_store.part(p), start)
                } else {
                    old_store.part(p)
                } by {
                assert(after_loop.part(p) == if partlist@.take(partlist@.len() as int).contains(p) {
                    crate::part::touched(old_store.part(p), start)
                } else {
                    old_store.part(p)
                });
                assert(partlist@.contains(p) == involved(atts_all, g, start, p));
            }
            assert forall|x: Part| #[trigger] parts@.contains(x) implies
                involved(old_store.attachments@, g, start, x.id) && x == store.part(x.id) by {
                assert(involved(atts_all, g, start, x.id));
                assert(store.part(x.id) == crate::part::touched(old_store.part(x.id), start));
            }
            assert forall|p: PartId| #[trigger] involved(old_store.attachments@, g, start, p)
                implies exists|x: Part| #[trigger] parts@.contains(x) && x.id == p by {
                assert(partlist@.contains(p));
                let q = choose|q: int| 0 <= q < partlist@.len() && partlist@[q] == p;
                assert(exists|x: Part| #[trigger] parts@.contains(x) && x.id == #[trigger] partlist@[q]);
            }
        }
        let res = Summary {
            activities: Vec::new(),
            parts,
            attachments: Vec::new(),
            usages,
            services: Vec::new(),
            plans: Vec::new(),
            shops: Vec::new(),
        };
        proof {
            assert forall|p: PartId| #[trigger] involved(old(store).attachments@, g, start, p)
                implies lists_part(res.parts@, p) by {
                assert(involved(old_store.attachments@, g, start, p));
                let x = choose|x: Part| #[trigger] parts@.contains(x) && x.id == p;
                assert(res.parts@.contains(x));
            }
        }
        Ok(res)
    }
}


/// The later of two instants (the second when they coincide).
pub open spec fn later_of(x: Timestamp, y: Timestamp) -> Timestamp {
    if y.nanos < x.nanos { x } else { y }
}

/// The earlier of two instants (the first when they coincide).
pub open spec fn earlier_of(x: Timestamp, y: Timestamp) -> Timestamp {
    if y.nanos < x.nanos { y } else { x }
}

/// The activities of `acts` run, for each attachment of `atts` in turn, on
/// its gear while it was in force and within `[begin, end)`.
pub open spec fn acts_over(acts: Seq<Activity>, atts: Seq<Attachment>, begin: Timestamp, end: Timestamp) -> Seq<Activity>
    decreases atts.len(),
{
    if atts.len() == 0 {
        Seq::empty()
    } else {
        let a = atts.last();
        acts_over(acts, atts.drop_last(), begin, end)
            + acts.filter(found_in(a.gear, later_of(a.attached, begin), earlier_of(a.detached, end)))
    }
}

/// `atts` are the attachments of part `part`, ordered by the time they were attached.
pub open spec fn attachments_in_order(store: MemStore, part: PartId, atts: Seq<Attachment>) -> bool {
    &&& atts.to_multiset() == store.attachments@.filter(of_part(part)).to_multiset()
    &&& sorted_by_key(atts, att_key(false))
}

impl Attachment {
    /// The activities run with part `part` within `[begin, end)`: for each
    /// of its attachments, ordered by the time they were attached, those
    /// of the gear while it was attached.
    pub fn activities_by_part(part: PartId, begin: Timestamp, end: Timestamp, store: &MemStore)
        -> (r: Result<Vec<Activity>, Error>)
        ensures
            r matches Ok(v) && exists|atts: Seq<Attachment>|
                #[trigger] acts_over(store.activities@, atts, begin, end) == v@
                    && attachments_in_order(*store, part, atts),
    {
        let attachments = store.attachments_all_by_part(part)?;
        let mut activities: Vec<Activity> = Vec::new();
        let mut i: usize = 0;
        while i < attachments.len()
            invariant
                0 <= i <= attachments@.len(),
                activities@ == acts_over(store.activities@, attachments@.take(i as int), begin, end),
            decreases attachments@.len() - i,
        {
            let att = attachments[i];
            let b = att.attached.latest(begin);
            let e = att.detached.earliest(end);
            let mut found = Activity::find(att.gear, b, e, store)?;
            let ghost before = activities@;
            activities.append(&mut found);
            proof {
                let s1 = attachments@.take(i + 1);
                assert(s1.drop_last() =~= attachments@.take(i as int));
                assert(s1.last() == att);
            }
            i = i + 1;
        }
        proof { assert(attachments@.take(attachments@.len() as int) =~= attachments@); }
        Ok(activities)
    }
}


/// The activities whose usage an attachment collects: those of its gear
/// started while it was in force.
pub open spec fn attachment_acts(store: MemStore, a: Attachment) -> Seq<Activity> {
    store.activities@.filter(found_in(a.gear, a.attached, a.detached))
}

/// `us` are the usages of the services of `part` done at or after `time`,
/// recalculated from `store`, in store order.
pub open spec fn recalculated(store: MemStore, part: PartId, time: Timestamp, us: Seq<Usage>) -> bool {
    let due = service_views(store.services@).filter(due_after(part, time));
    &&& us.len() == due.len()
    &&& forall|i: int| 0 <= i < due.len() ==> calculated(store, due[i], #[trigger] us[i])
}

/// Recalculating the services of `part` due at or after `time` from `store` overflows.
pub open spec fn recalc_overflows(store: MemStore, part: PartId, time: Timestamp) -> bool {
    exists|x: ServiceView| #[trigger] service_views(store.services@).filter(due_after(part, time)).contains(x)
        && overflows_at(store, x.part_id, x.time)
}

/// Recalculating the services of `part` due at or after `time` stays in
/// range in every store with the parts, activities and services of `old`
/// and the attachments `atts`.
pub open spec fn recalc_fits_with(old: MemStore, atts: Seq<Attachment>, part: PartId, time: Timestamp) -> bool {
    forall|s: MemStore| s.attachments@ == atts && s.parts == old.parts && s.activities == old.activities
        && s.services == old.services ==> !(#[trigger] recalc_overflows(s, part, time))
}

/// Some usage counter of `store` would leave the `i32` range in one of the
/// sums that attaching and detaching parts make: taking back a stored usage,
/// adding up the activities of an attachment, adding that up to a part's
/// usage, taking a stored usage back from a part's usage, or recalculating
/// a service.
pub open spec fn counters_overflow(store: MemStore) -> bool {
    ||| exists|k: UsageId| !(#[trigger] store.usage_or_zero(k)).neg_fits()
    ||| exists|a: Attachment| !total_fits(#[trigger] attachment_acts(store, a))
    ||| exists|p: PartId, a: Attachment| #![trigger store.part(p), attachment_acts(store, a)]
            !store.usage_or_zero(store.part(p).usage).sum_fits(total_usage(a.usage, attachment_acts(store, a)))
    ||| exists|k: UsageId, p: PartId| #![trigger store.usage_or_zero(k), store.part(p)]
            store.has_part(p) && !crate::usage::usage_in(store.usages@.remove(k.0), store.part(p).usage)
                .sum_fits(store.usage_or_zero(k).spec_negated())
    ||| exists|p: PartId, t: Timestamp| #[trigger] overflows_at(store, p, t)
}

/// Deleting the stored attachment `att` from `old` goes through: its part
/// and the part's type are known, and every counter stays in range.
pub open spec fn delete_fits(old: MemStore, att: Attachment) -> bool {
    let au = old.usage_or_zero(att.usage);
    let rest = old.usages@.remove(att.usage.0);
    &&& part_known(old, att.part_id)
    &&& au.neg_fits()
    &&& crate::usage::usage_in(rest, old.part(att.part_id).usage).sum_fits(au.spec_negated())
    &&& recalc_fits_with(old, old.attachments@.filter(other_key(att)), att.part_id, att.attached)
}

/// After the stored attachment `att` was deleted from `old`, `a` can be
/// created anew: its counters and those of its part stay in range (the
/// part's usage being what the deletion left).
pub open spec fn recreate_fits(old: MemStore, att: Attachment, a: Attachment) -> bool {
    let au = old.usage_or_zero(att.usage);
    let rest = old.usages@.remove(att.usage.0);
    let pu = crate::usage::usage_in(rest, old.part(att.part_id).usage).spec_plus(au.spec_negated());
    let acts = attachment_acts(old, a);
    &&& total_fits(acts)
    &&& pu.sum_fits(total_usage(a.usage, acts))
}

/// Every part stays stored with its type.
pub open spec fn types_kept(old: MemStore, new: MemStore) -> bool {
    forall|p: PartId| #![trigger new.has_part(p)] #![trigger new.part(p)]
        new.has_part(p) == old.has_part(p) && new.part(p).what == old.part(p).what
}

/// What `types_kept` says of one part.
pub proof fn lemma_types_kept_at(old: MemStore, new: MemStore, p: PartId)
    requires
        types_kept(old, new),
    ensures
        new.has_part(p) == old.has_part(p),
        new.part(p).what == old.part(p).what,
{
    assert(new.has_part(p) == old.has_part(p) && new.part(p).what == old.part(p).what);
}

/// `types_kept` chains.
pub proof fn lemma_types_kept_trans(a: MemStore, b: MemStore, c: MemStore)
    requires
        types_kept(a, b),
        types_kept(b, c),
    ensures
        types_kept(a, c),
{
    assert forall|p: PartId| #[trigger] c.has_part(p) == a.has_part(p) && c.part(p).what == a.part(p).what by {
        lemma_types_kept_at(a, b, p);
        lemma_types_kept_at(b, c, p);
    }
}

/// Replacing a stored part by one of the same type keeps every part's type.
pub proof fn lemma_replace_keeps_types(old: MemStore, new: MemStore, pid: PartId, q: Part)
    requires
        old.has_part(pid),
        q.what == old.part(pid).what,
        new.parts@ == old.parts@.insert(pid.0, q),
    ensures
        types_kept(old, new),
{
    assert forall|p: PartId| #[trigger] new.has_part(p) == old.has_part(p) && new.part(p).what == old.part(p).what by {
        if p.0 == pid.0 {
            assert(p == pid);
        }
    }
}

/// Touching a part (moving its timestamps) keeps every part's type.
pub proof fn lemma_touch_keeps_types(old: MemStore, new: MemStore, pid: PartId, start: Timestamp)
    requires
        new.parts == old.parts || (old.has_part(pid)
            && new.parts@ == old.parts@.insert(pid.0, crate::part::touched(old.part(pid), start))),
    ensures
        types_kept(old, new),
{
    assert forall|p: PartId| #[trigger] new.has_part(p) == old.has_part(p) && new.part(p).what == old.part(p).what by {
        if new.parts != old.parts && p.0 == pid.0 {
            assert(p == pid);
        }
    }
}

/// `a` with usage record `u`.
pub open spec fn with_usage(a: Attachment, u: UsageId) -> Attachment {
    Attachment { usage: u, ..a }
}

/// `a` ending at `time`, with usage record `u`.
pub open spec fn ended_at(a: Attachment, time: Timestamp, u: UsageId) -> Attachment {
    Attachment { detached: time, usage: u, ..a }
}

/// The store changed only in its parts, attachments and usages.
pub open spec fn timeline_frame(old: MemStore, new: MemStore) -> bool {
    &&& new.wf()
    &&& new.activities == old.activities
    &&& new.services == old.services
    &&& new.plans == old.plans
    &&& new.next_part_id == old.next_part_id
    &&& new.dir == old.dir
}

impl Attachment {
    /// The usage the attachment collects, under its usage id: the usages of
    /// the activities of its gear started while it was in force, added up;
    /// `AnyFailure` when that leaves the `i32` range.
    pub fn calculate_usage(&self, store: &MemStore) -> (r: Result<Usage, Error>)
        ensures
            r is Ok <==> total_fits(attachment_acts(*store, *self)),
            r matches Ok(u) ==> u == total_usage(self.usage, attachment_acts(*store, *self)),
            r matches Err(e) ==> e is AnyFailure,
    {
        let acts = Activity::find(self.gear, self.attached, self.detached, store)?;
        Activity::sum_usage(self.usage, &acts)
    }

    /// The stored usage of the attachment, zero when none is stored.
    pub fn usage(&self, store: &MemStore) -> (r: Result<Usage, Error>)
        ensures
            r == Ok::<Usage, Error>(store.usage_or_zero(self.usage)),
    {
        self.usage.read(store)
    }

    /// register and store a new attachment
    ///
    /// The attachment gets a fresh usage record collecting the usage of the
    /// activities of the gear while it is in force; that usage is added to
    /// the part, the part's timestamps cover the attach time and the usages
    /// of the part's services done since are recalculated. Returns the part,
    /// the attachment and all usages changed.
    pub fn create(self, store: &mut MemStore) -> (r: Result<Summary, Error>)
        requires
            old(store).wf(),
            self.attached.wf(),
        ensures
            timeline_frame(*old(store), *final(store)),
            r matches Ok(s) ==> {
                let a = s.attachments@[0].a;
                let part = crate::part::touched(old(store).part(self.part_id), self.attached);
                &&& a == Attachment { usage: a.usage, ..self }
                &&& s.attachments@.len() == 1 && s.parts@ == seq![part]
                &&& s.attachments@[0].name@ == part.name@ && s.attachments@[0].what == part.what
                &&& old(store).has_part(self.part_id)
                &&& first_where(old(store).attachments@, same_key(self)) is None
                &&& final(store).attachments@ == old(store).attachments@.push(a)
                &&& final(store).parts@ == old(store).parts@.insert(self.part_id.0, part)
                &&& s.usages@.len() >= 2
                &&& total_fits(attachment_acts(*old(store), a))
                &&& s.usages@[1] == total_usage(a.usage, attachment_acts(*old(store), a))
                &&& s.usages@[0] == old(store).usage_or_zero(part.usage).spec_plus(s.usages@[1])
                &&& recalculated(*final(store), self.part_id, self.attached, s.usages@.skip(2))
                &&& final(store).usages@ == crate::store::with_usages(old(store).usages@, s.usages@)
            },
            !old(store).has_part(self.part_id) ==> (r matches Err(e) && e is NotFound),
            old(store).has_part(self.part_id) && first_where(old(store).attachments@, same_key(self)) is Some
                ==> (r matches Err(e) && e is Conflict),
            ({
                let acts = attachment_acts(*old(store), self);
                &&& old(store).has_part(self.part_id)
                &&& first_where(old(store).attachments@, same_key(self)) is None
                &&& total_fits(acts)
                &&& old(store).usage_or_zero(old(store).part(self.part_id).usage).sum_fits(total_usage(self.usage, acts))
                &&& part_known(*old(store), self.part_id)
                &&& !recalc_overflows(*final(store), self.part_id, self.attached)
            }) ==> r is Ok,
            r matches Err(e) ==> e is NotFound || e is Conflict || e is AnyFailure,
            part_known(*old(store), self.part_id) && first_where(old(store).attachments@, same_key(self)) is None
                ==> r is Ok || (r matches Err(e) && e is AnyFailure && counters_overflow(*final(store))),
            one_place(old(store).attachments@) && fits_between(old(store).attachments@, self)
                ==> one_place(final(store).attachments@),
            one_per_hook(*old(store)) && hook_fits(*old(store), self) ==> one_per_hook(*final(store)),
            r matches Err(e) && e is AnyFailure ==> counters_overflow(*final(store)),
            r is Err ==> final(store).usages == old(store).usages,
            (r matches Err(e) && (e is Conflict || !old(store).has_part(self.part_id))) ==> *final(store) == *old(store),
            final(store).attachments == old(store).attachments || exists|u: UsageId|
                final(store).attachments@ == old(store).attachments@.push(#[trigger] with_usage(self, u)),
            final(store).parts == old(store).parts || (old(store).has_part(self.part_id)
                && final(store).parts@ == old(store).parts@.insert(self.part_id.0,
                    crate::part::touched(old(store).part(self.part_id), self.attached))),
    {
        let mut this = self;
        this.usage = UsageId::new();
        let ghost s0 = *store;
        let current = this.part_id.read(store)?;
        if store.attachment_find_key(&this).is_some() {
            return Err(Error::Conflict("attachment exists already".to_owned()));
        }
        proof { assert(same_key(self) =~= same_key(this)); }
        let usage = match this.calculate_usage(store) {
            Ok(u) => u,
            Err(e) => {
                proof { assert(!total_fits(attachment_acts(s0, this))); }
                return Err(e);
            },
        };
        let pu = current.usage().read(store)?;
        let sum = match pu.checked_plus(&usage) {
            Some(x) => x,
            None => {
                proof {
                    assert(!s0.usage_or_zero(s0.part(this.part_id).usage).sum_fits(total_usage(this.usage, attachment_acts(s0, this))));
                }
                return Err(Error::AnyFailure("usage counter overflow".to_owned()));
            },
        };
        let part = this.part_id.update_timestamps(this.attached, store)?;
        let ghost s1 = *store;
        let created = store.attachment_create(this)?;
        let ghost s2 = *store;
        proof {
            if one_place(s0.attachments@) && fits_between(s0.attachments@, self) {
                crate::seqs::lemma_first_where_member(s0.attachments@, same_key(self));
                assert forall|b: Attachment| #[trigger] s1.attachments@.contains(b) && b != this && b.part_id == this.part_id
                    implies crate::timeline::apart(this, b) by {
                    assert(!same_key(self)(b));
                }
                assert(!s1.attachments@.contains(this)) by {
                    if s1.attachments@.contains(this) {
                        assert(same_key(self)(this));
                    }
                }
                crate::timeline::lemma_one_place_push(s1.attachments@, this);
            }
            if one_per_hook(s0) && hook_fits(s0, self) {
                lemma_touch_keeps_types(s0, s1, self.part_id, self.attached);
                lemma_touch_keeps_types(s0, s2, self.part_id, self.attached);
                assert(hook_fits(s0, this)) by {
                    assert forall|b: Attachment| #[trigger] s0.attachments@.contains(b) && crate::timeline::rivals(s0, this, b)
                        implies crate::timeline::apart(this, b) by {
                        assert(crate::timeline::rivals(s0, self, b));
                    }
                }
                crate::timeline::lemma_one_per_hook_push(s0, s2, this);
            }
        }
        proof { assert(this == with_usage(self, this.usage)); }
        let detail = created.add_details(&part.name, part.what);
        let mut usages: Vec<Usage> = Vec::new();
        usages.push(sum);
        usages.push(usage);
        let mut rec = match Service::recalculate(part.id, this.attached, store) {
            Ok(v) => v,
            Err(e) => {
                proof {
                    if e is AnyFailure {
                        let x = choose|x: ServiceView| #[trigger] service_views(store.services@).filter(due_after(part.id, this.attached)).contains(x)
                            && overflows_at(*store, x.part_id, x.time);
                        assert(overflows_at(*store, x.part_id, x.time));
                    }
                }
                return Err(e);
            },
        };
        let ghost rec_v = rec@;
        usages.append(&mut rec);
        let _n: usize = Usage::update_vec(&usages, store)?;
        proof {
            crate::service::lemma_calculated_frame(s2, *store);
            assert(usages@.skip(2) =~= rec_v);
            assert(pu == s0.usage_or_zero(s0.part(self.part_id).usage));
        }
        let mut parts: Vec<Part> = Vec::new();
        parts.push(part);
        let mut attachments: Vec<AttachmentDetail> = Vec::new();
        attachments.push(detail);
        proof {
            assert(parts@ =~= seq![part]);
            assert(attachments@ =~= seq![detail]);
            let a = attachments@[0].a;
            assert(a == this);
            assert(a == Attachment { usage: a.usage, ..self });
            assert(usages@[1] == total_usage(a.usage, attachment_acts(s0, a)));
            assert(usages@[0] == s0.usage_or_zero(part.usage).spec_plus(usages@[1]));
            assert(recalculated(*store, self.part_id, self.attached, usages@.skip(2)));
            assert(store.usages@ == crate::store::with_usages(s0.usages@, usages@));
            assert(store.parts@ == s0.parts@.insert(self.part_id.0, part));
        }
        Ok(Summary {
            activities: Vec::new(),
            parts,
            attachments,
            usages,
            services: Vec::new(),
            plans: Vec::new(),
            shops: Vec::new(),
        })
    }
}

impl Attachment {
    /// deletes an attachment with its side-effects
    ///
    /// Removes the stored attachment with the key of `self` and its usage
    /// record, takes that usage back from the part and recalculates the
    /// usages of the part's services done since it was attached. Returns the
    /// attachment, marked as deleted (detached when attached, fresh usage
    /// id, no name, type 0), and the usages changed.
    pub fn delete(self, store: &mut MemStore) -> (r: Result<Summary, Error>)
        requires
            old(store).wf(),
        ensures
            timeline_frame(*old(store), *final(store)),
            one_place(old(store).attachments@) ==> one_place(final(store).attachments@),
            one_per_hook(*old(store)) ==> one_per_hook(*final(store)),
            final(store).parts == old(store).parts,
            r matches Err(e) && e is AnyFailure ==> counters_overflow(*final(store)),
            match first_where(old(store).attachments@, same_key(self)) {
                None => (r matches Err(e) && e is NotFound) && *final(store) == *old(store),
                Some(att) => {
                    let au = old(store).usage_or_zero(att.usage);
                    let rest = old(store).usages@.remove(att.usage.0);
                    let pid = old(store).part(att.part_id).usage;
                    &&& *final(store) == *old(store) || final(store).attachments@ == old(store).attachments@.filter(other_key(self))
                    &&& r is Ok ==> final(store).attachments@ == old(store).attachments@.filter(other_key(self))
                    &&& r matches Ok(s) ==> {
                        &&& s.attachments@.len() == 1
                        &&& s.attachments@[0].a == Attachment { detached: att.attached, usage: s.attachments@[0].a.usage, ..att }
                        &&& s.attachments@[0].name@ == Seq::<char>::empty() && s.attachments@[0].what == PartTypeId(0)
                        &&& s.usages@.len() >= 1
                        &&& old(store).has_part(att.part_id)
                        &&& au.neg_fits()
                        &&& s.usages@.last() == crate::usage::usage_in(rest, pid).spec_plus(au.spec_negated())
                        &&& recalculated(*final(store), att.part_id, att.attached, s.usages@.drop_last())
                        &&& final(store).usages@ == crate::store::with_usages(rest, s.usages@)
                    }
                    &&& !old(store).has_part(att.part_id) ==> r is Err
                    &&& !au.neg_fits() ==> (r matches Err(e) && e is AnyFailure)
                    &&& r matches Err(e) ==> e is NotFound || e is AnyFailure
                    &&& r is Err ==> final(store).usages@ == rest || *final(store) == *old(store)
                    &&& delete_fits(*old(store), att) ==> r is Ok
                    &&& part_known(*old(store), att.part_id) ==> r is Ok || (r matches Err(e) && e is AnyFailure && counters_overflow(*final(store)))
                },
            },
    {
        let ghost s0 = *store;
        if let Some(found) = store.attachment_find_key(&self) {
            let au = found.usage.read(store)?;
            if !au.can_negate() {
                proof { assert(!s0.usage_or_zero(found.usage).neg_fits()); }
                return Err(Error::AnyFailure("usage counter overflow".to_owned()));
            }
            if let Ok(p) = found.part_id.read(store) {
                let pu0 = if p.usage().0 == found.usage.0 { Usage::new(p.usage()) } else { p.usage().read(store)? };
                proof {
                    assert(pu0 == crate::usage::usage_in(s0.usages@.remove(found.usage.0), s0.part(found.part_id).usage));
                }
                if pu0.checked_plus(&au.negated()).is_none() {
                    proof {
                        assert(!crate::usage::usage_in(s0.usages@.remove(found.usage.0), s0.part(found.part_id).usage)
                            .sum_fits(s0.usage_or_zero(found.usage).spec_negated()) && s0.has_part(found.part_id));
                    }
                    return Err(Error::AnyFailure("usage counter overflow".to_owned()));
                }
            }
        }
        let att = store.attachment_delete(self)?;
        proof {
            if one_per_hook(s0) {
                assert(crate::attachment::types_kept(s0, *store));
                crate::store::lemma_filter_members(s0.attachments@, other_key(self));
                crate::timeline::lemma_one_per_hook_sub(s0, *store);
            }
            if one_place(s0.attachments@) {
                crate::timeline::lemma_one_place_filter(s0.attachments@, other_key(self));
            }
        }
        let deleted = att.usage.delete(store)?;
        if !deleted.can_negate() {
            return Err(Error::AnyFailure("usage counter overflow".to_owned()));
        }
        let usage = deleted.negated();
        let ghost s1 = *store;
        let mut usages = Service::recalculate(att.part_id, att.attached, store)?;
        let part = att.part_id.read(store)?;
        let pu = part.usage().read(store)?;
        let sum = match pu.checked_plus(&usage) {
            Some(x) => x,
            None => {
                return Err(Error::AnyFailure("usage counter overflow".to_owned()));
            },
        };
        let ghost rec_v = usages@;
        usages.push(sum);
        let _n: usize = Usage::update_vec(&usages, store)?;
        proof {
            crate::service::lemma_calculated_frame(s1, *store);
            assert(usages@.drop_last() =~= rec_v);
            assert(store.attachments@ == s0.attachments@.filter(other_key(self)));
        }
        let mut marked = att;
        marked.detached = att.attached;
        marked.usage = UsageId::new();
        let mut attachments: Vec<AttachmentDetail> = Vec::new();
        attachments.push(marked.add_details("", PartTypeId(0)));
        proof {
            reveal_strlit("");
        }
        Ok(Summary {
            activities: Vec::new(),
            parts: Vec::new(),
            attachments,
            usages,
            services: Vec::new(),
            plans: Vec::new(),
            shops: Vec::new(),
        })
    }

    /// change detached time for attachment
    ///
    /// * deletes the attachment for detached < attached
    /// * Does not check for collisions
    ///
    /// The stored attachment with the key of `self` is deleted; unless
    /// `time` is not after its attach time, `self` ending at `time` is
    /// created anew.
    pub fn detach(self, time: Timestamp, store: &mut MemStore) -> (r: Result<Summary, Error>)
        requires
            old(store).wf(),
            self.attached.wf(),
        ensures
            timeline_frame(*old(store), *final(store)),
            first_where(old(store).attachments@, same_key(self)) is None ==>
                (r matches Err(e) && e is NotFound) && *final(store) == *old(store),
            r is Ok ==> first_where(old(store).attachments@, same_key(self)) is Some,
            r is Ok && time.nanos <= self.attached.nanos ==>
                final(store).attachments@ == old(store).attachments@.filter(other_key(self))
                && final(store).parts == old(store).parts,
            r is Ok && self.attached.nanos < time.nanos ==> exists|u: UsageId|
                final(store).attachments@ == old(store).attachments@.filter(other_key(self))
                    .push(#[trigger] ended_at(self, time, u)),
            r matches Err(e) ==> e is NotFound || e is Conflict || e is AnyFailure,
            (first_where(old(store).attachments@, same_key(self)) matches Some(att) && delete_fits(*old(store), att)
                && (self.attached.nanos < time.nanos ==> recreate_fits(*old(store), att, Attachment { detached: time, ..self })
                    && !recalc_overflows(*final(store), self.part_id, self.attached)))
                ==> r is Ok,
            first_where(old(store).attachments@, same_key(self)) is Some && part_known(*old(store), self.part_id)
                ==> r is Ok || (r matches Err(e) && e is AnyFailure && counters_overflow(*final(store))),
            types_kept(*old(store), *final(store)),
            one_place(old(store).attachments@) && fits_between(old(store).attachments@, Attachment { detached: time, ..self })
                ==> one_place(final(store).attachments@),
            one_per_hook(*old(store)) && hook_fits(*old(store), Attachment { detached: time, ..self })
                ==> one_per_hook(*final(store)),
            r matches Err(e) && e is AnyFailure ==> counters_overflow(*final(store)),
            final(store).attachments == old(store).attachments
                || final(store).attachments@ == old(store).attachments@.filter(other_key(self))
                || (self.attached.nanos < time.nanos && exists|u: UsageId| final(store).attachments@
                    == old(store).attachments@.filter(other_key(self)).push(#[trigger] ended_at(self, time, u))),
            final(store).parts == old(store).parts || (old(store).has_part(self.part_id)
                && final(store).parts@ == old(store).parts@.insert(self.part_id.0,
                    crate::part::touched(old(store).part(self.part_id), self.attached))),
    {
        let ghost s0 = *store;
        let res = self.delete(store);
        proof { assert(types_kept(s0, *store)); }
        let res = res?;
        if self.attached.nanos >= time.nanos {
            return Ok(res);
        }
        let ghost s1 = *store;
        let mut next = self;
        next.detached = time;
        proof {
            assert(same_key(next) =~= same_key(self));
            crate::seqs::lemma_first_where_member(s1.attachments@, same_key(next));
            crate::store::lemma_filter_members(s0.attachments@, other_key(self));
        }
        proof {
            assert forall|u: UsageId| #[trigger] with_usage(next, u) == ended_at(self, time, u) by {}
        }
        let ghost s1 = *store;
        let created = next.create(store);
        proof {
            lemma_touch_keeps_types(s1, *store, self.part_id, self.attached);
            assert(types_kept(s0, *store)) by {
                assert forall|p: PartId| #[trigger] store.has_part(p) == s0.has_part(p) && store.part(p).what == s0.part(p).what by {
                    assert(s1.has_part(p) == s0.has_part(p));
                }
            }
        }
        let created = created?;
        proof {
            let a = created.attachments@[0].a;
            assert(a == ended_at(self, time, a.usage));
        }
        Ok(res.merge(created))
    }
}

impl Attachment {
    /// add redundant details from the store for client simplicity
    pub fn read_details(self, store: &MemStore) -> (r: Result<AttachmentDetail, Error>)
        ensures
            match r {
                Ok(d) => store.has_part(self.part_id) && d.a == self && d.name@ == store.part(self.part_id).name@
                    && d.what == store.part(self.part_id).what,
                Err(e) => !store.has_part(self.part_id) && e is NotFound,
            },
    {
        let part = self.part_id.read(store)?;
        Ok(self.add_details(&part.name, part.what))
    }

    /// return all attachments of `part` with details, and their usages,
    /// ordered by the time they were attached
    pub fn for_part_with_usage(part: PartId, store: &MemStore) -> (r: Result<(Vec<AttachmentDetail>, Vec<Usage>), Error>)
        requires
            store.wf(),
        ensures
            !store.has_part(part) ==> match r {
                Ok((ds, us)) => store.attachments@.filter(of_part(part)).len() == 0 && ds@.len() == 0 && us@.len() == 0,
                Err(e) => e is NotFound,
            },
            store.has_part(part) ==> (r matches Ok((ds, us)) && exists|atts: Seq<Attachment>|
                #[trigger] attachments_in_order(*store, part, atts) && ds@.len() == atts.len() && us@.len() == atts.len()
                && forall|i: int| 0 <= i < atts.len() ==> #[trigger] ds@[i].a == atts[i]
                    && ds@[i].name@ == store.part(part).name@ && ds@[i].what == store.part(part).what
                    && us@[i] == store.usage_or_zero(atts[i].usage)),
    {
        let atts = store.attachments_all_by_part(part)?;
        let ghost sorted = atts@;
        proof {
            let f = store.attachments@.filter(of_part(part));
            sorted.to_multiset_ensures();
            f.to_multiset_ensures();
            crate::store::lemma_filter_members(store.attachments@, of_part(part));
            assert forall|x: Attachment| #[trigger] sorted.contains(x) implies x.part_id == part by {
                assert(sorted.to_multiset().count(x) > 0);
                assert(f.to_multiset().count(x) > 0);
                assert(f.contains(x));
            }
            assert(f.len() == sorted.len());
        }
        let mut details: Vec<AttachmentDetail> = Vec::new();
        let mut usages: Vec<Usage> = Vec::new();
        let mut i: usize = 0;
        while i < atts.len()
            invariant
                0 <= i <= atts@.len(),
                sorted == atts@,
                forall|x: Attachment| #[trigger] sorted.contains(x) ==> x.part_id == part,
                details@.len() == i && usages@.len() == i,
                i > 0 ==> store.has_part(part),
                forall|k: int| 0 <= k < i ==> #[trigger] details@[k].a == sorted[k]
                    && details@[k].name@ == store.part(part).name@ && details@[k].what == store.part(part).what
                    && usages@[k] == store.usage_or_zero(sorted[k].usage),
            decreases atts@.len() - i,
        {
            let a = atts[i];
            proof { assert(sorted.contains(a)); }
            let d = a.read_details(store)?;
            let u = a.usage(store)?;
            details.push(d);
            usages.push(u);
            i = i + 1;
        }
        proof {
            assert(attachments_in_order(*store, part, sorted));
        }
        Ok((details, usages))
    }
}

impl Attachment {
    /// The usage records an activity of `gear` starting at `start` counts
    /// for (see `counts_for`), each at least once.
    pub fn usage_ids_counted(gear: PartId, start: Timestamp, store: &MemStore) -> (r: Vec<UsageId>)
        requires
            store.wf(),
        ensures
            forall|k: u128| #[trigger] r@.contains(UsageId(k)) <==> counts_for(*store, gear, start, k),
    {
        let ghost atts_all = store.attachments@;
        let attachments = store.attachment_get_by_gear_and_time(gear, start);
        proof {
            crate::store::lemma_filter_members(store.attachments@, crate::store::gear_active_at(gear, start));
        }
        let mut ids: Vec<UsageId> = Vec::new();
        let mut partlist: Vec<PartId> = Vec::new();
        let mut i: usize = 0;
        while i < attachments.len()
            invariant
                0 <= i <= attachments@.len(),
                forall|x: Attachment| #[trigger] attachments@.contains(x) <==>
                    (store.attachments@.contains(x) && x.gear == gear && x.active_at(start)),
                ids@ == attachments@.take(i as int).map_values(|a: Attachment| a.usage),
                partlist@ == attachments@.take(i as int).map_values(|a: Attachment| a.part_id),
            decreases attachments@.len() - i,
        {
            ids.push(attachments[i].usage);
            partlist.push(attachments[i].part_id);
            proof {
                assert(attachments@.take(i + 1).map_values(|a: Attachment| a.usage)
                    =~= attachments@.take(i as int).map_values(|a: Attachment| a.usage).push(attachments@[i as int].usage));
                assert(attachments@.take(i + 1).map_values(|a: Attachment| a.part_id)
                    =~= attachments@.take(i as int).map_values(|a: Attachment| a.part_id).push(attachments@[i as int].part_id));
            }
            i = i + 1;
        }
        partlist.push(gear);
        proof {
            assert(attachments@.take(attachments@.len() as int) =~= attachments@);
            crate::store::lemma_map_members(attachments@, |a: Attachment| a.usage);
            crate::store::lemma_map_members(attachments@, |a: Attachment| a.part_id);
            assert forall|p: PartId| #[trigger] partlist@.contains(p) <==> involved(store.attachments@, gear, start, p) by {
                crate::store::lemma_contains_last(partlist@, p);
                assert(partlist@.drop_last() =~= attachments@.map_values(|a: Attachment| a.part_id));
                if involved(store.attachments@, gear, start, p) && p != gear {
                    let a = choose|a: Attachment|
                        #[trigger] store.attachments@.contains(a) && a.gear == gear && a.active_at(start) && a.part_id == p;
                    assert(attachments@.contains(a));
                }
            }
        }
        let ghost ids0 = ids@;
        let mut j: usize = 0;
        while j < partlist.len()
            invariant
                0 <= j <= partlist@.len(),
                store.wf(),
                forall|p: PartId| #[trigger] partlist@.contains(p) <==> involved(store.attachments@, gear, start, p),
                forall|x: UsageId| #[trigger] ids0.contains(x) <==>
                    (exists|a: Attachment| attachments@.contains(a) && a.usage == x),
                forall|x: Attachment| #[trigger] attachments@.contains(x) <==>
                    (store.attachments@.contains(x) && x.gear == gear && x.active_at(start)),
                forall|x: UsageId| #[trigger] ids@.contains(x) ==> counts_for(*store, gear, start, x.0),
                forall|x: UsageId| #[trigger] ids0.contains(x) ==> ids@.contains(x),
                forall|q: int| 0 <= q < j && store.has_part(#[trigger] partlist@[q]) ==> ids@.contains(store.part(partlist@[q]).usage),
                forall|q: int, s: Service| #![trigger partlist@[q], store.services@.contains(s)]
                    0 <= q < j && store.services@.contains(s)
                    && s.part_id == partlist@[q] && s.time.nanos > start.nanos
                    ==> ids@.contains(s.usage),
            decreases partlist@.len() - j,
        {
            let pid: PartId = partlist[j];
            let ghost ids_before = ids@;
            proof {
                assert(partlist@.contains(pid));
                assert(involved(store.attachments@, gear, start, pid));
            }
            match store.partid_get_part(pid) {
                Ok(part) => {
                    ids.push(part.usage());
                    proof {
                        assert forall|x: UsageId| #[trigger] ids@.contains(x) <==> (ids_before.contains(x) || x == part.usage) by {
                            crate::store::lemma_contains_last(ids@, x);
                            assert(ids@.drop_last() == ids_before);
                        }
                    }
                },
                Err(_) => {},
            }
            let ghost ids_mid = ids@;
            let mut sv = Service::get_usageids(pid, start, store).unwrap();
            let ghost sv_v = sv@;
            ids.append(&mut sv);
            proof {
                let pred = crate::service::serviced_after(pid, start);
                crate::store::lemma_filter_members(store.services@, pred);
                crate::store::lemma_map_members(store.services@.filter(pred), |s: Service| s.usage);
                assert(ids@ == ids_mid + sv_v);
                assert forall|x: UsageId| #[trigger] ids@.contains(x) <==> (ids_mid.contains(x) || sv_v.contains(x)) by {
                    if ids@.contains(x) {
                        let k = choose|k: int| 0 <= k < ids@.len() && ids@[k] == x;
                        if k < ids_mid.len() {
                            assert(ids_mid[k] == x);
                        } else {
                            assert(sv_v[k - ids_mid.len()] == x);
                        }
                    }
                    if ids_mid.contains(x) {
                        let k = choose|k: int| 0 <= k < ids_mid.len() && ids_mid[k] == x;
                        assert(ids@[k] == x);
                    }
                    if sv_v.contains(x) {
                        let k = choose|k: int| 0 <= k < sv_v.len() && sv_v[k] == x;
                        assert(ids@[k + ids_mid.len()] == x);
                    }
                }
                assert forall|x: UsageId| #[trigger] ids@.contains(x) implies counts_for(*store, gear, start, x.0) by {
                    if ids_before.contains(x) {
                    } else if sv_v.contains(x) {
                        let s = choose|s: Service| store.services@.filter(pred).contains(s) && s.usage == x;
                        assert(store.services@.contains(s));
                    } else {
                        assert(store.has_part(pid) && store.part(pid).usage == x);
                    }
                }
                assert forall|q: int, s: Service| #![trigger partlist@[q], store.services@.contains(s)]
                    0 <= q < j + 1 && store.services@.contains(s)
                    && s.part_id == partlist@[q] && s.time.nanos > start.nanos
                    implies ids@.contains(s.usage) by {
                    if q == j {
                        assert(store.services@.filter(pred).contains(s));
                        assert(sv_v.contains(s.usage));
                    }
                }
            }
            j = j + 1;
        }
        proof {
            assert forall|k: u128| #[trigger] counts_for(*store, gear, start, k) implies ids@.contains(UsageId(k)) by {
                if exists|a: Attachment|
                    #[trigger] store.attachments@.contains(a) && a.gear == gear && a.active_at(start) && a.usage.0 == k {
                    let a = choose|a: Attachment|
                        #[trigger] store.attachments@.contains(a) && a.gear == gear && a.active_at(start) && a.usage.0 == k;
                    assert(attachments@.contains(a));
                    assert(a.usage == UsageId(k));
                    assert(ids0.contains(a.usage));
                } else if exists|p: PartId|
                    #[trigger] involved(store.attachments@, gear, start, p) && store.has_part(p) && store.part(p).usage.0 == k {
                    let p = choose|p: PartId|
                        #[trigger] involved(store.attachments@, gear, start, p) && store.has_part(p) && store.part(p).usage.0 == k;
                    assert(partlist@.contains(p));
                    let q = choose|q: int| 0 <= q < partlist@.len() && partlist@[q] == p;
                    assert(ids@.contains(store.part(partlist@[q]).usage));
                    assert(store.part(p).usage == UsageId(k));
                } else {
                    let s = choose|s: Service|
                        #[trigger] store.services@.contains(s) && involved(store.attachments@, gear, start, s.part_id)
                            && s.time.nanos > start.nanos && s.usage.0 == k;
                    assert(partlist@.contains(s.part_id));
                    let q = choose|q: int| 0 <= q < partlist@.len() && partlist@[q] == s.part_id;
                    assert(ids@.contains(s.usage));
                    assert(s.usage == UsageId(k));
                }
            }
        }
        ids
    }
}

} // verus!
