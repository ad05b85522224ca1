//! Attaching and detaching parts with everything attached to them, and
//! disposing of and recovering parts.

use vstd::prelude::*;
use crate::attachment::{Attachment, timeline_frame, with_usage, ended_at};
use crate::error::Error;
use crate::part::PartId;
use crate::store::MemStore;
use crate::summary::Summary;
use crate::timestamp::{Timestamp, max_time, spec_max_time};
use crate::types::PartTypeId;
use crate::timeline::{
    timeline_ok, interval_ok, same_others, other_key, same_key, successor_of, later_of_part, ends_at,
    earliest, lemma_earliest, lemma_timeline_ok_filter, lemma_timeline_ok_push, lemma_timeline_ok_member,
    lemma_same_others_filter, lemma_same_others_push,
};
use crate::seqs::{first_where, sorted_by_key};
use crate::timeline::{in_assembly, att_key, part_active_at, one_place, free_at, fits_between, apart, one_per_hook, hook_fits, hook_free, rivals};
use crate::types::{subtype_ids, known_type, type_view, contains_type};
use crate::timestamp::{round_time, spec_round};
use crate::session::Session;
use crate::part::part_denial;

verus! {

/// Part `pid` is attached to `hook` of `gear` at `time`.
pub open spec fn attached_at(atts: Seq<Attachment>, pid: PartId, gear: PartId, hook: PartTypeId, time: Timestamp) -> bool {
    exists|a: Attachment| #[trigger] atts.contains(a) && a.part_id == pid && a.gear == gear && a.hook == hook
        && a.active_at(time)
}

/// Ending the stored attachment with the key of `a` at `time`, going from
/// `old` to `new`, keeps every counter in range (see `Attachment::detach`).
pub open spec fn detach_fits(old: MemStore, new: MemStore, a: Attachment, time: Timestamp) -> bool {
    first_where(old.attachments@, same_key(a)) matches Some(att) && crate::attachment::delete_fits(old, att)
        && (att.attached.nanos < time.nanos ==> crate::attachment::recreate_fits(old, att, Attachment { detached: time, ..att })
            && !crate::attachment::recalc_overflows(new, att.part_id, att.attached))
}

/// A usable point in time: representable and before "never".
pub open spec fn usable_time(t: Timestamp) -> bool {
    t.wf() && t.nanos < spec_max_time().nanos
}

/// Attachments of part `pid` made exactly at `time`.
pub open spec fn made_at(pid: PartId, time: Timestamp) -> spec_fn(Attachment) -> bool {
    |a: Attachment| a.part_id == pid && a.attached.nanos == time.nanos
}

/// The time an attachment of `pid` to `hook` of `gear` made at `time` ends:
/// when the next part of its type is attached there, or earlier when the
/// part itself is attached elsewhere before that; never, when neither
/// happens.
pub open spec fn attach_end(store: MemStore, pid: PartId, gear: PartId, hook: PartTypeId, time: Timestamp) -> Timestamp {
    let e0 = match earliest(store.attachments@, successor_of(store, pid, gear, hook, time, store.part(pid).what)) {
        Some(s) => s.attached,
        None => spec_max_time(),
    };
    match earliest(store.attachments@, later_of_part(pid, time)) {
        Some(n) => if e0.nanos > n.attached.nanos && !(n.gear == gear && n.hook == hook) { n.attached } else { e0 },
        None => e0,
    }
}

/// create Attachment for one part according to self
///
/// * The part must not be attached somewhere at the event time
/// * Also the hook must not be occupied at the event time
/// * Detach time is adjusted according to later attachments
///
/// If the part is attached already to the same hook, the attachments are merged
///
/// The part takes the owner and shop of the gear. Returns the time the
/// part will be detached again (when the hook is taken later, or the part
/// goes elsewhere) and all affected entities.
#[verifier::rlimit(90)]
pub fn attach_one(
    part_id: PartId,
    time: Timestamp,
    gear: PartId,
    hook: PartTypeId,
    store: &mut MemStore,
) -> (r: Result<(Timestamp, Summary), Error>)
    requires
        old(store).wf(),
        timeline_ok(old(store).attachments@),
        usable_time(time),
    ensures
        r matches Err(e) && e is AnyFailure ==> crate::attachment::counters_overflow(*final(store)),
        timeline_frame(*old(store), *final(store)),
        timeline_ok(final(store).attachments@),
        same_others(old(store).attachments@, final(store).attachments@, part_id),
        !old(store).has_part(part_id) || !old(store).has_part(gear) ==>
            (r matches Err(e) && e is NotFound) && *final(store) == *old(store),
        r matches Ok((det, _)) ==> time.nanos < det.nanos && det.wf()
            && attached_at(final(store).attachments@, part_id, gear, hook, time)
            && det == attach_end(*old(store), part_id, gear, hook, time),
        r matches Err(e) ==> e is NotFound || e is Conflict || e is AnyFailure,
        one_place(old(store).attachments@) && free_at(old(store).attachments@, part_id, time)
            ==> one_place(final(store).attachments@),
        one_per_hook(*old(store)) && hook_free(*old(store), part_id, gear, hook, time) ==> one_per_hook(*final(store)),
        crate::attachment::types_kept(*old(store), *final(store)),
        forall|a: Attachment| #[trigger] final(store).attachments@.contains(a)
            ==> old(store).attachments@.contains(a) || time.nanos < a.detached.nanos,
        one_place(old(store).attachments@) ==> forall|a: Attachment| #[trigger] old(store).attachments@.contains(a)
            && a.part_id == part_id && a.attached.nanos <= time.nanos
            && !(a.gear == gear && a.hook == hook && a.detached.nanos == time.nanos)
            ==> final(store).attachments@.contains(a),
        crate::service::part_known(*old(store), part_id) && old(store).has_part(gear)
            && first_where(old(store).attachments@, made_at(part_id, time)) is None
            ==> r is Ok || (r matches Err(e) && e is AnyFailure && crate::attachment::counters_overflow(*final(store))),
{
    let ghost s0 = *store;
    proof { crate::seqs::lemma_first_where_member(s0.attachments@, made_at(part_id, time)); }
    let mut hash = Summary::empty();
    let mut end = max_time();
    let mut det = max_time();
    let what = part_id.set_owner_and_shop(gear, store)?.what;
    let ghost s1 = *store;
    proof {
        assert(s1.part(part_id).what == s0.part(part_id).what);
        assert(crate::service::part_known(s0, part_id) ==> crate::service::part_known(s1, part_id));
        crate::attachment::lemma_replace_keeps_types(s0, s1, part_id, s1.part(part_id));
        if one_per_hook(s0) {
            crate::timeline::lemma_one_per_hook_sub(s0, s1);
        }
        assert(successor_of(s1, part_id, gear, hook, time, what) =~= successor_of(s0, part_id, gear, hook, time, s0.part(part_id).what)) by {
            assert forall|a: Attachment| #[trigger] successor_of(s1, part_id, gear, hook, time, what)(a)
                == successor_of(s0, part_id, gear, hook, time, s0.part(part_id).what)(a) by {
                crate::attachment::lemma_types_kept_at(s0, s1, a.part_id);
            }
        }
    }
    let succ = store.attachment_find_successor(part_id, gear, hook, time, what)?;
    proof { lemma_earliest(s1.attachments@, successor_of(s1, part_id, gear, hook, time, what)); }
    if let Some(next) = succ {
        proof { lemma_timeline_ok_member(s1.attachments@, next); }
        end = next.attached;
        det = next.attached;
    }
    let ghost end0 = end;
    let later = store.attachment_find_later_attachment_for_part(part_id, time)?;
    proof { lemma_earliest(s1.attachments@, later_of_part(part_id, time)); }
    let ghost mut merged = false;
    if let Some(next) = later {
        proof { lemma_timeline_ok_member(s1.attachments@, next); }
        if end.nanos > next.attached.nanos {
            if next.gear == gear && next.hook == hook {
                proof { merged = true; }
                end = next.detached;
                let ghost before = *store;
                let res = next.delete(store);
                proof {
                    crate::seqs::lemma_first_where_member(before.attachments@, same_key(next));
                    lemma_timeline_ok_filter(before.attachments@, other_key(next));
                    lemma_same_others_filter(before.attachments@, next);
                }
                hash = hash.merge(res?);
            } else {
                end = next.attached;
                det = next.attached;
            }
        }
    }
    let ghost s2 = *store;
    assert(time.nanos < end.nanos && end.wf());
    assert(time.nanos < det.nanos && det.wf());
    proof {
        assert(merged ==> later is Some && end == later.unwrap().detached && later.unwrap().attached.nanos < end0.nanos
            && later.unwrap().gear == gear && later.unwrap().hook == hook && later.unwrap().part_id == part_id);
        assert(!merged ==> end.nanos <= end0.nanos);
        assert(succ matches Some(sx) ==> end0 == sx.attached);
        assert(s2.parts == s1.parts);
        if one_per_hook(s0) && hook_free(s0, part_id, gear, hook, time) {
            if let Some(nx) = later {
                crate::store::lemma_filter_members(s1.attachments@, other_key(nx));
            }
            assert forall|b: Attachment| #[trigger] s2.attachments@.contains(b) && b.gear == gear && b.hook == hook
                && b.part_id != part_id && s2.has_part(b.part_id) && s2.has_part(part_id)
                && s2.part(b.part_id).what == s2.part(part_id).what
                implies (b.attached.nanos > time.nanos ==> end.nanos <= b.attached.nanos)
                    && (b.attached.nanos <= time.nanos ==> b.detached.nanos <= time.nanos) by {
                assert(s1.attachments@.contains(b));
                lemma_timeline_ok_member(s1.attachments@, b);
                crate::attachment::lemma_types_kept_at(s0, s1, b.part_id);
                crate::attachment::lemma_types_kept_at(s0, s1, part_id);
                assert(s0.attachments@.contains(b));
                if b.attached.nanos > time.nanos {
                    assert(successor_of(s1, part_id, gear, hook, time, what)(b));
                    let sx = succ.unwrap();
                    if merged {
                        let nx = later.unwrap();
                        assert(s1.attachments@.contains(nx));
                        assert(rivals(s1, nx, b));
                        assert(apart(nx, b));
                    }
                } else {
                    assert(!b.active_at(time));
                }
            }
        }
    }
    proof {
        if one_place(s0.attachments@) && free_at(s0.attachments@, part_id, time) {
            assert(s1.attachments == s0.attachments);
            if let Some(nx) = later {
                crate::store::lemma_filter_members(s1.attachments@, other_key(nx));
            }
            assert forall|b: Attachment| #[trigger] s2.attachments@.contains(b) && b.part_id == part_id
                && b.attached.nanos > time.nanos implies end.nanos <= b.attached.nanos by {
                assert(s1.attachments@.contains(b));
                lemma_timeline_ok_member(s2.attachments@, b);
                assert(later_of_part(part_id, time)(b));
                let nx = later.unwrap();
                if merged {
                    assert(b != nx);
                    assert(apart(nx, b));
                }
            }
            assert(one_place(s2.attachments@));
            assert forall|b: Attachment| #[trigger] s2.attachments@.contains(b) && b.part_id == part_id
                implies !b.active_at(time) by {
                assert(s0.attachments@.contains(b));
            }
        }
    }
    proof {
        if let Some(nx) = later {
            crate::store::lemma_filter_members(s1.attachments@, other_key(nx));
        }
        assert(forall|a: Attachment| #[trigger] s2.attachments@.contains(a) ==> s0.attachments@.contains(a));
        if one_place(s0.attachments@) {
            assert forall|a: Attachment| #[trigger] s0.attachments@.contains(a) && a.part_id == part_id
                && a.attached.nanos <= time.nanos implies s2.attachments@.contains(a) by {
                if let Some(nx) = later {
                    if merged {
                        assert(other_key(nx)(a));
                    }
                }
            }
        }
    }
    let prev = store.attachment_find_part_attached_already(part_id, gear, hook, time)?;
    proof { crate::seqs::lemma_first_where_member(s2.attachments@, ends_at(part_id, gear, hook, time)); }
    match prev {
        Some(p) => {
            proof {
                lemma_timeline_ok_member(s2.attachments@, p);
                lemma_timeline_ok_filter(s2.attachments@, other_key(p));
                lemma_same_others_filter(s2.attachments@, p);
                assert(same_key(p)(p));
                crate::store::lemma_filter_members(s2.attachments@, same_key(p));
                assert(s2.attachments@.filter(same_key(p)).contains(p));
                crate::seqs::lemma_first_where_member(s2.attachments@, same_key(p));
            }
            let res = p.detach(end, store);
            proof {
                let f = s2.attachments@.filter(other_key(p));
                if store.attachments@ != s2.attachments@ && store.attachments@ != f {
                    let u = choose|u: crate::usage::UsageId| store.attachments@ == f.push(#[trigger] ended_at(p, end, u));
                    lemma_timeline_ok_push(f, ended_at(p, end, u));
                    lemma_same_others_push(f, ended_at(p, end, u));
                }
                if res is Ok {
                    let u = choose|u: crate::usage::UsageId| store.attachments@ == f.push(#[trigger] ended_at(p, end, u));
                    lemma_same_others_push(f, ended_at(p, end, u));
                    assert(store.attachments@.contains(ended_at(p, end, u)));
                }
                crate::store::lemma_filter_members(s2.attachments@, other_key(p));
                if one_place(s0.attachments@) {
                    assert forall|a: Attachment| #[trigger] s0.attachments@.contains(a)
                        && a.part_id == part_id && a.attached.nanos <= time.nanos
                        && !(a.gear == gear && a.hook == hook && a.detached.nanos == time.nanos)
                        implies store.attachments@.contains(a) by {
                        assert(s2.attachments@.contains(a));
                        assert(a != p);
                        lemma_timeline_ok_member(s2.attachments@, a);
                        if a.attached.nanos == p.attached.nanos {
                            assert(apart(a, p));
                        }
                        assert(f.contains(a));
                        if store.attachments@ != s2.attachments@ && store.attachments@ != f {
                            let u = choose|u: crate::usage::UsageId| store.attachments@ == f.push(#[trigger] ended_at(p, end, u));
                            let j = choose|j: int| 0 <= j < f.len() && f[j] == a;
                            assert(store.attachments@[j] == a);
                        }
                    }
                }
                assert forall|a: Attachment| #[trigger] store.attachments@.contains(a)
                    implies s0.attachments@.contains(a) || time.nanos < a.detached.nanos by {
                    if store.attachments@ != s2.attachments@ && store.attachments@ != f {
                        let u = choose|u: crate::usage::UsageId| store.attachments@ == f.push(#[trigger] ended_at(p, end, u));
                        crate::store::lemma_contains_last(store.attachments@, a);
                        assert(store.attachments@.drop_last() == f);
                    }
                }
            }
            hash = hash.merge(res?);
        },
        None => {
            let a = Attachment::new(part_id, time, gear, hook, end);
            proof {
                assert(same_key(a) =~= made_at(part_id, time));
                crate::seqs::lemma_first_where_member(s2.attachments@, made_at(part_id, time));
                if let Some(nx) = later {
                    crate::store::lemma_filter_members(s1.attachments@, other_key(nx));
                }
                if let Some(x) = first_where(s2.attachments@, made_at(part_id, time)) {
                    assert(s2.attachments@.contains(x));
                    assert(s0.attachments@.contains(x));
                }
            }
            let res = a.create(store);
            proof {
                if store.attachments@ != s2.attachments@ {
                    let u = choose|u: crate::usage::UsageId| store.attachments@ == s2.attachments@.push(#[trigger] with_usage(a, u));
                    lemma_timeline_ok_push(s2.attachments@, with_usage(a, u));
                    lemma_same_others_push(s2.attachments@, with_usage(a, u));
                }
                if res is Ok {
                    let u = choose|u: crate::usage::UsageId| store.attachments@ == s2.attachments@.push(#[trigger] with_usage(a, u));
                    assert(store.attachments@.contains(with_usage(a, u)));
                }
                if one_place(s0.attachments@) && store.attachments@ != s2.attachments@ {
                    let u = choose|u: crate::usage::UsageId| store.attachments@ == s2.attachments@.push(#[trigger] with_usage(a, u));
                    assert forall|y: Attachment| #[trigger] s2.attachments@.contains(y) implies store.attachments@.contains(y) by {
                        let j = choose|j: int| 0 <= j < s2.attachments@.len() && s2.attachments@[j] == y;
                        assert(store.attachments@[j] == y);
                    }
                }
                assert forall|x: Attachment| #[trigger] store.attachments@.contains(x)
                    implies s0.attachments@.contains(x) || time.nanos < x.detached.nanos by {
                    if store.attachments@ != s2.attachments@ {
                        let u = choose|u: crate::usage::UsageId| store.attachments@ == s2.attachments@.push(#[trigger] with_usage(a, u));
                        crate::store::lemma_contains_last(store.attachments@, x);
                        assert(store.attachments@.drop_last() == s2.attachments@);
                    }
                }
            }
            hash = hash.merge(res?);
        },
    }
    Ok((det, hash))
}

/// Attachments in force at `time` on `gear` at a hook of the types that
/// `what` and everything hooked onto it stand for: the sub-assembly of a
/// part of type `what` there.
pub open spec fn in_subassembly(what: PartTypeId, gear: PartId, time: Timestamp) -> spec_fn(Attachment) -> bool {
    |a: Attachment| subtype_ids(what).contains(a.hook) && a.gear == gear && a.active_at(time)
}

/// find all subparts which are attached to `gear` at `time`: the
/// attachments on `gear` in force then at a hook of the sub-types of
/// `part`'s type, ordered by hook
pub fn subattachments(part: PartId, gear: PartId, time: Timestamp, store: &MemStore) -> (r: Result<Vec<Attachment>, Error>)
    ensures
        !store.has_part(part) ==> (r matches Err(e) && e is NotFound),
        store.has_part(part) ==> (r matches Ok(v)
            && v@.to_multiset() == store.attachments@.filter(in_subassembly(store.part(part).what, gear, time)).to_multiset()
            && sorted_by_key(v@, att_key(true))),
        r matches Ok(v) ==> forall|x: Attachment| #[trigger] v@.contains(x) ==> store.attachments@.contains(x)
            && x.gear == gear && x.active_at(time),
{
    let types = part.read(store)?.what.subtypes();
    let res = store.assembly_get_by_types_time_and_gear(&types, gear, time)?;
    proof {
        let what = store.part(part).what;
        assert(in_assembly(types@, gear, time) =~= in_subassembly(what, gear, time));
        let f = store.attachments@.filter(in_subassembly(what, gear, time));
        res@.to_multiset_ensures();
        f.to_multiset_ensures();
        crate::store::lemma_filter_members(store.attachments@, in_subassembly(what, gear, time));
        assert forall|x: Attachment| #[trigger] res@.contains(x) implies store.attachments@.contains(x)
            && x.gear == gear && x.active_at(time) by {
            assert(res@.to_multiset().count(x) > 0);
            assert(f.to_multiset().count(x) > 0);
            assert(f.contains(x));
        }
    }
    Ok(res)
}

/// The parts attached to `part` at `time` (see `subattachments`).
pub fn subparts(part: PartId, time: Timestamp, store: &MemStore) -> (r: Result<Vec<PartId>, Error>)
    ensures
        !store.has_part(part) ==> (r matches Err(e) && e is NotFound),
        store.has_part(part) ==> r is Ok,
        r matches Ok(v) ==> store.has_part(part) && exists|atts: Seq<Attachment>|
            #[trigger] atts.to_multiset() == store.attachments@.filter(in_subassembly(store.part(part).what, part, time)).to_multiset()
                && v@ == atts.map_values(|a: Attachment| a.part_id),
{
    let atts = subattachments(part, part, time, store)?;
    let mut r: Vec<PartId> = Vec::new();
    let mut i: usize = 0;
    while i < atts.len()
        invariant
            0 <= i <= atts@.len(),
            r@ == atts@.take(i as int).map_values(|a: Attachment| a.part_id),
        decreases atts@.len() - i,
    {
        r.push(atts[i].part_id);
        proof {
            assert(atts@.take(i + 1).map_values(|a: Attachment| a.part_id)
                =~= atts@.take(i as int).map_values(|a: Attachment| a.part_id).push(atts@[i as int].part_id));
        }
        i = i + 1;
    }
    proof { assert(atts@.take(atts@.len() as int) =~= atts@); }
    Ok(r)
}

/// Whether part `part` is attached somewhere at `time`.
pub fn is_attached(part: PartId, time: Timestamp, store: &MemStore) -> (r: Result<bool, Error>)
    ensures
        r == Ok::<bool, Error>(first_where(store.attachments@, part_active_at(part, time)) is Some),
{
    Ok(store.attachment_get_by_part_and_time(part, time)?.is_some())
}

impl Attachment {
    /// Move a single part to a new gear `gear` at a certain time: the
    /// attachment ends at `time` and the part is attached to the same hook
    /// of `gear` from then on. Returns the time the new attachment ends and
    /// all affected entities.
    pub fn shift(&self, time: Timestamp, gear: PartId, store: &mut MemStore) -> (r: Result<(Timestamp, Summary), Error>)
        requires
            old(store).wf(),
            timeline_ok(old(store).attachments@),
            interval_ok(*self),
            usable_time(time),
        ensures
            r matches Err(e) && e is AnyFailure ==> crate::attachment::counters_overflow(*final(store)),
            timeline_frame(*old(store), *final(store)),
            timeline_ok(final(store).attachments@),
            same_others(old(store).attachments@, final(store).attachments@, self.part_id),
            r matches Ok((det, _)) ==> time.nanos < det.nanos && det.wf()
                && attached_at(final(store).attachments@, self.part_id, gear, self.hook, time),
            r matches Err(e) ==> e is NotFound || e is Conflict || e is AnyFailure,
            one_place(old(store).attachments@) && old(store).attachments@.contains(*self) && self.active_at(time)
                ==> one_place(final(store).attachments@),
            forall|a: Attachment| #[trigger] final(store).attachments@.contains(a)
                ==> old(store).attachments@.contains(a) || time.nanos <= a.detached.nanos,
    {
        let ghost s0 = *store;
        proof {
            lemma_timeline_ok_filter(s0.attachments@, other_key(*self));
            lemma_same_others_filter(s0.attachments@, *self);
            if one_place(s0.attachments@) && s0.attachments@.contains(*self) && self.active_at(time) {
                assert forall|b: Attachment| #[trigger] s0.attachments@.contains(b) && b.part_id == self.part_id
                    && b.attached.nanos != self.attached.nanos implies apart(Attachment { detached: time, ..*self }, b) by {
                    assert(b != *self);
                    assert(apart(*self, b));
                }
            }
        }
        let res = self.detach(time, store);
        proof {
            let f = s0.attachments@.filter(other_key(*self));
            if store.attachments@ != s0.attachments@ && store.attachments@ != f {
                let u = choose|u: crate::usage::UsageId| store.attachments@ == f.push(#[trigger] ended_at(*self, time, u));
                lemma_timeline_ok_push(f, ended_at(*self, time, u));
                lemma_same_others_push(f, ended_at(*self, time, u));
            }
        }
        proof {
            crate::store::lemma_filter_members(s0.attachments@, other_key(*self));
            let f = s0.attachments@.filter(other_key(*self));
            assert forall|a: Attachment| #[trigger] store.attachments@.contains(a)
                implies s0.attachments@.contains(a) || time.nanos <= a.detached.nanos by {
                if store.attachments@ != s0.attachments@ && store.attachments@ != f {
                    let u = choose|u: crate::usage::UsageId| store.attachments@ == f.push(#[trigger] ended_at(*self, time, u));
                    crate::store::lemma_contains_last(store.attachments@, a);
                    assert(store.attachments@.drop_last() == f);
                }
            }
        }
        let ghost s1 = *store;
        let res = res?;
        proof {
            if one_place(s0.attachments@) && s0.attachments@.contains(*self) && self.active_at(time) {
                crate::store::lemma_filter_members(s0.attachments@, other_key(*self));
                let f = s0.attachments@.filter(other_key(*self));
                assert forall|b: Attachment| #[trigger] store.attachments@.contains(b) && b.part_id == self.part_id
                    implies !b.active_at(time) by {
                    if f.contains(b) {
                        assert(b != *self);
                        assert(apart(*self, b));
                    } else if self.attached.nanos < time.nanos {
                        let u = choose|u: crate::usage::UsageId| store.attachments@ == f.push(#[trigger] ended_at(*self, time, u));
                        crate::store::lemma_contains_last(store.attachments@, b);
                        assert(store.attachments@.drop_last() == f);
                    }
                }
            }
        }
        let res2 = attach_one(self.part_id, time, gear, self.hook, store);
        proof {
            assert forall|a: Attachment| #[trigger] store.attachments@.contains(a)
                implies s0.attachments@.contains(a) || time.nanos <= a.detached.nanos by {
                if !s1.attachments@.contains(a) {
                } else {
                    assert(s0.attachments@.contains(a) || time.nanos <= a.detached.nanos);
                }
            }
        }
        let (det, moved) = res2?;
        Ok((det, res.merge(moved)))
    }

    /// Detach the part at `time`; with `all`, what is attached to it moves
    /// along with it first.
    pub fn detach_assembly(self, time: Timestamp, all: bool, store: &mut MemStore) -> (r: Result<Summary, Error>)
        requires
            old(store).wf(),
            timeline_ok(old(store).attachments@),
            old(store).attachments@.contains(self),
            usable_time(time),
        ensures
            r matches Err(e) && e is AnyFailure ==> crate::attachment::counters_overflow(*final(store)),
            timeline_frame(*old(store), *final(store)),
            timeline_ok(final(store).attachments@),
            !all ==> same_others(old(store).attachments@, final(store).attachments@, self.part_id),
            r is Ok && !all ==> forall|x: Attachment| #[trigger] final(store).attachments@.contains(x)
                && same_key(self)(x) ==> x.detached.nanos == time.nanos,
            !all && crate::service::part_known(*old(store), self.part_id)
                ==> r is Ok || (r matches Err(e) && e is AnyFailure && crate::attachment::counters_overflow(*final(store))),
            !all && detach_fits(*old(store), *final(store), self, time) ==> r is Ok,
            r is Ok && !all ==> (first_where(old(store).attachments@, same_key(self)) matches Some(att)
                && (att.attached.nanos < time.nanos ==> exists|u: crate::usage::UsageId|
                    final(store).attachments@.contains(#[trigger] ended_at(att, time, u)))),
            !all ==> crate::attachment::types_kept(*old(store), *final(store)),
            one_place(old(store).attachments@) && self.active_at(time) ==> one_place(final(store).attachments@),
            forall|a: Attachment| #[trigger] final(store).attachments@.contains(a)
                ==> old(store).attachments@.contains(a) || time.nanos <= a.detached.nanos,
            !all ==> forall|a: Attachment| #[trigger] final(store).attachments@.contains(a)
                ==> old(store).attachments@.contains(a) || a.detached.nanos == time.nanos,
            one_place(old(store).attachments@) && one_per_hook(*old(store)) && self.active_at(time) && !all
                ==> one_per_hook(*final(store)),
            r matches Err(e) ==> e is NotFound || e is Conflict || e is AnyFailure,
    {
        let ghost s0 = *store;
        let mut hash = Summary::empty();
        if all {
            hash = shift_subparts(self.gear, self.part_id, time, store)?;
        }
        let ghost s1 = *store;
        proof {
            crate::seqs::lemma_first_where_member(s1.attachments@, same_key(self));
            assert(same_key(self)(self));
        }
        let found = store.attachment_find_key(&self);
        if found.is_none() {
            return Err(Error::NotFound("attachment not found".to_owned()));
        }
        let cur = found.unwrap();
        proof {
            crate::seqs::lemma_first_where_member(s1.attachments@, same_key(self));
            lemma_timeline_ok_member(s1.attachments@, cur);
            lemma_timeline_ok_filter(s1.attachments@, other_key(self));
            lemma_same_others_filter(s1.attachments@, self);
            assert(other_key(cur) =~= other_key(self));
            assert(same_key(cur) =~= same_key(self));
            if one_place(s0.attachments@) && self.active_at(time) {
                if s0.attachments@.contains(cur) {
                    lemma_timeline_ok_member(s0.attachments@, self);
                    crate::timeline::lemma_one_place_active(s0.attachments@, cur, self, self.attached);
                }
                assert(time.nanos <= cur.detached.nanos);
                assert forall|b: Attachment| #[trigger] s1.attachments@.contains(b) && b.part_id == cur.part_id
                    && b.attached.nanos != cur.attached.nanos implies apart(Attachment { detached: time, ..cur }, b) by {
                    assert(b != cur);
                    assert(apart(cur, b));
                    lemma_timeline_ok_member(s1.attachments@, b);
                }
                if one_per_hook(s0) && !all {
                    assert(hook_fits(s1, Attachment { detached: time, ..cur })) by {
                        assert forall|b: Attachment| #[trigger] s1.attachments@.contains(b)
                            && rivals(s1, Attachment { detached: time, ..cur }, b)
                            implies apart(Attachment { detached: time, ..cur }, b) by {
                            assert(rivals(s1, cur, b));
                            assert(apart(cur, b));
                            lemma_timeline_ok_member(s1.attachments@, b);
                        }
                    }
                }
            }
        }
        let res = cur.detach(time, store);
        proof {
            let f = s1.attachments@.filter(other_key(self));
            crate::store::lemma_filter_members(s1.attachments@, other_key(self));
            if store.attachments@ != s1.attachments@ && store.attachments@ != f {
                let u = choose|u: crate::usage::UsageId| store.attachments@ == f.push(#[trigger] ended_at(cur, time, u));
                lemma_timeline_ok_push(f, ended_at(cur, time, u));
                lemma_same_others_push(f, ended_at(cur, time, u));
                assert forall|x: Attachment| #[trigger] store.attachments@.contains(x) && same_key(self)(x)
                    implies x.detached.nanos == time.nanos by {
                    crate::store::lemma_contains_last(store.attachments@, x);
                    assert(store.attachments@.drop_last() == f);
                }
            }
            assert forall|a: Attachment| #[trigger] store.attachments@.contains(a)
                implies s0.attachments@.contains(a) || time.nanos <= a.detached.nanos by {
                if store.attachments@ != s1.attachments@ && store.attachments@ != f {
                    let u = choose|u: crate::usage::UsageId| store.attachments@ == f.push(#[trigger] ended_at(cur, time, u));
                    crate::store::lemma_contains_last(store.attachments@, a);
                    assert(store.attachments@.drop_last() == f);
                }
                if s1.attachments@.contains(a) {}
            }
            if !all {
                assert forall|a: Attachment| #[trigger] store.attachments@.contains(a)
                    implies s0.attachments@.contains(a) || a.detached.nanos == time.nanos by {
                    if store.attachments@ != s1.attachments@ && store.attachments@ != f {
                        let u = choose|u: crate::usage::UsageId| store.attachments@ == f.push(#[trigger] ended_at(cur, time, u));
                        crate::store::lemma_contains_last(store.attachments@, a);
                        assert(store.attachments@.drop_last() == f);
                    }
                }
            }
        }
        Ok(hash.merge(res?))
    }
}

/// Part `pid` is attached to `to` at `time`, at a hook that one of the
/// attachments of `before` held for it.
pub open spec fn reattached(before: Seq<Attachment>, after: Seq<Attachment>, pid: PartId, to: PartId, time: Timestamp) -> bool {
    exists|y: Attachment| #[trigger] before.contains(y) && y.part_id == pid && attached_at(after, pid, to, y.hook, time)
}

/// Every part of the attachments `before` is attached to `to` at `time` in
/// `after`, at a hook that it held in `before`.
pub open spec fn shifted_to(before: Seq<Attachment>, after: Seq<Attachment>, to: PartId, time: Timestamp) -> bool {
    forall|x: Attachment| #[trigger] before.contains(x) ==> reattached(before, after, x.part_id, to, time)
}

/// moves all subparts of `to` from `from` to `to` at `time`
///
/// This is used when the part is detached with all subparts
pub fn shift_subparts(from: PartId, to: PartId, time: Timestamp, store: &mut MemStore) -> (r: Result<Summary, Error>)
    requires
        old(store).wf(),
        timeline_ok(old(store).attachments@),
        usable_time(time),
    ensures
        r matches Err(e) && e is AnyFailure ==> crate::attachment::counters_overflow(*final(store)),
        timeline_frame(*old(store), *final(store)),
        timeline_ok(final(store).attachments@),
        !old(store).has_part(to) ==> (r matches Err(e) && e is NotFound) && *final(store) == *old(store),
        old(store).has_part(to)
            && old(store).attachments@.filter(in_subassembly(old(store).part(to).what, from, time)).len() == 0
            ==> (r matches Ok(s) && s.is_empty()) && *final(store) == *old(store),
        r is Ok ==> old(store).has_part(to) && shifted_to(
            old(store).attachments@.filter(in_subassembly(old(store).part(to).what, from, time)),
            final(store).attachments@, to, time),
        r matches Err(e) ==> e is NotFound || e is Conflict || e is AnyFailure,
        one_place(old(store).attachments@) ==> one_place(final(store).attachments@),
        forall|a: Attachment| #[trigger] final(store).attachments@.contains(a)
            ==> old(store).attachments@.contains(a) || time.nanos <= a.detached.nanos,
{
    let subs = subattachments(to, from, time, store)?;
    let ghost s0 = *store;
    let ghost f = s0.attachments@.filter(in_subassembly(s0.part(to).what, from, time));
    proof {
        assert forall|x: Attachment| #[trigger] subs@.contains(x) implies interval_ok(x) by {
            lemma_timeline_ok_member(s0.attachments@, x);
        }
        subs@.to_multiset_ensures();
        f.to_multiset_ensures();
        assert forall|x: Attachment| #[trigger] subs@.contains(x) <==> f.contains(x) by {
            assert(subs@.contains(x) <==> subs@.to_multiset().count(x) > 0);
            assert(f.contains(x) <==> f.to_multiset().count(x) > 0);
        }
        assert(subs@.len() == f.len());
        if one_place(s0.attachments@) {
            crate::timeline::lemma_no_duplicates_filter(s0.attachments@, in_subassembly(s0.part(to).what, from, time));
            f.lemma_multiset_has_no_duplicates();
            assert forall|x: Attachment| subs@.to_multiset().contains(x) implies subs@.to_multiset().count(x) == 1 by {
                assert(f.to_multiset().contains(x));
            }
            subs@.lemma_multiset_has_no_duplicates_conv();
        }
        assert forall|k: int| 0 <= k < subs@.len() implies s0.attachments@.contains(#[trigger] subs@[k]) by {
            assert(subs@.contains(subs@[k]));
        }
    }
    let mut hash = Summary::empty();
    let mut i: usize = 0;
    while i < subs.len()
        invariant
            0 <= i <= subs@.len(),
            usable_time(time),
            store.wf(),
            timeline_ok(store.attachments@),
            timeline_frame(s0, *store),
            s0 == *old(store),
            forall|x: Attachment| #[trigger] subs@.contains(x) ==> interval_ok(x),
            s0.has_part(to),
            f == s0.attachments@.filter(in_subassembly(s0.part(to).what, from, time)),
            subs@.len() == f.len(),
            i == 0 ==> *store == s0 && hash.is_empty(),
            forall|k: int| 0 <= k < i ==> reattached(subs@, store.attachments@, (#[trigger] subs@[k]).part_id, to, time),
            forall|x: Attachment| #[trigger] subs@.contains(x) ==> s0.attachments@.contains(x) && x.gear == from && x.active_at(time),
            one_place(s0.attachments@) ==> subs@.no_duplicates() && one_place(store.attachments@)
                && forall|k: int| i <= k < subs@.len() ==> store.attachments@.contains(#[trigger] subs@[k]),
            forall|a: Attachment| #[trigger] store.attachments@.contains(a)
                ==> s0.attachments@.contains(a) || time.nanos <= a.detached.nanos,
        decreases subs@.len() - i,
    {
        let att = subs[i];
        proof { assert(subs@.contains(subs@[i as int])); }
        let ghost before = *store;
        proof {
            if one_place(s0.attachments@) {
                assert(before.attachments@.contains(subs@[i as int]));
            }
        }
        let shifted = att.shift(time, to, store);
        proof {
            assert forall|a: Attachment| #[trigger] store.attachments@.contains(a)
                implies s0.attachments@.contains(a) || time.nanos <= a.detached.nanos by {
                if before.attachments@.contains(a) {}
            }
        }
        let moved = match shifted {
            Ok((_det, m)) => m,
            Err(e) => {
                proof { assert(timeline_frame(before, *store)); }
                return Err(e);
            },
        };
        proof {
            if one_place(s0.attachments@) {
                assert forall|k: int| i + 1 <= k < subs@.len() implies store.attachments@.contains(#[trigger] subs@[k]) by {
                    assert(subs@.contains(subs@[k]));
                    assert(subs@[k] != att);
                    if subs@[k].part_id == att.part_id {
                        crate::timeline::lemma_one_place_active(s0.attachments@, subs@[k], att, time);
                    }
                }
            }
            assert forall|k: int| 0 <= k < i + 1 implies reattached(subs@, store.attachments@, (#[trigger] subs@[k]).part_id, to, time) by {
                if subs@[k].part_id == att.part_id {
                    assert(subs@.contains(att));
                } else {
                    let y = choose|y: Attachment| #[trigger] subs@.contains(y) && y.part_id == subs@[k].part_id
                        && attached_at(before.attachments@, subs@[k].part_id, to, y.hook, time);
                    let a = choose|a: Attachment| #[trigger] before.attachments@.contains(a) && a.part_id == subs@[k].part_id
                        && a.gear == to && a.hook == y.hook && a.active_at(time);
                    assert(store.attachments@.contains(a));
                    assert(attached_at(store.attachments@, subs@[k].part_id, to, y.hook, time));
                }
            }
        }
        hash = hash.merge(moved);
        i = i + 1;
    }
    proof {
        assert forall|x: Attachment| #[trigger] f.contains(x) implies reattached(f, store.attachments@, x.part_id, to, time) by {
            assert(subs@.contains(x));
            let k = subs@.index_of(x);
            assert(reattached(subs@, store.attachments@, subs@[k].part_id, to, time));
            let y = choose|y: Attachment| #[trigger] subs@.contains(y) && y.part_id == x.part_id
                && attached_at(store.attachments@, x.part_id, to, y.hook, time);
            assert(f.contains(y));
        }
    }
    Ok(hash)
}


/// Why attaching `part` to `hook` of `gear` is refused before anything
/// changes: the kind of the error (see `Error::kind`), or `None`. The
/// session must have access to both; the part's type must be known, have
/// `hook` among its hooks, and belong to the gear's type (as its main type
/// or a hook).
pub open spec fn attach_denial(store: MemStore, user: crate::user::UserId, shop: Option<crate::shop::ShopId>,
    part: PartId, gear: PartId, hook: PartTypeId) -> Option<nat> {
    if part_denial(store, user, shop, part) is Some {
        part_denial(store, user, shop, part)
    } else if !known_type(store.part(part).what) {
        Some(0)
    } else if part_denial(store, user, shop, gear) is Some {
        part_denial(store, user, shop, gear)
    } else {
        let t = type_view(store.part(part).what);
        let g = store.part(gear).what;
        if !t.hooks.contains(hook) {
            Some(2)
        } else if !(t.main == g || t.hooks.contains(g)) {
            Some(2)
        } else {
            None
        }
    }
}

/// `b` is the attachment that attaching `part` to `hook` of `gear` at `t`
/// displaces: it holds that hook then with another part of the same type,
/// and was made before `t`.
pub open spec fn displaced(store: MemStore, b: Attachment, part: PartId, gear: PartId, hook: PartTypeId, t: Timestamp) -> bool {
    &&& b.active_at(t) && b.attached.nanos < t.nanos
    &&& b.gear == gear && b.hook == hook && b.part_id != part
    &&& store.has_part(b.part_id) && store.has_part(part) && store.part(b.part_id).what == store.part(part).what
}

/// The message refusing to attach a part of type `t` to `hook` of a gear of
/// type `g` (see `attach_denial`), when the types do not fit.
pub open spec fn attach_refusal(t: crate::types::PartTypeView, g: PartTypeId, hook: PartTypeId) -> Option<Seq<char>> {
    if !t.hooks.contains(hook) {
        Some("Type "@ + t.name + " cannot be attached to hook "@ + crate::text::decimal_text(hook.0 as int))
    } else if !(t.main == g || t.hooks.contains(g)) {
        Some("Type "@ + t.name + " cannot be attached to gear type "@ + (if known_type(g) {
            type_view(g).name
        } else {
            "unknown type "@ + crate::text::decimal_text(g.0 as int)
        }))
    } else {
        None
    }
}

/// The text of `attach_refusal`.
fn attach_refusal_text(t: &crate::types::PartType, g: PartTypeId, hook: PartTypeId) -> (r: Option<String>)
    requires
        exists|i: int| 0 <= i < crate::types::part_type_table().len() && crate::types::part_type_table()[i] == t@,
    ensures
        r matches Some(m) ==> attach_refusal(t@, g, hook) == Some(m@),
        r is None ==> attach_refusal(t@, g, hook) is None,
{
    if !contains_type(&t.hooks, hook) {
        let mut m = "Type ".to_owned();
        crate::text::append_text(&mut m, t.name.as_str());
        crate::text::append_text(&mut m, " cannot be attached to hook ");
        let n = crate::text::int_to_text(hook.0 as i64);
        crate::text::append_text(&mut m, n.as_str());
        return Some(m);
    }
    if !(t.main == g || contains_type(&t.hooks, g)) {
        let mut m = "Type ".to_owned();
        crate::text::append_text(&mut m, t.name.as_str());
        crate::text::append_text(&mut m, " cannot be attached to gear type ");
        match g.get() {
            Ok(gt) => {
                proof { crate::types::lemma_type_view(g, gt@); }
                crate::text::append_text(&mut m, gt.name.as_str());
            },
            Err(_) => {
                proof {
                    if known_type(g) {
                        crate::types::lemma_part_type_ids_sorted();
                    }
                }
                crate::text::append_text(&mut m, "unknown type ");
                let n = crate::text::int_to_text(g.0 as i64);
                crate::text::append_text(&mut m, n.as_str());
            },
        }
        return Some(m);
    }
    None
}

/// Attach `part` to `hook` of `gear` at `time` rounded down to the quarter
/// hour.
///
/// Whatever the part was attached to then, and whatever sat at that hook
/// then, is detached first (with `all`, together with what is attached to
/// it). With `all`, what is attached to the part moves along to the gear
/// (and back onto the part where the gear ends before it would have).
///
/// checks authorization and the types involved
pub fn attach_assembly<S: Session>(
    user: &S,
    part: PartId,
    time: Timestamp,
    gear: PartId,
    hook: PartTypeId,
    all: bool,
    store: &mut MemStore,
) -> (r: Result<Summary, Error>)
    requires
        old(store).wf(),
        timeline_ok(old(store).attachments@),
        time.wf(),
        usable_time(spec_round(time)),
    ensures
        r matches Err(e) && e is AnyFailure ==> crate::attachment::counters_overflow(*final(store)),
        timeline_frame(*old(store), *final(store)),
        timeline_ok(final(store).attachments@),
        one_place(old(store).attachments@) && !all ==> one_place(final(store).attachments@),
        one_place(old(store).attachments@) && one_per_hook(*old(store)) && !all ==> one_per_hook(*final(store)),
        part_denial(*old(store), user.session_user(), user.session_shop(), part) is None
            && known_type(old(store).part(part).what)
            && part_denial(*old(store), user.session_user(), user.session_shop(), gear) is None
            ==> match attach_refusal(type_view(old(store).part(part).what), old(store).part(gear).what, hook) {
                Some(m) => r matches Err(Error::BadRequest(x)) && x@ == m,
                None => true,
            },
        match attach_denial(*old(store), user.session_user(), user.session_shop(), part, gear, hook) {
            Some(k) => (r matches Err(e) && e.kind() == k) && *final(store) == *old(store),
            None => {
                &&& r is Ok && !all ==> attached_at(final(store).attachments@, part, gear, hook, spec_round(time))
                &&& r is Ok && !all && one_place(old(store).attachments@) && one_per_hook(*old(store))
                    ==> forall|b: Attachment| #[trigger] old(store).attachments@.contains(b)
                        && displaced(*old(store), b, part, gear, hook, spec_round(time))
                        ==> exists|u: crate::usage::UsageId| final(store).attachments@.contains(#[trigger] ended_at(b, spec_round(time), u))
                &&& !all && (first_where(old(store).attachments@, part_active_at(part, spec_round(time))) is None
                    || one_place(old(store).attachments@))
                    ==> r is Ok || (r matches Err(e) && e is AnyFailure && crate::attachment::counters_overflow(*final(store)))
                &&& r matches Err(e) ==> e is NotFound || e is Conflict || e is AnyFailure
            },
        },
{
    let time = round_time(time);
    let p = part.part(user, store)?;
    let parttype = p.what.get()?;
    proof {
        crate::types::lemma_type_view(p.what, parttype@);
    }
    let geartypeid = gear.part(user, store)?.what;
    if let Some(m) = attach_refusal_text(&parttype, geartypeid, hook) {
        return Err(Error::BadRequest(m));
    }
    let mut hash = Summary::empty();
    let ghost s0 = *store;
    proof {
        crate::seqs::lemma_first_where_member(s0.attachments@, part_active_at(part, time));
        crate::seqs::lemma_first_where_member(s0.attachments@, made_at(part, time));
        if let Some(x) = first_where(s0.attachments@, made_at(part, time)) {
            lemma_timeline_ok_member(s0.attachments@, x);
            assert(part_active_at(part, time)(x));
        }
    }
    // detach part if it is attached already
    let own = store.attachment_get_by_part_and_time(p.id, time)?;
    proof { crate::seqs::lemma_first_where_member(store.attachments@, part_active_at(p.id, time)); }
    if let Some(attachment) = own {
        proof { lemma_timeline_ok_member(store.attachments@, attachment); }
        proof {
            assert(crate::service::part_known(s0, part));
        }
        let res = attachment.detach_assembly(time, all, store);
        proof {
            if one_place(s0.attachments@) && !all && res is Ok {
                crate::seqs::lemma_first_where_member(s0.attachments@, same_key(attachment));
                crate::seqs::lemma_first_where_member(store.attachments@, made_at(part, time));
                if let Some(x) = first_where(store.attachments@, made_at(part, time)) {
                    if s0.attachments@.contains(x) {
                        lemma_timeline_ok_member(s0.attachments@, x);
                        if x != attachment {
                            assert(apart(attachment, x));
                        } else {
                            assert(same_key(attachment)(x));
                        }
                    }
                }
            }
            if one_place(s0.attachments@) && !all && res is Ok {
                assert forall|b: Attachment| #[trigger] store.attachments@.contains(b) && b.part_id == part
                    implies !b.active_at(time) by {
                    if s0.attachments@.contains(b) && b != attachment {
                        assert(apart(attachment, b));
                    }
                    if b == attachment {
                        assert(same_key(attachment)(b));
                    }
                }
            }
        }
        hash = hash.merge(res?);
    }
    proof {
        if one_place(s0.attachments@) && !all && own is None {
            assert forall|b: Attachment| #[trigger] store.attachments@.contains(b) && b.part_id == part
                implies !b.active_at(time) by {
                assert(!part_active_at(part, time)(b));
            }
        }
    }
    // if there is a part attached to the gear at the hook, detach it
    let pred = store.attachment_find_part_of_type_at_hook_and_time(p.what, gear, hook, time)?;
    proof {
        crate::seqs::lemma_first_where_member(store.attachments@,
            crate::timeline::at_hook_of_type(*store, p.what, gear, hook, time));
    }
    let ghost s1 = *store;
    if let Some(attachment) = pred {
        proof {
            lemma_timeline_ok_member(store.attachments@, attachment);
            if !all && own is None {
                assert(s1 == s0);
                assert(attachment.part_id != part);
            }
            if !all {
                crate::attachment::lemma_types_kept_at(s0, s1, attachment.part_id);
                crate::attachment::lemma_types_kept_at(s0, s1, part);
                assert(crate::service::part_known(s1, attachment.part_id));
            }
        }
        proof {
            if one_place(s0.attachments@) && !all {
                assert(attachment.part_id != part) by {
                    if attachment.part_id == part {
                        assert(s1.attachments@.contains(attachment));
                    }
                }
            }
        }
        let res = attachment.detach_assembly(time, all, store);
        proof {
            if one_place(s0.attachments@) && !all {
                assert forall|b: Attachment| #[trigger] store.attachments@.contains(b) && b.part_id == part
                    implies !b.active_at(time) by {
                    assert(s1.attachments@.contains(b));
                }
            }
            if !all && (own is None || one_place(s0.attachments@)) {
                crate::seqs::lemma_first_where_member(store.attachments@, made_at(part, time));
                crate::seqs::lemma_first_where_member(s1.attachments@, made_at(part, time));
                if let Some(x) = first_where(store.attachments@, made_at(part, time)) {
                    assert(s1.attachments@.contains(x));
                }
            }
        }
        hash = hash.merge(res?);
        proof {
            if !all && one_place(s0.attachments@) && one_per_hook(s0) {
                assert(one_place(s1.attachments@) && one_per_hook(s1));
                assert forall|b: Attachment| #[trigger] s0.attachments@.contains(b)
                    && displaced(s0, b, part, gear, hook, time)
                    implies exists|u: crate::usage::UsageId| store.attachments@.contains(#[trigger] ended_at(b, time, u)) by {
                    assert(s1.attachments@.contains(b));
                    crate::attachment::lemma_types_kept_at(s0, s1, b.part_id);
                    crate::attachment::lemma_types_kept_at(s0, s1, part);
                    assert(crate::timeline::at_hook_of_type(s1, p.what, gear, hook, time)(b));
                    assert(s1.attachments@.contains(attachment));
                    crate::attachment::lemma_types_kept_at(s0, s1, attachment.part_id);
                    if attachment != b {
                        if attachment.part_id == b.part_id {
                            crate::timeline::lemma_one_place_active(s1.attachments@, attachment, b, time);
                        } else {
                            assert(rivals(s1, attachment, b));
                            assert(apart(attachment, b));
                        }
                    }
                    crate::seqs::lemma_first_where_member(s1.attachments@, same_key(attachment));
                    let att = first_where(s1.attachments@, same_key(attachment)).unwrap();
                    lemma_timeline_ok_member(s1.attachments@, att);
                    if att != attachment {
                        crate::timeline::lemma_one_place_active(s1.attachments@, att, attachment, attachment.attached);
                    }
                }
            }
        }
    }
    proof {
        if !all && one_place(s0.attachments@) && one_per_hook(s0) && pred is None {
            assert forall|b: Attachment| #[trigger] s0.attachments@.contains(b)
                && displaced(s0, b, part, gear, hook, time) implies false by {
                assert(s1.attachments@.contains(b));
                crate::attachment::lemma_types_kept_at(s0, s1, b.part_id);
                crate::attachment::lemma_types_kept_at(s0, s1, part);
                assert(crate::timeline::at_hook_of_type(s1, p.what, gear, hook, time)(b));
            }
        }
    }
    let ghost s2 = *store;
    // reattach the assembly
    let (end, attached) = attach_one(p.id, time, gear, hook, store)?;
    proof {
        if !all && one_place(s0.attachments@) && one_per_hook(s0) {
            assert forall|b: Attachment| #[trigger] s0.attachments@.contains(b)
                && displaced(s0, b, part, gear, hook, time)
                implies exists|u: crate::usage::UsageId| store.attachments@.contains(#[trigger] ended_at(b, time, u)) by {
                let u = choose|u: crate::usage::UsageId| s2.attachments@.contains(#[trigger] ended_at(b, time, u));
                assert(store.attachments@.contains(ended_at(b, time, u)));
            }
        }
    }
    hash = hash.merge(attached);
    if all {
        let subs = subattachments(p.id, p.id, time, store)?;
        let ghost s0 = *store;
        proof {
            assert forall|x: Attachment| #[trigger] subs@.contains(x) implies interval_ok(x) by {
                lemma_timeline_ok_member(s0.attachments@, x);
            }
        }
        let mut i: usize = 0;
        while i < subs.len()
            invariant
                0 <= i <= subs@.len(),
                usable_time(time),
                time.nanos < end.nanos && end.wf(),
                store.wf(),
                timeline_ok(store.attachments@),
                timeline_frame(s0, *store),
                timeline_frame(*old(store), s0),
                attach_denial(*old(store), user.session_user(), user.session_shop(), part, gear, hook) is None,
                all,
                forall|x: Attachment| #[trigger] subs@.contains(x) ==> interval_ok(x),
            decreases subs@.len() - i,
        {
            let attachment = subs[i];
            proof { assert(subs@.contains(subs@[i as int])); }
            let (detached, moved) = attachment.shift(time, gear, store)?;
            hash = hash.merge(moved);
            if detached.nanos == end.nanos && end.nanos < attachment.detached.nanos {
                let (_d, back) = attach_one(attachment.part_id, end, p.id, attachment.hook, store)?;
                hash = hash.merge(back);
            }
            i = i + 1;
        }
    }
    Ok(hash)
}


/// Every part stays stored, and no disposal is undone or moved.
pub open spec fn disposals_kept(old: MemStore, new: MemStore) -> bool {
    forall|p: PartId| #[trigger] new.has_part(p) == old.has_part(p)
        && (old.part(p).disposed_at is Some ==> new.part(p).disposed_at == old.part(p).disposed_at)
}

/// Touching a part (moving its timestamps) keeps its disposal.
pub proof fn lemma_touch_keeps_disposals(old: MemStore, new: MemStore, pid: PartId, start: Timestamp)
    requires
        new.parts == old.parts || (old.has_part(pid)
            && new.parts@ == old.parts@.insert(pid.0, crate::part::touched(old.part(pid), start))),
    ensures
        disposals_kept(old, new),
{
    assert forall|p: PartId| #[trigger] new.has_part(p) == old.has_part(p)
        && (old.part(p).disposed_at is Some ==> new.part(p).disposed_at == old.part(p).disposed_at) by {
        if new.parts != old.parts && p.0 == pid.0 {
            assert(p == pid);
        }
    }
}

/// `disposals_kept` chains.
pub proof fn lemma_disposals_kept_trans(a: MemStore, b: MemStore, c: MemStore)
    requires
        disposals_kept(a, b),
        disposals_kept(b, c),
    ensures
        disposals_kept(a, c),
{
    assert forall|p: PartId| #[trigger] c.has_part(p) == a.has_part(p)
        && (a.part(p).disposed_at is Some ==> c.part(p).disposed_at == a.part(p).disposed_at) by {
        assert(b.has_part(p) == a.has_part(p));
        assert(c.has_part(p) == b.has_part(p));
    }
}

/// What became of a part attached to a disposed part: it is disposed of at
/// `time`, or attached nowhere then.
pub open spec fn sub_settled(store: MemStore, pid: PartId, time: Timestamp) -> bool {
    store.part(pid).disposed_at == Some(time) || free_at(store.attachments@, pid, time)
}

/// Dispose of the parts attached to `part` at `time`: without `all`, or
/// when one of them is attached again later, it is detached at `time`;
/// otherwise it is disposed of at `time` as well.
pub fn dispose_subparts(part: PartId, time: Timestamp, all: bool, store: &mut MemStore) -> (r: Result<Summary, Error>)
    requires
        old(store).wf(),
        timeline_ok(old(store).attachments@),
        usable_time(time),
    ensures
        r matches Err(e) && e is AnyFailure ==> crate::attachment::counters_overflow(*final(store)),
        timeline_frame(*old(store), *final(store)),
        timeline_ok(final(store).attachments@),
        disposals_kept(*old(store), *final(store)),
        !old(store).has_part(part) ==> (r matches Err(e) && e is NotFound) && *final(store) == *old(store),
        r matches Err(e) ==> e is NotFound || e is Conflict || e is AnyFailure || e is BadRequest,
        one_place(old(store).attachments@) ==> one_place(final(store).attachments@),
        one_place(old(store).attachments@) && one_per_hook(*old(store)) ==> one_per_hook(*final(store)),
        ({
            let f = old(store).attachments@.filter(in_subassembly(old(store).part(part).what, part, time));
            &&& one_place(old(store).attachments@) && old(store).has_part(part)
                && (forall|x: Attachment| #[trigger] f.contains(x) ==> crate::service::part_known(*old(store), x.part_id)
                    && (all ==> old(store).part(x.part_id).disposed_at is None))
                ==> r is Ok || (r matches Err(e) && e is AnyFailure && crate::attachment::counters_overflow(*final(store)))
            &&& one_place(old(store).attachments@) && r is Ok
                ==> forall|x: Attachment| #[trigger] f.contains(x) ==> sub_settled(*final(store), x.part_id, time)
        }),
{
    let subs = subattachments(part, part, time, store)?;
    let ghost s0 = *store;
    let ghost f = s0.attachments@.filter(in_subassembly(s0.part(part).what, part, time));
    proof {
        assert forall|x: Attachment| #[trigger] subs@.contains(x) implies interval_ok(x) by {
            lemma_timeline_ok_member(s0.attachments@, x);
        }
        assert(disposals_kept(s0, s0));
        if one_place(s0.attachments@) {
            subs@.to_multiset_ensures();
            f.to_multiset_ensures();
            crate::timeline::lemma_no_duplicates_filter(s0.attachments@, in_subassembly(s0.part(part).what, part, time));
            f.lemma_multiset_has_no_duplicates();
            assert forall|x: Attachment| subs@.to_multiset().contains(x) implies subs@.to_multiset().count(x) == 1 by {
                assert(f.to_multiset().contains(x));
            }
            subs@.lemma_multiset_has_no_duplicates_conv();
        }
        assert forall|k: int| 0 <= k < subs@.len() implies s0.attachments@.contains(#[trigger] subs@[k]) by {
            assert(subs@.contains(subs@[k]));
        }
        subs@.to_multiset_ensures();
        f.to_multiset_ensures();
        assert forall|x: Attachment| #[trigger] subs@.contains(x) <==> f.contains(x) by {
            assert(subs@.contains(x) <==> subs@.to_multiset().count(x) > 0);
            assert(f.contains(x) <==> f.to_multiset().count(x) > 0);
        }
    }
    let mut res = Summary::empty();
    let mut i: usize = 0;
    while i < subs.len()
        invariant
            0 <= i <= subs@.len(),
            usable_time(time),
            store.wf(),
            timeline_ok(store.attachments@),
            timeline_frame(s0, *store),
            s0 == *old(store),
            s0.has_part(part),
            disposals_kept(s0, *store),
            forall|x: Attachment| #[trigger] subs@.contains(x) ==> interval_ok(x),
            forall|x: Attachment| #[trigger] subs@.contains(x) ==> s0.attachments@.contains(x) && x.active_at(time),
            one_place(s0.attachments@) ==> subs@.no_duplicates() && one_place(store.attachments@)
                && forall|k: int| i <= k < subs@.len() ==> store.attachments@.contains(#[trigger] subs@[k]),
            f == s0.attachments@.filter(in_subassembly(s0.part(part).what, part, time)),
            forall|x: Attachment| #[trigger] subs@.contains(x) <==> f.contains(x),
            crate::attachment::types_kept(s0, *store),
            one_place(s0.attachments@) ==> forall|k: int| i <= k < subs@.len()
                ==> store.part((#[trigger] subs@[k]).part_id).disposed_at == s0.part(subs@[k].part_id).disposed_at,
            one_place(s0.attachments@) ==> forall|k: int| 0 <= k < i ==> sub_settled(*store, (#[trigger] subs@[k]).part_id, time),
            one_place(s0.attachments@) && one_per_hook(s0) ==> one_per_hook(*store),
        decreases subs@.len() - i,
    {
        let attachment = subs[i];
        proof { assert(subs@.contains(subs@[i as int])); }
        let ghost before = *store;
        proof {
            if one_place(s0.attachments@) {
                assert(before.attachments@.contains(attachment));
                assert forall|b: Attachment| #[trigger] before.attachments@.contains(b) && b.part_id == attachment.part_id
                    && b.attached.nanos != attachment.attached.nanos implies apart(Attachment { detached: time, ..attachment }, b) by {
                    assert(b != attachment);
                    assert(apart(attachment, b));
                }
            }
        }
        let atts = store.attachments_all_by_part(attachment.part_id)?;
        let mut later: bool = false;
        let mut k: usize = 0;
        while k < atts.len()
            invariant
                0 <= k <= atts@.len(),
            decreases atts@.len() - k,
        {
            if atts[k].attached.nanos > time.nanos {
                later = true;
            }
            k = k + 1;
        }
        if !all || later {
            proof {
                lemma_timeline_ok_filter(before.attachments@, other_key(attachment));
                if one_place(s0.attachments@) && one_per_hook(s0) {
                    assert(before.attachments@.contains(attachment));
                    assert(hook_fits(before, Attachment { detached: time, ..attachment })) by {
                        assert forall|b: Attachment| #[trigger] before.attachments@.contains(b)
                            && rivals(before, Attachment { detached: time, ..attachment }, b)
                            implies apart(Attachment { detached: time, ..attachment }, b) by {
                            assert(rivals(before, attachment, b));
                            assert(apart(attachment, b));
                        }
                    }
                }
                if one_place(s0.attachments@) {
                    crate::seqs::lemma_first_where_member(before.attachments@, same_key(attachment));
                    assert(same_key(attachment)(attachment));
                    assert(subs@.contains(attachment));
                    assert(f.contains(attachment));
                    assert(before.has_part(attachment.part_id) == s0.has_part(attachment.part_id));
                    assert(before.part(attachment.part_id).what == s0.part(attachment.part_id).what);
                }
            }
            let detached = attachment.detach(time, store);
            proof {
                let f = before.attachments@.filter(other_key(attachment));
                if store.attachments@ != before.attachments@ && store.attachments@ != f {
                    let u = choose|u: crate::usage::UsageId| store.attachments@ == f.push(#[trigger] ended_at(attachment, time, u));
                    lemma_timeline_ok_push(f, ended_at(attachment, time, u));
                }
                lemma_touch_keeps_disposals(before, *store, attachment.part_id, attachment.attached);
                lemma_disposals_kept_trans(s0, before, *store);
                if one_place(s0.attachments@) {
                    crate::store::lemma_filter_members(before.attachments@, other_key(attachment));
                    assert forall|k: int| i + 1 <= k < subs@.len() implies store.attachments@.contains(#[trigger] subs@[k]) by {
                        assert(subs@.contains(subs@[k]));
                        assert(subs@[k] != attachment);
                        if subs@[k].part_id == attachment.part_id {
                            crate::timeline::lemma_one_place_active(s0.attachments@, subs@[k], attachment, time);
                        }
                        assert(before.attachments@.contains(subs@[k]));
                        if store.attachments@ != before.attachments@ && store.attachments@ != f {
                            let u = choose|u: crate::usage::UsageId| store.attachments@ == f.push(#[trigger] ended_at(attachment, time, u));
                            assert(f.contains(subs@[k]));
                            assert(store.attachments@[f.len() as int] == ended_at(attachment, time, u));
                            let j = choose|j: int| 0 <= j < f.len() && f[j] == subs@[k];
                            assert(store.attachments@[j] == subs@[k]);
                        }
                    }
                }
            }
            res = res.merge(detached?);
            proof {
                if one_place(s0.attachments@) {
                    let fo = before.attachments@.filter(other_key(attachment));
                    crate::store::lemma_filter_members(before.attachments@, other_key(attachment));
                    assert forall|b: Attachment| #[trigger] store.attachments@.contains(b)
                        implies fo.contains(b) || (b.part_id == attachment.part_id && b.detached.nanos == time.nanos) by {
                        if attachment.attached.nanos < time.nanos {
                            let u = choose|u: crate::usage::UsageId| store.attachments@ == fo.push(#[trigger] ended_at(attachment, time, u));
                            crate::store::lemma_contains_last(store.attachments@, b);
                            assert(store.attachments@.drop_last() == fo);
                        }
                    }
                    assert forall|k: int| 0 <= k < subs@.len() && k != i implies (#[trigger] subs@[k]).part_id != attachment.part_id by {
                        assert(subs@.contains(subs@[k]));
                        assert(subs@[k] != attachment);
                        if subs@[k].part_id == attachment.part_id {
                            crate::timeline::lemma_one_place_active(s0.attachments@, subs@[k], attachment, time);
                        }
                    }
                    assert forall|k: int| 0 <= k < subs@.len() && k != i implies
                        store.part((#[trigger] subs@[k]).part_id).disposed_at == before.part(subs@[k].part_id).disposed_at by {
                        if store.parts != before.parts && subs@[k].part_id.0 == attachment.part_id.0 {
                            assert(subs@[k].part_id == attachment.part_id);
                        }
                    }
                    assert(free_at(store.attachments@, attachment.part_id, time)) by {
                        assert forall|b: Attachment| #[trigger] store.attachments@.contains(b) && b.part_id == attachment.part_id
                            implies !b.active_at(time) by {
                            if fo.contains(b) {
                                assert(b != attachment);
                                assert(apart(attachment, b));
                            }
                        }
                    }
                    assert forall|k: int| 0 <= k < i + 1 implies sub_settled(*store, (#[trigger] subs@[k]).part_id, time) by {
                        if k < i {
                            assert(sub_settled(before, subs@[k].part_id, time));
                            if free_at(before.attachments@, subs@[k].part_id, time) {
                                assert forall|b: Attachment| #[trigger] store.attachments@.contains(b) && b.part_id == subs@[k].part_id
                                    implies !b.active_at(time) by {
                                    if fo.contains(b) {
                                        assert(before.attachments@.contains(b));
                                    }
                                }
                            }
                        }
                    }
                }
            }
        } else {
            let disposed = attachment.part_id.dispose(time, store);
            proof {
                assert(disposals_kept(before, *store)) by {
                    assert forall|p: PartId| #[trigger] store.has_part(p) == before.has_part(p)
                        && (before.part(p).disposed_at is Some ==> store.part(p).disposed_at == before.part(p).disposed_at) by {
                        if p.0 == attachment.part_id.0 {
                            assert(p == attachment.part_id);
                        }
                    }
                }
                lemma_disposals_kept_trans(s0, before, *store);
            }
            let d = disposed?;
            let mut parts: Vec<crate::part::Part> = Vec::new();
            parts.push(d);
            proof {
                if one_place(s0.attachments@) {
                    assert forall|k: int| i + 1 <= k < subs@.len() implies store.attachments@.contains(#[trigger] subs@[k]) by {
                        assert(before.attachments@.contains(subs@[k]));
                    }
                    assert forall|k: int| 0 <= k < subs@.len() && k != i implies (#[trigger] subs@[k]).part_id != attachment.part_id by {
                        assert(subs@.contains(subs@[k]));
                        assert(subs@[k] != attachment);
                        if subs@[k].part_id == attachment.part_id {
                            crate::timeline::lemma_one_place_active(s0.attachments@, subs@[k], attachment, time);
                        }
                    }
                    assert forall|k: int| 0 <= k < subs@.len() && k != i implies
                        store.part((#[trigger] subs@[k]).part_id).disposed_at == before.part(subs@[k].part_id).disposed_at by {
                        if subs@[k].part_id.0 == attachment.part_id.0 {
                            assert(subs@[k].part_id == attachment.part_id);
                        }
                    }
                    assert forall|k: int| 0 <= k < i + 1 implies sub_settled(*store, (#[trigger] subs@[k]).part_id, time) by {
                        if k < i {
                            assert(sub_settled(before, subs@[k].part_id, time));
                        }
                    }
                }
                assert(crate::attachment::types_kept(s0, before));
                crate::attachment::lemma_replace_keeps_types(before, *store, attachment.part_id,
                    crate::part::Part { disposed_at: Some(time), ..before.part(attachment.part_id) });
                crate::attachment::lemma_types_kept_trans(s0, before, *store);
                if one_place(s0.attachments@) && one_per_hook(s0) {
                    crate::timeline::lemma_one_per_hook_sub(before, *store);
                }
            }
            res = res.merge(Summary {
                activities: Vec::new(),
                parts,
                attachments: Vec::new(),
                usages: Vec::new(),
                services: Vec::new(),
                plans: Vec::new(),
                shops: Vec::new(),
            });
        }
        i = i + 1;
    }
    proof {
        if one_place(s0.attachments@) {
            assert forall|x: Attachment| #[trigger] f.contains(x) implies sub_settled(*store, x.part_id, time) by {
                assert(subs@.contains(x));
                let k = subs@.index_of(x);
                assert(subs@[k] == x);
            }
        }
    }
    Ok(res)
}


/// The attachments in force on `part` at `t`, at a hook of the sub-types of
/// its type: what disposing of it at `t` takes along.
pub open spec fn disposing_with(store: MemStore, part: PartId, t: Timestamp) -> Seq<Attachment> {
    store.attachments@.filter(in_subassembly(store.part(part).what, part, t))
}

/// Part `part` is attached somewhere until a time after `t` (but not for ever).
pub open spec fn detached_after(store: MemStore, part: PartId, t: Timestamp) -> bool {
    exists|a: Attachment| #[trigger] store.attachments@.contains(a) && a.part_id == part
        && t.nanos < a.detached.nanos && a.detached.nanos < spec_max_time().nanos
}

/// Dispose of a part at `time` rounded down to the quarter hour, and of
/// what is attached to it (see `dispose_subparts`). `Conflict` when the
/// part is attached somewhere until a time after that.
///
/// checks authorization
pub fn dispose_assembly<S: Session>(user: &S, part_id: PartId, time: Timestamp, all: bool, store: &mut MemStore)
    -> (r: Result<Summary, Error>)
    requires
        old(store).wf(),
        timeline_ok(old(store).attachments@),
        time.wf(),
        usable_time(spec_round(time)),
    ensures
        r matches Err(e) && e is AnyFailure ==> crate::attachment::counters_overflow(*final(store)),
        timeline_frame(*old(store), *final(store)),
        timeline_ok(final(store).attachments@),
        one_place(old(store).attachments@) ==> one_place(final(store).attachments@),
        one_place(old(store).attachments@) && one_per_hook(*old(store)) ==> one_per_hook(*final(store)),
        match part_denial(*old(store), user.session_user(), user.session_shop(), part_id) {
            Some(k) => (r matches Err(e) && e.kind() == k) && *final(store) == *old(store),
            None => if detached_after(*old(store), part_id, spec_round(time)) {
                (r matches Err(e) && e is Conflict) && *final(store) == *old(store)
            } else if old(store).part(part_id).disposed_at is Some {
                (r matches Err(e) && e is BadRequest) && *final(store) == *old(store)
            } else {
                &&& r is Ok ==> final(store).part(part_id).disposed_at == Some(spec_round(time))
                &&& one_place(old(store).attachments@) && (forall|x: Attachment|
                    #[trigger] disposing_with(*old(store), part_id, spec_round(time)).contains(x)
                    ==> crate::service::part_known(*old(store), x.part_id)
                        && (all ==> x.part_id != part_id && old(store).part(x.part_id).disposed_at is None))
                    ==> r is Ok || (r matches Err(e) && e is AnyFailure && crate::attachment::counters_overflow(*final(store)))
                &&& one_place(old(store).attachments@) && r is Ok ==> forall|x: Attachment|
                    #[trigger] disposing_with(*old(store), part_id, spec_round(time)).contains(x)
                    ==> sub_settled(*final(store), x.part_id, spec_round(time))
                &&& r matches Err(e) ==> e is NotFound || e is Conflict || e is AnyFailure || e is BadRequest
            },
        },
{
    let t = round_time(time);
    part_id.checkuser(user, store)?;
    let attachments = store.attachments_all_by_part(part_id)?;
    let ghost f = store.attachments@.filter(crate::timeline::of_part(part_id));
    proof {
        attachments@.to_multiset_ensures();
        f.to_multiset_ensures();
        crate::store::lemma_filter_members(store.attachments@, crate::timeline::of_part(part_id));
        assert forall|x: Attachment| #[trigger] attachments@.contains(x) <==> f.contains(x) by {
            if attachments@.contains(x) {
                assert(attachments@.to_multiset().count(x) > 0);
            }
            if f.contains(x) {
                assert(f.to_multiset().count(x) > 0);
            }
        }
    }
    let never = max_time();
    let mut i: usize = 0;
    while i < attachments.len()
        invariant
            0 <= i <= attachments@.len(),
            never == spec_max_time(),
            t == spec_round(time),
            *store == *old(store),
            store.wf(),
            timeline_ok(store.attachments@),
            part_denial(*old(store), user.session_user(), user.session_shop(), part_id) is None,
            forall|x: Attachment| #[trigger] attachments@.contains(x) <==> f.contains(x),
            forall|x: Attachment| #[trigger] f.contains(x) <==> (store.attachments@.contains(x) && x.part_id == part_id),
            forall|k: int| 0 <= k < i ==> !(t.nanos < (#[trigger] attachments@[k]).detached.nanos
                && attachments@[k].detached.nanos < never.nanos),
        decreases attachments@.len() - i,
    {
        let a = attachments[i];
        if a.detached.nanos < never.nanos && a.detached.nanos > t.nanos {
            proof {
                assert(attachments@.contains(a));
                assert(f.contains(a));
            }
            return Err(Error::Conflict("Cannot dispose, part is attached later".to_owned()));
        }
        i = i + 1;
    }
    proof {
        if detached_after(*store, part_id, t) {
            let a = choose|a: Attachment| #[trigger] store.attachments@.contains(a) && a.part_id == part_id
                && t.nanos < a.detached.nanos && a.detached.nanos < spec_max_time().nanos;
            assert(f.contains(a));
            assert(attachments@.contains(a));
            let k = choose|k: int| 0 <= k < attachments@.len() && attachments@[k] == a;
        }
    }
    let ghost s0 = *store;
    let disposed = part_id.dispose(t, store)?;
    let ghost s1 = *store;
    proof {
        assert(s1.attachments == s0.attachments);
        assert(s1.part(part_id).what == s0.part(part_id).what);
        crate::attachment::lemma_replace_keeps_types(s0, s1, part_id, s1.part(part_id));
        if one_per_hook(s0) {
            crate::timeline::lemma_one_per_hook_sub(s0, s1);
        }
        assert(disposing_with(s1, part_id, t) == disposing_with(s0, part_id, t));
        crate::store::lemma_filter_members(s0.attachments@, in_subassembly(s0.part(part_id).what, part_id, t));
        assert forall|x: Attachment| #[trigger] disposing_with(s0, part_id, t).contains(x)
            implies s1.has_part(x.part_id) == s0.has_part(x.part_id) && s1.part(x.part_id).what == s0.part(x.part_id).what
                && (x.part_id != part_id ==> s1.part(x.part_id).disposed_at == s0.part(x.part_id).disposed_at) by {
            if x.part_id.0 == part_id.0 {
                assert(x.part_id == part_id);
            }
        }
    }
    let subs = dispose_subparts(part_id, t, all, store);
    proof {
        assert(disposals_kept(s1, *store));
    }
    let subs = subs?;
    proof {
        assert(s1.part(part_id).disposed_at == Some(t));
        assert(store.has_part(part_id) == s1.has_part(part_id));
        assert(store.part(part_id).disposed_at == Some(t));
    }
    let mut parts: Vec<crate::part::Part> = Vec::new();
    parts.push(disposed);
    let res = Summary {
        activities: Vec::new(),
        parts,
        attachments: Vec::new(),
        usages: Vec::new(),
        services: Vec::new(),
        plans: Vec::new(),
        shops: Vec::new(),
    };
    Ok(res.merge(subs))
}

/// Recover a disposed part; with `all`, also what was attached to it when
/// it was disposed. `BadRequest` when the part is not disposed.
///
/// checks authorization
pub fn recover_assembly<S: Session>(user: &S, part: PartId, all: bool, store: &mut MemStore) -> (r: Result<Summary, Error>)
    requires
        old(store).wf(),
    ensures
        final(store).wf(),
        final(store).attachments == old(store).attachments,
        final(store).usages == old(store).usages,
        final(store).activities == old(store).activities,
        final(store).services == old(store).services,
        match part_denial(*old(store), user.session_user(), user.session_shop(), part) {
            Some(k) => (r matches Err(e) && e.kind() == k) && *final(store) == *old(store),
            None => if old(store).part(part).disposed_at is None {
                (r matches Err(e) && e is BadRequest) && *final(store) == *old(store)
            } else {
                &&& r is Ok ==> final(store).part(part).disposed_at is None
                &&& !all ==> r is Ok && final(store).parts@ == old(store).parts@.insert(part.0,
                    crate::part::Part { disposed_at: None, ..old(store).part(part) })
                &&& all && (forall|x: Attachment| #[trigger] disposed_with(*old(store), part).contains(x)
                    ==> old(store).has_part(x.part_id)) ==> r is Ok
                &&& r is Ok && all ==> forall|x: Attachment| #[trigger] disposed_with(*old(store), part).contains(x)
                    ==> final(store).has_part(x.part_id) && final(store).part(x.part_id).disposed_at is None
                &&& r matches Err(e) ==> e is NotFound
            },
        },
{
    let p = part.part(user, store)?;
    if let Some(time) = p.disposed_at {
        let restored = part.restore(store)?;
        let mut parts: Vec<crate::part::Part> = Vec::new();
        parts.push(restored);
        if all {
            let ghost s1 = *store;
            let subs = subattachments(part, part, time, store)?;
            let ghost f = disposed_with(*old(store), part);
            proof {
                assert(s1.attachments == old(store).attachments);
                assert(s1.part(part).what == old(store).part(part).what);
                subs@.to_multiset_ensures();
                s1.attachments@.filter(in_subassembly(s1.part(part).what, part, time)).to_multiset_ensures();
                assert forall|x: Attachment| #[trigger] subs@.contains(x) <==> f.contains(x) by {
                    assert(subs@.contains(x) <==> subs@.to_multiset().count(x) > 0);
                }
            }
            let mut i: usize = 0;
            while i < subs.len()
                invariant
                    0 <= i <= subs@.len(),
                    f == disposed_with(*old(store), part),
                    forall|x: Attachment| #[trigger] subs@.contains(x) <==> f.contains(x),
                    forall|k: int| 0 <= k < i ==> store.has_part((#[trigger] subs@[k]).part_id)
                        && store.part(subs@[k].part_id).disposed_at is None,
                    forall|p: PartId| old(store).has_part(p) ==> #[trigger] store.has_part(p),
                    store.wf(),
                    store.has_part(part) && store.part(part).disposed_at is None,
                    part_denial(*old(store), user.session_user(), user.session_shop(), part) is None,
                    old(store).part(part).disposed_at is Some,
                    all,
                    store.attachments == old(store).attachments,
                    store.usages == old(store).usages,
                    store.activities == old(store).activities,
                    store.services == old(store).services,
                decreases subs@.len() - i,
            {
                let ghost before = *store;
                proof {
                    assert(subs@.contains(subs@[i as int]));
                }
                let x = subs[i].part_id.restore(store)?;
                parts.push(x);
                proof {
                    if subs@[i as int].part_id.0 == part.0 {
                        assert(subs@[i as int].part_id == part);
                    }
                    assert forall|k: int| 0 <= k < i + 1 implies store.has_part((#[trigger] subs@[k]).part_id)
                        && store.part(subs@[k].part_id).disposed_at is None by {
                        if k < i && subs@[k].part_id.0 != subs@[i as int].part_id.0 {
                            assert(before.has_part(subs@[k].part_id));
                        }
                        if subs@[k].part_id.0 == subs@[i as int].part_id.0 {
                            assert(subs@[k].part_id == subs@[i as int].part_id);
                        }
                    }
                    assert forall|p: PartId| old(store).has_part(p) implies #[trigger] store.has_part(p) by {
                        assert(before.has_part(p));
                    }
                }
                i = i + 1;
            }
            proof {
                assert forall|x: Attachment| #[trigger] f.contains(x) implies store.has_part(x.part_id)
                    && store.part(x.part_id).disposed_at is None by {
                    assert(subs@.contains(x));
                    let k = subs@.index_of(x);
                    assert(subs@[k] == x);
                }
            }
        }
        Ok(Summary {
            activities: Vec::new(),
            parts,
            attachments: Vec::new(),
            usages: Vec::new(),
            services: Vec::new(),
            plans: Vec::new(),
            shops: Vec::new(),
        })
    } else {
        Err(Error::BadRequest("Part is not disposed".to_owned()))
    }
}

/// The attachments in force on `part` when it was disposed of, at a hook
/// of the sub-types of its type.
pub open spec fn disposed_with(store: MemStore, part: PartId) -> Seq<Attachment> {
    store.attachments@.filter(in_subassembly(store.part(part).what, part, store.part(part).disposed_at.unwrap()))
}

/// Detach a part at `time` rounded down to the quarter hour; with `all`,
/// what is attached to it moves along. `NotFound` when it is not attached
/// then.
///
/// checks authorization
pub fn detach_assembly<S: Session>(user: &S, part_id: PartId, time: Timestamp, all: bool, store: &mut MemStore)
    -> (r: Result<Summary, Error>)
    requires
        old(store).wf(),
        timeline_ok(old(store).attachments@),
        time.wf(),
        usable_time(spec_round(time)),
    ensures
        r matches Err(e) && e is AnyFailure ==> crate::attachment::counters_overflow(*final(store)),
        timeline_frame(*old(store), *final(store)),
        timeline_ok(final(store).attachments@),
        one_place(old(store).attachments@) ==> one_place(final(store).attachments@),
        one_place(old(store).attachments@) && one_per_hook(*old(store)) && !all ==> one_per_hook(*final(store)),
        match part_denial(*old(store), user.session_user(), user.session_shop(), part_id) {
            Some(k) => (r matches Err(e) && e.kind() == k) && *final(store) == *old(store),
            None => match first_where(old(store).attachments@, part_active_at(part_id, spec_round(time))) {
                None => (r matches Err(e) && e is NotFound) && *final(store) == *old(store),
                Some(a) => {
                    &&& r is Ok && !all ==> forall|x: Attachment| #[trigger] final(store).attachments@.contains(x)
                        && same_key(a)(x) ==> !x.active_at(spec_round(time))
                    &&& !all && crate::service::part_known(*old(store), part_id)
                        ==> r is Ok || (r matches Err(e) && e is AnyFailure && crate::attachment::counters_overflow(*final(store)))
                    &&& !all && detach_fits(*old(store), *final(store), a, spec_round(time)) ==> r is Ok
                    &&& r is Ok && !all ==> (first_where(old(store).attachments@, same_key(a)) matches Some(att)
                        && (att.attached.nanos < spec_round(time).nanos ==> exists|u: crate::usage::UsageId|
                            final(store).attachments@.contains(#[trigger] ended_at(att, spec_round(time), u))))
                    &&& r matches Err(e) ==> e is NotFound || e is Conflict || e is AnyFailure
                },
            },
        },
{
    let time = round_time(time);
    part_id.checkuser(user, store)?;
    let found = store.attachment_get_by_part_and_time(part_id, time)?;
    proof { crate::seqs::lemma_first_where_member(store.attachments@, part_active_at(part_id, time)); }
    match found {
        None => Err(Error::NotFound("part not attached".to_owned())),
        Some(attachment) => {
            proof { lemma_timeline_ok_member(store.attachments@, attachment); }
            attachment.detach_assembly(time, all, store)
        },
    }
}

} // verus!
