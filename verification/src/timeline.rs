//! The attachment timeline as the store keeps it: its queries and changes.
//!
//! An attachment is identified by its part and the instant it was attached;
//! the store refuses a second attachment with the same key.

use vstd::prelude::*;
use crate::attachment::Attachment;
use crate::error::Error;
use crate::part::PartId;
use crate::store::MemStore;
use crate::timestamp::Timestamp;
use crate::types::PartTypeId;
use crate::seqs::{first_where, sorted_by_key};

verus! {

broadcast use vstd::std_specs::hash::group_hash_axioms;

/// Attachments with the key of `att`: the same part, attached at the same instant.
pub open spec fn same_key(att: Attachment) -> spec_fn(Attachment) -> bool {
    |a: Attachment| a.part_id == att.part_id && a.attached.nanos == att.attached.nanos
}

/// Attachments with another key than `att`.
pub open spec fn other_key(att: Attachment) -> spec_fn(Attachment) -> bool {
    |a: Attachment| !(a.part_id == att.part_id && a.attached.nanos == att.attached.nanos)
}

/// Attachments of part `pid`.
pub open spec fn of_part(pid: PartId) -> spec_fn(Attachment) -> bool {
    |a: Attachment| a.part_id == pid
}

/// Attachments of part `pid` in force at `time`.
pub open spec fn part_active_at(pid: PartId, time: Timestamp) -> spec_fn(Attachment) -> bool {
    |a: Attachment| a.part_id == pid && a.active_at(time)
}

/// Whether the store holds part `pid` with type `what`.
pub open spec fn part_has_type(store: MemStore, pid: PartId, what: PartTypeId) -> bool {
    store.has_part(pid) && store.part(pid).what == what
}

/// Attachments in force at `time` at `hook` of `gear` whose part has type `what`.
pub open spec fn at_hook_of_type(store: MemStore, what: PartTypeId, gear: PartId, hook: PartTypeId, time: Timestamp)
    -> spec_fn(Attachment) -> bool {
    |a: Attachment| a.gear == gear && a.hook == hook && a.active_at(time) && part_has_type(store, a.part_id, what)
}

/// Attachments of other parts of type `what` to `hook` of `gear`, attached after `time`.
pub open spec fn successor_of(store: MemStore, pid: PartId, gear: PartId, hook: PartTypeId, time: Timestamp, what: PartTypeId)
    -> spec_fn(Attachment) -> bool {
    |a: Attachment| a.gear == gear && a.hook == hook && a.part_id != pid && a.attached.nanos > time.nanos
        && part_has_type(store, a.part_id, what)
}

/// Attachments of part `pid` made after `time`.
pub open spec fn later_of_part(pid: PartId, time: Timestamp) -> spec_fn(Attachment) -> bool {
    |a: Attachment| a.part_id == pid && a.attached.nanos > time.nanos
}

/// Attachments of part `pid` to `hook` of `gear` that end exactly at `time`.
pub open spec fn ends_at(pid: PartId, gear: PartId, hook: PartTypeId, time: Timestamp) -> spec_fn(Attachment) -> bool {
    |a: Attachment| a.part_id == pid && a.gear == gear && a.hook == hook && a.detached.nanos == time.nanos
}

/// Attachments in force at `time` on `gear` at one of the hooks `types`.
pub open spec fn in_assembly(types: Seq<PartTypeId>, gear: PartId, time: Timestamp) -> spec_fn(Attachment) -> bool {
    |a: Attachment| types.contains(a.hook) && a.gear == gear && a.active_at(time)
}

/// The attachment of `s` satisfying `p` that was attached earliest; of
/// several such, the first in `s`.
pub open spec fn earliest(s: Seq<Attachment>, p: spec_fn(Attachment) -> bool) -> Option<Attachment>
    decreases s.len(),
{
    if s.len() == 0 {
        None
    } else {
        let e = earliest(s.drop_last(), p);
        let x = s.last();
        if p(x) && (match e {
            Some(y) => x.attached.nanos < y.attached.nanos,
            None => true,
        }) {
            Some(x)
        } else {
            e
        }
    }
}

/// What `earliest` finds: a member satisfying the predicate that no other
/// such member was attached before; nothing only when there is no such member.
pub proof fn lemma_earliest(s: Seq<Attachment>, p: spec_fn(Attachment) -> bool)
    ensures
        earliest(s, p) matches Some(a) ==> s.contains(a) && p(a)
            && forall|x: Attachment| #[trigger] s.contains(x) && p(x) ==> a.attached.nanos <= x.attached.nanos,
        earliest(s, p) is None ==> forall|x: Attachment| #[trigger] s.contains(x) ==> !p(x),
    decreases s.len(),
{
    if s.len() > 0 {
        let t = s.drop_last();
        lemma_earliest(t, p);
        assert forall|x: Attachment| #[trigger] s.contains(x) implies t.contains(x) || x == s.last() by {
            crate::store::lemma_contains_last(s, x);
        }
        assert(s.contains(s.last())) by {
            assert(s[s.len() - 1] == s.last());
        }
        assert forall|x: Attachment| #[trigger] t.contains(x) implies s.contains(x) by {
            crate::store::lemma_contains_last(s, x);
        }
    }
}

/// The key by which attachments are sorted: the hook's type id, or the instant of attaching.
pub open spec fn att_key(by_hook: bool) -> spec_fn(Attachment) -> int {
    |a: Attachment| if by_hook { a.hook.0 as int } else { a.attached.nanos as int }
}

fn key_of(a: &Attachment, by_hook: bool) -> (r: i128)
    ensures
        r as int == att_key(by_hook)(*a),
{
    if by_hook {
        a.hook.0 as i128
    } else {
        a.attached.nanos
    }
}

/// The attachments of `v`, ordered by `att_key(by_hook)`; attachments with
/// equal keys keep their order.
pub fn sort_attachments(v: Vec<Attachment>, by_hook: bool) -> (r: Vec<Attachment>)
    ensures
        r@.to_multiset() == v@.to_multiset(),
        sorted_by_key(r@, att_key(by_hook)),
{
    broadcast use vstd::seq_lib::to_multiset_insert, vstd::seq_lib::to_multiset_build;
    let ghost key = att_key(by_hook);
    let mut out: Vec<Attachment> = Vec::new();
    let mut i: usize = 0;
    proof { assert(v@.take(0) =~= out@); }
    while i < v.len()
        invariant
            0 <= i <= v@.len(),
            key == att_key(by_hook),
            out@.to_multiset() == v@.take(i as int).to_multiset(),
            sorted_by_key(out@, key),
        decreases v@.len() - i,
    {
        let x = v[i];
        let kx = key_of(&x, by_hook);
        let mut k: usize = 0;
        while k < out.len() && key_of(&out[k], by_hook) <= kx
            invariant
                0 <= k <= out@.len(),
                key == att_key(by_hook),
                kx as int == key(x),
                forall|q: int| 0 <= q < k ==> key(#[trigger] out@[q]) <= key(x),
            decreases out@.len() - k,
        {
            k = k + 1;
        }
        let ghost before = out@;
        out.insert(k, x);
        proof {
            assert(out@ == before.insert(k as int, x));
            assert(v@.take(i + 1) =~= v@.take(i as int).push(x));
            vstd::seq_lib::to_multiset_insert(before, k as int, x);
            vstd::seq_lib::to_multiset_build(v@.take(i as int), x);
            assert forall|a: int, b: int| 0 <= a <= b < out@.len() implies key(out@[a]) <= key(out@[b]) by {
                if k < before.len() {
                    assert(key(before[k as int]) > key(x));
                }
                if a < k && b == k {
                } else if a == k && b > k {
                    assert(out@[b] == before[b - 1]);
                    assert(key(before[k as int]) <= key(before[b - 1]));
                } else if a < k && b > k {
                    assert(out@[b] == before[b - 1]);
                } else if a > k {
                    assert(out@[a] == before[a - 1]);
                    assert(out@[b] == before[b - 1]);
                }
            }
        }
        i = i + 1;
    }
    proof { assert(v@.take(v@.len() as int) =~= v@); }
    out
}

impl MemStore {
    /// The type of the stored part `pid`, if it is stored.
    pub fn part_what(&self, pid: PartId) -> (r: Option<PartTypeId>)
        ensures
            r == (if self.has_part(pid) { Some(self.part(pid).what) } else { None }),
    {
        match self.parts.get(&pid.0) {
            Some(p) => Some(p.what),
            None => None,
        }
    }

    /// The first attachment of the timeline with the key of `att`, if any.
    pub fn attachment_find_key(&self, att: &Attachment) -> (r: Option<Attachment>)
        ensures
            r == first_where(self.attachments@, same_key(*att)),
    {
        let ghost p = same_key(*att);
        let mut i: usize = 0;
        while i < self.attachments.len()
            invariant
                0 <= i <= self.attachments@.len(),
                p == same_key(*att),
                self.attachments@.take(i as int).filter(p).len() == 0,
            decreases self.attachments@.len() - i,
        {
            let a = self.attachments[i];
            if a.part_id == att.part_id && a.attached.nanos == att.attached.nanos {
                proof { crate::seqs::lemma_first_where_found(self.attachments@, p, i as int); }
                return Some(a);
            }
            proof { crate::seqs::lemma_no_match_step(self.attachments@, p, i as int); }
            i = i + 1;
        }
        proof { crate::seqs::lemma_first_where_none(self.attachments@, p); }
        None
    }

    /// Store a new attachment; `Conflict` when one with its key is stored.
    pub fn attachment_create(&mut self, att: Attachment) -> (r: Result<Attachment, Error>)
        ensures
            first_where(old(self).attachments@, same_key(att)) is None ==> r == Ok::<Attachment, Error>(att)
                && final(self).attachments@ == old(self).attachments@.push(att),
            first_where(old(self).attachments@, same_key(att)) is Some ==> (r matches Err(e) && e is Conflict)
                && final(self).attachments == old(self).attachments,
            final(self).parts == old(self).parts,
            final(self).usages == old(self).usages,
            final(self).activities == old(self).activities,
            final(self).services == old(self).services,
            final(self).plans == old(self).plans,
            final(self).next_part_id == old(self).next_part_id,
            final(self).dir == old(self).dir,
    {
        if self.attachment_find_key(&att).is_some() {
            return Err(Error::Conflict("attachment exists already".to_owned()));
        }
        self.attachments.push(att);
        Ok(att)
    }

    /// Remove the attachment with the key of `att` and hand it back;
    /// `NotFound` when there is none.
    pub fn attachment_delete(&mut self, att: Attachment) -> (r: Result<Attachment, Error>)
        ensures
            match first_where(old(self).attachments@, same_key(att)) {
                Some(a) => r == Ok::<Attachment, Error>(a)
                    && final(self).attachments@ == old(self).attachments@.filter(other_key(att)),
                None => (r matches Err(e) && e is NotFound) && final(self).attachments == old(self).attachments,
            },
            final(self).parts == old(self).parts,
            final(self).usages == old(self).usages,
            final(self).activities == old(self).activities,
            final(self).services == old(self).services,
            final(self).plans == old(self).plans,
            final(self).next_part_id == old(self).next_part_id,
            final(self).dir == old(self).dir,
    {
        let found = match self.attachment_find_key(&att) {
            Some(a) => a,
            None => return Err(Error::NotFound("attachment not found".to_owned())),
        };
        let ghost pred = other_key(att);
        let ghost orig = self.attachments@;
        let mut kept: Vec<Attachment> = Vec::new();
        let mut i: usize = 0;
        while i < self.attachments.len()
            invariant
                0 <= i <= self.attachments@.len(),
                self.attachments@ == orig,
                pred == other_key(att),
                kept@ == orig.take(i as int).filter(pred),
            decreases self.attachments@.len() - i,
        {
            let a = self.attachments[i];
            let keep: bool = !(a.part_id == att.part_id && a.attached.nanos == att.attached.nanos);
            if keep {
                kept.push(a);
            }
            proof {
                let s1 = orig.take(i + 1);
                assert(s1.drop_last() =~= orig.take(i as int));
                assert(s1.last() == a);
                assert(pred(a) == keep);
                reveal_with_fuel(Seq::filter, 1);
                if keep {
                    assert(s1.filter(pred) =~= orig.take(i as int).filter(pred).push(a));
                } else {
                    assert(s1.filter(pred) =~= orig.take(i as int).filter(pred));
                }
            }
            i = i + 1;
        }
        proof { assert(orig.take(orig.len() as int) =~= orig); }
        self.attachments = kept;
        Ok(found)
    }

    /// All attachments of part `pid`, ordered by the time they were attached.
    pub fn attachments_all_by_part(&self, pid: PartId) -> (r: Result<Vec<Attachment>, Error>)
        ensures
            r matches Ok(v) && v@.to_multiset() == self.attachments@.filter(of_part(pid)).to_multiset()
                && sorted_by_key(v@, att_key(false)),
    {
        let ghost pred = of_part(pid);
        let mut r: Vec<Attachment> = Vec::new();
        let mut i: usize = 0;
        while i < self.attachments.len()
            invariant
                0 <= i <= self.attachments@.len(),
                pred == of_part(pid),
                r@ == self.attachments@.take(i as int).filter(pred),
            decreases self.attachments@.len() - i,
        {
            let a = self.attachments[i];
            let keep: bool = a.part_id == pid;
            if keep {
                r.push(a);
            }
            proof {
                let s1 = self.attachments@.take(i + 1);
                assert(s1.drop_last() =~= self.attachments@.take(i as int));
                assert(s1.last() == a);
                assert(pred(a) == keep);
                reveal_with_fuel(Seq::filter, 1);
                if keep {
                    assert(s1.filter(pred) =~= self.attachments@.take(i as int).filter(pred).push(a));
                } else {
                    assert(s1.filter(pred) =~= self.attachments@.take(i as int).filter(pred));
                }
            }
            i = i + 1;
        }
        proof { assert(self.attachments@.take(self.attachments@.len() as int) =~= self.attachments@); }
        Ok(sort_attachments(r, false))
    }

    /// The attachment of part `pid` in force at `time`, if any.
    pub fn attachment_get_by_part_and_time(&self, pid: PartId, time: Timestamp) -> (r: Result<Option<Attachment>, Error>)
        ensures
            r == Ok::<Option<Attachment>, Error>(first_where(self.attachments@, part_active_at(pid, time))),
    {
        let ghost p = part_active_at(pid, time);
        let mut i: usize = 0;
        while i < self.attachments.len()
            invariant
                0 <= i <= self.attachments@.len(),
                p == part_active_at(pid, time),
                self.attachments@.take(i as int).filter(p).len() == 0,
            decreases self.attachments@.len() - i,
        {
            let a = self.attachments[i];
            if a.part_id == pid && a.attached.nanos <= time.nanos && time.nanos < a.detached.nanos {
                proof { crate::seqs::lemma_first_where_found(self.attachments@, p, i as int); }
                return Ok(Some(a));
            }
            proof { crate::seqs::lemma_no_match_step(self.attachments@, p, i as int); }
            i = i + 1;
        }
        proof { crate::seqs::lemma_first_where_none(self.attachments@, p); }
        Ok(None)
    }

    /// The attachments in force at `time` on `gear` at one of the hooks
    /// `types`, ordered by hook.
    pub fn assembly_get_by_types_time_and_gear(&self, types: &Vec<PartTypeId>, gear: PartId, time: Timestamp)
        -> (r: Result<Vec<Attachment>, Error>)
        ensures
            r matches Ok(v) && v@.to_multiset() == self.attachments@.filter(in_assembly(types@, gear, time)).to_multiset()
                && sorted_by_key(v@, att_key(true)),
    {
        let ghost pred = in_assembly(types@, gear, time);
        let mut r: Vec<Attachment> = Vec::new();
        let mut i: usize = 0;
        while i < self.attachments.len()
            invariant
                0 <= i <= self.attachments@.len(),
                pred == in_assembly(types@, gear, time),
                r@ == self.attachments@.take(i as int).filter(pred),
            decreases self.attachments@.len() - i,
        {
            let a = self.attachments[i];
            let keep: bool = a.gear == gear && a.attached.nanos <= time.nanos && time.nanos < a.detached.nanos
                && crate::types::contains_type(types, a.hook);
            if keep {
                r.push(a);
            }
            proof {
                let s1 = self.attachments@.take(i + 1);
                assert(s1.drop_last() =~= self.attachments@.take(i as int));
                assert(s1.last() == a);
                assert(pred(a) == keep);
                reveal_with_fuel(Seq::filter, 1);
                if keep {
                    assert(s1.filter(pred) =~= self.attachments@.take(i as int).filter(pred).push(a));
                } else {
                    assert(s1.filter(pred) =~= self.attachments@.take(i as int).filter(pred));
                }
            }
            i = i + 1;
        }
        proof { assert(self.attachments@.take(self.attachments@.len() as int) =~= self.attachments@); }
        Ok(sort_attachments(r, true))
    }

    /// The attachment in force at `time` at `hook` of `gear` whose part has type `what`, if any.
    pub fn attachment_find_part_of_type_at_hook_and_time(
        &self,
        what: PartTypeId,
        gear: PartId,
        hook: PartTypeId,
        time: Timestamp,
    ) -> (r: Result<Option<Attachment>, Error>)
        ensures
            r == Ok::<Option<Attachment>, Error>(first_where(self.attachments@, at_hook_of_type(*self, what, gear, hook, time))),
    {
        let ghost p = at_hook_of_type(*self, what, gear, hook, time);
        let mut i: usize = 0;
        while i < self.attachments.len()
            invariant
                0 <= i <= self.attachments@.len(),
                p == at_hook_of_type(*self, what, gear, hook, time),
                self.attachments@.take(i as int).filter(p).len() == 0,
            decreases self.attachments@.len() - i,
        {
            let a = self.attachments[i];
            if a.gear == gear && a.hook == hook && a.attached.nanos <= time.nanos && time.nanos < a.detached.nanos
                && self.part_what(a.part_id) == Some(what) {
                proof { crate::seqs::lemma_first_where_found(self.attachments@, p, i as int); }
                return Ok(Some(a));
            }
            proof { crate::seqs::lemma_no_match_step(self.attachments@, p, i as int); }
            i = i + 1;
        }
        proof { crate::seqs::lemma_first_where_none(self.attachments@, p); }
        Ok(None)
    }

    /// The attachment of part `pid` to `hook` of `gear` that ends exactly at `time`, if any.
    pub fn attachment_find_part_attached_already(
        &self,
        pid: PartId,
        gear: PartId,
        hook: PartTypeId,
        time: Timestamp,
    ) -> (r: Result<Option<Attachment>, Error>)
        ensures
            r == Ok::<Option<Attachment>, Error>(first_where(self.attachments@, ends_at(pid, gear, hook, time))),
    {
        let ghost p = ends_at(pid, gear, hook, time);
        let mut i: usize = 0;
        while i < self.attachments.len()
            invariant
                0 <= i <= self.attachments@.len(),
                p == ends_at(pid, gear, hook, time),
                self.attachments@.take(i as int).filter(p).len() == 0,
            decreases self.attachments@.len() - i,
        {
            let a = self.attachments[i];
            if a.part_id == pid && a.gear == gear && a.hook == hook && a.detached.nanos == time.nanos {
                proof { crate::seqs::lemma_first_where_found(self.attachments@, p, i as int); }
                return Ok(Some(a));
            }
            proof { crate::seqs::lemma_no_match_step(self.attachments@, p, i as int); }
            i = i + 1;
        }
        proof { crate::seqs::lemma_first_where_none(self.attachments@, p); }
        Ok(None)
    }

    /// The earliest attachment of another part of type `what` to `hook` of
    /// `gear` made after `time`, if any.
    pub fn attachment_find_successor(
        &self,
        pid: PartId,
        gear: PartId,
        hook: PartTypeId,
        time: Timestamp,
        what: PartTypeId,
    ) -> (r: Result<Option<Attachment>, Error>)
        ensures
            r == Ok::<Option<Attachment>, Error>(earliest(self.attachments@, successor_of(*self, pid, gear, hook, time, what))),
    {
        let ghost p = successor_of(*self, pid, gear, hook, time, what);
        let mut best: Option<Attachment> = None;
        let mut i: usize = 0;
        while i < self.attachments.len()
            invariant
                0 <= i <= self.attachments@.len(),
                p == successor_of(*self, pid, gear, hook, time, what),
                best == earliest(self.attachments@.take(i as int), p),
            decreases self.attachments@.len() - i,
        {
            let a = self.attachments[i];
            let hit: bool = a.gear == gear && a.hook == hook && a.part_id != pid && a.attached.nanos > time.nanos
                && self.part_what(a.part_id) == Some(what);
            let better: bool = match best {
                Some(b) => a.attached.nanos < b.attached.nanos,
                None => true,
            };
            if hit && better {
                best = Some(a);
            }
            proof {
                let s1 = self.attachments@.take(i + 1);
                assert(s1.drop_last() =~= self.attachments@.take(i as int));
                assert(s1.last() == a);
                assert(p(a) == hit);
            }
            i = i + 1;
        }
        proof { assert(self.attachments@.take(self.attachments@.len() as int) =~= self.attachments@); }
        Ok(best)
    }

    /// The earliest attachment of part `pid` made after `time`, if any.
    pub fn attachment_find_later_attachment_for_part(&self, pid: PartId, time: Timestamp)
        -> (r: Result<Option<Attachment>, Error>)
        ensures
            r == Ok::<Option<Attachment>, Error>(earliest(self.attachments@, later_of_part(pid, time))),
    {
        let ghost p = later_of_part(pid, time);
        let mut best: Option<Attachment> = None;
        let mut i: usize = 0;
        while i < self.attachments.len()
            invariant
                0 <= i <= self.attachments@.len(),
                p == later_of_part(pid, time),
                best == earliest(self.attachments@.take(i as int), p),
            decreases self.attachments@.len() - i,
        {
            let a = self.attachments[i];
            let hit: bool = a.part_id == pid && a.attached.nanos > time.nanos;
            let better: bool = match best {
                Some(b) => a.attached.nanos < b.attached.nanos,
                None => true,
            };
            if hit && better {
                best = Some(a);
            }
            proof {
                let s1 = self.attachments@.take(i + 1);
                assert(s1.drop_last() =~= self.attachments@.take(i as int));
                assert(s1.last() == a);
                assert(p(a) == hit);
            }
            i = i + 1;
        }
        proof { assert(self.attachments@.take(self.attachments@.len() as int) =~= self.attachments@); }
        Ok(best)
    }
}


/// An attachment whose times are representable and that ends after it
/// starts, at the latest at "never".
pub open spec fn interval_ok(a: Attachment) -> bool {
    &&& a.attached.wf() && a.detached.wf()
    &&& a.attached.nanos < a.detached.nanos
    &&& a.detached.nanos <= crate::timestamp::spec_max_time().nanos
}

/// Every attachment of the timeline has a proper interval.
pub open spec fn timeline_ok(atts: Seq<Attachment>) -> bool {
    forall|i: int| 0 <= i < atts.len() ==> interval_ok(#[trigger] atts[i])
}

/// Attachments of other parts than `pid` are in `b` exactly when they are in `a`.
pub open spec fn same_others(a: Seq<Attachment>, b: Seq<Attachment>, pid: PartId) -> bool {
    forall|x: Attachment| x.part_id != pid ==> (#[trigger] a.contains(x) <==> b.contains(x))
}

/// Filtering keeps a proper timeline proper.
pub proof fn lemma_timeline_ok_filter(atts: Seq<Attachment>, p: spec_fn(Attachment) -> bool)
    requires
        timeline_ok(atts),
    ensures
        timeline_ok(atts.filter(p)),
{
    crate::store::lemma_filter_members(atts, p);
    assert forall|i: int| 0 <= i < atts.filter(p).len() implies interval_ok(#[trigger] atts.filter(p)[i]) by {
        let x = atts.filter(p)[i];
        assert(atts.filter(p).contains(x));
        assert(atts.contains(x));
        let k = choose|k: int| 0 <= k < atts.len() && atts[k] == x;
    }
}

/// Appending a proper attachment keeps a proper timeline proper.
pub proof fn lemma_timeline_ok_push(atts: Seq<Attachment>, a: Attachment)
    requires
        timeline_ok(atts),
        interval_ok(a),
    ensures
        timeline_ok(atts.push(a)),
{
    assert forall|i: int| 0 <= i < atts.push(a).len() implies interval_ok(#[trigger] atts.push(a)[i]) by {
        if i < atts.len() {
            assert(atts.push(a)[i] == atts[i]);
        }
    }
}

/// Members of a proper timeline have proper intervals.
pub proof fn lemma_timeline_ok_member(atts: Seq<Attachment>, a: Attachment)
    requires
        timeline_ok(atts),
        atts.contains(a),
    ensures
        interval_ok(a),
{
    let k = choose|k: int| 0 <= k < atts.len() && atts[k] == a;
}

/// Removing the attachments with the key of `att` keeps every other part's attachments.
pub proof fn lemma_same_others_filter(atts: Seq<Attachment>, att: Attachment)
    ensures
        same_others(atts, atts.filter(other_key(att)), att.part_id),
        forall|x: Attachment| #[trigger] atts.filter(other_key(att)).contains(x) ==> atts.contains(x),
{
    crate::store::lemma_filter_members(atts, other_key(att));
}

/// Appending an attachment of `pid` keeps every other part's attachments.
pub proof fn lemma_same_others_push(atts: Seq<Attachment>, a: Attachment)
    ensures
        same_others(atts, atts.push(a), a.part_id),
        atts.push(a).contains(a),
        forall|x: Attachment| #[trigger] atts.contains(x) ==> atts.push(a).contains(x),
{
    assert(atts.push(a)[atts.len() as int] == a);
    assert forall|x: Attachment| #[trigger] atts.push(a).contains(x) <==> (atts.contains(x) || x == a) by {
        crate::store::lemma_contains_last(atts.push(a), x);
        assert(atts.push(a).drop_last() == atts);
    }
}


/// Two attachments do not share an instant.
pub open spec fn apart(a: Attachment, b: Attachment) -> bool {
    a.detached.nanos <= b.attached.nanos || b.detached.nanos <= a.attached.nanos
}

/// A part is attached in only one place at an instant: two different
/// attachments of one part never share an instant.
pub open spec fn one_place(atts: Seq<Attachment>) -> bool {
    &&& atts.no_duplicates()
    &&& forall|a: Attachment, b: Attachment| #[trigger] atts.contains(a) && #[trigger] atts.contains(b)
        && a != b && a.part_id == b.part_id ==> apart(a, b)
}

/// Keeping some of the elements of a sequence without duplicates leaves none.
pub proof fn lemma_no_duplicates_filter<A>(s: Seq<A>, p: spec_fn(A) -> bool)
    requires
        s.no_duplicates(),
    ensures
        s.filter(p).no_duplicates(),
    decreases s.len(),
{
    reveal_with_fuel(Seq::filter, 1);
    if s.len() > 0 {
        let t = s.drop_last();
        assert(t.no_duplicates()) by {
            assert forall|i: int, j: int| 0 <= i < t.len() && 0 <= j < t.len() && i != j implies t[i] != t[j] by {
                assert(t[i] == s[i] && t[j] == s[j]);
            }
        }
        lemma_no_duplicates_filter(t, p);
        crate::store::lemma_filter_members(t, p);
        if p(s.last()) {
            assert(!t.contains(s.last())) by {
                if t.contains(s.last()) {
                    let k = choose|k: int| 0 <= k < t.len() && t[k] == s.last();
                    assert(s[k] == s[s.len() - 1]);
                }
            }
            lemma_no_duplicates_push(t.filter(p), s.last());
        }
    }
}

/// Adding an element not yet present keeps a sequence without duplicates.
pub proof fn lemma_no_duplicates_push<A>(s: Seq<A>, x: A)
    requires
        s.no_duplicates(),
        !s.contains(x),
    ensures
        s.push(x).no_duplicates(),
{
    let t = s.push(x);
    assert forall|i: int, j: int| 0 <= i < t.len() && 0 <= j < t.len() && i != j implies t[i] != t[j] by {
        if i < s.len() && j < s.len() {
            assert(t[i] == s[i] && t[j] == s[j]);
        } else if i < s.len() {
            assert(s.contains(s[i]));
        } else {
            assert(s.contains(s[j]));
        }
    }
}

/// Under `one_place`, at most one attachment of a part is in force at any
/// instant.
pub proof fn lemma_one_place_active(atts: Seq<Attachment>, a: Attachment, b: Attachment, t: Timestamp)
    requires
        one_place(atts),
        atts.contains(a),
        atts.contains(b),
        a.part_id == b.part_id,
        a.active_at(t),
        b.active_at(t),
    ensures
        a == b,
{
}

/// Keeping some of the attachments keeps them apart.
pub proof fn lemma_one_place_filter(atts: Seq<Attachment>, p: spec_fn(Attachment) -> bool)
    requires
        one_place(atts),
    ensures
        one_place(atts.filter(p)),
{
    crate::store::lemma_filter_members(atts, p);
    lemma_no_duplicates_filter(atts, p);
}

/// Adding an attachment apart from every other one of its part keeps the
/// attachments apart.
pub proof fn lemma_one_place_push(atts: Seq<Attachment>, x: Attachment)
    requires
        one_place(atts),
        !atts.contains(x),
        forall|b: Attachment| #[trigger] atts.contains(b) && b != x && b.part_id == x.part_id ==> apart(x, b),
    ensures
        one_place(atts.push(x)),
{
    lemma_no_duplicates_push(atts, x);
    assert forall|y: Attachment| #[trigger] atts.push(x).contains(y) <==> (atts.contains(y) || y == x) by {
        crate::store::lemma_contains_last(atts.push(x), y);
        assert(atts.push(x).drop_last() == atts);
    }
}

/// A part with no attachment in force at `t`: an attachment of it either
/// ends by `t` or starts after it.
pub open spec fn free_at(atts: Seq<Attachment>, pid: PartId, t: Timestamp) -> bool {
    forall|a: Attachment| #[trigger] atts.contains(a) && a.part_id == pid ==> !a.active_at(t)
}

/// `x` shares no instant with the attachments of its part in `atts` made at
/// another time.
pub open spec fn fits_between(atts: Seq<Attachment>, x: Attachment) -> bool {
    forall|b: Attachment| #[trigger] atts.contains(b) && b.part_id == x.part_id
        && b.attached.nanos != x.attached.nanos ==> apart(x, b)
}

/// `a` and `b` hold the same hook of the same gear with two stored parts of
/// one type.
pub open spec fn rivals(store: MemStore, a: Attachment, b: Attachment) -> bool {
    &&& a.gear == b.gear && a.hook == b.hook && a.part_id != b.part_id
    &&& store.has_part(a.part_id) && store.has_part(b.part_id)
    &&& store.part(a.part_id).what == store.part(b.part_id).what
}

/// A hook holds one part of a type at an instant: rival attachments never
/// share an instant.
pub open spec fn one_per_hook(store: MemStore) -> bool {
    forall|a: Attachment, b: Attachment| #[trigger] store.attachments@.contains(a) && #[trigger] store.attachments@.contains(b)
        && rivals(store, a, b) ==> apart(a, b)
}

/// `x` shares no instant with its rivals in `store`.
pub open spec fn hook_fits(store: MemStore, x: Attachment) -> bool {
    forall|b: Attachment| #[trigger] store.attachments@.contains(b) && rivals(store, x, b) ==> apart(x, b)
}

/// No rival of part `pid` holds `hook` of `gear` at `t`.
pub open spec fn hook_free(store: MemStore, pid: PartId, gear: PartId, hook: PartTypeId, t: Timestamp) -> bool {
    forall|b: Attachment| #[trigger] store.attachments@.contains(b) && b.gear == gear && b.hook == hook
        && b.part_id != pid && store.has_part(b.part_id) && store.has_part(pid)
        && store.part(b.part_id).what == store.part(pid).what ==> !b.active_at(t)
}

/// Keeping some attachments, and every part with its type, keeps rivals apart.
pub proof fn lemma_one_per_hook_sub(old: MemStore, new: MemStore)
    requires
        one_per_hook(old),
        crate::attachment::types_kept(old, new),
        forall|x: Attachment| #[trigger] new.attachments@.contains(x) ==> old.attachments@.contains(x),
    ensures
        one_per_hook(new),
{
    assert forall|a: Attachment, b: Attachment| #[trigger] new.attachments@.contains(a) && #[trigger] new.attachments@.contains(b)
        && rivals(new, a, b) implies apart(a, b) by {
        crate::attachment::lemma_types_kept_at(old, new, a.part_id);
        crate::attachment::lemma_types_kept_at(old, new, b.part_id);
        assert(old.attachments@.contains(a) && old.attachments@.contains(b));
    }
}

/// Adding an attachment apart from its rivals keeps rivals apart.
pub proof fn lemma_one_per_hook_push(old: MemStore, new: MemStore, x: Attachment)
    requires
        one_per_hook(old),
        hook_fits(old, x),
        crate::attachment::types_kept(old, new),
        new.attachments@ == old.attachments@.push(x),
    ensures
        one_per_hook(new),
{
    assert forall|y: Attachment| #[trigger] new.attachments@.contains(y) <==> (old.attachments@.contains(y) || y == x) by {
        crate::store::lemma_contains_last(new.attachments@, y);
        assert(new.attachments@.drop_last() == old.attachments@);
    }
    assert forall|a: Attachment, b: Attachment| #[trigger] new.attachments@.contains(a) && #[trigger] new.attachments@.contains(b)
        && rivals(new, a, b) implies apart(a, b) by {
        crate::attachment::lemma_types_kept_at(old, new, a.part_id);
        crate::attachment::lemma_types_kept_at(old, new, b.part_id);
        if a == x {
            assert(old.attachments@.contains(b) || b == x);
        } else if b == x {
            assert(old.attachments@.contains(a));
            assert(rivals(old, x, a));
        }
    }
}
} // verus!
