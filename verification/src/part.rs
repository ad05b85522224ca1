//! Parts: bikes and the spares attached to them.

use vstd::prelude::*;
use crate::timestamp::Timestamp;
use crate::types::PartTypeId;
use crate::usage::UsageId;
use crate::user::UserId;
use crate::shop::ShopId;
use crate::error::Error;
use crate::store::MemStore;
use crate::timestamp::round_time;
use crate::session::Session;
use crate::types::{known_type, main_type};
use vstd::std_specs::iter::IteratorSpec;

verus! {

/// The id of a part.
#[derive(Clone, Copy, Debug, PartialEq, Eq, Structural, Hash, PartialOrd, Ord)]
pub struct PartId(pub i32);

impl From<i32> for PartId {
    fn from(id: i32) -> (r: PartId) {
        PartId(id)
    }
}

impl vstd::std_specs::convert::FromSpecImpl<i32> for PartId {
    open spec fn obeys_from_spec() -> bool {
        true
    }

    open spec fn from_spec(id: i32) -> PartId {
        PartId(id)
    }
}

impl From<PartId> for i32 {
    fn from(id: PartId) -> (r: i32) {
        id.0
    }
}

impl vstd::std_specs::convert::FromSpecImpl<PartId> for i32 {
    open spec fn obeys_from_spec() -> bool {
        true
    }

    open spec fn from_spec(id: PartId) -> i32 {
        id.0
    }
}

/// Whether `p` is owned by `owner` (where given) and registered to `shop`
/// (where given).
pub open spec fn part_selected(p: Part, owner: Option<UserId>, shop: Option<ShopId>) -> bool {
    &&& (owner matches Some(u) ==> p.owner == u)
    &&& (shop matches Some(sh) ==> p.shop == Some(sh))
}

/// `p` registered to `shop` (none when `None`).
pub open spec fn with_shop(p: Part, shop: Option<ShopId>) -> Part {
    Part { shop, ..p }
}

/// The stored parts among `ids` now registered to `shop` and nothing else
/// changed.
pub open spec fn parts_shop_set(old: MemStore, new: MemStore, ids: Seq<PartId>, shop: Option<ShopId>) -> bool {
    &&& new.wf()
    &&& new.parts@.dom() == old.parts@.dom()
    &&& forall|k: i32| #[trigger] new.parts@.contains_key(k) ==>
        new.parts@[k] == (if ids.contains(PartId(k)) { with_shop(old.parts@[k], shop) } else { old.parts@[k] })
    &&& new.usages == old.usages
    &&& new.activities == old.activities
    &&& new.attachments == old.attachments
    &&& new.services == old.services
    &&& new.plans == old.plans
    &&& new.next_part_id == old.next_part_id
    &&& new.dir == old.dir
}

/// The stored parts among `ids`, in their order, registered to `shop`.
pub open spec fn shop_changes(store: MemStore, ids: Seq<PartId>, shop: Option<ShopId>) -> Seq<Part>
    decreases ids.len(),
{
    if ids.len() == 0 {
        Seq::empty()
    } else {
        let rest = shop_changes(store, ids.drop_last(), shop);
        if store.has_part(ids.last()) {
            rest.push(with_shop(store.part(ids.last()), shop))
        } else {
            rest
        }
    }
}

/// The database's representation of a part.
#[derive(Clone, Debug)]
pub struct Part {
    /// The primary key
    pub id: PartId,
    /// The owner
    pub owner: UserId,
    /// The type of the part
    pub what: PartTypeId,
    /// This name of the part.
    pub name: String,
    /// The vendor name
    pub vendor: String,
    /// The model name
    pub model: String,
    /// purchase date
    pub purchase: Timestamp,
    /// last time it was used
    pub last_used: Timestamp,
    /// Was it disposed? If yes, when?
    pub disposed_at: Option<Timestamp>,
    /// the usage tracker
    pub usage: UsageId,
    pub source: Option<String>,
    /// notes about the part
    pub notes: String,
    /// Optional shop for delegated maintenance
    pub shop: Option<ShopId>,
}

impl Part {
    /// The id of the part's usage record.
    pub fn usage(&self) -> (r: UsageId)
        ensures
            r == self.usage,
    {
        self.usage
    }
}

/// The part after an activity or attachment at `start` was accounted to
/// it: `last_used` moves forward and `purchase` back to the rounded start
/// time where it lies beyond them.
pub open spec fn touched(p: Part, start: Timestamp) -> Part {
    let r = crate::timestamp::spec_round(start);
    let p1 = if r.nanos > p.last_used.nanos { Part { last_used: r, ..p } } else { p };
    if r.nanos < p1.purchase.nanos { Part { purchase: r, ..p1 } } else { p1 }
}

/// Accounting a start time to a part moves `last_used` forward to the
/// rounded start when that is later, and `purchase` back to it when that is
/// earlier; everything else stays.
pub proof fn lemma_touched_moves_dates(p: Part, start: Timestamp)
    ensures
        ({
            let r = crate::timestamp::spec_round(start);
            let q = touched(p, start);
            &&& r.nanos > p.last_used.nanos ==> q.last_used == r
            &&& r.nanos <= p.last_used.nanos ==> q.last_used == p.last_used
            &&& r.nanos < p.purchase.nanos ==> q.purchase == r
            &&& r.nanos >= p.purchase.nanos ==> q.purchase == p.purchase
            &&& q.id == p.id && q.owner == p.owner && q.what == p.what && q.name == p.name
            &&& q.vendor == p.vendor && q.model == p.model && q.disposed_at == p.disposed_at
            &&& q.usage == p.usage && q.source == p.source && q.notes == p.notes && q.shop == p.shop
        }),
{
}

impl PartId {
    /// The stored part with this id; `NotFound` when there is none.
    pub fn read(self, store: &MemStore) -> (r: Result<Part, Error>)
        ensures
            match r {
                Ok(p) => store.has_part(self) && p == store.part(self),
                Err(e) => !store.has_part(self) && e is NotFound,
            },
    {
        store.partid_get_part(self)
    }

    /// if start is later than last_used update last_used
    /// (and if it is earlier than the purchase, move the purchase back)
    pub fn update_timestamps(self, start: Timestamp, store: &mut MemStore) -> (r: Result<Part, Error>)
        requires
            old(store).wf(),
            start.wf(),
        ensures
            final(store).wf(),
            match r {
                Ok(p) => old(store).has_part(self) && p == touched(old(store).part(self), start)
                    && final(store).parts@ == old(store).parts@.insert(self.0, p)
                    && (crate::timestamp::spec_round(start).nanos > old(store).part(self).last_used.nanos
                        ==> p.last_used == crate::timestamp::spec_round(start))
                    && (crate::timestamp::spec_round(start).nanos <= old(store).part(self).last_used.nanos
                        ==> p.last_used == old(store).part(self).last_used)
                    && (crate::timestamp::spec_round(start).nanos < old(store).part(self).purchase.nanos
                        ==> p.purchase == crate::timestamp::spec_round(start))
                    && (crate::timestamp::spec_round(start).nanos >= old(store).part(self).purchase.nanos
                        ==> p.purchase == old(store).part(self).purchase),
                Err(e) => !old(store).has_part(self) && e is NotFound
                    && final(store).parts == old(store).parts,
            },
            final(store).usages == old(store).usages,
            final(store).activities == old(store).activities,
            final(store).attachments == old(store).attachments,
            final(store).services == old(store).services,
            final(store).plans == old(store).plans,
            final(store).next_part_id == old(store).next_part_id,
            final(store).dir == old(store).dir,
    {
        let mut part = self.read(store)?;
        let start = round_time(start);
        proof {
            assert(old(store).parts@.insert(self.0, part) =~= old(store).parts@);
        }
        if start.nanos > part.last_used.nanos {
            part.last_used = start;
            part = store.part_update(part)?;
        }
        if start.nanos < part.purchase.nanos {
            part.purchase = start;
            part = store.part_update(part)?;
        }
        proof {
            assert(final(store).parts@ =~= old(store).parts@.insert(self.0, part));
        }
        Ok(part)
    }
}


/// Why a session of `user` acting for `shop` may not read part `pid`:
/// `None` when it may, else the kind of the error (see `Error::kind`). The
/// owner may; so may anyone acting for a shop they own; a part or a shop
/// that is not stored is not found.
pub open spec fn part_denial(store: MemStore, user: UserId, shop: Option<ShopId>, pid: PartId) -> Option<nat> {
    if !store.has_part(pid) {
        Some(0)
    } else if store.part(pid).owner == user {
        None
    } else {
        match shop {
            None => Some(1),
            Some(s) => if !store.has_shop(s) {
                Some(0)
            } else if store.shop(s).owner == user {
                None
            } else {
                Some(1)
            },
        }
    }
}

impl PartId {
    /// get the part with id part
    ///
    /// checks that the session's user owns it, or owns the shop the
    /// session acts for
    pub fn part<S: Session>(self, session: &S, store: &MemStore) -> (r: Result<Part, Error>)
        ensures
            match part_denial(*store, session.session_user(), session.session_shop(), self) {
                None => r == Ok::<Part, Error>(store.part(self)),
                Some(k) => r matches Err(e) && e.kind() == k,
            },
    {
        let part = self.read(store)?;
        let user = session.user_id();
        if part.owner != user {
            match session.shop() {
                Some(shop) => {
                    shop.check_owner(user, store)?;
                },
                None => {
                    return Err(Error::Forbidden("user cannot access part".to_owned()));
                },
            }
        }
        Ok(part)
    }

    /// check if the given user is the owner or an authorized shop owner.
    pub fn checkuser<S: Session>(self, session: &S, store: &MemStore) -> (r: Result<PartId, Error>)
        requires
            store.wf(),
        ensures
            match part_denial(*store, session.session_user(), session.session_shop(), self) {
                None => r == Ok::<PartId, Error>(self),
                Some(k) => r matches Err(e) && e.kind() == k,
            },
    {
        let p = self.part(session, store)?;
        Ok(p.id)
    }

    /// Whether the stored part is of a main type; `NotFound` when the part
    /// is not stored or its type is unknown.
    pub fn is_main(self, store: &MemStore) -> (r: Result<bool, Error>)
        ensures
            r is Ok <==> store.has_part(self) && known_type(store.part(self).what),
            r matches Ok(b) ==> b == main_type(store.part(self).what),
            r matches Err(e) ==> e is NotFound,
    {
        let part = self.read(store)?;
        part.what.is_main()
    }

    /// get the name of the part
    ///
    /// does not check ownership. This is needed for rentals.
    pub fn name(self, store: &MemStore) -> (r: Result<String, Error>)
        ensures
            match r {
                Ok(n) => store.has_part(self) && n == store.part(self).name,
                Err(e) => !store.has_part(self) && e is NotFound,
            },
    {
        Ok(self.read(store)?.name)
    }
}


impl MemStore {
    /// Remove the part with id `pid`; `NotFound` when none is stored.
    pub fn part_delete(&mut self, pid: PartId) -> (r: Result<PartId, Error>)
        requires
            old(self).wf(),
        ensures
            final(self).wf(),
            final(self).parts@ == old(self).parts@.remove(pid.0),
            r is Ok <==> old(self).has_part(pid),
            r matches Ok(x) ==> x == pid,
            r matches Err(e) ==> e is NotFound,
            final(self).usages == old(self).usages,
            final(self).activities == old(self).activities,
            final(self).attachments == old(self).attachments,
            final(self).services == old(self).services,
            final(self).plans == old(self).plans,
            final(self).next_part_id == old(self).next_part_id,
            final(self).dir == old(self).dir,
    {
        match self.parts.remove(&pid.0) {
            Some(_) => Ok(pid),
            None => Err(Error::NotFound("Part not found".to_owned())),
        }
    }

    /// Store a new part with the next part id, last used at its purchase,
    /// not disposed. `AnyFailure` when the part ids are exhausted.
    pub fn part_create(
        &mut self,
        what: PartTypeId,
        name: String,
        vendor: String,
        model: String,
        purchase: Timestamp,
        source: Option<String>,
        notes: String,
        usage: UsageId,
        owner: UserId,
        shop: Option<ShopId>,
    ) -> (r: Result<Part, Error>)
        requires
            old(self).wf(),
        ensures
            final(self).wf(),
            old(self).next_part_id < i32::MAX ==> (r matches Ok(p) && p == (Part {
                id: PartId(old(self).next_part_id),
                owner,
                what,
                name,
                vendor,
                model,
                purchase,
                last_used: purchase,
                disposed_at: None,
                usage,
                source,
                notes,
                shop,
            }) && final(self).parts@ == old(self).parts@.insert(old(self).next_part_id, p)
                && final(self).next_part_id == old(self).next_part_id + 1),
            old(self).next_part_id == i32::MAX ==> (r matches Err(e) && e is AnyFailure) && *final(self) == *old(self),
            final(self).usages == old(self).usages,
            final(self).activities == old(self).activities,
            final(self).attachments == old(self).attachments,
            final(self).services == old(self).services,
            final(self).plans == old(self).plans,
            final(self).dir == old(self).dir,
    {
        if self.next_part_id == i32::MAX {
            return Err(Error::AnyFailure("part ids exhausted".to_owned()));
        }
        let id = PartId(self.next_part_id);
        self.next_part_id = self.next_part_id + 1;
        let part = Part {
            id,
            owner,
            what,
            name,
            vendor,
            model,
            purchase,
            last_used: purchase,
            disposed_at: None,
            usage,
            source,
            notes,
            shop,
        };
        let copy = part.duplicate();
        self.parts.insert(id.0, part);
        Ok(copy)
    }

    /// The parts of `uid`, in no particular order.
    pub fn part_get_all_for_userid(&self, uid: &UserId) -> (r: Result<Vec<Part>, Error>)
        ensures
            r matches Ok(v) && (forall|p: Part| #[trigger] v@.contains(p) <==>
                (self.parts@.values().contains(p) && p.owner == *uid)),
    {
        Ok(self.parts_selected(Some(*uid), None))
    }

    /// The parts registered to `shop`, in no particular order.
    pub fn shop_get_parts(&self, shop: ShopId) -> (r: Result<Vec<Part>, Error>)
        ensures
            r matches Ok(v) && (forall|p: Part| #[trigger] v@.contains(p) <==>
                (self.parts@.values().contains(p) && p.shop == Some(shop))),
    {
        Ok(self.parts_selected(None, Some(shop)))
    }

    /// Register the stored parts among `ids` to `shop`; the parts so
    /// registered, in the order of `ids` (ids not stored are skipped).
    pub fn parts_register_shop(&mut self, shop: ShopId, ids: Vec<PartId>) -> (r: Result<Vec<Part>, Error>)
        requires
            old(self).wf(),
        ensures
            parts_shop_set(*old(self), *final(self), ids@, Some(shop)),
            r matches Ok(v) && v@ == shop_changes(*old(self), ids@, Some(shop)),
    {
        Ok(self.parts_set_shop(&ids, Some(shop)))
    }

    /// Take the stored parts among `ids` out of their shop; those parts, in
    /// the order of `ids` (ids not stored are skipped).
    pub fn parts_unregister_shop(&mut self, ids: Vec<PartId>) -> (r: Result<Vec<Part>, Error>)
        requires
            old(self).wf(),
        ensures
            parts_shop_set(*old(self), *final(self), ids@, None),
            r matches Ok(v) && v@ == shop_changes(*old(self), ids@, None),
    {
        Ok(self.parts_set_shop(&ids, None))
    }

    fn parts_set_shop(&mut self, ids: &Vec<PartId>, shop: Option<ShopId>) -> (r: Vec<Part>)
        requires
            old(self).wf(),
        ensures
            parts_shop_set(*old(self), *final(self), ids@, shop),
            r@ == shop_changes(*old(self), ids@, shop),
    {
        let ghost s0 = *self;
        let mut r: Vec<Part> = Vec::new();
        let mut i: usize = 0;
        while i < ids.len()
            invariant
                0 <= i <= ids@.len(),
                s0 == *old(self),
                s0.wf(),
                parts_shop_set(s0, *self, ids@.take(i as int), shop),
                r@ == shop_changes(s0, ids@.take(i as int), shop),
            decreases ids@.len() - i,
        {
            let pid = ids[i];
            let ghost before = *self;
            proof {
                assert(ids@.take(i + 1) =~= ids@.take(i as int).push(pid));
                assert(ids@.take(i + 1).drop_last() =~= ids@.take(i as int));
            }
            let found = match self.parts.get(&pid.0) {
                Some(p) => {
                    let mut q = p.duplicate();
                    q.shop = shop;
                    Some(q)
                },
                None => None,
            };
            match found {
                Some(q) => {
                    proof {
                        assert(self.parts@.contains_key(pid.0));
                        assert(s0.parts@.contains_key(pid.0));
                        assert(q.id.0 == pid.0);
                    }
                    let copy = q.duplicate();
                    self.parts.insert(pid.0, q);
                    r.push(copy);
                    proof {
                        assert(s0.has_part(pid));
                        assert(self.parts@.dom() =~= s0.parts@.dom());
                        assert(self.wf());
                        assert forall|k: i32| #[trigger] self.parts@.contains_key(k) implies
                            self.parts@[k] == (if ids@.take(i + 1).contains(PartId(k)) {
                                with_shop(s0.parts@[k], shop)
                            } else {
                                s0.parts@[k]
                            }) by {
                            if k != pid.0 {
                                assert(ids@.take(i + 1).contains(PartId(k)) == ids@.take(i as int).contains(PartId(k)));
                            } else {
                                assert(ids@.take(i + 1)[i as int] == PartId(k));
                                if ids@.take(i as int).contains(PartId(k)) {
                                    assert(before.parts@[k] == with_shop(s0.parts@[k], shop));
                                }
                            }
                        }
                    }
                },
                None => {
                    proof {
                        assert(!s0.has_part(pid));
                        assert forall|k: i32| #[trigger] self.parts@.contains_key(k) implies
                            self.parts@[k] == (if ids@.take(i + 1).contains(PartId(k)) {
                                with_shop(s0.parts@[k], shop)
                            } else {
                                s0.parts@[k]
                            }) by {
                            assert(k != pid.0);
                            assert(ids@.take(i + 1).contains(PartId(k)) == ids@.take(i as int).contains(PartId(k)));
                        }
                    }
                },
            }
            i = i + 1;
        }
        proof { assert(ids@.take(ids@.len() as int) =~= ids@); }
        r
    }

    /// The stored parts owned by `owner` (where given) and registered to
    /// `shop` (where given), in no particular order.
    fn parts_selected(&self, owner: Option<UserId>, shop: Option<ShopId>) -> (r: Vec<Part>)
        ensures
            forall|p: Part| #[trigger] r@.contains(p) <==>
                (self.parts@.values().contains(p) && part_selected(p, owner, shop)),
    {
        broadcast use vstd::std_specs::hash::group_hash_axioms;
        let mut r: Vec<Part> = Vec::new();
        let ghost all = self.parts@.values();
        let ghost vals = vstd::std_specs::hash::spec_values_iter(&self.parts).remaining();
        proof {
            assert(vals.unref().to_set() == all);
        }
        for p in it: self.parts.values()
            invariant
                all == self.parts@.values(),
                vals == vstd::std_specs::hash::spec_values_iter(&self.parts).remaining(),
                it.seq() == vals,
                vals.unref().to_set() == all,
                forall|x: Part| #[trigger] r@.contains(x) <==>
                    (exists|k: int| 0 <= k < it.index() && *vals[k] == x) && part_selected(x, owner, shop),
        {
            let ghost before = r@;
            proof {
                assert(*vals[it.index()] == *p);
            }
            let owner_ok: bool = match owner { Some(u) => p.owner == u, None => true };
            let shop_ok: bool = match shop { Some(sh) => match p.shop { Some(ps) => ps == sh, None => false }, None => true };
            if owner_ok && shop_ok {
                r.push(p.duplicate());
            }
            proof {
                assert forall|x: Part| #[trigger] r@.contains(x) <==>
                    (exists|k: int| 0 <= k < it.index() + 1 && *vals[k] == x) && part_selected(x, owner, shop) by {
                    if r@.len() > 0 {
                        crate::store::lemma_contains_last(r@, x);
                    }
                    if exists|k: int| 0 <= k < it.index() + 1 && *vals[k] == x {
                        let k = choose|k: int| 0 <= k < it.index() + 1 && *vals[k] == x;
                        if k < it.index() {
                            assert(exists|k2: int| 0 <= k2 < it.index() && *vals[k2] == x);
                        }
                    }
                    if r@.len() > before.len() {
                        assert(r@.drop_last() == before);
                    } else {
                        assert(r@ == before);
                    }
                }
            }
        }
        proof {
            assert forall|x: Part| #[trigger] all.contains(x) implies (exists|k: int| 0 <= k < vals.len() && *vals[k] == x) by {
                assert(vals.unref().to_set().contains(x));
                assert(vals.unref().contains(x));
                let k = choose|k: int| 0 <= k < vals.unref().len() && vals.unref()[k] == x;
            }
            assert forall|x: Part| (exists|k: int| 0 <= k < vals.len() && *vals[k] == x) implies #[trigger] all.contains(x) by {
                let k = choose|k: int| 0 <= k < vals.len() && *vals[k] == x;
                assert(vals.unref()[k] == x);
                assert(vals.unref().contains(x));
                assert(vals.unref().to_set().contains(x));
            }
        }
        r
    }
}

impl PartId {
    /// Mark the part disposed at `time`; `BadRequest` when it is disposed already.
    pub fn dispose(&self, time: Timestamp, store: &mut MemStore) -> (r: Result<Part, Error>)
        requires
            old(store).wf(),
        ensures
            final(store).wf(),
            !old(store).has_part(*self) ==> (r matches Err(e) && e is NotFound) && *final(store) == *old(store),
            old(store).has_part(*self) && old(store).part(*self).disposed_at is Some ==>
                (r matches Err(e) && e is BadRequest) && *final(store) == *old(store),
            old(store).has_part(*self) && old(store).part(*self).disposed_at is None ==>
                r == Ok::<Part, Error>(Part { disposed_at: Some(time), ..old(store).part(*self) })
                && final(store).parts@ == old(store).parts@.insert(self.0, Part { disposed_at: Some(time), ..old(store).part(*self) }),
            final(store).usages == old(store).usages,
            final(store).activities == old(store).activities,
            final(store).attachments == old(store).attachments,
            final(store).services == old(store).services,
            final(store).plans == old(store).plans,
            final(store).next_part_id == old(store).next_part_id,
            final(store).dir == old(store).dir,
    {
        let mut part = self.read(store)?;
        if part.disposed_at.is_some() {
            return Err(Error::BadRequest("part already disposed".to_owned()));
        }
        part.disposed_at = Some(time);
        store.part_update(part)
    }

    /// Mark the part not disposed.
    pub fn restore(&self, store: &mut MemStore) -> (r: Result<Part, Error>)
        requires
            old(store).wf(),
        ensures
            final(store).wf(),
            !old(store).has_part(*self) ==> (r matches Err(e) && e is NotFound) && *final(store) == *old(store),
            old(store).has_part(*self) ==>
                r == Ok::<Part, Error>(Part { disposed_at: None, ..old(store).part(*self) })
                && final(store).parts@ == old(store).parts@.insert(self.0, Part { disposed_at: None, ..old(store).part(*self) }),
            final(store).usages == old(store).usages,
            final(store).activities == old(store).activities,
            final(store).attachments == old(store).attachments,
            final(store).services == old(store).services,
            final(store).plans == old(store).plans,
            final(store).next_part_id == old(store).next_part_id,
            final(store).dir == old(store).dir,
    {
        let mut part = self.read(store)?;
        part.disposed_at = None;
        store.part_update(part)
    }

    /// Change the descriptive fields of the part; the purchase date is
    /// rounded down to the quarter hour.
    ///
    /// checks authorization
    pub fn change<S: Session>(
        self,
        name: String,
        vendor: String,
        model: String,
        purchase: Timestamp,
        notes: String,
        user: &S,
        store: &mut MemStore,
    ) -> (r: Result<Part, Error>)
        requires
            old(store).wf(),
            purchase.wf(),
        ensures
            final(store).wf(),
            match part_denial(*old(store), user.session_user(), user.session_shop(), self) {
                Some(k) => (r matches Err(e) && e.kind() == k) && *final(store) == *old(store),
                None => {
                    let p = Part {
                        name,
                        vendor,
                        model,
                        purchase: crate::timestamp::spec_round(purchase),
                        notes,
                        ..old(store).part(self)
                    };
                    &&& r == Ok::<Part, Error>(p)
                    &&& final(store).parts@ == old(store).parts@.insert(self.0, p)
                },
            },
            final(store).usages == old(store).usages,
            final(store).activities == old(store).activities,
            final(store).attachments == old(store).attachments,
            final(store).services == old(store).services,
            final(store).plans == old(store).plans,
            final(store).next_part_id == old(store).next_part_id,
            final(store).dir == old(store).dir,
    {
        let part = self.part(user, store)?;
        let purchase = round_time(purchase);
        let changed = Part { name, vendor, model, purchase, notes, ..part };
        store.part_update(changed)
    }

    /// Give the part the owner and the shop of `gear`.
    pub fn set_owner_and_shop(&self, gear: PartId, store: &mut MemStore) -> (r: Result<Part, Error>)
        requires
            old(store).wf(),
        ensures
            final(store).wf(),
            !old(store).has_part(*self) || !old(store).has_part(gear) ==>
                (r matches Err(e) && e is NotFound) && *final(store) == *old(store),
            old(store).has_part(*self) && old(store).has_part(gear) ==> {
                let p = Part { owner: old(store).part(gear).owner, shop: old(store).part(gear).shop, ..old(store).part(*self) };
                &&& r == Ok::<Part, Error>(p)
                &&& final(store).parts@ == old(store).parts@.insert(self.0, p)
            },
            final(store).usages == old(store).usages,
            final(store).activities == old(store).activities,
            final(store).attachments == old(store).attachments,
            final(store).services == old(store).services,
            final(store).plans == old(store).plans,
            final(store).next_part_id == old(store).next_part_id,
            final(store).dir == old(store).dir,
    {
        let mut part = self.read(store)?;
        let g = gear.read(store)?;
        if part.owner != g.owner || part.shop != g.shop {
            part.owner = g.owner;
            part.shop = g.shop;
            return store.part_update(part);
        }
        proof {
            assert(store.parts@.insert(self.0, part) =~= store.parts@);
        }
        Ok(part)
    }
}

impl Part {
    /// Create a new part of the session's user (and the shop it acts
    /// for), purchased at `purchase` rounded down to the quarter hour, with
    /// a fresh usage record.
    pub fn create<S: Session>(
        name: String,
        vendor: String,
        model: String,
        what: PartTypeId,
        source: Option<String>,
        purchase: Timestamp,
        notes: String,
        user: &S,
        store: &mut MemStore,
    ) -> (r: Result<Part, Error>)
        requires
            old(store).wf(),
            purchase.wf(),
        ensures
            final(store).wf(),
            old(store).next_part_id < i32::MAX ==> (r matches Ok(p) && p == (Part {
                id: PartId(old(store).next_part_id),
                owner: user.session_user(),
                what,
                name,
                vendor,
                model,
                purchase: crate::timestamp::spec_round(purchase),
                last_used: crate::timestamp::spec_round(purchase),
                disposed_at: None,
                usage: p.usage,
                source,
                notes,
                shop: user.session_shop(),
            }) && p.usage.0 != 0 && final(store).parts@ == old(store).parts@.insert(old(store).next_part_id, p)
                && final(store).next_part_id == old(store).next_part_id + 1),
            old(store).next_part_id == i32::MAX ==> (r matches Err(e) && e is AnyFailure) && *final(store) == *old(store),
            final(store).usages == old(store).usages,
            final(store).activities == old(store).activities,
            final(store).attachments == old(store).attachments,
            final(store).services == old(store).services,
            final(store).plans == old(store).plans,
            final(store).dir == old(store).dir,
    {
        let purchase = round_time(purchase);
        let uid = user.user_id();
        let shop = user.shop();
        store.part_create(what, name, vendor, model, purchase, source, notes, UsageId::new(), uid, shop)
    }
}


impl Part {
    /// The parts of `uid`, in no particular order.
    pub fn get_all(uid: &UserId, store: &MemStore) -> (r: Result<Vec<Part>, Error>)
        ensures
            r matches Ok(v) && (forall|p: Part| #[trigger] v@.contains(p) <==>
                (store.parts@.values().contains(p) && p.owner == *uid)),
    {
        store.part_get_all_for_userid(uid)
    }

    /// The main types (gear types) of the parts of the session's user, each
    /// once; `NotFound` when one of the parts has a type the catalogue does
    /// not know.
    pub fn categories<S: Session>(user: &S, store: &MemStore) -> (r: Result<Vec<PartTypeId>, Error>)
        ensures
            (forall|p: Part| #[trigger] store.parts@.values().contains(p) && p.owner == user.session_user()
                ==> known_type(p.what)) ==> (r matches Ok(v) && v@.no_duplicates()
                && forall|t: PartTypeId| #[trigger] v@.contains(t) <==> (main_type(t) && exists|p: Part|
                    #[trigger] store.parts@.values().contains(p) && p.owner == user.session_user() && p.what == t)),
            r matches Err(e) ==> e is NotFound && exists|p: Part| #[trigger] store.parts@.values().contains(p)
                && p.owner == user.session_user() && !known_type(p.what),
    {
        let uid = user.user_id();
        let parts = store.part_get_all_for_userid(&uid)?;
        let mut res: Vec<PartTypeId> = Vec::new();
        let mut i: usize = 0;
        while i < parts.len()
            invariant
                0 <= i <= parts@.len(),
                uid == user.session_user(),
                forall|p: Part| #[trigger] parts@.contains(p) <==> (store.parts@.values().contains(p) && p.owner == uid),
                res@.no_duplicates(),
                forall|t: PartTypeId| #[trigger] res@.contains(t) <==> (main_type(t) && exists|k: int|
                    0 <= k < i && #[trigger] parts@[k].what == t),
            decreases parts@.len() - i,
        {
            let p = &parts[i];
            proof { assert(parts@.contains(parts@[i as int])); }
            let main = p.what.is_main()?;
            let ghost before = res@;
            let pushed: bool = main && !crate::types::contains_type(&res, p.what);
            if pushed {
                res.push(p.what);
            }
            proof {
                assert(parts@[i as int].what == p.what);
                assert(main == main_type(p.what));
                assert forall|t: PartTypeId| #[trigger] res@.contains(t) <==> (before.contains(t) || (pushed && t == p.what)) by {
                    if pushed {
                        crate::store::lemma_contains_last(res@, t);
                        assert(res@.drop_last() == before);
                    }
                }
                assert forall|t: PartTypeId| #[trigger] res@.contains(t) <==> (main_type(t) && exists|k: int|
                    0 <= k < i + 1 && #[trigger] parts@[k].what == t) by {
                    if exists|k: int| 0 <= k < i + 1 && #[trigger] parts@[k].what == t {
                        let k = choose|k: int| 0 <= k < i + 1 && #[trigger] parts@[k].what == t;
                        if k < i {
                            assert(exists|k2: int| 0 <= k2 < i && #[trigger] parts@[k2].what == t);
                        }
                    }
                    if t == p.what && main_type(t) {
                        assert(exists|k: int| 0 <= k < i + 1 && #[trigger] parts@[k].what == t) by {
                            assert(parts@[i as int].what == t);
                        }
                    }
                }
                if pushed {
                    assert(res@.no_duplicates()) by {
                        assert forall|a: int, b: int| 0 <= a < b < res@.len() implies res@[a] != res@[b] by {
                            if b == res@.len() - 1 {
                                assert(before.contains(before[a]));
                            }
                        }
                    }
                }
            }
            i = i + 1;
        }
        proof {
            assert forall|t: PartTypeId| #[trigger] res@.contains(t) <==> (main_type(t) && exists|p: Part|
                #[trigger] store.parts@.values().contains(p) && p.owner == uid && p.what == t) by {
                if exists|p: Part| #[trigger] store.parts@.values().contains(p) && p.owner == uid && p.what == t {
                    let p = choose|p: Part| #[trigger] store.parts@.values().contains(p) && p.owner == uid && p.what == t;
                    assert(parts@.contains(p));
                    let k = choose|k: int| 0 <= k < parts@.len() && parts@[k] == p;
                    assert(parts@[k].what == t);
                }
                if exists|k: int| 0 <= k < parts@.len() && #[trigger] parts@[k].what == t {
                    let k = choose|k: int| 0 <= k < parts@.len() && #[trigger] parts@[k].what == t;
                    assert(parts@.contains(parts@[k]));
                }
            }
        }
        Ok(res)
    }
}

impl PartId {
    /// Delete the part; `Conflict` while it is still attached somewhere,
    /// has services logged or service plans.
    ///
    /// checks authorization
    pub fn delete<S: Session>(self, user: &S, store: &mut MemStore) -> (r: Result<PartId, Error>)
        requires
            old(store).wf(),
        ensures
            final(store).wf(),
            final(store).usages == old(store).usages,
            final(store).activities == old(store).activities,
            final(store).attachments == old(store).attachments,
            final(store).services == old(store).services,
            final(store).plans == old(store).plans,
            final(store).next_part_id == old(store).next_part_id,
            final(store).dir == old(store).dir,
            match part_denial(*old(store), user.session_user(), user.session_shop(), self) {
                Some(k) => (r matches Err(e) && e.kind() == k) && *final(store) == *old(store),
                None => if old(store).attachments@.filter(crate::timeline::of_part(self)).len() > 0
                    || old(store).services@.filter(crate::service::of_service_part(self)).len() > 0
                    || old(store).plans@.filter(crate::serviceplan::for_part_plan(self)).len() > 0 {
                    (r matches Err(e) && e is Conflict) && *final(store) == *old(store)
                } else {
                    r == Ok::<PartId, Error>(self) && final(store).parts@ == old(store).parts@.remove(self.0)
                },
            },
    {
        self.checkuser(user, store)?;
        let (attachments, _u) = crate::attachment::Attachment::for_part_with_usage(self, store)?;
        proof {
            let f = store.attachments@.filter(crate::timeline::of_part(self));
            let atts = choose|atts: Seq<crate::attachment::Attachment>|
                #[trigger] crate::attachment::attachments_in_order(*store, self, atts) && attachments@.len() == atts.len();
            atts.to_multiset_ensures();
            f.to_multiset_ensures();
            assert(attachments@.len() == f.len());
        }
        if attachments.len() > 0 {
            return Err(Error::Conflict("Part is still attached".to_owned()));
        }
        let (services, _v) = crate::service::Service::for_part_with_usage(self, store)?;
        proof {
            assert(crate::service::service_views(services@).len() == services@.len());
            assert(crate::service::service_views(store.services@.filter(crate::service::of_service_part(self))).len()
                == store.services@.filter(crate::service::of_service_part(self)).len());
        }
        if services.len() > 0 {
            return Err(Error::Conflict("Part has services logged".to_owned()));
        }
        let plans = crate::serviceplan::ServicePlan::for_part(self, store)?;
        if plans.len() > 0 {
            return Err(Error::Conflict("Part has active serviceplan".to_owned()));
        }
        store.part_delete(self)
    }
}

} // verus!
