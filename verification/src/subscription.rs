//! Subscriptions of users to shops: requested, then approved, rejected or cancelled.

use vstd::prelude::*;
use crate::timestamp::Timestamp;
use crate::shop::{Shop, ShopId};
use crate::user::UserId;
use crate::error::Error;
use crate::store::{MemStore, copy_opt_string};
use crate::seqs::{first_where, first_index};
use crate::timestamp::now_utc;
use crate::text::append_text;

verus! {

/// Subscription status
#[derive(Clone, Copy, Debug, PartialEq, Eq, Structural)]
pub enum SubscriptionStatus {
    Pending,
    Active,
    Rejected,
    Cancelled,
}

impl SubscriptionStatus {
    /// The lower-case name of the status.
    pub fn to_string(&self) -> (r: String)
        ensures
            r@ == status_name(*self),
    {
        match self {
            SubscriptionStatus::Pending => "pending".to_owned(),
            SubscriptionStatus::Active => "active".to_owned(),
            SubscriptionStatus::Rejected => "rejected".to_owned(),
            SubscriptionStatus::Cancelled => "cancelled".to_owned(),
        }
    }
}

/// The lower-case name of a status.
pub open spec fn status_name(s: SubscriptionStatus) -> Seq<char> {
    match s {
        SubscriptionStatus::Pending => "pending"@,
        SubscriptionStatus::Active => "active"@,
        SubscriptionStatus::Rejected => "rejected"@,
        SubscriptionStatus::Cancelled => "cancelled"@,
    }
}

/// The id of a subscription.
#[derive(Clone, Copy, Debug, PartialEq, Eq, Structural, Hash)]
pub struct SubscriptionId(pub i32);

impl From<i32> for SubscriptionId {
    fn from(id: i32) -> (r: SubscriptionId) {
        SubscriptionId(id)
    }
}

impl vstd::std_specs::convert::FromSpecImpl<i32> for SubscriptionId {
    open spec fn obeys_from_spec() -> bool {
        true
    }

    open spec fn from_spec(id: i32) -> SubscriptionId {
        SubscriptionId(id)
    }
}

/// A subscription to a shop, allowing a user to register their bikes
#[derive(Clone, Debug)]
pub struct ShopSubscription {
    pub id: SubscriptionId,
    pub shop_id: ShopId,
    pub user_id: UserId,
    pub status: SubscriptionStatus,
    pub message: Option<String>,
    pub response_message: Option<String>,
    pub created_at: Timestamp,
    pub updated_at: Timestamp,
}

/// A subscription with shop details for API responses
#[derive(Clone, Debug)]
pub struct ShopSubscriptionWithDetails {
    pub id: SubscriptionId,
    pub shop_id: ShopId,
    pub user_id: UserId,
    pub status: SubscriptionStatus,
    pub message: Option<String>,
    pub response_message: Option<String>,
    pub created_at: Timestamp,
    pub updated_at: Timestamp,
    pub shop: Shop,
}

impl ShopSubscription {
    /// The subscription together with its shop.
    pub fn add_shop(self, shop: Shop) -> (r: ShopSubscriptionWithDetails)
        ensures
            r == (ShopSubscriptionWithDetails {
                id: self.id,
                shop_id: self.shop_id,
                user_id: self.user_id,
                status: self.status,
                message: self.message,
                response_message: self.response_message,
                created_at: self.created_at,
                updated_at: self.updated_at,
                shop,
            }),
    {
        ShopSubscriptionWithDetails {
            id: self.id,
            shop_id: self.shop_id,
            user_id: self.user_id,
            status: self.status,
            message: self.message,
            response_message: self.response_message,
            created_at: self.created_at,
            updated_at: self.updated_at,
            shop,
        }
    }
}


impl ShopSubscription {
    /// A copy of the subscription.
    pub fn duplicate(&self) -> (r: ShopSubscription)
        ensures
            r == *self,
    {
        ShopSubscription {
            id: self.id,
            shop_id: self.shop_id,
            user_id: self.user_id,
            status: self.status,
            message: copy_opt_string(&self.message),
            response_message: copy_opt_string(&self.response_message),
            created_at: self.created_at,
            updated_at: self.updated_at,
        }
    }
}

/// Subscriptions with id `id`.
pub open spec fn with_sub_id(id: SubscriptionId) -> spec_fn(ShopSubscription) -> bool {
    |s: ShopSubscription| s.id == id
}

/// Subscriptions of `user` to `shop` in status `status`.
pub open spec fn in_status(shop: ShopId, user: UserId, status: SubscriptionStatus) -> spec_fn(ShopSubscription) -> bool {
    |s: ShopSubscription| s.shop_id == shop && s.user_id == user && s.status == status
}

/// Subscriptions to `shop`.
pub open spec fn of_shop(shop: ShopId) -> spec_fn(ShopSubscription) -> bool {
    |s: ShopSubscription| s.shop_id == shop
}

/// Subscriptions of `user`.
pub open spec fn of_user(user: UserId) -> spec_fn(ShopSubscription) -> bool {
    |s: ShopSubscription| s.user_id == user
}

/// The key by which subscriptions are listed: newest first.
pub open spec fn newest_first(s: ShopSubscription) -> int {
    -(s.created_at.nanos as int)
}

/// The subscriptions of `v`, newest first; those created at the same
/// instant keep their order.
fn sort_newest_first(v: Vec<ShopSubscription>) -> (r: Vec<ShopSubscription>)
    ensures
        r@.to_multiset() == v@.to_multiset(),
        crate::seqs::sorted_by_key(r@, |s: ShopSubscription| newest_first(s)),
{
    broadcast use vstd::seq_lib::to_multiset_insert, vstd::seq_lib::to_multiset_build;
    let ghost key = |s: ShopSubscription| newest_first(s);
    let mut out: Vec<ShopSubscription> = Vec::new();
    let mut rest = v;
    let ghost orig = rest@;
    proof { assert(orig.take(0) =~= out@); }
    let mut i: usize = 0;
    let n: usize = rest.len();
    while i < n
        invariant
            0 <= i <= n,
            n == orig.len(),
            rest@ == orig.skip(i as int),
            key == (|s: ShopSubscription| newest_first(s)),
            out@.to_multiset() == orig.take(i as int).to_multiset(),
            crate::seqs::sorted_by_key(out@, key),
        decreases n - i,
    {
        let x = rest.remove(0);
        proof { assert(x == orig[i as int]); }
        let mut k: usize = 0;
        while k < out.len() && out[k].created_at.nanos >= x.created_at.nanos
            invariant
                0 <= k <= out@.len(),
                key == (|s: ShopSubscription| newest_first(s)),
                forall|q: int| 0 <= q < k ==> key(#[trigger] out@[q]) <= key(x),
            decreases out@.len() - k,
        {
            k = k + 1;
        }
        let ghost before = out@;
        out.insert(k, x);
        proof {
            assert(out@ == before.insert(k as int, x));
            assert(orig.take(i + 1) =~= orig.take(i as int).push(x));
            vstd::seq_lib::to_multiset_insert(before, k as int, x);
            vstd::seq_lib::to_multiset_build(orig.take(i as int), x);
            assert forall|a: int, b: int| 0 <= a <= b < out@.len() implies key(out@[a]) <= key(out@[b]) by {
                if k < before.len() {
                    assert(key(before[k as int]) > key(x));
                }
                if a < k && b == k {
                } else if a == k && b > k {
                    assert(out@[b] == before[b - 1]);
                    assert(key(before[k as int]) <= key(before[b - 1]));
                } else if a < k && b > k {
                    assert(out@[b] == before[b - 1]);
                } else if a > k {
                    assert(out@[a] == before[a - 1]);
                    assert(out@[b] == before[b - 1]);
                }
            }
            assert(rest@ =~= orig.skip(i + 1));
        }
        i = i + 1;
    }
    proof { assert(orig.take(orig.len() as int) =~= orig); }
    out
}

/// The subscriptions of `subs` passing the filter `(shop, user)` (one of
/// them given), copied, in order.
fn subs_where(subs: &Vec<ShopSubscription>, shop: Option<ShopId>, user: Option<UserId>) -> (r: Vec<ShopSubscription>)
    requires
        shop is Some || user is Some,
    ensures
        shop matches Some(x) ==> r@ == subs@.filter(of_shop(x)),
        shop is None ==> (user matches Some(u) && r@ == subs@.filter(of_user(u))),
{
    let ghost pred = match shop {
        Some(x) => of_shop(x),
        None => of_user(user.unwrap()),
    };
    let mut r: Vec<ShopSubscription> = Vec::new();
    let mut i: usize = 0;
    while i < subs.len()
        invariant
            0 <= i <= subs@.len(),
            shop is Some || user is Some,
            pred == match shop {
                Some(x) => of_shop(x),
                None => of_user(user.unwrap()),
            },
            r@ == subs@.take(i as int).filter(pred),
        decreases subs@.len() - i,
    {
        let x = &subs[i];
        let keep: bool = match shop {
            Some(sh) => x.shop_id == sh,
            None => Some(x.user_id) == user,
        };
        if keep {
            r.push(x.duplicate());
        }
        proof {
            let s1 = subs@.take(i + 1);
            assert(s1.drop_last() =~= subs@.take(i as int));
            assert(s1.last() == *x);
            assert(pred(*x) == keep);
            reveal_with_fuel(Seq::filter, 1);
            if keep {
                assert(s1.filter(pred) =~= subs@.take(i as int).filter(pred).push(*x));
            } else {
                assert(s1.filter(pred) =~= subs@.take(i as int).filter(pred));
            }
        }
        i = i + 1;
    }
    proof { assert(subs@.take(subs@.len() as int) =~= subs@); }
    r
}

/// Everything but the subscriptions (and the next subscription id) stays.
pub open spec fn subs_frame(old: MemStore, new: MemStore) -> bool {
    &&& new.wf()
    &&& new.parts == old.parts
    &&& new.usages == old.usages
    &&& new.activities == old.activities
    &&& new.attachments == old.attachments
    &&& new.services == old.services
    &&& new.plans == old.plans
    &&& new.next_part_id == old.next_part_id
    &&& new.dir.users == old.dir.users
    &&& new.dir.shops == old.dir.shops
    &&& new.dir.next_user_id == old.dir.next_user_id
    &&& new.dir.next_shop_id == old.dir.next_shop_id
}

impl MemStore {
    /// The first subscription with id `id` that satisfies the query, if any
    /// (`kind` 0: by id; 1: active of `user` to `shop`; 2: pending of them).
    fn subscription_find(&self, id: SubscriptionId, shop: ShopId, user: UserId, kind: u8) -> (r: Option<ShopSubscription>)
        requires
            kind <= 2,
        ensures
            r == first_where(self.dir.subscriptions@, if kind == 0 { with_sub_id(id) } else if kind == 1 {
                in_status(shop, user, SubscriptionStatus::Active)
            } else {
                in_status(shop, user, SubscriptionStatus::Pending)
            }),
    {
        let ghost p = if kind == 0 { with_sub_id(id) } else if kind == 1 {
            in_status(shop, user, SubscriptionStatus::Active)
        } else {
            in_status(shop, user, SubscriptionStatus::Pending)
        };
        let subs = &self.dir.subscriptions;
        let mut i: usize = 0;
        while i < subs.len()
            invariant
                0 <= i <= subs@.len(),
                subs@ == self.dir.subscriptions@,
                kind <= 2,
                p == if kind == 0 { with_sub_id(id) } else if kind == 1 {
                    in_status(shop, user, SubscriptionStatus::Active)
                } else {
                    in_status(shop, user, SubscriptionStatus::Pending)
                },
                subs@.take(i as int).filter(p).len() == 0,
            decreases subs@.len() - i,
        {
            let x = &subs[i];
            let hit: bool = if kind == 0 {
                x.id == id
            } else if kind == 1 {
                x.shop_id == shop && x.user_id == user && x.status == SubscriptionStatus::Active
            } else {
                x.shop_id == shop && x.user_id == user && x.status == SubscriptionStatus::Pending
            };
            proof { assert(p(*x) == hit); }
            if hit {
                proof { crate::seqs::lemma_first_where_found(subs@, p, i as int); }
                return Some(x.duplicate());
            }
            proof { crate::seqs::lemma_no_match_step(subs@, p, i as int); }
            i = i + 1;
        }
        proof { crate::seqs::lemma_first_where_none(subs@, p); }
        None
    }

    /// The subscription with id `id`; `NotFound` when there is none.
    pub fn subscription_get(&self, id: SubscriptionId) -> (r: Result<ShopSubscription, Error>)
        ensures
            match first_where(self.dir.subscriptions@, with_sub_id(id)) {
                Some(x) => r == Ok::<ShopSubscription, Error>(x),
                None => r matches Err(e) && e is NotFound,
            },
    {
        match self.subscription_find(id, ShopId(0), UserId(0), 0) {
            Some(x) => Ok(x),
            None => Err(Error::NotFound("Subscription not found".to_owned())),
        }
    }

    /// The first active subscription of `user` to `shop`, if any.
    pub fn subscription_find_active(&self, shop: ShopId, user: UserId) -> (r: Result<Option<ShopSubscription>, Error>)
        ensures
            r == Ok::<Option<ShopSubscription>, Error>(
                first_where(self.dir.subscriptions@, in_status(shop, user, SubscriptionStatus::Active))),
    {
        Ok(self.subscription_find(SubscriptionId(0), shop, user, 1))
    }

    /// The first pending subscription of `user` to `shop`, if any.
    pub fn subscription_find_pending(&self, shop: ShopId, user: UserId) -> (r: Result<Option<ShopSubscription>, Error>)
        ensures
            r == Ok::<Option<ShopSubscription>, Error>(
                first_where(self.dir.subscriptions@, in_status(shop, user, SubscriptionStatus::Pending))),
    {
        Ok(self.subscription_find(SubscriptionId(0), shop, user, 2))
    }

    /// Store a new pending subscription of `user` to `shop` with the next
    /// subscription id, created and updated now. `AnyFailure` when the
    /// ids are exhausted.
    pub fn subscription_create(&mut self, shop: ShopId, user: UserId, message: Option<String>)
        -> (r: Result<ShopSubscription, Error>)
        requires
            old(self).wf(),
        ensures
            subs_frame(*old(self), *final(self)),
            old(self).dir.next_subscription_id == i32::MAX ==> (r matches Err(e) && e is AnyFailure)
                && *final(self) == *old(self),
            old(self).dir.next_subscription_id < i32::MAX ==> (r matches Ok(x) && x == (ShopSubscription {
                id: SubscriptionId(old(self).dir.next_subscription_id),
                shop_id: shop,
                user_id: user,
                status: SubscriptionStatus::Pending,
                message,
                response_message: None,
                created_at: x.created_at,
                updated_at: x.created_at,
            }) && final(self).dir.subscriptions@ == old(self).dir.subscriptions@.push(x)
                && final(self).dir.next_subscription_id == old(self).dir.next_subscription_id + 1),
    {
        if self.dir.next_subscription_id == i32::MAX {
            return Err(Error::AnyFailure("subscription ids exhausted".to_owned()));
        }
        let id = SubscriptionId(self.dir.next_subscription_id);
        self.dir.next_subscription_id = self.dir.next_subscription_id + 1;
        let now = now_utc();
        let sub = ShopSubscription {
            id,
            shop_id: shop,
            user_id: user,
            status: SubscriptionStatus::Pending,
            message,
            response_message: None,
            created_at: now,
            updated_at: now,
        };
        let copy = sub.duplicate();
        self.dir.subscriptions.push(sub);
        Ok(copy)
    }

    /// Give the first subscription with id `id` the status and response
    /// message given, updated now; `NotFound` when there is none.
    pub fn subscription_approve(&mut self, id: SubscriptionId, status: SubscriptionStatus, response_message: Option<String>)
        -> (r: Result<ShopSubscription, Error>)
        requires
            old(self).wf(),
        ensures
            subs_frame(*old(self), *final(self)),
            final(self).dir.next_subscription_id == old(self).dir.next_subscription_id,
            match first_index(old(self).dir.subscriptions@, with_sub_id(id)) {
                None => (r matches Err(e) && e is NotFound) && *final(self) == *old(self),
                Some(i) => r matches Ok(x) && x == (ShopSubscription {
                    status,
                    response_message,
                    updated_at: x.updated_at,
                    ..old(self).dir.subscriptions@[i]
                }) && final(self).dir.subscriptions@ == old(self).dir.subscriptions@.update(i, x),
            },
    {
        let ghost p = with_sub_id(id);
        let mut i: usize = 0;
        while i < self.dir.subscriptions.len()
            invariant
                0 <= i <= self.dir.subscriptions@.len(),
                *self == *old(self),
                old(self).wf(),
                p == with_sub_id(id),
                forall|k: int| 0 <= k < i ==> !p(self.dir.subscriptions@[k]),
            decreases self.dir.subscriptions@.len() - i,
        {
            if self.dir.subscriptions[i].id == id {
                proof { crate::seqs::lemma_first_index(self.dir.subscriptions@, p, i as int); }
                let mut sub = self.dir.subscriptions[i].duplicate();
                sub.status = status;
                sub.response_message = response_message;
                sub.updated_at = now_utc();
                let copy = sub.duplicate();
                self.dir.subscriptions.set(i, sub);
                return Ok(copy);
            }
            i = i + 1;
        }
        proof { crate::seqs::lemma_first_index_none(self.dir.subscriptions@, p); }
        Err(Error::NotFound("Subscription not found".to_owned()))
    }

    /// Remove every subscription with id `id`.
    pub fn subscription_delete(&mut self, id: SubscriptionId) -> (r: Result<(), Error>)
        requires
            old(self).wf(),
        ensures
            subs_frame(*old(self), *final(self)),
            final(self).dir.next_subscription_id == old(self).dir.next_subscription_id,
            final(self).dir.subscriptions@ == old(self).dir.subscriptions@.filter(|s: ShopSubscription| s.id != id),
            r is Ok,
    {
        let ghost pred = |s: ShopSubscription| s.id != id;
        let ghost orig = self.dir.subscriptions@;
        let mut kept: Vec<ShopSubscription> = Vec::new();
        let mut i: usize = 0;
        while i < self.dir.subscriptions.len()
            invariant
                0 <= i <= self.dir.subscriptions@.len(),
                self.dir.subscriptions@ == orig,
                pred == (|s: ShopSubscription| s.id != id),
                kept@ == orig.take(i as int).filter(pred),
            decreases self.dir.subscriptions@.len() - i,
        {
            let x = &self.dir.subscriptions[i];
            let keep: bool = x.id != id;
            if keep {
                kept.push(x.duplicate());
            }
            proof {
                let s1 = orig.take(i + 1);
                assert(s1.drop_last() =~= orig.take(i as int));
                assert(s1.last() == *x);
                assert(pred(*x) == keep);
                reveal_with_fuel(Seq::filter, 1);
                if keep {
                    assert(s1.filter(pred) =~= orig.take(i as int).filter(pred).push(*x));
                } else {
                    assert(s1.filter(pred) =~= orig.take(i as int).filter(pred));
                }
            }
            i = i + 1;
        }
        proof {
            assert(orig.take(orig.len() as int) =~= orig);
            assert forall|k: int| 0 <= k < kept@.len() implies
                (#[trigger] kept@[k]).id.0 < self.dir.next_subscription_id by {
                orig.lemma_filter_contains_rev(pred, kept@[k]);
                assert(kept@.contains(kept@[k]));
            }
        }
        self.dir.subscriptions = kept;
        Ok(())
    }

    /// The subscriptions to `shop`, newest first.
    pub fn subscriptions_for_shop(&self, shop: ShopId) -> (r: Result<Vec<ShopSubscription>, Error>)
        ensures
            r matches Ok(v) && v@.to_multiset() == self.dir.subscriptions@.filter(of_shop(shop)).to_multiset()
                && crate::seqs::sorted_by_key(v@, |s: ShopSubscription| newest_first(s)),
    {
        Ok(sort_newest_first(subs_where(&self.dir.subscriptions, Some(shop), None)))
    }

    /// The subscriptions of `user`, newest first.
    pub fn subscriptions_for_user(&self, user: UserId) -> (r: Result<Vec<ShopSubscription>, Error>)
        ensures
            r matches Ok(v) && v@.to_multiset() == self.dir.subscriptions@.filter(of_user(user)).to_multiset()
                && crate::seqs::sorted_by_key(v@, |s: ShopSubscription| newest_first(s)),
    {
        Ok(sort_newest_first(subs_where(&self.dir.subscriptions, None, Some(user))))
    }
}

/// The first stored subscription with id `id`.
pub open spec fn sub_of(store: MemStore, id: SubscriptionId) -> Option<ShopSubscription> {
    first_where(store.dir.subscriptions@, with_sub_id(id))
}

/// Why `user` may not see subscription `id` (the kind of error), or `None`
/// when they may: they requested it or own its shop.
pub open spec fn sub_denial(store: MemStore, id: SubscriptionId, user: UserId) -> Option<nat> {
    match sub_of(store, id) {
        None => Some(0),
        Some(s) => if s.user_id == user {
            None
        } else if !store.has_shop(s.shop_id) {
            Some(0)
        } else if store.shop(s.shop_id).owner == user {
            None
        } else {
            Some(1)
        },
    }
}

/// Why `user` may not answer subscription `id` (the kind of error), or
/// `None` when they may: they own its shop and it is pending.
pub open spec fn answer_denial(store: MemStore, id: SubscriptionId, user: UserId) -> Option<nat> {
    match sub_of(store, id) {
        None => Some(0),
        Some(s) => if !store.has_shop(s.shop_id) {
            Some(0)
        } else if store.shop(s.shop_id).owner != user {
            Some(1)
        } else if s.status != SubscriptionStatus::Pending {
            Some(3)
        } else {
            None
        },
    }
}

/// Whether `user` still has a part registered to `shop`.
pub open spec fn has_parts_in_shop(store: MemStore, shop: ShopId, user: UserId) -> bool {
    exists|p: crate::part::Part| #[trigger] store.parts@.values().contains(p) && p.shop == Some(shop) && p.owner == user
}

/// Why `user` may not cancel subscription `id` (the kind of error), or
/// `None` when they may: they requested it, it is not cancelled, and none
/// of their parts is registered to the shop.
pub open spec fn cancel_denial(store: MemStore, id: SubscriptionId, user: UserId) -> Option<nat> {
    match sub_of(store, id) {
        None => Some(0),
        Some(s) => if s.user_id != user {
            Some(1)
        } else if s.status == SubscriptionStatus::Cancelled {
            Some(3)
        } else if has_parts_in_shop(store, s.shop_id, user) {
            Some(3)
        } else {
            None
        },
    }
}

/// Why `user` may not request a subscription to `shop` (the kind of error),
/// or `None` when they may: the shop exists, no request of theirs to it is
/// pending or active, and subscription ids are left.
pub open spec fn request_denial(store: MemStore, shop: ShopId, user: UserId) -> Option<nat> {
    if !store.has_shop(shop) {
        Some(0)
    } else if first_where(store.dir.subscriptions@, in_status(shop, user, SubscriptionStatus::Pending)) is Some {
        Some(3)
    } else if first_where(store.dir.subscriptions@, in_status(shop, user, SubscriptionStatus::Active)) is Some {
        Some(3)
    } else if store.dir.next_subscription_id == i32::MAX {
        Some(5)
    } else {
        None
    }
}

/// The response message of a subscription approved right away.
pub open spec fn welcome(name: Seq<char>) -> Seq<char> {
    "Welcome to "@ + name
}

/// The first subscription with id `id` got `status` and `msg`, is `x`
/// now, and nothing else changed.
pub open spec fn answered(old: MemStore, new: MemStore, id: SubscriptionId, status: SubscriptionStatus,
    msg: Option<String>, x: ShopSubscription) -> bool {
    &&& subs_frame(old, new)
    &&& new.dir.next_subscription_id == old.dir.next_subscription_id
    &&& match first_index(old.dir.subscriptions@, with_sub_id(id)) {
        Some(i) => x == (ShopSubscription {
            status,
            response_message: msg,
            updated_at: x.updated_at,
            ..old.dir.subscriptions@[i]
        }) && new.dir.subscriptions@ == old.dir.subscriptions@.update(i, x),
        None => false,
    }
    &&& sub_of(new, id) == Some(x)
}

impl SubscriptionId {
    /// Create a new subscription request
    ///
    /// It is approved right away, with a welcome message, when the shop
    /// approves automatically.
    pub fn create(shop_id: ShopId, message: Option<String>, user: UserId, store: &mut MemStore)
        -> (r: Result<ShopSubscription, Error>)
        requires
            old(store).wf(),
        ensures
            final(store).wf(),
            match request_denial(*old(store), shop_id, user) {
                Some(k) => (r matches Err(e) && e.kind() == k) && *final(store) == *old(store),
                None => r matches Ok(x) && {
                    let auto = old(store).shop(shop_id).auto_approve;
                    &&& x.id == SubscriptionId(old(store).dir.next_subscription_id)
                    &&& x.shop_id == shop_id
                    &&& x.user_id == user
                    &&& x.message == message
                    &&& x.status == (if auto { SubscriptionStatus::Active } else { SubscriptionStatus::Pending })
                    &&& (auto ==> (x.response_message matches Some(m) && m@ == welcome(old(store).shop(shop_id).name@)))
                    &&& (!auto ==> x.response_message is None)
                    &&& subs_frame(*old(store), *final(store))
                    &&& final(store).dir.next_subscription_id == old(store).dir.next_subscription_id + 1
                    &&& final(store).dir.subscriptions@ == old(store).dir.subscriptions@.push(x)
                    &&& sub_of(*final(store), x.id) == Some(x)
                },
            },
    {
        let shop = store.shop_get(shop_id)?;
        let existing = store.subscription_find_pending(shop_id, user)?;
        if existing.is_some() {
            return Err(Error::Conflict("A pending subscription request already exists".to_owned()));
        }
        let active = store.subscription_find_active(shop_id, user)?;
        if active.is_some() {
            return Err(Error::Conflict("You are already subscribed to this shop".to_owned()));
        }
        let ghost s0 = *store;
        let subscription = store.subscription_create(shop_id, user, message)?;
        let ghost mid = *store;
        proof {
            assert forall|k: int| 0 <= k < s0.dir.subscriptions@.len()
                implies !with_sub_id(subscription.id)(#[trigger] s0.dir.subscriptions@[k]) by {}
        }
        if shop.auto_approve {
            let mut text = "Welcome to ".to_owned();
            append_text(&mut text, shop.name.as_str());
            proof {
                reveal_strlit("Welcome to ");
                let subs = store.dir.subscriptions@;
                let n = s0.dir.subscriptions@.len() as int;
                assert(subs[n] == subscription);
                assert forall|k: int| 0 <= k < n implies !with_sub_id(subscription.id)(#[trigger] subs[k]) by {
                    assert(subs[k] == s0.dir.subscriptions@[k]);
                }
                crate::seqs::lemma_first_index(subs, with_sub_id(subscription.id), n);
            }
            let approved = store.subscription_approve(subscription.id, SubscriptionStatus::Active, Some(text));
            proof {
                if approved is Ok {
                    let x = approved->Ok_0;
                    let n = s0.dir.subscriptions@.len() as int;
                    assert(mid.dir.subscriptions@.update(n, x) =~= s0.dir.subscriptions@.push(x));
                    assert(final_sub_push(s0, *store, x));
                    crate::seqs::lemma_first_where_push_new(s0.dir.subscriptions@, with_sub_id(x.id), x);
                }
            }
            approved
        } else {
            proof {
                crate::seqs::lemma_first_where_push_new(s0.dir.subscriptions@, with_sub_id(subscription.id), subscription);
            }
            Ok(subscription)
        }
    }

    /// Get a subscription by ID
    pub fn get(id: i32, user: UserId, store: &MemStore) -> (r: Result<SubscriptionId, Error>)
        ensures
            match sub_denial(*store, SubscriptionId(id), user) {
                None => r == Ok::<SubscriptionId, Error>(SubscriptionId(id)),
                Some(k) => r matches Err(e) && e.kind() == k,
            },
    {
        SubscriptionId(id).checkuser(user, store)
    }

    /// Read a subscription from the database
    pub fn read(self, user: UserId, store: &MemStore) -> (r: Result<ShopSubscription, Error>)
        ensures
            match sub_denial(*store, self, user) {
                None => sub_of(*store, self) matches Some(s) && r == Ok::<ShopSubscription, Error>(s),
                Some(k) => r matches Err(e) && e.kind() == k,
            },
    {
        self.checkuser(user, store)?;
        store.subscription_get(self)
    }

    /// Check if the user has access to this subscription (either subscriber or shop owner)
    pub fn checkuser(self, user: UserId, store: &MemStore) -> (r: Result<SubscriptionId, Error>)
        ensures
            match sub_denial(*store, self, user) {
                None => r == Ok::<SubscriptionId, Error>(self),
                Some(k) => r matches Err(e) && e.kind() == k,
            },
    {
        let subscription = store.subscription_get(self)?;
        if subscription.user_id == user {
            return Ok(self);
        }
        let shop = store.shop_get(subscription.shop_id)?;
        user.check_owner(shop.owner, "Access denied to subscription".to_owned())?;
        Ok(self)
    }

    /// Approve a subscription (shop owner only)
    pub fn approve(self, response_message: Option<String>, user: UserId, store: &mut MemStore)
        -> (r: Result<ShopSubscription, Error>)
        requires
            old(store).wf(),
        ensures
            final(store).wf(),
            match answer_denial(*old(store), self, user) {
                Some(k) => (r matches Err(e) && e.kind() == k) && *final(store) == *old(store),
                None => r matches Ok(x)
                    && answered(*old(store), *final(store), self, SubscriptionStatus::Active, response_message, x),
            },
    {
        self.answer(SubscriptionStatus::Active, response_message, user, store)
    }

    /// Reject a subscription (shop owner only)
    pub fn reject(self, response_message: Option<String>, user: UserId, store: &mut MemStore)
        -> (r: Result<ShopSubscription, Error>)
        requires
            old(store).wf(),
        ensures
            final(store).wf(),
            match answer_denial(*old(store), self, user) {
                Some(k) => (r matches Err(e) && e.kind() == k) && *final(store) == *old(store),
                None => r matches Ok(x)
                    && answered(*old(store), *final(store), self, SubscriptionStatus::Rejected, response_message, x),
            },
    {
        self.answer(SubscriptionStatus::Rejected, response_message, user, store)
    }

    fn answer(self, status: SubscriptionStatus, response_message: Option<String>, user: UserId, store: &mut MemStore)
        -> (r: Result<ShopSubscription, Error>)
        requires
            old(store).wf(),
        ensures
            final(store).wf(),
            match answer_denial(*old(store), self, user) {
                Some(k) => (r matches Err(e) && e.kind() == k) && *final(store) == *old(store),
                None => r matches Ok(x) && answered(*old(store), *final(store), self, status, response_message, x),
            },
    {
        let subscription = store.subscription_get(self)?;
        let shop_id = subscription.shop_id;
        shop_id.check_owner(user, store)?;
        if subscription.status != SubscriptionStatus::Pending {
            return Err(Error::Conflict("Subscription is not pending".to_owned()));
        }
        proof { crate::seqs::lemma_first_where_index(store.dir.subscriptions@, with_sub_id(self)); }
        let ghost s0 = *store;
        let r = store.subscription_approve(self, status, response_message);
        proof {
            if r is Ok {
                let i = first_index(s0.dir.subscriptions@, with_sub_id(self)).unwrap();
                crate::seqs::lemma_first_where_update(s0.dir.subscriptions@, with_sub_id(self), i, r->Ok_0);
            }
        }
        r
    }

    /// Cancel a subscription (subscriber only)
    /// Allows deletion of pending, active, and rejected subscriptions
    pub fn cancel(self, user: UserId, store: &mut MemStore) -> (r: Result<(), Error>)
        requires
            old(store).wf(),
        ensures
            final(store).wf(),
            match cancel_denial(*old(store), self, user) {
                Some(k) => (r matches Err(e) && e.kind() == k) && *final(store) == *old(store),
                None => r is Ok && subs_frame(*old(store), *final(store))
                    && final(store).dir.next_subscription_id == old(store).dir.next_subscription_id
                    && final(store).dir.subscriptions@
                        == old(store).dir.subscriptions@.filter(|s: ShopSubscription| s.id != self)
                    && sub_of(*final(store), self) is None,
            },
    {
        let subscription = store.subscription_get(self)?;
        user.check_owner(subscription.user_id, "Access denied - not the subscriber".to_owned())?;
        if subscription.status != SubscriptionStatus::Pending
            && subscription.status != SubscriptionStatus::Active
            && subscription.status != SubscriptionStatus::Rejected
        {
            return Err(Error::Conflict("Can only cancel pending, active, or rejected subscriptions".to_owned()));
        }
        let parts = store.shop_get_parts(subscription.shop_id)?;
        if any_owned_by(&parts, user) {
            return Err(Error::Conflict("You have still parts in the shop".to_owned()));
        }
        proof {
            assert forall|p: crate::part::Part| #[trigger] store.parts@.values().contains(p)
                && p.shop == Some(subscription.shop_id) implies p.owner != user by {
                assert(parts@.contains(p));
            }
        }
        let r = store.subscription_delete(self);
        proof {
            crate::seqs::lemma_first_where_filtered_out(old(store).dir.subscriptions@, with_sub_id(self),
                |s: ShopSubscription| s.id != self);
        }
        r
    }
}

/// Whether one of `parts` is owned by `user`.
fn any_owned_by(parts: &Vec<crate::part::Part>, user: UserId) -> (b: bool)
    ensures
        b <==> exists|p: crate::part::Part| #[trigger] parts@.contains(p) && p.owner == user,
{
    let mut i: usize = 0;
    while i < parts.len()
        invariant
            0 <= i <= parts@.len(),
            forall|k: int| 0 <= k < i ==> (#[trigger] parts@[k]).owner != user,
        decreases parts@.len() - i,
    {
        if parts[i].owner == user {
            proof {
                assert(parts@.contains(parts@[i as int]));
            }
            return true;
        }
        i = i + 1;
    }
    proof {
        assert forall|p: crate::part::Part| #[trigger] parts@.contains(p) implies p.owner != user by {
            let k = choose|k: int| 0 <= k < parts@.len() && parts@[k] == p;
        }
    }
    false
}

/// `new` holds `x` as the subscription requested last, and nothing else
/// changed since `old`.
pub open spec fn final_sub_push(old: MemStore, new: MemStore, x: ShopSubscription) -> bool {
    &&& subs_frame(old, new)
    &&& new.dir.next_subscription_id == old.dir.next_subscription_id + 1
    &&& new.dir.subscriptions@ == old.dir.subscriptions@.push(x)
}

/// The subscription part of a subscription with details.
pub open spec fn details_sub(d: ShopSubscriptionWithDetails) -> ShopSubscription {
    ShopSubscription {
        id: d.id,
        shop_id: d.shop_id,
        user_id: d.user_id,
        status: d.status,
        message: d.message,
        response_message: d.response_message,
        created_at: d.created_at,
        updated_at: d.updated_at,
    }
}

/// `s` together with `shop`.
pub open spec fn with_details(s: ShopSubscription, shop: Shop) -> ShopSubscriptionWithDetails {
    ShopSubscriptionWithDetails {
        id: s.id,
        shop_id: s.shop_id,
        user_id: s.user_id,
        status: s.status,
        message: s.message,
        response_message: s.response_message,
        created_at: s.created_at,
        updated_at: s.updated_at,
        shop,
    }
}

/// Pending subscriptions.
pub open spec fn is_pending() -> spec_fn(ShopSubscription) -> bool {
    |s: ShopSubscription| s.status == SubscriptionStatus::Pending
}

/// Pending subscriptions to `shop`.
pub open spec fn pending_at(shop: ShopId) -> spec_fn(ShopSubscription) -> bool {
    |s: ShopSubscription| s.shop_id == shop && s.status == SubscriptionStatus::Pending
}

/// Subscriptions of `user` to `shop`.
pub open spec fn of_user_at(shop: ShopId, user: UserId) -> spec_fn(ShopSubscription) -> bool {
    |s: ShopSubscription| s.shop_id == shop && s.user_id == user
}

/// Whether `s` is a subscription of `user` to `shop` created no earlier
/// than any other of theirs.
pub open spec fn newest_of(subs: Seq<ShopSubscription>, shop: ShopId, user: UserId, s: ShopSubscription) -> bool {
    &&& subs.contains(s)
    &&& of_user_at(shop, user)(s)
    &&& forall|t: ShopSubscription| #[trigger] subs.contains(t) && of_user_at(shop, user)(t)
        ==> t.created_at.nanos <= s.created_at.nanos
}

impl ShopSubscription {
    /// Get all pending subscriptions for a shop (shop owner only), newest
    /// first, each with the shop.
    pub fn get_pending_for_shop(shop_id: ShopId, user: UserId, store: &MemStore)
        -> (r: Result<Vec<ShopSubscriptionWithDetails>, Error>)
        ensures
            !store.has_shop(shop_id) ==> (r matches Err(e) && e is NotFound),
            store.has_shop(shop_id) && store.shop(shop_id).owner != user ==> (r matches Err(e) && e is Forbidden),
            store.has_shop(shop_id) && store.shop(shop_id).owner == user ==> (r matches Ok(v)
                && v@.map_values(|d: ShopSubscriptionWithDetails| details_sub(d)).to_multiset()
                    == store.dir.subscriptions@.filter(pending_at(shop_id)).to_multiset()
                && crate::seqs::sorted_by_key(v@.map_values(|d: ShopSubscriptionWithDetails| details_sub(d)),
                    |s: ShopSubscription| newest_first(s))
                && forall|i: int| 0 <= i < v@.len() ==> (#[trigger] v@[i]).shop == store.shop(shop_id)),
    {
        shop_id.check_owner(user, store)?;
        let shop = store.shop_get(shop_id)?;
        let subs = store.subscriptions_for_shop(shop_id)?;
        let ghost strip = |d: ShopSubscriptionWithDetails| details_sub(d);
        let ghost pend = is_pending();
        let mut out: Vec<ShopSubscriptionWithDetails> = Vec::new();
        let mut i: usize = 0;
        while i < subs.len()
            invariant
                0 <= i <= subs@.len(),
                strip == (|d: ShopSubscriptionWithDetails| details_sub(d)),
                pend == is_pending(),
                out@.map_values(strip) == subs@.take(i as int).filter(pend),
                forall|k: int| 0 <= k < out@.len() ==> (#[trigger] out@[k]).shop == shop,
            decreases subs@.len() - i,
        {
            let x = &subs[i];
            let keep: bool = x.status == SubscriptionStatus::Pending;
            let ghost before = out@;
            if keep {
                out.push(x.duplicate().add_shop(shop.duplicate()));
            }
            proof {
                let s1 = subs@.take(i + 1);
                assert(s1.drop_last() =~= subs@.take(i as int));
                assert(s1.last() == *x);
                assert(pend(*x) == keep);
                reveal_with_fuel(Seq::filter, 1);
                if keep {
                    assert(out@.map_values(strip) =~= before.map_values(strip).push(*x));
                    assert(s1.filter(pend) =~= subs@.take(i as int).filter(pend).push(*x));
                } else {
                    assert(s1.filter(pend) =~= subs@.take(i as int).filter(pend));
                }
            }
            i = i + 1;
        }
        proof {
            let all = store.dir.subscriptions@;
            assert(subs@.take(subs@.len() as int) =~= subs@);
            crate::seqs::lemma_filter_to_multiset(subs@, pend);
            crate::seqs::lemma_filter_to_multiset(all, of_shop(shop_id));
            crate::seqs::lemma_filter_to_multiset(all, pending_at(shop_id));
            assert(all.to_multiset().filter(of_shop(shop_id)).filter(pend)
                =~= all.to_multiset().filter(pending_at(shop_id))) by {
                broadcast use vstd::multiset::group_multiset_axioms;
            }
            crate::seqs::lemma_filter_sorted(subs@, pend, |s: ShopSubscription| newest_first(s));
        }
        Ok(out)
    }

    /// All subscriptions to a shop, newest first.
    pub fn get_for_shop(shop_id: ShopId, store: &MemStore) -> (r: Result<Vec<ShopSubscription>, Error>)
        ensures
            r matches Ok(v) && v@.to_multiset() == store.dir.subscriptions@.filter(of_shop(shop_id)).to_multiset()
                && crate::seqs::sorted_by_key(v@, |s: ShopSubscription| newest_first(s)),
    {
        store.subscriptions_for_shop(shop_id)
    }

    /// Get all subscriptions made by a user, newest first.
    pub fn get_for_user(user: UserId, store: &MemStore) -> (r: Result<Vec<ShopSubscription>, Error>)
        ensures
            r matches Ok(v) && v@.to_multiset() == store.dir.subscriptions@.filter(of_user(user)).to_multiset()
                && crate::seqs::sorted_by_key(v@, |s: ShopSubscription| newest_first(s)),
    {
        store.subscriptions_for_user(user)
    }

    /// Convert a list of subscriptions to subscriptions with shop details;
    /// `NotFound` when one of their shops is not stored.
    pub fn with_shop_details(subscriptions: Vec<ShopSubscription>, store: &MemStore)
        -> (r: Result<Vec<ShopSubscriptionWithDetails>, Error>)
        ensures
            (forall|i: int| 0 <= i < subscriptions@.len() ==> store.has_shop(#[trigger] subscriptions@[i].shop_id))
                ==> (r matches Ok(v) && v@ == subscriptions@.map_values(
                    |s: ShopSubscription| with_details(s, store.shop(s.shop_id)))),
            !(forall|i: int| 0 <= i < subscriptions@.len() ==> store.has_shop(#[trigger] subscriptions@[i].shop_id))
                ==> (r matches Err(e) && e is NotFound),
    {
        let ghost f = |s: ShopSubscription| with_details(s, store.shop(s.shop_id));
        let mut result: Vec<ShopSubscriptionWithDetails> = Vec::new();
        let mut i: usize = 0;
        while i < subscriptions.len()
            invariant
                0 <= i <= subscriptions@.len(),
                f == (|s: ShopSubscription| with_details(s, store.shop(s.shop_id))),
                forall|k: int| 0 <= k < i ==> store.has_shop(#[trigger] subscriptions@[k].shop_id),
                result@ == subscriptions@.take(i as int).map_values(f),
            decreases subscriptions@.len() - i,
        {
            let sub = subscriptions[i].duplicate();
            let shop = store.shop_get(sub.shop_id)?;
            let d = sub.add_shop(shop);
            proof {
                assert(subscriptions@.take(i + 1).map_values(f) =~= subscriptions@.take(i as int).map_values(f).push(d));
            }
            result.push(d);
            i = i + 1;
        }
        proof { assert(subscriptions@.take(subscriptions@.len() as int) =~= subscriptions@); }
        Ok(result)
    }

    /// `Ok` when the newest subscription of `user` to `shop` is active;
    /// `Forbidden` otherwise (also when there is none).
    pub fn check(shop: ShopId, user: UserId, store: &MemStore) -> (r: Result<(), Error>)
        ensures
            r is Ok ==> exists|s: ShopSubscription| #[trigger] newest_of(store.dir.subscriptions@, shop, user, s)
                && s.status == SubscriptionStatus::Active,
            r matches Err(e) ==> e is Forbidden && (
                (forall|s: ShopSubscription| !(#[trigger] store.dir.subscriptions@.contains(s) && of_user_at(shop, user)(s)))
                || exists|s: ShopSubscription| #[trigger] newest_of(store.dir.subscriptions@, shop, user, s)
                    && s.status != SubscriptionStatus::Active),
    {
        let subs = store.subscriptions_for_user(user)?;
        let ghost all = store.dir.subscriptions@;
        proof {
            broadcast use vstd::seq_lib::to_multiset_contains;
            assert forall|t: ShopSubscription| #[trigger] subs@.contains(t) && t.shop_id == shop
                <==> all.contains(t) && of_user_at(shop, user)(t) by {
                crate::store::lemma_filter_members(all, of_user(user));
                assert(subs@.to_multiset().count(t) == all.filter(of_user(user)).to_multiset().count(t));
            }
        }
        let mut i: usize = 0;
        while i < subs.len()
            invariant
                0 <= i <= subs@.len(),
                all == store.dir.subscriptions@,
                crate::seqs::sorted_by_key(subs@, |s: ShopSubscription| newest_first(s)),
                forall|t: ShopSubscription| #[trigger] subs@.contains(t) && t.shop_id == shop
                    <==> all.contains(t) && of_user_at(shop, user)(t),
                forall|k: int| 0 <= k < i ==> (#[trigger] subs@[k]).shop_id != shop,
            decreases subs@.len() - i,
        {
            if subs[i].shop_id == shop {
                let s = &subs[i];
                proof {
                    assert(subs@.contains(*s));
                    assert forall|t: ShopSubscription| #[trigger] all.contains(t) && of_user_at(shop, user)(t)
                        implies t.created_at.nanos <= s.created_at.nanos by {
                        assert(subs@.contains(t) && t.shop_id == shop);
                        let k = choose|k: int| 0 <= k < subs@.len() && subs@[k] == t;
                        assert(k >= i);
                        assert(newest_first(subs@[i as int]) <= newest_first(subs@[k]));
                    }
                    assert(newest_of(all, shop, user, *s));
                }
                if s.status == SubscriptionStatus::Active {
                    return Ok(());
                }
                return Err(Error::Forbidden("You are not subscribed to this shop".to_owned()));
            }
            i = i + 1;
        }
        proof {
            assert forall|t: ShopSubscription| !(#[trigger] all.contains(t) && of_user_at(shop, user)(t)) by {
                if all.contains(t) && of_user_at(shop, user)(t) {
                    assert(subs@.contains(t));
                    let k = choose|k: int| 0 <= k < subs@.len() && subs@[k] == t;
                }
            }
        }
        Err(Error::Forbidden("You are not subscribed to this shop".to_owned()))
    }
}

} // verus!
