//! Shops that maintain parts on behalf of their subscribers.

use vstd::prelude::*;
use crate::timestamp::Timestamp;
use crate::user::{User, UserId};
use crate::error::Error;
use crate::store::{MemStore, copy_opt_string};
use crate::text::{text_le, text_le_exec, lemma_text_le_total, lemma_text_le_trans, lowercase, lowercased, contains_text, has_substring};
use crate::subscription::{in_status, SubscriptionStatus};
use crate::seqs::first_where;
use crate::timestamp::now_utc;
use vstd::std_specs::iter::IteratorSpec;
use crate::part::{Part, PartId, part_denial, parts_shop_set, shop_changes};
use crate::session::Session;
use crate::summary::Summary;
use crate::attachment::Attachment;
use crate::assembly::{is_attached, subparts, in_subassembly};
use crate::timeline::part_active_at;
use crate::user::{UserPublic, public_of};
use crate::subscription::ShopSubscription;

verus! {

/// The id of a shop.
#[derive(Clone, Copy, Debug, PartialEq, Eq, Structural, Hash)]
pub struct ShopId(pub i32);

impl From<i32> for ShopId {
    fn from(id: i32) -> (r: ShopId) {
        ShopId(id)
    }
}

impl vstd::std_specs::convert::FromSpecImpl<i32> for ShopId {
    open spec fn obeys_from_spec() -> bool {
        true
    }

    open spec fn from_spec(id: i32) -> ShopId {
        ShopId(id)
    }
}

/// The database's representation of a shop.
#[derive(Clone, Debug)]
pub struct Shop {
    /// The primary key
    pub id: ShopId,
    /// The owner of the shop
    pub owner: UserId,
    /// The name of the shop
    pub name: String,
    /// Optional description of the shop
    pub description: Option<String>,
    /// If registration requests need approval
    pub auto_approve: bool,
    /// Creation timestamp
    pub created_at: Timestamp,
}

/// Shop with owner information for API responses
#[derive(Clone, Debug)]
pub struct ShopWithOwner {
    pub id: ShopId,
    pub owner: UserId,
    pub owner_firstname: String,
    pub owner_name: String,
    pub name: String,
    pub description: Option<String>,
    pub auto_approve: bool,
    pub created_at: Timestamp,
}

impl ShopWithOwner {
    /// Create a ShopWithOwner from a Shop and User
    pub fn from_shop_and_user(shop: Shop, user: User) -> (r: ShopWithOwner)
        ensures
            r == (ShopWithOwner {
                id: shop.id,
                owner: shop.owner,
                owner_firstname: user.firstname,
                owner_name: user.name,
                name: shop.name,
                description: shop.description,
                auto_approve: shop.auto_approve,
                created_at: shop.created_at,
            }),
    {
        ShopWithOwner {
            id: shop.id,
            owner: shop.owner,
            owner_firstname: user.firstname,
            owner_name: user.name,
            name: shop.name,
            description: shop.description,
            auto_approve: shop.auto_approve,
            created_at: shop.created_at,
        }
    }
}


impl Shop {
    /// A copy of the shop.
    pub fn duplicate(&self) -> (r: Shop)
        ensures
            r == *self,
    {
        Shop {
            id: self.id,
            owner: self.owner,
            name: self.name.clone(),
            description: copy_opt_string(&self.description),
            auto_approve: self.auto_approve,
            created_at: self.created_at,
        }
    }
}

impl MemStore {
    /// Whether a shop with id `id` is stored.
    pub open spec fn has_shop(&self, id: ShopId) -> bool {
        self.dir.shops@.contains_key(id.0)
    }

    /// The stored shop with id `id` (meaningful when `has_shop(id)`).
    pub open spec fn shop(&self, id: ShopId) -> Shop {
        self.dir.shops@[id.0]
    }

    /// The stored shop with id `id`; `NotFound` when there is none.
    pub fn shop_get(&self, id: ShopId) -> (r: Result<Shop, Error>)
        ensures
            match r {
                Ok(s) => self.has_shop(id) && s == self.shop(id),
                Err(e) => !self.has_shop(id) && e is NotFound,
            },
    {
        match self.dir.shops.get(&id.0) {
            Some(s) => Ok(s.duplicate()),
            None => Err(Error::NotFound("Shop not found".to_owned())),
        }
    }
}

impl ShopId {
    /// `Ok` when `user` owns the shop; `NotFound` when the shop is not
    /// stored, `Forbidden` when someone else owns it.
    pub fn check_owner(&self, user: UserId, store: &MemStore) -> (r: Result<(), Error>)
        ensures
            !store.has_shop(*self) ==> (r matches Err(e) && e is NotFound),
            store.has_shop(*self) ==> (r is Ok <==> store.shop(*self).owner == user),
            store.has_shop(*self) ==> (r matches Err(e) ==> e is Forbidden),
    {
        let shop = store.shop_get(*self)?;
        if user != shop.owner {
            return Err(Error::Forbidden("You must be the shop owner to access this shop".to_owned()));
        }
        Ok(())
    }
}

/// Shops ordered by name.
pub open spec fn sorted_by_name(s: Seq<Shop>) -> bool {
    forall|i: int, j: int| 0 <= i <= j < s.len() ==> text_le(s[i].name@, s[j].name@)
}

/// Inserting `x` at `k` into shops sorted by name keeps them sorted when
/// the shops before `k` come no later than `x` and `x` no later than the
/// one at `k`.
proof fn lemma_insert_sorted(before: Seq<Shop>, k: int, x: Shop)
    requires
        0 <= k <= before.len(),
        sorted_by_name(before),
        forall|q: int| 0 <= q < k ==> text_le((#[trigger] before[q]).name@, x.name@),
        k < before.len() ==> text_le(x.name@, before[k].name@),
    ensures
        sorted_by_name(before.insert(k, x)),
{
    let after = before.insert(k, x);
    assert forall|a: int, b: int| 0 <= a <= b < after.len() implies text_le(after[a].name@, after[b].name@) by {
        if a == b {
            lemma_text_le_total(after[a].name@, after[a].name@, 0);
        } else if a < k && b == k {
        } else if a == k && b > k {
            assert(after[b] == before[b - 1]);
            assert(text_le(before[k].name@, before[b - 1].name@));
            lemma_text_le_trans(x.name@, before[k].name@, before[b - 1].name@, 0);
        } else if a < k && b > k {
            assert(after[b] == before[b - 1]);
        } else if a > k {
            assert(after[a] == before[a - 1]);
            assert(after[b] == before[b - 1]);
        }
    }
}

/// The shops of `v` ordered by name; shops of the same name keep their order.
fn sort_by_name(v: Vec<Shop>) -> (r: Vec<Shop>)
    ensures
        r@.to_multiset() == v@.to_multiset(),
        sorted_by_name(r@),
{
    broadcast use vstd::seq_lib::to_multiset_insert, vstd::seq_lib::to_multiset_build;
    let mut out: Vec<Shop> = Vec::new();
    let mut rest = v;
    let ghost orig = rest@;
    proof { assert(orig.take(0) =~= out@); }
    let mut i: usize = 0;
    let n: usize = rest.len();
    while i < n
        invariant
            0 <= i <= n,
            n == orig.len(),
            rest@ == orig.skip(i as int),
            out@.to_multiset() == orig.take(i as int).to_multiset(),
            sorted_by_name(out@),
        decreases n - i,
    {
        let x = rest.remove(0);
        proof { assert(x == orig[i as int]); }
        let mut k: usize = 0;
        while k < out.len() && text_le_exec(out[k].name.as_str(), x.name.as_str())
            invariant
                0 <= k <= out@.len(),
                forall|q: int| 0 <= q < k ==> text_le((#[trigger] out@[q]).name@, x.name@),
            decreases out@.len() - k,
        {
            k = k + 1;
        }
        let ghost before = out@;
        proof {
            if k < before.len() {
                lemma_text_le_total(before[k as int].name@, x.name@, 0);
            }
            lemma_insert_sorted(before, k as int, x);
        }
        out.insert(k, x);
        proof {
            assert(out@ == before.insert(k as int, x));
            assert(orig.take(i + 1) =~= orig.take(i as int).push(x));
            vstd::seq_lib::to_multiset_insert(before, k as int, x);
            vstd::seq_lib::to_multiset_build(orig.take(i as int), x);
            assert(rest@ =~= orig.skip(i + 1));
        }
        i = i + 1;
    }
    proof { assert(orig.take(orig.len() as int) =~= orig); }
    out
}

/// Whether `user` has an active subscription to `shop`.
pub open spec fn subscribed(store: MemStore, shop: ShopId, user: UserId) -> bool {
    first_where(store.dir.subscriptions@, in_status(shop, user, SubscriptionStatus::Active)) is Some
}

/// Whether `s` is owned by `user` or `user` has an active subscription to
/// it (where `user` is given), and its lowercased name contains the
/// lowercased `query` (where given).
pub open spec fn shop_selected(store: MemStore, s: Shop, user: Option<UserId>, query: Option<Seq<char>>) -> bool {
    &&& (user matches Some(u) ==> s.owner == u || subscribed(store, s.id, u))
    &&& (query matches Some(q) ==> has_substring(lowercased(s.name@), lowercased(q)))
}

/// The characters of an optional text.
pub open spec fn text_of(q: Option<&str>) -> Option<Seq<char>> {
    match q {
        Some(t) => Some(t@),
        None => None,
    }
}

/// Everything but the shops (and the next shop id) stays.
pub open spec fn shops_frame(old: MemStore, new: MemStore) -> bool {
    &&& new.wf()
    &&& new.parts == old.parts
    &&& new.usages == old.usages
    &&& new.activities == old.activities
    &&& new.attachments == old.attachments
    &&& new.services == old.services
    &&& new.plans == old.plans
    &&& new.next_part_id == old.next_part_id
    &&& new.dir.users == old.dir.users
    &&& new.dir.subscriptions == old.dir.subscriptions
    &&& new.dir.next_user_id == old.dir.next_user_id
    &&& new.dir.next_subscription_id == old.dir.next_subscription_id
}

impl MemStore {
    /// Store a new shop of `owner`, created now, under the next shop id;
    /// `AnyFailure` when the ids are exhausted.
    pub fn shop_create(&mut self, name: String, description: Option<String>, auto_approve: bool, owner: UserId)
        -> (r: Result<Shop, Error>)
        requires
            old(self).wf(),
        ensures
            shops_frame(*old(self), *final(self)),
            old(self).dir.next_shop_id == i32::MAX ==> (r matches Err(e) && e is AnyFailure) && *final(self) == *old(self),
            old(self).dir.next_shop_id < i32::MAX ==> (r matches Ok(x)
                && x == (Shop { id: ShopId(old(self).dir.next_shop_id), owner, name, description, auto_approve,
                    created_at: x.created_at })
                && final(self).dir.shops@ == old(self).dir.shops@.insert(x.id.0, x)
                && final(self).dir.next_shop_id == old(self).dir.next_shop_id + 1),
    {
        if self.dir.next_shop_id == i32::MAX {
            return Err(Error::AnyFailure("shop ids exhausted".to_owned()));
        }
        let id = ShopId(self.dir.next_shop_id);
        self.dir.next_shop_id = self.dir.next_shop_id + 1;
        let shop = Shop { id, owner, name, description, auto_approve, created_at: now_utc() };
        self.dir.shops.insert(id.0, shop.duplicate());
        Ok(shop)
    }

    /// Give the stored shop `id` a new name, description and approval
    /// mode; `NotFound` when there is none.
    pub fn shop_update(&mut self, id: ShopId, name: String, description: Option<String>, auto_approve: bool)
        -> (r: Result<Shop, Error>)
        requires
            old(self).wf(),
        ensures
            shops_frame(*old(self), *final(self)),
            final(self).dir.next_shop_id == old(self).dir.next_shop_id,
            !old(self).has_shop(id) ==> (r matches Err(e) && e is NotFound) && *final(self) == *old(self),
            old(self).has_shop(id) ==> (r matches Ok(x)
                && x == (Shop { name, description, auto_approve, ..old(self).shop(id) })
                && final(self).dir.shops@ == old(self).dir.shops@.insert(id.0, x)),
    {
        let mut shop = self.shop_get(id)?;
        shop.name = name;
        shop.description = description;
        shop.auto_approve = auto_approve;
        self.dir.shops.insert(id.0, shop.duplicate());
        Ok(shop)
    }

    /// Remove the stored shop `id`: 1 when there was one, 0 otherwise.
    pub fn shop_delete(&mut self, id: ShopId) -> (r: Result<usize, Error>)
        requires
            old(self).wf(),
        ensures
            shops_frame(*old(self), *final(self)),
            final(self).dir.next_shop_id == old(self).dir.next_shop_id,
            final(self).dir.shops@ == old(self).dir.shops@.remove(id.0),
            r == Ok::<usize, Error>(if old(self).has_shop(id) { 1 } else { 0 }),
    {
        match self.dir.shops.remove(&id.0) {
            Some(_) => Ok(1),
            None => Ok(0),
        }
    }

    /// The shops `user` owns or has an active subscription to, by name.
    pub fn shops_get_all_for_user(&self, user: UserId) -> (r: Result<Vec<Shop>, Error>)
        ensures
            r matches Ok(v) && sorted_by_name(v@) && forall|s: Shop| #[trigger] v@.contains(s) <==>
                (self.dir.shops@.values().contains(s) && shop_selected(*self, s, Some(user), None)),
    {
        let v = self.shops_selected(Some(user), None);
        let r = sort_by_name(v);
        proof { lemma_same_members(r@, v@); }
        Ok(r)
    }

    /// The shops whose name contains `query`, case ignored, by name.
    pub fn shops_search(&self, query: &str) -> (r: Result<Vec<Shop>, Error>)
        ensures
            r matches Ok(v) && sorted_by_name(v@) && forall|s: Shop| #[trigger] v@.contains(s) <==>
                (self.dir.shops@.values().contains(s) && shop_selected(*self, s, None, Some(query@))),
    {
        let v = self.shops_selected(None, Some(query));
        let r = sort_by_name(v);
        proof { lemma_same_members(r@, v@); }
        Ok(r)
    }

    fn shops_selected(&self, user: Option<UserId>, query: Option<&str>) -> (r: Vec<Shop>)
        ensures
            forall|x: Shop| #[trigger] r@.contains(x) <==>
                (self.dir.shops@.values().contains(x) && shop_selected(*self, x, user, text_of(query))),
    {
        broadcast use vstd::std_specs::hash::group_hash_axioms;
        let ghost q = text_of(query);
        let lq: Option<String> = match query {
            Some(t) => Some(lowercase(t)),
            None => None,
        };
        let mut r: Vec<Shop> = Vec::new();
        let ghost all = self.dir.shops@.values();
        let ghost vals = vstd::std_specs::hash::spec_values_iter(&self.dir.shops).remaining();
        proof {
            assert(vals.unref().to_set() == all);
        }
        for s in it: self.dir.shops.values()
            invariant
                all == self.dir.shops@.values(),
                vals == vstd::std_specs::hash::spec_values_iter(&self.dir.shops).remaining(),
                it.seq() == vals,
                vals.unref().to_set() == all,
                q == text_of(query),
                lq matches Some(l) ==> (q matches Some(t) && l@ == lowercased(t)),
                lq is None ==> q is None,
                forall|x: Shop| #[trigger] r@.contains(x) <==>
                    (exists|k: int| 0 <= k < it.index() && *vals[k] == x) && shop_selected(*self, x, user, q),
        {
            let ghost before = r@;
            proof {
                assert(*vals[it.index()] == *s);
            }
            let user_ok: bool = match user {
                Some(u) => s.owner == u || match self.subscription_find_active(s.id, u) {
                    Ok(found) => found.is_some(),
                    Err(_) => false,
                },
                None => true,
            };
            let query_ok: bool = match &lq {
                Some(l) => {
                    let name = lowercase(s.name.as_str());
                    contains_text(name.as_str(), l.as_str())
                },
                None => true,
            };
            proof {
                assert(user_ok && query_ok <==> shop_selected(*self, *s, user, q));
            }
            if user_ok && query_ok {
                r.push(s.duplicate());
            }
            proof {
                assert forall|x: Shop| #[trigger] r@.contains(x) <==>
                    (exists|k: int| 0 <= k < it.index() + 1 && *vals[k] == x) && shop_selected(*self, x, user, q) by {
                    if r@.len() > 0 {
                        crate::store::lemma_contains_last(r@, x);
                    }
                    if exists|k: int| 0 <= k < it.index() + 1 && *vals[k] == x {
                        let k = choose|k: int| 0 <= k < it.index() + 1 && *vals[k] == x;
                        if k < it.index() {
                            assert(exists|k2: int| 0 <= k2 < it.index() && *vals[k2] == x);
                        }
                    }
                    if r@.len() > before.len() {
                        assert(r@.drop_last() == before);
                    } else {
                        assert(r@ == before);
                    }
                }
            }
        }
        proof {
            assert forall|x: Shop| #[trigger] all.contains(x) implies (exists|k: int| 0 <= k < vals.len() && *vals[k] == x) by {
                assert(vals.unref().to_set().contains(x));
                assert(vals.unref().contains(x));
                let k = choose|k: int| 0 <= k < vals.unref().len() && vals.unref()[k] == x;
            }
            assert forall|x: Shop| (exists|k: int| 0 <= k < vals.len() && *vals[k] == x) implies #[trigger] all.contains(x) by {
                let k = choose|k: int| 0 <= k < vals.len() && *vals[k] == x;
                assert(vals.unref()[k] == x);
                assert(vals.unref().contains(x));
                assert(vals.unref().to_set().contains(x));
            }
        }
        r
    }
}

/// Two sequences with the same elements counted alike have the same members.
proof fn lemma_same_members<A>(a: Seq<A>, b: Seq<A>)
    requires
        a.to_multiset() == b.to_multiset(),
    ensures
        forall|x: A| #[trigger] a.contains(x) <==> b.contains(x),
{
    assert forall|x: A| #[trigger] a.contains(x) <==> b.contains(x) by {
        vstd::seq_lib::to_multiset_contains(a, x);
        vstd::seq_lib::to_multiset_contains(b, x);
    }
}

/// Why `user` may not change shop `id` (the kind of error), or `None` when
/// they own it.
pub open spec fn owner_denial(store: MemStore, id: ShopId, user: UserId) -> Option<nat> {
    if !store.has_shop(id) {
        Some(0)
    } else if store.shop(id).owner != user {
        Some(1)
    } else {
        None
    }
}

/// Why `user` may not read shop `id` (the kind of error), or `None` when
/// they own it or have an active subscription to it.
pub open spec fn read_denial(store: MemStore, id: ShopId, user: UserId) -> Option<nat> {
    if !store.has_shop(id) {
        Some(0)
    } else if store.shop(id).owner == user || subscribed(store, id, user) {
        None
    } else {
        Some(1)
    }
}

/// Whether one of the stored parts is registered to `shop`.
pub open spec fn shop_has_parts(store: MemStore, shop: ShopId) -> bool {
    exists|p: Part| #[trigger] store.parts@.values().contains(p) && p.shop == Some(shop)
}

/// `ids` are the parts to register with `part` at `time`: the parts
/// attached below it then, in some order, followed by `part` itself.
pub open spec fn register_list(store: MemStore, part: PartId, time: Timestamp, ids: Seq<PartId>) -> bool {
    &&& store.has_part(part)
    &&& first_where(store.attachments@, part_active_at(part, time)) is None
    &&& ids.len() > 0
    &&& ids.last() == part
    &&& exists|atts: Seq<Attachment>| #[trigger] atts.to_multiset()
        == store.attachments@.filter(in_subassembly(store.part(part).what, part, time)).to_multiset()
        && ids.drop_last() == atts.map_values(|a: Attachment| a.part_id)
}

/// Registering `part` moved `ids` (the parts to register with it at some
/// time) to `shop`, and `r` reports those parts.
pub open spec fn moved_parts(old: MemStore, new: MemStore, part: PartId, shop: Option<ShopId>, r: Summary) -> bool {
    &&& new.has_part(part)
    &&& new.part(part).shop == shop
    &&& exists|ids: Seq<PartId>, t: Timestamp| #[trigger] register_list(old, part, t, ids)
        && parts_shop_set(old, new, ids, shop)
        && r.parts@ == shop_changes(old, ids, shop)
        && r.activities@.len() == 0 && r.attachments@.len() == 0 && r.usages@.len() == 0
        && r.services@.len() == 0 && r.plans@.len() == 0 && r.shops@.len() == 0
}

/// The parts to register together with `part` at `time`: those attached
/// below it, and `part` itself; `BadRequest` when `part` is attached.
pub fn parts_for_register_at<S: Session>(part_id: PartId, session: &S, time: Timestamp, store: &MemStore)
    -> (r: Result<Vec<PartId>, Error>)
    requires
        store.wf(),
    ensures
        match part_denial(*store, session.session_user(), session.session_shop(), part_id) {
            Some(k) => r matches Err(e) && e.kind() == k,
            None => if first_where(store.attachments@, part_active_at(part_id, time)) is Some {
                r matches Err(e) && e is BadRequest
            } else {
                r matches Ok(v) && register_list(*store, part_id, time, v@)
            },
        },
{
    part_id.checkuser(session, store)?;
    if is_attached(part_id, time, store)? {
        return Err(Error::BadRequest("You can only register parts which are not attached".to_owned()));
    }
    let mut parts = subparts(part_id, time, store)?;
    let ghost sub = parts@;
    parts.push(part_id);
    proof {
        assert(parts@.drop_last() == sub);
    }
    Ok(parts)
}

/// The parts to register together with `part` now: those attached below
/// it, and `part` itself; `BadRequest` when `part` is attached now.
pub fn parts_for_register<S: Session>(part_id: PartId, session: &S, store: &MemStore) -> (r: Result<Vec<PartId>, Error>)
    requires
        store.wf(),
    ensures
        match part_denial(*store, session.session_user(), session.session_shop(), part_id) {
            Some(k) => r matches Err(e) && e.kind() == k,
            None => (r matches Err(e) ==> e is BadRequest)
                && (r matches Ok(v) ==> exists|t: Timestamp| #[trigger] register_list(*store, part_id, t, v@)),
        },
{
    let time = now_utc();
    parts_for_register_at(part_id, session, time, store)
}

impl ShopId {
    /// Get a shop by ID, checking that the user has access to it (ownership only)
    pub fn get(id: i32, user: UserId, store: &MemStore) -> (r: Result<ShopId, Error>)
        ensures
            match owner_denial(*store, ShopId(id), user) {
                Some(k) => r matches Err(e) && e.kind() == k,
                None => r == Ok::<ShopId, Error>(ShopId(id)),
            },
    {
        ShopId(id).checkowner(user, store)
    }

    /// Get a shop by ID for read access (owner, or active subscriber)
    pub fn get_for_read(id: i32, user: UserId, store: &MemStore) -> (r: Result<ShopId, Error>)
        ensures
            match read_denial(*store, ShopId(id), user) {
                Some(k) => r matches Err(e) && e.kind() == k,
                None => r == Ok::<ShopId, Error>(ShopId(id)),
            },
    {
        ShopId(id).check_read_access(user, store)
    }

    /// Check if the user owns this shop
    pub fn checkowner(self, user: UserId, store: &MemStore) -> (r: Result<ShopId, Error>)
        ensures
            match owner_denial(*store, self, user) {
                Some(k) => r matches Err(e) && e.kind() == k,
                None => r == Ok::<ShopId, Error>(self),
            },
    {
        let shop = store.shop_get(self)?;
        user.check_owner(shop.owner, "Access denied to shop".to_owned())?;
        Ok(self)
    }

    /// Check if the user has read access to this shop (owner, or active subscriber)
    pub fn check_read_access(self, user: UserId, store: &MemStore) -> (r: Result<ShopId, Error>)
        ensures
            match read_denial(*store, self, user) {
                Some(k) => r matches Err(e) && e.kind() == k,
                None => r == Ok::<ShopId, Error>(self),
            },
    {
        let shop = store.shop_get(self)?;
        let is_owner = shop.owner == user;
        if is_owner || self.has_subscription(user, store)? {
            return Ok(self);
        }
        Err(Error::Forbidden("Access denied to shop".to_owned()))
    }

    /// Create a new shop
    pub fn create(name: String, description: Option<String>, auto_approve: bool, user: UserId, store: &mut MemStore)
        -> (r: Result<Shop, Error>)
        requires
            old(store).wf(),
        ensures
            shops_frame(*old(store), *final(store)),
            old(store).dir.next_shop_id == i32::MAX ==> (r matches Err(e) && e is AnyFailure) && *final(store) == *old(store),
            old(store).dir.next_shop_id < i32::MAX ==> (r matches Ok(x)
                && x == (Shop { id: ShopId(old(store).dir.next_shop_id), owner: user, name, description, auto_approve,
                    created_at: x.created_at })
                && final(store).dir.shops@ == old(store).dir.shops@.insert(x.id.0, x)
                && final(store).dir.next_shop_id == old(store).dir.next_shop_id + 1),
    {
        store.shop_create(name, description, auto_approve, user)
    }

    /// Update an existing shop
    pub fn update(self, name: String, description: Option<String>, auto_approve: bool, user: UserId, store: &mut MemStore)
        -> (r: Result<Shop, Error>)
        requires
            old(store).wf(),
        ensures
            match owner_denial(*old(store), self, user) {
                Some(k) => (r matches Err(e) && e.kind() == k) && *final(store) == *old(store),
                None => r matches Ok(x)
                    && x == (Shop { name, description, auto_approve, ..old(store).shop(self) })
                    && shops_frame(*old(store), *final(store))
                    && final(store).dir.next_shop_id == old(store).dir.next_shop_id
                    && final(store).dir.shops@ == old(store).dir.shops@.insert(self.0, x),
            },
    {
        self.checkowner(user, store)?;
        store.shop_update(self, name, description, auto_approve)
    }

    /// Delete a shop (only if it has no bikes)
    pub fn delete(self, user: UserId, store: &mut MemStore) -> (r: Result<ShopId, Error>)
        requires
            old(store).wf(),
        ensures
            match owner_denial(*old(store), self, user) {
                Some(k) => (r matches Err(e) && e.kind() == k) && *final(store) == *old(store),
                None => if shop_has_parts(*old(store), self) {
                    (r matches Err(e) && e is Conflict) && *final(store) == *old(store)
                } else {
                    r == Ok::<ShopId, Error>(self)
                        && shops_frame(*old(store), *final(store))
                        && final(store).dir.next_shop_id == old(store).dir.next_shop_id
                        && final(store).dir.shops@ == old(store).dir.shops@.remove(self.0)
                },
            },
    {
        self.checkowner(user, store)?;
        let parts = store.shop_get_parts(self)?;
        if parts.len() > 0 {
            proof {
                assert(parts@.contains(parts@[0]));
            }
            return Err(Error::Conflict("Shop still has bikes assigned".to_owned()));
        }
        proof {
            assert forall|p: Part| #[trigger] store.parts@.values().contains(p) implies p.shop != Some(self) by {
                if p.shop == Some(self) {
                    assert(parts@.contains(p));
                }
            }
        }
        store.shop_delete(self)?;
        Ok(self)
    }

    /// Register a part (bike) to this shop, together with the parts
    /// attached below it now. Can be done by the shop owner or any user
    /// with an active subscription, for a part the session may change.
    /// Returns a summary with the registered parts.
    pub fn register_part<S: Session>(self, part_id: PartId, session: &S, store: &mut MemStore) -> (r: Result<Summary, Error>)
        requires
            old(store).wf(),
        ensures
            match read_denial(*old(store), self, session.session_user()) {
                Some(k) => (r matches Err(e) && e.kind() == k) && *final(store) == *old(store),
                None => match part_denial(*old(store), session.session_user(), session.session_shop(), part_id) {
                    Some(k) => (r matches Err(e) && e.kind() == k) && *final(store) == *old(store),
                    None => (r matches Err(e) ==> (e is BadRequest && *final(store) == *old(store)))
                        && (r matches Ok(sum) ==> moved_parts(*old(store), *final(store), part_id, Some(self), sum)),
                },
            },
    {
        let user = session.user_id();
        self.check_read_access(user, store)?;
        let parts = parts_for_register(part_id, session, store)?;
        let ghost s0 = *store;
        let ghost ids = parts@;
        let registered = store.parts_register_shop(self, parts)?;
        let mut sum = Summary::empty();
        sum.parts = registered;
        proof {
            let t = choose|t: Timestamp| #[trigger] register_list(s0, part_id, t, ids);
            assert(register_list(s0, part_id, t, ids) && parts_shop_set(s0, *store, ids, Some(self))
                && sum.parts@ == shop_changes(s0, ids, Some(self)));
            assert(ids[ids.len() - 1] == part_id);
            assert(ids.contains(part_id));
            assert(store.parts@.contains_key(part_id.0));
        }
        Ok(sum)
    }

    fn has_subscription(self, user: UserId, store: &MemStore) -> (r: Result<bool, Error>)
        ensures
            r == Ok::<bool, Error>(subscribed(*store, self, user)),
    {
        Ok(store.subscription_find_active(self, user)?.is_some())
    }

    /// Unregister a part (bike) from its shop, together with the parts
    /// attached below it now; can be done by the part's owner or the owner
    /// of the shop the session acts for. Returns a summary with those parts.
    pub fn unregister_part<S: Session>(self, part_id: PartId, session: &S, store: &mut MemStore) -> (r: Result<Summary, Error>)
        requires
            old(store).wf(),
        ensures
            match part_denial(*old(store), session.session_user(), session.session_shop(), part_id) {
                Some(k) => (r matches Err(e) && e.kind() == k) && *final(store) == *old(store),
                None => (r matches Err(e) ==> (e is BadRequest && *final(store) == *old(store)))
                    && (r matches Ok(sum) ==> moved_parts(*old(store), *final(store), part_id, None, sum)),
            },
    {
        let parts = parts_for_register(part_id, session, store)?;
        let ghost s0 = *store;
        let ghost ids = parts@;
        let unregistered = store.parts_unregister_shop(parts)?;
        let mut sum = Summary::empty();
        sum.parts = unregistered;
        proof {
            let t = choose|t: Timestamp| #[trigger] register_list(s0, part_id, t, ids);
            assert(register_list(s0, part_id, t, ids) && parts_shop_set(s0, *store, ids, None)
                && sum.parts@ == shop_changes(s0, ids, None));
            assert(ids[ids.len() - 1] == part_id);
            assert(ids.contains(part_id));
            assert(store.parts@.contains_key(part_id.0));
        }
        Ok(sum)
    }

    /// Get all parts registered to this shop, for its owner, in no
    /// particular order.
    pub fn get_parts(self, user: UserId, store: &MemStore) -> (r: Result<Vec<Part>, Error>)
        ensures
            match owner_denial(*store, self, user) {
                Some(k) => r matches Err(e) && e.kind() == k,
                None => r matches Ok(v) && forall|p: Part| #[trigger] v@.contains(p) <==>
                    (store.parts@.values().contains(p) && p.shop == Some(self)),
            },
    {
        self.check_owner(user, store)?;
        store.shop_get_parts(self)
    }

    /// Read a shop from the database; everybody may.
    pub fn read(self, store: &MemStore) -> (r: Result<Shop, Error>)
        ensures
            match r {
                Ok(s) => store.has_shop(self) && s == store.shop(self),
                Err(e) => !store.has_shop(self) && e is NotFound,
            },
    {
        store.shop_get(self)
    }
}

/// `id` is the owner of a shop of `shops`, or subscribed to such a shop
/// that `user` owns.
pub open spec fn wanted_user(store: MemStore, shops: Seq<Shop>, user: UserId, id: UserId) -> bool {
    exists|i: int| 0 <= i < shops.len() && #[trigger] wanted_by(store, shops[i], user, id)
}

/// `id` owns `s`, or has a subscription to `s` and `user` owns it.
pub open spec fn wanted_by(store: MemStore, s: Shop, user: UserId, id: UserId) -> bool {
    s.owner == id || (s.owner == user && exists|sub: ShopSubscription| #[trigger] store.dir.subscriptions@.contains(sub)
        && sub.shop_id == s.id && sub.user_id == id)
}

/// No two users in `v` share an id.
pub open spec fn unique_ids(v: Seq<UserPublic>) -> bool {
    forall|i: int, j: int| 0 <= i < v.len() && 0 <= j < v.len() && v[i].id == v[j].id ==> i == j
}

/// Add `u` to `v` unless a user with its id is there already.
fn add_public(v: &mut Vec<UserPublic>, u: UserPublic)
    requires
        unique_ids(old(v)@),
        forall|x: UserPublic| #[trigger] old(v)@.contains(x) && x.id == u.id ==> x == u,
    ensures
        unique_ids(final(v)@),
        forall|x: UserPublic| #[trigger] final(v)@.contains(x) <==> old(v)@.contains(x) || x == u,
{
    let mut i: usize = 0;
    while i < v.len()
        invariant
            0 <= i <= v@.len(),
            v@ == old(v)@,
            unique_ids(v@),
            forall|x: UserPublic| #[trigger] v@.contains(x) && x.id == u.id ==> x == u,
            forall|k: int| 0 <= k < i ==> (#[trigger] v@[k]).id != u.id,
        decreases v@.len() - i,
    {
        if v[i].id == u.id {
            proof { assert(v@.contains(v@[i as int])); }
            return;
        }
        i = i + 1;
    }
    let ghost before = v@;
    v.push(u);
    proof {
        assert forall|x: UserPublic| #[trigger] v@.contains(x) <==> before.contains(x) || x == u by {
            if v@.contains(x) {
                let k = choose|k: int| 0 <= k < v@.len() && v@[k] == x;
                if k < before.len() {
                    assert(before[k] == x);
                }
            }
            if before.contains(x) {
                let k = choose|k: int| 0 <= k < before.len() && before[k] == x;
                assert(v@[k] == x);
            }
            if x == u {
                assert(v@[before.len() as int] == u);
            }
        }
    }
}

impl Shop {
    /// Get all shops for a user: those they own or have an active
    /// subscription to, by name.
    pub fn get_all_for_user(user: &UserId, store: &MemStore) -> (r: Result<Vec<Shop>, Error>)
        ensures
            r matches Ok(v) && sorted_by_name(v@) && forall|s: Shop| #[trigger] v@.contains(s) <==>
                (store.dir.shops@.values().contains(s) && shop_selected(*store, s, Some(*user), None)),
    {
        store.shops_get_all_for_user(*user)
    }

    /// Search for shops by name (for users to find shops to request
    /// registration), case ignored, by name.
    pub fn search(query: &str, store: &MemStore) -> (r: Result<Vec<Shop>, Error>)
        ensures
            r matches Ok(v) && sorted_by_name(v@) && forall|s: Shop| #[trigger] v@.contains(s) <==>
                (store.dir.shops@.values().contains(s) && shop_selected(*store, s, None, Some(query@))),
    {
        store.shops_search(query)
    }

    /// The owners of `shops`, and the subscribers of those shops `user`
    /// owns, each once, in no particular order; `NotFound` when one of them
    /// is not stored.
    pub fn get_users(shops: &Vec<Shop>, user: &UserId, store: &MemStore) -> (r: Result<Vec<UserPublic>, Error>)
        requires
            store.wf(),
        ensures
            (forall|id: UserId| #[trigger] wanted_user(*store, shops@, *user, id) ==> store.has_user(id)) <==> r is Ok,
            r matches Err(e) ==> e is NotFound,
            r matches Ok(v) ==> unique_ids(v@) && forall|u: UserPublic| #[trigger] v@.contains(u) <==>
                (wanted_user(*store, shops@, *user, u.id) && u == public_of(store.user(u.id))),
    {
        let mut result: Vec<UserPublic> = Vec::new();
        let mut i: usize = 0;
        while i < shops.len()
            invariant
                0 <= i <= shops@.len(),
                store.wf(),
                unique_ids(result@),
                forall|id: UserId| #[trigger] wanted_user(*store, shops@.take(i as int), *user, id) ==> store.has_user(id),
                forall|u: UserPublic| #[trigger] result@.contains(u) <==>
                    (wanted_user(*store, shops@.take(i as int), *user, u.id) && u == public_of(store.user(u.id))),
            decreases shops@.len() - i,
        {
            let shop = &shops[i];
            let ghost before = shops@.take(i as int);
            let ghost upto = shops@.take(i + 1);
            proof {
                assert forall|id: UserId| #[trigger] wanted_user(*store, upto, *user, id)
                    <==> wanted_user(*store, before, *user, id) || wanted_by(*store, *shop, *user, id) by {
                    if wanted_user(*store, upto, *user, id) {
                        let k = choose|k: int| 0 <= k < upto.len() && #[trigger] wanted_by(*store, upto[k], *user, id);
                        if k < i {
                            assert(before[k] == upto[k]);
                        }
                    }
                    if wanted_user(*store, before, *user, id) {
                        let k = choose|k: int| 0 <= k < before.len() && #[trigger] wanted_by(*store, before[k], *user, id);
                        assert(before[k] == upto[k]);
                    }
                    if wanted_by(*store, *shop, *user, id) {
                        assert(upto[i as int] == *shop);
                    }
                }
            }
            let ghost r0 = result@;
            let owner = match shop.owner.get_public(store) {
                Ok(o) => o,
                Err(e) => {
                    proof {
                        assert(shops@[i as int] == *shop);
                        assert(wanted_by(*store, shops@[i as int], *user, shop.owner));
                        assert(wanted_user(*store, shops@, *user, shop.owner));
                    }
                    return Err(e);
                },
            };
            add_public(&mut result, owner);
            if *user == shop.owner {
                let subs = ShopSubscription::get_for_shop(shop.id, store)?;
                proof {
                    lemma_same_members(subs@, store.dir.subscriptions@.filter(crate::subscription::of_shop(shop.id)));
                    crate::store::lemma_filter_members(store.dir.subscriptions@, crate::subscription::of_shop(shop.id));
                }
                let mut j: usize = 0;
                while j < subs.len()
                    invariant
                        0 <= j <= subs@.len(),
                        0 <= i < shops@.len(),
                        *shop == shops@[i as int],
                        store.wf(),
                        *user == shop.owner,
                        unique_ids(result@),
                        forall|x: ShopSubscription| #[trigger] subs@.contains(x) <==>
                            store.dir.subscriptions@.contains(x) && x.shop_id == shop.id,
                        forall|u: UserPublic| #[trigger] result@.contains(u) <==>
                            (r0.contains(u) || u == public_of(store.user(shop.owner))
                                || exists|k: int| 0 <= k < j && u == public_of(store.user((#[trigger] subs@[k]).user_id))),
                        forall|k: int| 0 <= k < j ==> store.has_user((#[trigger] subs@[k]).user_id),
                        store.has_user(shop.owner),
                        forall|u: UserPublic| #[trigger] r0.contains(u) ==> u == public_of(store.user(u.id)),
                    decreases subs@.len() - j,
                {
                    let sid = subs[j].user_id;
                    let u = match sid.get_public(store) {
                        Ok(u) => u,
                        Err(e) => {
                            proof {
                                assert(subs@.contains(subs@[j as int]));
                                assert(wanted_by(*store, shops@[i as int], *user, sid));
                                assert(wanted_user(*store, shops@, *user, sid));
                            }
                            return Err(e);
                        },
                    };
                    proof {
                        assert forall|x: UserPublic| #[trigger] result@.contains(x) && x.id == u.id implies x == u by {
                            if r0.contains(x) {
                            } else if x == public_of(store.user(shop.owner)) {
                            } else {
                                let k = choose|k: int| 0 <= k < j && x == public_of(store.user((#[trigger] subs@[k]).user_id));
                            }
                        }
                    }
                    let ghost r1 = result@;
                    add_public(&mut result, u);
                    proof {
                        assert forall|x: UserPublic| #[trigger] result@.contains(x) <==>
                            (r0.contains(x) || x == public_of(store.user(shop.owner))
                                || exists|k: int| 0 <= k < j + 1 && x == public_of(store.user((#[trigger] subs@[k]).user_id))) by {
                            if x == u {
                                assert(x == public_of(store.user(subs@[j as int].user_id)));
                            }
                            if exists|k: int| 0 <= k < j + 1 && x == public_of(store.user((#[trigger] subs@[k]).user_id)) {
                                let k = choose|k: int| 0 <= k < j + 1 && x == public_of(store.user((#[trigger] subs@[k]).user_id));
                                if k < j {
                                    assert(exists|k2: int| 0 <= k2 < j && x == public_of(store.user((#[trigger] subs@[k2]).user_id)));
                                }
                            }
                        }
                    }
                    j = j + 1;
                }
                proof {
                    assert forall|id: UserId| #[trigger] wanted_by(*store, *shop, *user, id) implies store.has_user(id) by {
                        if id != shop.owner {
                            let sub = choose|sub: ShopSubscription| #[trigger] store.dir.subscriptions@.contains(sub)
                                && sub.shop_id == shop.id && sub.user_id == id;
                            assert(subs@.contains(sub));
                            let k = choose|k: int| 0 <= k < subs@.len() && subs@[k] == sub;
                        }
                    }
                    assert forall|u: UserPublic| #[trigger] result@.contains(u) <==>
                        (wanted_user(*store, upto, *user, u.id) && u == public_of(store.user(u.id))) by {
                        if exists|k: int| 0 <= k < subs@.len() && u == public_of(store.user((#[trigger] subs@[k]).user_id)) {
                            let k = choose|k: int| 0 <= k < subs@.len() && u == public_of(store.user((#[trigger] subs@[k]).user_id));
                            assert(subs@.contains(subs@[k]));
                            assert(wanted_by(*store, *shop, *user, subs@[k].user_id));
                        }
                        if wanted_by(*store, *shop, *user, u.id) && u == public_of(store.user(u.id)) && u.id != shop.owner {
                            let sub = choose|sub: ShopSubscription| #[trigger] store.dir.subscriptions@.contains(sub)
                                && sub.shop_id == shop.id && sub.user_id == u.id;
                            assert(subs@.contains(sub));
                            let k = choose|k: int| 0 <= k < subs@.len() && subs@[k] == sub;
                        }
                    }
                }
            } else {
                proof {
                    assert forall|id: UserId| #[trigger] wanted_by(*store, *shop, *user, id) implies id == shop.owner by {}
                }
            }
            i = i + 1;
        }
        proof { assert(shops@.take(shops@.len() as int) =~= shops@); }
        Ok(result)
    }
}

} // verus!
