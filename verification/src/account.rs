//! What a user has: statistics, the summary of everything they see, and
//! deleting all of it.

use vstd::prelude::*;
use crate::activity::Activity;
use crate::attachment::{Attachment, AttachmentDetail};
use crate::error::Error;
use crate::part::Part;
use crate::purge::{purge_frame_activities, purge_frame_attachments, purge_frame_services, purge_frame_plans,
    purge_frame_parts, purge_frame_usages};
use crate::service::{Service, ServiceView, service_views, of_service_part};
use crate::serviceplan::{ServicePlan, for_part_plan, for_user_plan};
use crate::shop::{Shop, ShopId, ShopWithOwner};
use crate::store::MemStore;
use crate::summary::Summary;
use crate::usage::Usage;
use crate::user::{Stat, UserId};

verus! {

/// The plans of each of `parts`, one part after the other.
pub open spec fn part_plans(store: MemStore, parts: Seq<Part>) -> Seq<ServicePlan>
    decreases parts.len(),
{
    if parts.len() == 0 {
        Seq::empty()
    } else {
        part_plans(store, parts.drop_last()) + store.plans@.filter(for_part_plan(parts.last().id))
    }
}

/// The services of each of `parts`, one part after the other.
pub open spec fn part_services(store: MemStore, parts: Seq<Part>) -> Seq<ServiceView>
    decreases parts.len(),
{
    if parts.len() == 0 {
        Seq::empty()
    } else {
        part_services(store, parts.drop_last()) + service_views(store.services@.filter(of_service_part(parts.last().id)))
    }
}

/// What the summary of `parts` holds besides its usages and attachments:
/// the parts themselves, the user's generic plans followed by the plans
/// of each part, and the services of each part.
pub open spec fn part_summary(store: MemStore, user: UserId, parts: Seq<Part>, s: Summary) -> bool {
    &&& part_contents(store, user, parts, s)
    &&& s.activities@.len() == 0
    &&& s.shops@.len() == 0
}

/// The parts, plans, services, attachments and usages of a summary of
/// `parts` (see `part_summary`).
pub open spec fn part_contents(store: MemStore, user: UserId, parts: Seq<Part>, s: Summary) -> bool {
    &&& s.parts@ == parts
    &&& s.plans@ == store.plans@.filter(for_user_plan(user)) + part_plans(store, parts)
    &&& service_views(s.services@) == part_services(store, parts)
    &&& forall|i: int| 0 <= i < s.attachments@.len() ==> store.attachments@.contains(#[trigger] s.attachments@[i].a)
        && exists|j: int| 0 <= j < parts.len() && parts[j].id == s.attachments@[i].a.part_id
    &&& forall|a: Attachment| #[trigger] store.attachments@.contains(a) && in_parts(parts, a.part_id)
        ==> exists|k: int| 0 <= k < s.attachments@.len() && s.attachments@[k].a == a
    &&& s.usages@.len() == parts.len() + s.attachments@.len() + s.services@.len()
    &&& forall|u: Usage| #[trigger] s.usages@.contains(u) <==> usage_source(store, parts, s.attachments@, s.services@, u)
}

/// A service of one of `parts` is among the services of `parts`.
proof fn lemma_part_services_member(store: MemStore, parts: Seq<Part>, j: int, x: Service)
    requires
        0 <= j < parts.len(),
        store.services@.contains(x),
        x.part_id == parts[j].id,
    ensures
        part_services(store, parts).contains(x@),
    decreases parts.len(),
{
    let rest = parts.drop_last();
    if j == parts.len() - 1 {
        let f = store.services@.filter(of_service_part(parts.last().id));
        crate::store::lemma_filter_members(store.services@, of_service_part(parts.last().id));
        assert(f.contains(x));
        let k = choose|k: int| 0 <= k < f.len() && f[k] == x;
        let v = service_views(f);
        assert(v[k] == x@);
        let all = part_services(store, rest) + v;
        assert(all[part_services(store, rest).len() + k] == x@);
    } else {
        assert(rest[j] == parts[j]);
        lemma_part_services_member(store, rest, j, x);
        let pre = part_services(store, rest);
        let k = choose|k: int| 0 <= k < pre.len() && pre[k] == x@;
        let all = pre + service_views(store.services@.filter(of_service_part(parts.last().id)));
        assert(all[k] == x@);
    }
}

/// A plan of one of `parts` is among the plans of `parts`.
proof fn lemma_part_plans_member(store: MemStore, parts: Seq<Part>, j: int, x: ServicePlan)
    requires
        0 <= j < parts.len(),
        store.plans@.contains(x),
        x.part == Some(parts[j].id),
    ensures
        part_plans(store, parts).contains(x),
    decreases parts.len(),
{
    let rest = parts.drop_last();
    if j == parts.len() - 1 {
        let f = store.plans@.filter(for_part_plan(parts.last().id));
        crate::store::lemma_filter_members(store.plans@, for_part_plan(parts.last().id));
        assert(f.contains(x));
        let k = choose|k: int| 0 <= k < f.len() && f[k] == x;
        let all = part_plans(store, rest) + f;
        assert(all[part_plans(store, rest).len() + k] == x);
    } else {
        assert(rest[j] == parts[j]);
        lemma_part_plans_member(store, rest, j, x);
        let pre = part_plans(store, rest);
        let k = choose|k: int| 0 <= k < pre.len() && pre[k] == x;
        let all = pre + store.plans@.filter(for_part_plan(parts.last().id));
        assert(all[k] == x);
    }
}

/// Whether one of `parts` has the id `pid`.
pub open spec fn in_parts(parts: Seq<Part>, pid: crate::part::PartId) -> bool {
    exists|j: int| 0 <= j < parts.len() && parts[j].id == pid
}

/// Whether `u` is the usage of one of `parts`, of an attachment of the
/// summary, or of one of its services (each as stored, or zero).
pub open spec fn usage_source(store: MemStore, parts: Seq<Part>, atts: Seq<AttachmentDetail>, servs: Seq<Service>,
    u: Usage) -> bool {
    ||| exists|j: int| 0 <= j < parts.len() && u == store.usage_or_zero(#[trigger] parts[j].usage)
    ||| exists|k: int| 0 <= k < atts.len() && u == store.usage_or_zero((#[trigger] atts[k]).a.usage)
    ||| exists|k: int| 0 <= k < servs.len() && u == store.usage_or_zero((#[trigger] servs[k]).usage)
}

/// Adding a part with its attachments and services, and their usages,
/// keeps the usages those of the parts, attachments and services.
proof fn lemma_usage_step(store: MemStore, pre: Seq<Part>, p: Part, a0: Seq<AttachmentDetail>,
    atts: Seq<AttachmentDetail>, s0: Seq<Service>, servs: Seq<Service>, us0: Seq<Usage>, ua: Seq<Usage>, usv: Seq<Usage>)
    requires
        forall|x: Usage| #[trigger] us0.contains(x) <==> usage_source(store, pre, a0, s0, x),
        ua.len() == atts.len(),
        forall|q: int| 0 <= q < ua.len() ==> #[trigger] ua[q] == store.usage_or_zero(atts[q].a.usage),
        usv == servs.map_values(|x: Service| store.usage_or_zero(x.usage)),
    ensures
        forall|x: Usage| #[trigger] (us0.push(store.usage_or_zero(p.usage)) + ua + usv).contains(x)
            <==> usage_source(store, pre.push(p), a0 + atts, s0 + servs, x),
{
    let all = us0.push(store.usage_or_zero(p.usage)) + ua + usv;
    let pp = pre.push(p);
    let aa = a0 + atts;
    let ss = s0 + servs;
    assert forall|x: Usage| #[trigger] all.contains(x) implies usage_source(store, pp, aa, ss, x) by {
        let m = choose|m: int| 0 <= m < all.len() && all[m] == x;
        if m < us0.len() {
            assert(us0[m] == x);
            assert(us0.contains(x));
            if exists|j: int| 0 <= j < pre.len() && x == store.usage_or_zero(#[trigger] pre[j].usage) {
                let j = choose|j: int| 0 <= j < pre.len() && x == store.usage_or_zero(#[trigger] pre[j].usage);
                assert(pp[j] == pre[j]);
            } else if exists|k: int| 0 <= k < a0.len() && x == store.usage_or_zero((#[trigger] a0[k]).a.usage) {
                let k = choose|k: int| 0 <= k < a0.len() && x == store.usage_or_zero((#[trigger] a0[k]).a.usage);
                assert(aa[k] == a0[k]);
            } else {
                let k = choose|k: int| 0 <= k < s0.len() && x == store.usage_or_zero((#[trigger] s0[k]).usage);
                assert(ss[k] == s0[k]);
            }
        } else if m == us0.len() {
            assert(pp[pre.len() as int] == p);
        } else if m < us0.len() + 1 + ua.len() {
            let q = m - us0.len() - 1;
            assert(ua[q] == x);
            assert(aa[a0.len() + q] == atts[q]);
        } else {
            let q = m - us0.len() - 1 - ua.len();
            assert(usv[q] == x);
            assert(ss[s0.len() + q] == servs[q]);
        }
    }
    assert forall|x: Usage| usage_source(store, pp, aa, ss, x) implies #[trigger] all.contains(x) by {
        if exists|j: int| 0 <= j < pp.len() && x == store.usage_or_zero(#[trigger] pp[j].usage) {
            let j = choose|j: int| 0 <= j < pp.len() && x == store.usage_or_zero(#[trigger] pp[j].usage);
            if j < pre.len() {
                assert(pp[j] == pre[j]);
                assert(usage_source(store, pre, a0, s0, x));
                assert(us0.contains(x));
                let m = choose|m: int| 0 <= m < us0.len() && us0[m] == x;
                assert(all[m] == x);
            } else {
                assert(all[us0.len() as int] == x);
            }
        } else if exists|k: int| 0 <= k < aa.len() && x == store.usage_or_zero((#[trigger] aa[k]).a.usage) {
            let k = choose|k: int| 0 <= k < aa.len() && x == store.usage_or_zero((#[trigger] aa[k]).a.usage);
            if k < a0.len() {
                assert(aa[k] == a0[k]);
                assert(usage_source(store, pre, a0, s0, x));
                assert(us0.contains(x));
                let m = choose|m: int| 0 <= m < us0.len() && us0[m] == x;
                assert(all[m] == x);
            } else {
                let q = k - a0.len();
                assert(aa[k] == atts[q]);
                assert(all[us0.len() + 1 + q] == ua[q]);
            }
        } else {
            let k = choose|k: int| 0 <= k < ss.len() && x == store.usage_or_zero((#[trigger] ss[k]).usage);
            if k < s0.len() {
                assert(ss[k] == s0[k]);
                assert(usage_source(store, pre, a0, s0, x));
                assert(us0.contains(x));
                let m = choose|m: int| 0 <= m < us0.len() && us0[m] == x;
                assert(all[m] == x);
            } else {
                let q = k - s0.len();
                assert(ss[k] == servs[q]);
                assert(all[us0.len() + 1 + ua.len() + q] == usv[q]);
            }
        }
    }
}

/// Adding a part with every stored attachment of it keeps every stored
/// attachment of the parts listed.
proof fn lemma_attachments_step(store: MemStore, pre: Seq<Part>, p: Part, a0: Seq<AttachmentDetail>,
    atts: Seq<AttachmentDetail>)
    requires
        forall|a: Attachment| #[trigger] store.attachments@.contains(a) && in_parts(pre, a.part_id)
            ==> exists|k: int| 0 <= k < a0.len() && a0[k].a == a,
        forall|a: Attachment| #[trigger] store.attachments@.contains(a) && a.part_id == p.id
            ==> exists|q: int| 0 <= q < atts.len() && atts[q].a == a,
    ensures
        forall|a: Attachment| #[trigger] store.attachments@.contains(a) && in_parts(pre.push(p), a.part_id)
            ==> exists|k: int| 0 <= k < (a0 + atts).len() && (a0 + atts)[k].a == a,
{
    let pp = pre.push(p);
    let aa = a0 + atts;
    assert forall|a: Attachment| #[trigger] store.attachments@.contains(a) && in_parts(pp, a.part_id)
        implies exists|k: int| 0 <= k < aa.len() && aa[k].a == a by {
        let j = choose|j: int| 0 <= j < pp.len() && pp[j].id == a.part_id;
        if j < pre.len() {
            assert(pp[j] == pre[j]);
            assert(in_parts(pre, a.part_id));
            let k = choose|k: int| 0 <= k < a0.len() && a0[k].a == a;
            assert(aa[k] == a0[k]);
        } else {
            assert(pp[j] == p);
            let q = choose|q: int| 0 <= q < atts.len() && atts[q].a == a;
            assert(aa[a0.len() + q] == atts[q]);
        }
    }
}

/// Whether the stored part `pid` belongs to `user`.
pub open spec fn owned_part(store: MemStore, user: UserId, pid: crate::part::PartId) -> bool {
    store.has_part(pid) && store.part(pid).owner == user
}

impl UserId {
    /// The user with the number of their parts and activities; `NotFound`
    /// when the user is not stored.
    pub fn get_stat(&self, store: &MemStore) -> (r: Result<Stat, Error>)
        ensures
            !store.has_user(*self) ==> (r matches Err(e) && e is NotFound),
            store.has_user(*self) ==> (r matches Ok(st)
                && st.user == store.user(*self)
                && st.activities == store.activities@.filter(|a: Activity| a.user_id == *self).len() as i64
                && exists|v: Seq<Part>| (forall|p: Part| #[trigger] v.contains(p) <==>
                    (store.parts@.values().contains(p) && p.owner == *self)) && st.parts == v.len() as i64),
    {
        let user = self.read(store)?;
        let parts = Part::get_all(self, store)?;
        let activities = Activity::get_all(self, store)?;
        let np = parts.len();
        let na = activities.len();
        Ok(Stat { user, parts: np as i64, activities: na as i64 })
    }

    /// Everything the user sees: their activities, the shops they own or
    /// subscribe to (with their owners), and the parts, attachments,
    /// usages, services and plans of their own parts, or of the parts of
    /// `shop` when given (for its owner).
    pub fn get_summary(&self, shop: Option<ShopId>, store: &MemStore) -> (r: Result<Summary, Error>)
        requires
            store.wf(),
        ensures
            r matches Ok(s) ==> s.activities@ == store.activities@.filter(|a: Activity| a.user_id == *self)
                && crate::shop::sorted_by_name(shops_of(s.shops@))
                && (forall|x: Shop| #[trigger] shops_of(s.shops@).contains(x) <==>
                    (store.dir.shops@.values().contains(x) && crate::shop::shop_selected(*store, x, Some(*self), None)))
                && (forall|i: int| 0 <= i < s.shops@.len() ==> store.has_user((#[trigger] s.shops@[i]).owner)
                    && s.shops@[i].owner_firstname == store.user(s.shops@[i].owner).firstname
                    && s.shops@[i].owner_name == store.user(s.shops@[i].owner).name)
                && exists|parts: Seq<Part>| {
                    &&& (shop is None ==> forall|p: Part| #[trigger] parts.contains(p) <==>
                        (store.parts@.values().contains(p) && p.owner == *self))
                    &&& (shop matches Some(sh) ==> forall|p: Part| #[trigger] parts.contains(p) <==>
                        (store.parts@.values().contains(p) && p.shop == Some(sh)))
                    &&& part_contents(*store, *self, parts, s)
                },
            r matches Err(e) ==> e is NotFound || e is Forbidden,
            shop is None ==> (r is Ok <==> owners_stored(*store, *self)),
            shop matches Some(sh) ==> (r is Ok <==>
                (owners_stored(*store, *self) && store.has_shop(sh) && store.shop(sh).owner == *self)),
    {
        let activities = Activity::get_all(self, store)?;
        let shops = Shop::get_all_for_user(self, store)?;
        let mut with_owner: Vec<ShopWithOwner> = Vec::new();
        let mut i: usize = 0;
        while i < shops.len()
            invariant
                0 <= i <= shops@.len(),
                with_owner@.len() == i,
                forall|k: int| 0 <= k < i ==> #[trigger] shop_of(with_owner@[k]) == shops@[k],
                forall|k: int| 0 <= k < i ==> store.has_user((#[trigger] with_owner@[k]).owner)
                    && with_owner@[k].owner_firstname == store.user(with_owner@[k].owner).firstname
                    && with_owner@[k].owner_name == store.user(with_owner@[k].owner).name,
                forall|x: Shop| #[trigger] shops@.contains(x) ==> store.dir.shops@.values().contains(x),
                forall|x: Shop| #[trigger] shops@.contains(x) <==>
                    (store.dir.shops@.values().contains(x) && crate::shop::shop_selected(*store, x, Some(*self), None)),
                forall|k: int| 0 <= k < i ==> store.has_user((#[trigger] shops@[k]).owner),
            decreases shops@.len() - i,
        {
            let s = shops[i].duplicate();
            let owner = match store.user_get(s.owner) {
                Ok(o) => o,
                Err(e) => {
                    proof {
                        assert(shops@.contains(shops@[i as int]));
                    }
                    return Err(e);
                },
            };
            with_owner.push(ShopWithOwner::from_shop_and_user(s, owner));
            i = i + 1;
        }
        proof {
            assert forall|x: Shop| #[trigger] store.dir.shops@.values().contains(x)
                && crate::shop::shop_selected(*store, x, Some(*self), None) implies store.has_user(x.owner) by {
                assert(shops@.contains(x));
                let k = choose|k: int| 0 <= k < shops@.len() && shops@[k] == x;
            }
        }
        let parts = match shop {
            None => Part::get_all(self, store)?,
            Some(sh) => sh.get_parts(*self, store)?,
        };
        let ghost ps = parts@;
        proof {
            assert forall|j: int| 0 <= j < ps.len() implies store.has_part(#[trigger] ps[j].id) by {
                assert(ps.contains(ps[j]));
                assert(store.parts@.values().contains(ps[j]));
                let k = choose|k: i32| #[trigger] store.parts@.contains_key(k) && store.parts@[k] == ps[j];
            }
        }
        let summary = self.get_part_summary(parts, store)?;
        proof {
            assert(shops_of(with_owner@) =~= shops@);
        }
        let ghost sa = summary.attachments@;
        let r = Summary { activities, shops: with_owner, ..summary };
        proof {
            assert forall|a: Attachment| #[trigger] store.attachments@.contains(a) && in_parts(ps, a.part_id)
                implies exists|k: int| 0 <= k < r.attachments@.len() && r.attachments@[k].a == a by {
                let k = choose|k: int| 0 <= k < sa.len() && sa[k].a == a;
                assert(r.attachments@[k] == sa[k]);
            }
            assert(part_contents(*store, *self, ps, r));
        }
        Ok(r)
    }

    /// The parts with their usages, attachments (with their usages),
    /// services (with their usages), and plans: the user's generic plans
    /// and those of each part. `NotFound` only when one of the parts is
    /// not stored.
    #[verifier::spinoff_prover]
    pub fn get_part_summary(&self, parts: Vec<Part>, store: &MemStore) -> (r: Result<Summary, Error>)
        requires
            store.wf(),
        ensures
            (forall|j: int| 0 <= j < parts@.len() ==> store.has_part(#[trigger] parts@[j].id)) ==> r is Ok,
            r matches Err(e) ==> e is NotFound,
            r matches Ok(s) ==> part_summary(*store, *self, parts@, s),
    {
        let mut usages: Vec<Usage> = Vec::new();
        let mut attachments: Vec<AttachmentDetail> = Vec::new();
        let mut services: Vec<Service> = Vec::new();
        let mut plans = crate::serviceplan::ServicePlan::for_user(self, store)?;
        let ghost user_plans = plans@;
        let mut i: usize = 0;
        while i < parts.len()
            invariant
                0 <= i <= parts@.len(),
                store.wf(),
                user_plans == store.plans@.filter(for_user_plan(*self)),
                plans@ == user_plans + part_plans(*store, parts@.take(i as int)),
                service_views(services@) == part_services(*store, parts@.take(i as int)),
                forall|k: int| 0 <= k < attachments@.len() ==> store.attachments@.contains(#[trigger] attachments@[k].a)
                    && exists|j: int| 0 <= j < i && parts@[j].id == attachments@[k].a.part_id,
                forall|a: Attachment| #[trigger] store.attachments@.contains(a) && in_parts(parts@.take(i as int), a.part_id)
                    ==> exists|k: int| 0 <= k < attachments@.len() && attachments@[k].a == a,
                usages@.len() == i + attachments@.len() + services@.len(),
                forall|x: Usage| #[trigger] usages@.contains(x)
                    <==> usage_source(*store, parts@.take(i as int), attachments@, services@, x),
            decreases parts@.len() - i,
        {
            let part = &parts[i];
            let ghost upto = parts@.take(i + 1);
            proof {
                assert(upto.drop_last() =~= parts@.take(i as int));
                assert(upto.last() == *part);
            }
            let ghost us0 = usages@;
            let u = part.usage().read(store)?;
            usages.push(u);
            let (mut atts, mut uses) = crate::attachment::Attachment::for_part_with_usage(part.id, store)?;
            let ghost a0 = attachments@;
            let ghost at = atts@;
            let ghost ua = uses@;
            proof {
                if !store.has_part(part.id) {
                    assert(atts@.len() == 0);
                    assert forall|a: Attachment| #[trigger] store.attachments@.contains(a) && a.part_id == part.id
                        implies exists|q: int| 0 <= q < at.len() && at[q].a == a by {
                        crate::store::lemma_filter_members(store.attachments@, crate::timeline::of_part(part.id));
                        assert(store.attachments@.filter(crate::timeline::of_part(part.id)).contains(a));
                    }
                } else {
                    let xs = choose|xs: Seq<Attachment>| #[trigger] crate::attachment::attachments_in_order(*store, part.id, xs)
                        && atts@.len() == xs.len() && uses@.len() == xs.len()
                        && forall|q: int| 0 <= q < xs.len() ==> #[trigger] atts@[q].a == xs[q]
                            && atts@[q].name@ == store.part(part.id).name@ && atts@[q].what == store.part(part.id).what
                            && uses@[q] == store.usage_or_zero(xs[q].usage);
                    assert forall|q: int| 0 <= q < atts@.len() implies store.attachments@.contains(#[trigger] atts@[q].a)
                        && atts@[q].a.part_id == part.id by {
                        assert(atts@[q].a == xs[q]);
                        assert(xs.contains(xs[q]));
                        vstd::seq_lib::to_multiset_contains(xs, xs[q]);
                        vstd::seq_lib::to_multiset_contains(store.attachments@.filter(crate::timeline::of_part(part.id)), xs[q]);
                        crate::store::lemma_filter_members(store.attachments@, crate::timeline::of_part(part.id));
                    }
                    assert forall|a: Attachment| #[trigger] store.attachments@.contains(a) && a.part_id == part.id
                        implies exists|q: int| 0 <= q < at.len() && at[q].a == a by {
                        crate::store::lemma_filter_members(store.attachments@, crate::timeline::of_part(part.id));
                        vstd::seq_lib::to_multiset_contains(xs, a);
                        vstd::seq_lib::to_multiset_contains(store.attachments@.filter(crate::timeline::of_part(part.id)), a);
                        let q = choose|q: int| 0 <= q < xs.len() && xs[q] == a;
                        assert(at[q].a == a);
                    }
                    assert forall|q: int| 0 <= q < ua.len() implies #[trigger] ua[q] == store.usage_or_zero(at[q].a.usage) by {
                        assert(at[q].a == xs[q]);
                    }
                }
            }
            let n_atts = atts.len();
            let n_uses = uses.len();
            usages.append(&mut uses);
            attachments.append(&mut atts);
            proof {
                assert forall|k: int| 0 <= k < attachments@.len() implies store.attachments@.contains(#[trigger] attachments@[k].a)
                    && exists|j: int| 0 <= j < i + 1 && parts@[j].id == attachments@[k].a.part_id by {
                    if k < a0.len() {
                        assert(attachments@[k] == a0[k]);
                        let j = choose|j: int| 0 <= j < i && parts@[j].id == a0[k].a.part_id;
                    } else {
                        assert(attachments@[k].a.part_id == parts@[i as int].id);
                    }
                }
            }
            let (mut servs, mut uses) = Service::for_part_with_usage(part.id, store)?;
            let mut splans = crate::serviceplan::ServicePlan::for_part(part.id, store)?;
            let ghost s0 = services@;
            let ghost p0 = plans@;
            let ghost sv = servs@;
            let ghost usv = uses@;
            usages.append(&mut uses);
            services.append(&mut servs);
            plans.append(&mut splans);
            proof {
                lemma_usage_step(*store, parts@.take(i as int), *part, a0, at, s0, sv, us0, ua, usv);
                assert(usages@ =~= us0.push(store.usage_or_zero(part.usage)) + ua + usv);
                assert(parts@.take(i as int).push(*part) =~= upto);
                assert(attachments@ =~= a0 + at);
                assert(services@ =~= s0 + sv);
                lemma_attachments_step(*store, parts@.take(i as int), *part, a0, at);
                assert(service_views(services@) =~= service_views(s0) + service_views(store.services@.filter(of_service_part(part.id))));
                assert(part_services(*store, upto) == part_services(*store, parts@.take(i as int))
                    + service_views(store.services@.filter(of_service_part(part.id))));
                assert(part_plans(*store, upto) == part_plans(*store, parts@.take(i as int))
                    + store.plans@.filter(for_part_plan(part.id)));
                assert(plans@ =~= user_plans + part_plans(*store, upto));
            }
            i = i + 1;
        }
        proof {
            assert(parts@.take(parts@.len() as int) =~= parts@);
            assert forall|x: Usage| #[trigger] usages@.contains(x)
                <==> usage_source(*store, parts@, attachments@, services@, x) by {
                assert(usages@.contains(x) <==> usage_source(*store, parts@.take(parts@.len() as int), attachments@, services@, x));
            }
            assert forall|a: Attachment| #[trigger] store.attachments@.contains(a) && in_parts(parts@, a.part_id)
                implies exists|k: int| 0 <= k < attachments@.len() && attachments@[k].a == a by {
                assert(in_parts(parts@.take(parts@.len() as int), a.part_id));
            }
        }
        let ghost fa = attachments@;
        let ghost pg = parts@;
        let mut sum = Summary::empty();
        sum.parts = parts;
        sum.usages = usages;
        sum.attachments = attachments;
        sum.services = services;
        sum.plans = plans;
        proof {
            assert forall|a: Attachment| #[trigger] store.attachments@.contains(a) && in_parts(sum.parts@, a.part_id)
                implies exists|k: int| 0 <= k < sum.attachments@.len() && sum.attachments@[k].a == a by {
                let k = choose|k: int| 0 <= k < fa.len() && fa[k].a == a;
                assert(sum.attachments@[k] == fa[k]);
            }
            assert(part_contents(*store, *self, pg, sum));
            assert(part_summary(*store, *self, pg, sum));
        }
        Ok(sum)
    }
}

/// The owners of the shops `user` owns or subscribes to are stored users.
pub open spec fn owners_stored(store: MemStore, user: UserId) -> bool {
    forall|x: Shop| #[trigger] store.dir.shops@.values().contains(x)
        && crate::shop::shop_selected(store, x, Some(user), None) ==> store.has_user(x.owner)
}

/// The shop parts of shops with their owners.
pub open spec fn shops_of(v: Seq<ShopWithOwner>) -> Seq<Shop> {
    v.map_values(|w: ShopWithOwner| shop_of(w))
}

/// The shop part of a shop with its owner.
pub open spec fn shop_of(s: ShopWithOwner) -> Shop {
    Shop { id: s.id, owner: s.owner, name: s.name, description: s.description, auto_approve: s.auto_approve,
        created_at: s.created_at }
}

impl UserId {
    /// Delete the user and everything of theirs: their activities, their
    /// parts with the attachments, services, plans and usages of those
    /// parts, and their generic plans.
    pub fn delete(&self, store: &mut MemStore) -> (r: Result<(), Error>)
        requires
            old(store).wf(),
        ensures
            final(store).wf(),
            r matches Err(e) ==> (e is NotFound || e is Forbidden) && *final(store) == *old(store),
            r is Ok <==> owners_stored(*old(store), *self),
            r is Ok ==> {
                &&& final(store).dir.users@ == old(store).dir.users@.remove(self.0)
                &&& final(store).dir.shops == old(store).dir.shops
                &&& final(store).dir.subscriptions == old(store).dir.subscriptions
                &&& forall|a: Activity| #[trigger] final(store).activities@.contains(a) ==> a.user_id != *self
                &&& forall|k: i32| #[trigger] final(store).parts@.contains_key(k) ==> final(store).parts@[k].owner != *self
                &&& forall|a: Attachment| #[trigger] final(store).attachments@.contains(a)
                    ==> !owned_part(*old(store), *self, a.part_id)
                &&& forall|x: Service| #[trigger] final(store).services@.contains(x)
                    ==> !owned_part(*old(store), *self, x.part_id)
                &&& forall|p: ServicePlan| #[trigger] final(store).plans@.contains(p)
                    ==> p.uid != Some(*self) && !(p.part matches Some(q) && owned_part(*old(store), *self, q))
                &&& forall|pid: crate::part::PartId| #[trigger] owned_part(*old(store), *self, pid)
                    ==> !final(store).usages@.contains_key(old(store).part(pid).usage.0)
            },
    {
        let summary = self.get_summary(None, store)?;
        let ghost s0 = *store;
        let ghost parts = summary.parts@;
        let ghost acts = summary.activities@;
        proof {
            assert(part_contents(s0, *self, parts, summary));
            assert forall|pid: crate::part::PartId| #[trigger] owned_part(s0, *self, pid)
                implies in_parts(parts, pid) && exists|j: int| 0 <= j < parts.len() && parts[j] == s0.part(pid) by {
                let p = s0.part(pid);
                assert(s0.parts@.contains_key(pid.0));
                assert(s0.parts@.values().contains(p));
                assert(parts.contains(p));
                let j = choose|j: int| 0 <= j < parts.len() && parts[j] == p;
                assert(parts[j].id == pid);
            }
        }
        let ghost s1 = *store;
        store.services_delete(summary.services.as_slice())?;
        let ghost s2 = *store;
        store.serviceplans_delete(summary.plans.as_slice())?;
        let ghost s3 = *store;
        store.attachments_delete_by_parts(summary.parts.as_slice())?;
        let ghost s4 = *store;
        store.activities_delete(summary.activities.as_slice())?;
        let ghost s5 = *store;
        store.parts_delete(summary.parts.as_slice())?;
        let ghost s6 = *store;
        store.usages_delete(summary.usages.as_slice())?;
        store.user_delete(self)?;
        proof {
            let sids = summary.services@.map_values(|y: Service| y.id);
            assert forall|x: Service| #[trigger] store.services@.contains(x) implies !owned_part(s0, *self, x.part_id) by {
                if owned_part(s0, *self, x.part_id) {
                    let j = choose|j: int| 0 <= j < parts.len() && parts[j] == s0.part(x.part_id);
                    let fv = s1.services@.filter(|z: Service| !sids.contains(z.id)).map_values(|z: Service| z@);
                    assert(store.services@.map_values(|z: Service| z@) == fv);
                    let m = choose|m: int| 0 <= m < store.services@.len() && store.services@[m] == x;
                    assert(store.services@.map_values(|z: Service| z@)[m] == x@);
                    let flt = s1.services@.filter(|z: Service| !sids.contains(z.id));
                    assert(store.services@.map_values(|z: Service| z@).len() == store.services@.len());
                    assert(flt.map_values(|z: Service| z@).len() == flt.len());
                    assert(store.services@.len() == flt.len());
                    assert(flt.map_values(|z: Service| z@)[m] == x@);
                    let w = flt[m];
                    assert(w@ == x@);
                    crate::store::lemma_filter_members(s1.services@, |z: Service| !sids.contains(z.id));
                    assert(flt.contains(w));
                    assert(s0.services@.contains(w));
                    assert(w.part_id == parts[j].id);
                    lemma_part_services_member(s0, parts, j, w);
                    let v = part_services(s0, parts);
                    let q = choose|q: int| 0 <= q < v.len() && v[q] == w@;
                    assert(service_views(summary.services@)[q] == w@);
                    assert(summary.services@[q]@ == w@);
                    assert(sids[q] == w.id);
                    assert(sids.contains(w.id));
                }
            }
            let plids = summary.plans@.map_values(|y: ServicePlan| y.id);
            assert forall|p: ServicePlan| #[trigger] store.plans@.contains(p)
                implies p.uid != Some(*self) && !(p.part matches Some(q) && owned_part(s0, *self, q)) by {
                crate::store::lemma_filter_members(s2.plans@, |z: ServicePlan| !plids.contains(z.id));
                assert(s0.plans@.contains(p));
                if p.uid == Some(*self) {
                    crate::store::lemma_filter_members(s0.plans@, for_user_plan(*self));
                    let up = s0.plans@.filter(for_user_plan(*self));
                    assert(up.contains(p));
                    let q = choose|q: int| 0 <= q < up.len() && up[q] == p;
                    assert(summary.plans@[q] == p);
                    assert(plids[q] == p.id);
                    assert(plids.contains(p.id));
                }
                if p.part is Some && owned_part(s0, *self, p.part.unwrap()) {
                    let q0 = p.part.unwrap();
                    let j = choose|j: int| 0 <= j < parts.len() && parts[j] == s0.part(q0);
                    lemma_part_plans_member(s0, parts, j, p);
                    let pp = part_plans(s0, parts);
                    let q = choose|q: int| 0 <= q < pp.len() && pp[q] == p;
                    let up = s0.plans@.filter(for_user_plan(*self));
                    assert(summary.plans@[up.len() + q] == p);
                    assert(plids[up.len() + q] == p.id);
                    assert(plids.contains(p.id));
                }
            }
            let uids = summary.usages@.map_values(|u: Usage| u.id.0);
            assert forall|pid: crate::part::PartId| #[trigger] owned_part(s0, *self, pid)
                implies !store.usages@.contains_key(s0.part(pid).usage.0) by {
                let j = choose|j: int| 0 <= j < parts.len() && parts[j] == s0.part(pid);
                let u = s0.usage_or_zero(parts[j].usage);
                assert(usage_source(s0, parts, summary.attachments@, summary.services@, u));
                assert(summary.usages@.contains(u));
                let m = choose|m: int| 0 <= m < summary.usages@.len() && summary.usages@[m] == u;
                assert(uids[m] == u.id.0);
                assert(u.id.0 == parts[j].usage.0);
                assert(uids.to_set().contains(u.id.0));
            }
            let pids = parts.map_values(|y: Part| y.id);
            assert forall|a: Attachment| #[trigger] store.attachments@.contains(a)
                implies !owned_part(s0, *self, a.part_id) by {
                if owned_part(s0, *self, a.part_id) {
                    let p = s0.part(a.part_id);
                    assert(s0.parts@.contains_key(a.part_id.0));
                    assert(s0.parts@.values().contains(p));
                    assert(parts.contains(p));
                    let j = choose|j: int| 0 <= j < parts.len() && parts[j] == p;
                    assert(pids[j] == a.part_id);
                    assert(pids.contains(a.part_id));
                    crate::store::lemma_filter_members(s3.attachments@, |x: Attachment| !pids.contains(x.part_id));
                }
            }
            let aids = acts.map_values(|y: Activity| y.id);
            assert forall|a: Activity| #[trigger] store.activities@.contains(a) implies a.user_id != *self by {
                crate::store::lemma_filter_members(s4.activities@, |x: Activity| !aids.contains(x.id));
                if a.user_id == *self {
                    crate::store::lemma_filter_members(s0.activities@, |x: Activity| x.user_id == *self);
                    assert(acts.contains(a));
                    let j = choose|j: int| 0 <= j < acts.len() && acts[j] == a;
                    assert(aids[j] == a.id);
                    assert(aids.contains(a.id));
                }
            }
            let kids = parts.map_values(|y: Part| y.id.0);
            assert forall|k: i32| #[trigger] store.parts@.contains_key(k) implies store.parts@[k].owner != *self by {
                if store.parts@[k].owner == *self {
                    let p = s5.parts@[k];
                    assert(s0.parts@.contains_key(k));
                    assert(s0.parts@.values().contains(p));
                    assert(parts.contains(p));
                    let j = choose|j: int| 0 <= j < parts.len() && parts[j] == p;
                    assert(kids[j] == k);
                    assert(kids.to_set().contains(k));
                }
            }
        }
        Ok(())
    }
}

} // verus!
