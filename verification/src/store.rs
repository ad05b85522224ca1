//! An in-memory store holding every entity of the domain.

use std::collections::HashMap;
use vstd::prelude::*;
use crate::activity::{Activity, ActivityId};
use crate::user::UserId;
use crate::attachment::Attachment;
use crate::error::Error;
use crate::part::{Part, PartId};
use crate::service::Service;
use crate::serviceplan::ServicePlan;
use crate::timestamp::Timestamp;
use crate::usage::{Usage, UsageId};
use crate::user::User;
use crate::shop::Shop;
use crate::subscription::ShopSubscription;

verus! {

broadcast use vstd::std_specs::hash::group_hash_axioms;

/// In-memory store of parts, activities, attachments, usages, services and
/// service plans.
pub struct MemStore {
    /// Parts keyed by their id
    pub parts: HashMap<i32, Part>,
    /// Activities in the order they were created
    pub activities: Vec<Activity>,
    /// The attachment timeline
    pub attachments: Vec<Attachment>,
    /// Usages keyed by their id
    pub usages: HashMap<u128, Usage>,
    /// Services in the order they were created
    pub services: Vec<Service>,
    /// Service plans in the order they were created
    pub plans: Vec<ServicePlan>,
    /// The id the next part created gets
    pub next_part_id: i32,
    /// Users, shops and subscriptions
    pub dir: Directory,
}

/// The users, the shops and the subscriptions of users to shops.
pub struct Directory {
    /// Users keyed by their id
    pub users: HashMap<i32, User>,
    /// Shops keyed by their id
    pub shops: HashMap<i32, Shop>,
    /// Subscriptions in the order they were requested
    pub subscriptions: Vec<ShopSubscription>,
    /// The id the next user created gets
    pub next_user_id: i32,
    /// The id the next shop created gets
    pub next_shop_id: i32,
    /// The id the next subscription created gets
    pub next_subscription_id: i32,
}

/// `m` with the usages of `s` stored one after the other under their ids.
pub open spec fn with_usages(m: Map<u128, Usage>, s: Seq<Usage>) -> Map<u128, Usage>
    decreases s.len(),
{
    if s.len() == 0 {
        m
    } else {
        with_usages(m, s.drop_last()).insert(s.last().id.0, s.last())
    }
}

impl Directory {
    /// Users and shops are stored under their own ids, and every
    /// subscription has an id below the next one to be handed out.
    pub open spec fn wf(&self) -> bool {
        &&& forall|k: i32| #[trigger] self.users@.contains_key(k) ==> self.users@[k].id.0 == k
        &&& forall|k: i32| #[trigger] self.shops@.contains_key(k) ==> self.shops@[k].id.0 == k
        &&& forall|k: int| 0 <= k < self.subscriptions@.len() ==>
            (#[trigger] self.subscriptions@[k]).id.0 < self.next_subscription_id
    }
}

/// A copy of an optional string.
pub fn copy_opt_string(o: &Option<String>) -> (r: Option<String>)
    ensures
        r == *o,
{
    match o {
        Some(s) => Some(s.clone()),
        None => None,
    }
}

impl Part {
    /// A copy of the part.
    pub fn duplicate(&self) -> (r: Part)
        ensures
            r == *self,
    {
        Part {
            id: self.id,
            owner: self.owner,
            what: self.what,
            name: self.name.clone(),
            vendor: self.vendor.clone(),
            model: self.model.clone(),
            purchase: self.purchase,
            last_used: self.last_used,
            disposed_at: self.disposed_at,
            usage: self.usage,
            source: copy_opt_string(&self.source),
            notes: self.notes.clone(),
            shop: self.shop,
        }
    }
}

impl Activity {
    /// A copy of the activity.
    pub fn duplicate(&self) -> (r: Activity)
        ensures
            r == *self,
    {
        Activity {
            id: self.id,
            user_id: self.user_id,
            what: self.what,
            name: self.name.clone(),
            start: self.start,
            duration: self.duration,
            time: self.time,
            distance: self.distance,
            climb: self.climb,
            descend: self.descend,
            energy: self.energy,
            gear: self.gear,
            device_name: copy_opt_string(&self.device_name),
            external_id: copy_opt_string(&self.external_id),
        }
    }
}

/// The index of the first activity of `acts` with id `id`, if any.
pub open spec fn first_activity(acts: Seq<Activity>, id: ActivityId) -> Option<int> {
    if exists|i: int| 0 <= i < acts.len() && acts[i].id == id {
        Some(choose|i: int| 0 <= i < acts.len() && acts[i].id == id
            && forall|k: int| 0 <= k < i ==> acts[k].id != id)
    } else {
        None
    }
}

/// The activity `first_activity` points at, if any.
pub open spec fn activity_by_id(acts: Seq<Activity>, id: ActivityId) -> Option<Activity> {
    match first_activity(acts, id) {
        Some(i) => Some(acts[i]),
        None => None,
    }
}

/// There is a first activity with a given id whenever there is one at all.
pub proof fn lemma_first_activity(acts: Seq<Activity>, id: ActivityId, i: int)
    requires
        0 <= i < acts.len(),
        acts[i].id == id,
        forall|k: int| 0 <= k < i ==> acts[k].id != id,
    ensures
        first_activity(acts, id) == Some(i),
{
    let j = choose|j: int| 0 <= j < acts.len() && acts[j].id == id
        && forall|k: int| 0 <= k < j ==> acts[k].id != id;
    if j < i {
        assert(acts[j].id != id);
    } else if j > i {
        assert(acts[i].id != id);
    }
}

impl MemStore {
    /// Every usage and every part is stored under its own id, and every
    /// subscription id was handed out before.
    pub open spec fn wf(&self) -> bool {
        &&& forall|k: u128| #[trigger] self.usages@.contains_key(k) ==> self.usages@[k].id.0 == k
        &&& forall|k: i32| #[trigger] self.parts@.contains_key(k) ==> self.parts@[k].id.0 == k
        &&& self.dir.wf()
    }

    /// The stored usage with id `id`, or a zero usage with that id when none is stored.
    pub open spec fn usage_or_zero(&self, id: UsageId) -> Usage {
        if self.usages@.contains_key(id.0) {
            self.usages@[id.0]
        } else {
            Usage::spec_new(id)
        }
    }

    /// Whether a part with id `id` is stored.
    pub open spec fn has_part(&self, id: PartId) -> bool {
        self.parts@.contains_key(id.0)
    }

    /// The stored part with id `id` (meaningful when `has_part(id)`).
    pub open spec fn part(&self, id: PartId) -> Part {
        self.parts@[id.0]
    }

    /// An empty store.
    pub fn new() -> (r: MemStore)
        ensures
            r.wf(),
            r.parts@ == Map::<i32, Part>::empty(),
            r.activities@ == Seq::<Activity>::empty(),
            r.attachments@ == Seq::<Attachment>::empty(),
            r.usages@ == Map::<u128, Usage>::empty(),
            r.services@ == Seq::<Service>::empty(),
            r.plans@ == Seq::<ServicePlan>::empty(),
            r.next_part_id == 1,
            r.dir.users@ == Map::<i32, User>::empty(),
            r.dir.shops@ == Map::<i32, Shop>::empty(),
            r.dir.subscriptions@ == Seq::<ShopSubscription>::empty(),
            r.dir.next_user_id == 1,
            r.dir.next_shop_id == 1,
            r.dir.next_subscription_id == 1,
    {
        MemStore {
            parts: HashMap::new(),
            activities: Vec::new(),
            attachments: Vec::new(),
            usages: HashMap::new(),
            services: Vec::new(),
            plans: Vec::new(),
            next_part_id: 1,
            dir: Directory {
                users: HashMap::new(),
                shops: HashMap::new(),
                subscriptions: Vec::new(),
                next_user_id: 1,
                next_shop_id: 1,
                next_subscription_id: 1,
            },
        }
    }

    // ---------------------------------------------------------------
    // usages

    /// The stored usage with id `id`, if any.
    pub fn usage_get(&self, id: UsageId) -> (r: Option<Usage>)
        ensures
            r == (if self.usages@.contains_key(id.0) { Some(self.usages@[id.0]) } else { None }),
    {
        match self.usages.get(&id.0) {
            Some(u) => Some(*u),
            None => None,
        }
    }

    /// Store the usages of `usages` under their ids, one after the other;
    /// returns how many were given.
    pub fn usage_update(&mut self, usages: &[Usage]) -> (r: usize)
        requires
            old(self).wf(),
        ensures
            final(self).wf(),
            final(self).usages@ == with_usages(old(self).usages@, usages@),
            r == usages@.len(),
            final(self).parts == old(self).parts,
            final(self).activities == old(self).activities,
            final(self).attachments == old(self).attachments,
            final(self).services == old(self).services,
            final(self).plans == old(self).plans,
            final(self).next_part_id == old(self).next_part_id,
            final(self).dir == old(self).dir,
    {
        let mut i: usize = 0;
        while i < usages.len()
            invariant
                0 <= i <= usages@.len(),
                self.wf(),
                self.usages@ == with_usages(old(self).usages@, usages@.take(i as int)),
                self.parts == old(self).parts,
                self.activities == old(self).activities,
                self.attachments == old(self).attachments,
                self.services == old(self).services,
                self.plans == old(self).plans,
                self.next_part_id == old(self).next_part_id,
                self.dir == old(self).dir,
            decreases usages@.len() - i,
        {
            let u: Usage = usages[i];
            self.usages.insert(u.id.0, u);
            proof {
                assert(usages@.take(i + 1).drop_last() =~= usages@.take(i as int));
                assert(usages@.take(i + 1).last() == u);
            }
            i = i + 1;
        }
        proof { assert(usages@.take(usages@.len() as int) =~= usages@); }
        usages.len()
    }

    /// Remove the usage with id `id`; `NotFound` when none is stored.
    pub fn usage_delete(&mut self, id: UsageId) -> (r: Result<Usage, Error>)
        requires
            old(self).wf(),
        ensures
            final(self).wf(),
            final(self).usages@ == old(self).usages@.remove(id.0),
            match r {
                Ok(u) => old(self).usages@.contains_key(id.0) && u == old(self).usages@[id.0],
                Err(e) => !old(self).usages@.contains_key(id.0) && e is NotFound,
            },
            final(self).parts == old(self).parts,
            final(self).activities == old(self).activities,
            final(self).attachments == old(self).attachments,
            final(self).services == old(self).services,
            final(self).plans == old(self).plans,
            final(self).next_part_id == old(self).next_part_id,
            final(self).dir == old(self).dir,
    {
        match self.usages.remove(&id.0) {
            Some(u) => Ok(u),
            None => Err(Error::NotFound("Usage not found".to_owned())),
        }
    }

    /// Remove every usage; returns how many there were.
    pub fn usage_delete_all(&mut self) -> (r: usize)
        requires
            old(self).wf(),
        ensures
            final(self).wf(),
            final(self).usages@ == Map::<u128, Usage>::empty(),
            r == old(self).usages@.len(),
            final(self).parts == old(self).parts,
            final(self).activities == old(self).activities,
            final(self).attachments == old(self).attachments,
            final(self).services == old(self).services,
            final(self).plans == old(self).plans,
            final(self).next_part_id == old(self).next_part_id,
            final(self).dir == old(self).dir,
    {
        let n: usize = self.usages.len();
        self.usages.clear();
        n
    }

    // ---------------------------------------------------------------
    // parts

    /// The stored part with id `pid`; `NotFound` when none is stored.
    pub fn partid_get_part(&self, pid: PartId) -> (r: Result<Part, Error>)
        ensures
            match r {
                Ok(p) => self.has_part(pid) && p == self.part(pid),
                Err(e) => !self.has_part(pid) && (e matches Error::NotFound(m)
                    && m@ == "Part "@ + crate::text::decimal_text(pid.0 as int) + " not found"@),
            },
    {
        match self.parts.get(&pid.0) {
            Some(p) => Ok(p.duplicate()),
            None => {
                let mut m = "Part ".to_owned();
                let n = crate::text::int_to_text(pid.0 as i64);
                crate::text::append_text(&mut m, n.as_str());
                crate::text::append_text(&mut m, " not found");
                Err(Error::NotFound(m))
            },
        }
    }

    /// Store `part` under its id; `NotFound` when no part was stored under
    /// that id before (the part is stored all the same).
    pub fn part_update(&mut self, part: Part) -> (r: Result<Part, Error>)
        requires
            old(self).wf(),
        ensures
            final(self).wf(),
            final(self).parts@ == old(self).parts@.insert(part.id.0, part),
            match r {
                Ok(p) => old(self).has_part(part.id) && p == part,
                Err(e) => !old(self).has_part(part.id) && e is NotFound,
            },
            final(self).usages == old(self).usages,
            final(self).activities == old(self).activities,
            final(self).attachments == old(self).attachments,
            final(self).services == old(self).services,
            final(self).plans == old(self).plans,
            final(self).next_part_id == old(self).next_part_id,
            final(self).dir == old(self).dir,
    {
        let copy = part.duplicate();
        match self.parts.insert(part.id.0, part) {
            Some(_) => Ok(copy),
            None => Err(Error::NotFound("Part not found".to_owned())),
        }
    }

    // ---------------------------------------------------------------
    // attachments

    /// The attachments of gear `gear` in force at `start`, in timeline order.
    pub fn attachment_get_by_gear_and_time(&self, gear: PartId, start: Timestamp) -> (r: Vec<Attachment>)
        ensures
            r@ == self.attachments@.filter(gear_active_at(gear, start)),
    {
        let ghost pred = gear_active_at(gear, start);
        let mut r: Vec<Attachment> = Vec::new();
        let mut i: usize = 0;
        while i < self.attachments.len()
            invariant
                0 <= i <= self.attachments@.len(),
                pred == gear_active_at(gear, start),
                r@ == self.attachments@.take(i as int).filter(pred),
            decreases self.attachments@.len() - i,
        {
            let a: Attachment = self.attachments[i];
            let keep: bool = a.gear == gear && a.attached.nanos <= start.nanos && start.nanos < a.detached.nanos;
            if keep {
                r.push(a);
            }
            proof {
                let s1 = self.attachments@.take(i + 1);
                assert(s1.drop_last() =~= self.attachments@.take(i as int));
                assert(s1.last() == a);
                assert(pred(a) == keep);
                reveal_with_fuel(Seq::filter, 1);
                if keep {
                    assert(s1.filter(pred) =~= self.attachments@.take(i as int).filter(pred).push(a));
                } else {
                    assert(s1.filter(pred) =~= self.attachments@.take(i as int).filter(pred));
                }
            }
            i = i + 1;
        }
        proof { assert(self.attachments@.take(self.attachments@.len() as int) =~= self.attachments@); }
        r
    }
}

/// Attachments of gear `gear` in force at `start`.
pub open spec fn gear_active_at(gear: PartId, start: Timestamp) -> spec_fn(Attachment) -> bool {
    |a: Attachment| a.gear == gear && a.active_at(start)
}

/// `s` holds `y` exactly when its prefix without the last element does or `y` is the last one.
pub proof fn lemma_contains_last<A>(s: Seq<A>, y: A)
    requires
        s.len() > 0,
    ensures
        s.contains(y) <==> (s.drop_last().contains(y) || y == s.last()),
{
    let t = s.drop_last();
    if s.contains(y) {
        let i = choose|i: int| 0 <= i < s.len() && s[i] == y;
        if i < t.len() {
            assert(t[i] == y);
        }
    }
    if t.contains(y) {
        let i = choose|i: int| 0 <= i < t.len() && t[i] == y;
        assert(s[i] == y);
    }
    if y == s.last() {
        assert(s[s.len() - 1] == y);
    }
}

/// An element is in a filtered sequence exactly when it is in the sequence and passes the filter.
pub proof fn lemma_filter_members<A>(s: Seq<A>, pred: spec_fn(A) -> bool)
    ensures
        forall|x: A| #[trigger] s.filter(pred).contains(x) <==> (s.contains(x) && pred(x)),
    decreases s.len(),
{
    reveal_with_fuel(Seq::filter, 1);
    if s.len() > 0 {
        let t = s.drop_last();
        lemma_filter_members(t, pred);
        let f = t.filter(pred);
        assert forall|x: A| #[trigger] s.filter(pred).contains(x) <==> (s.contains(x) && pred(x)) by {
            lemma_contains_last(s, x);
            if pred(s.last()) {
                assert(s.filter(pred) == f.push(s.last()));
                assert(f.push(s.last()).drop_last() == f);
                lemma_contains_last(f.push(s.last()), x);
            } else {
                assert(s.filter(pred) == f);
            }
        }
    } else {
        assert forall|x: A| #[trigger] s.filter(pred).contains(x) <==> (s.contains(x) && pred(x)) by {
            assert(s.filter(pred).len() == 0);
        }
    }
}

/// An image under a mapping is in the mapped sequence exactly when some
/// element of the sequence maps to it.
pub proof fn lemma_map_members<A, B>(s: Seq<A>, f: spec_fn(A) -> B)
    ensures
        forall|y: B| #[trigger] s.map_values(f).contains(y) <==> (exists|x: A| s.contains(x) && f(x) == y),
{
    assert forall|y: B| #[trigger] s.map_values(f).contains(y) <==> (exists|x: A| s.contains(x) && f(x) == y) by {
        if s.map_values(f).contains(y) {
            let i = choose|i: int| 0 <= i < s.map_values(f).len() && s.map_values(f)[i] == y;
            assert(s.contains(s[i]));
        }
        if exists|x: A| s.contains(x) && f(x) == y {
            let x = choose|x: A| s.contains(x) && f(x) == y;
            let i = choose|i: int| 0 <= i < s.len() && s[i] == x;
            assert(s.map_values(f)[i] == y);
        }
    }
}

impl MemStore {
    // ---------------------------------------------------------------
    // activities

    /// Append an activity and hand it back.
    pub fn activity_create(&mut self, act: Activity) -> (r: Result<Activity, Error>)
        ensures
            r == Ok::<Activity, Error>(act),
            final(self).activities@ == old(self).activities@.push(act),
            final(self).parts == old(self).parts,
            final(self).usages == old(self).usages,
            final(self).attachments == old(self).attachments,
            final(self).services == old(self).services,
            final(self).plans == old(self).plans,
            final(self).next_part_id == old(self).next_part_id,
            final(self).dir == old(self).dir,
    {
        let copy = act.duplicate();
        self.activities.push(act);
        Ok(copy)
    }

    /// The first activity with id `aid`, if any.
    pub fn activity_read_by_id(&self, aid: ActivityId) -> (r: Result<Option<Activity>, Error>)
        ensures
            r == Ok::<Option<Activity>, Error>(activity_by_id(self.activities@, aid)),
    {
        let mut i: usize = 0;
        while i < self.activities.len()
            invariant
                0 <= i <= self.activities@.len(),
                forall|k: int| 0 <= k < i ==> self.activities@[k].id != aid,
            decreases self.activities@.len() - i,
        {
            if self.activities[i].id == aid {
                proof { lemma_first_activity(self.activities@, aid, i as int); }
                return Ok(Some(self.activities[i].duplicate()));
            }
            i = i + 1;
        }
        Ok(None)
    }

    /// Replace the first activity with the id of `act` by `act` (nothing
    /// changes when there is none) and hand `act` back.
    pub fn activity_update(&mut self, act: Activity) -> (r: Result<Activity, Error>)
        ensures
            r == Ok::<Activity, Error>(act),
            final(self).activities@ == match first_activity(old(self).activities@, act.id) {
                Some(i) => old(self).activities@.update(i, act),
                None => old(self).activities@,
            },
            final(self).parts == old(self).parts,
            final(self).usages == old(self).usages,
            final(self).attachments == old(self).attachments,
            final(self).services == old(self).services,
            final(self).plans == old(self).plans,
            final(self).next_part_id == old(self).next_part_id,
            final(self).dir == old(self).dir,
    {
        let copy = act.duplicate();
        let mut i: usize = 0;
        while i < self.activities.len()
            invariant
                0 <= i <= self.activities@.len(),
                *self == *old(self),
                copy == act,
                forall|k: int| 0 <= k < i ==> self.activities@[k].id != act.id,
            decreases self.activities@.len() - i,
        {
            if self.activities[i].id == act.id {
                proof { lemma_first_activity(self.activities@, act.id, i as int); }
                self.activities.set(i, act);
                return Ok(copy);
            }
            i = i + 1;
        }
        Ok(copy)
    }

    /// Remove every activity with id `aid`; returns how many there were.
    pub fn activity_delete(&mut self, aid: ActivityId) -> (r: Result<usize, Error>)
        ensures
            final(self).activities@ == old(self).activities@.filter(|a: Activity| a.id != aid),
            r matches Ok(n) && n == old(self).activities@.len() - final(self).activities@.len(),
            final(self).parts == old(self).parts,
            final(self).usages == old(self).usages,
            final(self).attachments == old(self).attachments,
            final(self).services == old(self).services,
            final(self).plans == old(self).plans,
            final(self).next_part_id == old(self).next_part_id,
            final(self).dir == old(self).dir,
    {
        let ghost pred = |a: Activity| a.id != aid;
        let ghost orig = self.activities@;
        let mut kept: Vec<Activity> = Vec::new();
        let mut i: usize = 0;
        while i < self.activities.len()
            invariant
                0 <= i <= self.activities@.len(),
                self.activities@ == orig,
                pred == (|a: Activity| a.id != aid),
                kept@ == orig.take(i as int).filter(pred),
                kept@.len() <= i,
            decreases self.activities@.len() - i,
        {
            let keep: bool = self.activities[i].id != aid;
            let ghost a = self.activities@[i as int];
            if keep {
                kept.push(self.activities[i].duplicate());
            }
            proof {
                let s1 = orig.take(i + 1);
                assert(s1.drop_last() =~= orig.take(i as int));
                assert(s1.last() == a);
                assert(pred(a) == keep);
                reveal_with_fuel(Seq::filter, 1);
                if keep {
                    assert(s1.filter(pred) =~= orig.take(i as int).filter(pred).push(a));
                } else {
                    assert(s1.filter(pred) =~= orig.take(i as int).filter(pred));
                }
            }
            i = i + 1;
        }
        proof { assert(orig.take(orig.len() as int) =~= orig); }
        let n: usize = self.activities.len() - kept.len();
        self.activities = kept;
        Ok(n)
    }

    /// The activities of gear `gear` that start in `[begin, end)`, in store order.
    pub fn activities_find_by_gear_and_time(&self, gear: PartId, begin: Timestamp, end: Timestamp) -> (r: Result<Vec<Activity>, Error>)
        ensures
            r matches Ok(v) && v@ == self.activities@.filter(crate::activity::found_in(gear, begin, end)),
    {
        let ghost pred = crate::activity::found_in(gear, begin, end);
        let mut r: Vec<Activity> = Vec::new();
        let mut i: usize = 0;
        while i < self.activities.len()
            invariant
                0 <= i <= self.activities@.len(),
                pred == crate::activity::found_in(gear, begin, end),
                r@ == self.activities@.take(i as int).filter(pred),
            decreases self.activities@.len() - i,
        {
            let a = &self.activities[i];
            let keep: bool = a.gear == Some(gear) && begin.nanos <= a.start.nanos && a.start.nanos < end.nanos;
            if keep {
                r.push(a.duplicate());
            }
            proof {
                let s1 = self.activities@.take(i + 1);
                assert(s1.drop_last() =~= self.activities@.take(i as int));
                assert(s1.last() == *a);
                assert(pred(*a) == keep);
                reveal_with_fuel(Seq::filter, 1);
                if keep {
                    assert(s1.filter(pred) =~= self.activities@.take(i as int).filter(pred).push(*a));
                } else {
                    assert(s1.filter(pred) =~= self.activities@.take(i as int).filter(pred));
                }
            }
            i = i + 1;
        }
        proof { assert(self.activities@.take(self.activities@.len() as int) =~= self.activities@); }
        Ok(r)
    }

    /// The activities of user `uid`, in store order.
    pub fn get_all(&self, uid: &UserId) -> (r: Result<Vec<Activity>, Error>)
        ensures
            r matches Ok(v) && v@ == self.activities@.filter(|a: Activity| a.user_id == *uid),
    {
        let ghost pred = |a: Activity| a.user_id == *uid;
        let mut r: Vec<Activity> = Vec::new();
        let mut i: usize = 0;
        while i < self.activities.len()
            invariant
                0 <= i <= self.activities@.len(),
                pred == (|a: Activity| a.user_id == *uid),
                r@ == self.activities@.take(i as int).filter(pred),
            decreases self.activities@.len() - i,
        {
            let keep: bool = self.activities[i].user_id == *uid;
            let ghost a = self.activities@[i as int];
            if keep {
                r.push(self.activities[i].duplicate());
            }
            proof {
                let s1 = self.activities@.take(i + 1);
                assert(s1.drop_last() =~= self.activities@.take(i as int));
                assert(s1.last() == a);
                reveal_with_fuel(Seq::filter, 1);
                if keep {
                    assert(s1.filter(pred) =~= self.activities@.take(i as int).filter(pred).push(a));
                } else {
                    assert(s1.filter(pred) =~= self.activities@.take(i as int).filter(pred));
                }
            }
            i = i + 1;
        }
        proof { assert(self.activities@.take(self.activities@.len() as int) =~= self.activities@); }
        Ok(r)
    }
}

} // verus!
