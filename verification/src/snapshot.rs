//! A store filled from a snapshot of its entities.

use vstd::prelude::*;
use crate::activity::Activity;
use crate::attachment::Attachment;
use crate::part::Part;
use crate::store::{MemStore, with_usages};
use crate::usage::Usage;
use crate::user::User;

verus! {

/// `m` with the parts of `s` stored one after the other under their ids.
pub open spec fn with_parts(m: Map<i32, Part>, s: Seq<Part>) -> Map<i32, Part>
    decreases s.len(),
{
    if s.len() == 0 {
        m
    } else {
        with_parts(m, s.drop_last()).insert(s.last().id.0, s.last())
    }
}

/// `m` with the users of `s` stored one after the other under their ids.
pub open spec fn with_users(m: Map<i32, User>, s: Seq<User>) -> Map<i32, User>
    decreases s.len(),
{
    if s.len() == 0 {
        m
    } else {
        with_users(m, s.drop_last()).insert(s.last().id.0, s.last())
    }
}

/// The greatest id of the parts `s`; 0 when there are none.
pub open spec fn max_part_id(s: Seq<Part>) -> int
    decreases s.len(),
{
    if s.len() == 0 {
        0
    } else {
        let m = max_part_id(s.drop_last());
        if s.last().id.0 > m { s.last().id.0 as int } else { m }
    }
}

/// The greatest id of the users `s`; 0 when there are none.
pub open spec fn max_user_id(s: Seq<User>) -> int
    decreases s.len(),
{
    if s.len() == 0 {
        0
    } else {
        let m = max_user_id(s.drop_last());
        if s.last().id.0 > m { s.last().id.0 as int } else { m }
    }
}

/// The greatest shop id the parts `s` name; `None` when none names one.
pub open spec fn max_shop_id(s: Seq<Part>) -> Option<int>
    decreases s.len(),
{
    if s.len() == 0 {
        None
    } else {
        let m = max_shop_id(s.drop_last());
        match s.last().shop {
            None => m,
            Some(sh) => match m {
                Some(x) => if sh.0 > x { Some(sh.0 as int) } else { Some(x) },
                None => Some(sh.0 as int),
            },
        }
    }
}

/// Parts stored one after the other under their ids are keyed by them.
proof fn lemma_with_parts_keys(s: Seq<Part>)
    ensures
        forall|k: i32| #[trigger] with_parts(Map::empty(), s).contains_key(k) ==> with_parts(Map::empty(), s)[k].id.0 == k,
    decreases s.len(),
{
    if s.len() > 0 {
        lemma_with_parts_keys(s.drop_last());
    }
}

/// Users stored one after the other under their ids are keyed by them.
proof fn lemma_with_users_keys(s: Seq<User>)
    ensures
        forall|k: i32| #[trigger] with_users(Map::empty(), s).contains_key(k) ==> with_users(Map::empty(), s)[k].id.0 == k,
    decreases s.len(),
{
    if s.len() > 0 {
        lemma_with_users_keys(s.drop_last());
    }
}

impl MemStore {
    /// A store holding the users, parts, attachments, usages and activities
    /// of a snapshot: each user, part and usage under its id (a later one
    /// replacing an earlier one with the same id), the attachments and the
    /// activities in order. The next part and user ids follow the greatest
    /// stored ones; the next shop id follows the greatest shop id the parts
    /// name (it is 1 when none names one).
    pub fn from_snapshot(users: &Vec<User>, parts: &Vec<Part>, attachments: &Vec<Attachment>, usages: &Vec<Usage>,
        activities: &Vec<Activity>) -> (r: MemStore)
        requires
            max_part_id(parts@) < i32::MAX,
            max_user_id(users@) < i32::MAX,
            max_shop_id(parts@) matches Some(m) ==> m < i32::MAX,
        ensures
            r.wf(),
            r.dir.users@ == with_users(Map::empty(), users@),
            r.parts@ == with_parts(Map::empty(), parts@),
            r.attachments@ == attachments@,
            r.usages@ == with_usages(Map::empty(), usages@),
            r.activities@ == activities@,
            r.services@.len() == 0 && r.plans@.len() == 0,
            r.dir.shops@ == Map::<i32, crate::shop::Shop>::empty() && r.dir.subscriptions@.len() == 0,
            r.next_part_id == max_part_id(parts@) + 1,
            r.dir.next_user_id == max_user_id(users@) + 1,
            r.dir.next_shop_id == match max_shop_id(parts@) { Some(m) => m + 1, None => 1 },
            r.dir.next_subscription_id == 1,
    {
        let mut atts: Vec<Attachment> = Vec::new();
        let mut acts: Vec<Activity> = Vec::new();
        let mut k: usize = 0;
        while k < attachments.len()
            invariant
                0 <= k <= attachments@.len(),
                atts@ == attachments@.take(k as int),
            decreases attachments@.len() - k,
        {
            atts.push(attachments[k]);
            proof { assert(attachments@.take(k + 1) =~= attachments@.take(k as int).push(attachments@[k as int])); }
            k = k + 1;
        }
        proof { assert(attachments@.take(attachments@.len() as int) =~= attachments@); }
        let mut n: usize = 0;
        while n < activities.len()
            invariant
                0 <= n <= activities@.len(),
                acts@ == activities@.take(n as int),
            decreases activities@.len() - n,
        {
            acts.push(activities[n].duplicate());
            proof { assert(activities@.take(n + 1) =~= activities@.take(n as int).push(activities@[n as int])); }
            n = n + 1;
        }
        proof { assert(activities@.take(activities@.len() as int) =~= activities@); }
        let mut store = MemStore::new();
        let mut mu: i32 = 0;
        let mut i: usize = 0;
        while i < users.len()
            invariant
                0 <= i <= users@.len(),
                store.dir.users@ == with_users(Map::empty(), users@.take(i as int)),
                mu == max_user_id(users@.take(i as int)),
                store.parts@ == Map::<i32, Part>::empty(),
                store.usages@ == Map::<u128, Usage>::empty(),
                store.attachments@.len() == 0 && store.activities@.len() == 0,
                store.services@.len() == 0 && store.plans@.len() == 0,
                store.dir.shops@ == Map::<i32, crate::shop::Shop>::empty() && store.dir.subscriptions@.len() == 0,
                store.next_part_id == 1,
                store.dir.next_shop_id == 1 && store.dir.next_subscription_id == 1,
            decreases users@.len() - i,
        {
            proof { assert(users@.take(i + 1).drop_last() =~= users@.take(i as int)); }
            let u = users[i].duplicate();
            if u.id.0 > mu {
                mu = u.id.0;
            }
            store.dir.users.insert(u.id.0, u);
            i = i + 1;
        }
        proof { assert(users@.take(users@.len() as int) =~= users@); }
        let mut mp: i32 = 0;
        let mut ms: Option<i32> = None;
        let mut j: usize = 0;
        while j < parts.len()
            invariant
                0 <= j <= parts@.len(),
                store.parts@ == with_parts(Map::empty(), parts@.take(j as int)),
                mp == max_part_id(parts@.take(j as int)),
                match ms { Some(x) => max_shop_id(parts@.take(j as int)) == Some(x as int),
                    None => max_shop_id(parts@.take(j as int)) is None },
                store.dir.users@ == with_users(Map::empty(), users@),
                mu == max_user_id(users@),
                store.usages@ == Map::<u128, Usage>::empty(),
                store.attachments@.len() == 0 && store.activities@.len() == 0,
                store.services@.len() == 0 && store.plans@.len() == 0,
                store.dir.shops@ == Map::<i32, crate::shop::Shop>::empty() && store.dir.subscriptions@.len() == 0,
                store.next_part_id == 1,
                store.dir.next_shop_id == 1 && store.dir.next_subscription_id == 1,
            decreases parts@.len() - j,
        {
            proof { assert(parts@.take(j + 1).drop_last() =~= parts@.take(j as int)); }
            let p = parts[j].duplicate();
            if p.id.0 > mp {
                mp = p.id.0;
            }
            match p.shop {
                Some(sh) => {
                    ms = match ms {
                        Some(x) => if sh.0 > x { Some(sh.0) } else { Some(x) },
                        None => Some(sh.0),
                    };
                },
                None => {},
            }
            store.parts.insert(p.id.0, p);
            j = j + 1;
        }
        proof { assert(parts@.take(parts@.len() as int) =~= parts@); }
        store.attachments = atts;
        store.activities = acts;
        store.next_part_id = mp + 1;
        store.dir.next_user_id = mu + 1;
        store.dir.next_shop_id = match ms {
            Some(x) => x + 1,
            None => 1,
        };
        proof {
            lemma_with_parts_keys(parts@);
            lemma_with_users_keys(users@);
        }
        let _n: usize = store.usage_update(usages.as_slice());
        store
    }
}

} // verus!
