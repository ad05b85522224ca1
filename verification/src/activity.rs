//! Activities of athletes and the usage they add to the gear they used.

use vstd::prelude::*;
use crate::timestamp::Timestamp;
use crate::types::ActTypeId;
use crate::usage::{Usage, UsageId};
use crate::user::UserId;
use crate::part::PartId;
use crate::error::Error;
use crate::session::Session;
use crate::store::MemStore;
use crate::summary::Summary;
use crate::attachment::Attachment;
use crate::types::{ActivityType, PartTypeId, act_type_ids_for, activity_type_table, ActivityTypeView};
use crate::seqs::first_where;

verus! {

/// The Id of an Activity
///
/// Most operations for activities are done on the Id alone
#[derive(Clone, Copy, Debug, PartialEq, Eq, Structural, Hash)]
pub struct ActivityId(pub i64);

impl ActivityId {
    /// The activity id `id`.
    pub fn new(id: i64) -> (r: ActivityId)
        ensures
            r.0 == id,
    {
        ActivityId(id)
    }

    /// The decimal text of the id.
    pub fn to_string(&self) -> (r: String)
        ensures
            r@ == crate::text::decimal_text(self.0 as int),
    {
        crate::text::int_to_text(self.0)
    }
}

impl From<i64> for ActivityId {
    fn from(id: i64) -> (r: ActivityId) {
        ActivityId(id)
    }
}

impl vstd::std_specs::convert::FromSpecImpl<i64> for ActivityId {
    open spec fn obeys_from_spec() -> bool {
        true
    }

    open spec fn from_spec(id: i64) -> ActivityId {
        ActivityId(id)
    }
}

/// The database's representation of an activity.
#[derive(Clone, Debug)]
pub struct Activity {
    /// The primary key
    pub id: ActivityId,
    /// The athlete
    pub user_id: UserId,
    /// The activity type
    pub what: ActTypeId,
    /// This name of the activity.
    pub name: String,
    /// Start time
    pub start: Timestamp,
    /// End time
    pub duration: i32,
    /// activity time
    pub time: Option<i32>,
    /// Covered distance
    pub distance: Option<i32>,
    /// Total climbing
    pub climb: Option<i32>,
    /// Total descending
    pub descend: Option<i32>,
    /// average energy output
    pub energy: Option<i32>,
    /// Which gear did she use?
    pub gear: Option<PartId>,
    /// The name of the recording device
    pub device_name: Option<String>,
    /// opaque identifier for the source file
    pub external_id: Option<String>,
}

/// Whether an activity is accounted to its gear or taken back from it.
#[derive(Clone, Copy, Debug, PartialEq, Eq, Structural)]
pub enum Factor {
    Add,
    Sub,
}

/// The value of an optional counter, zero when missing.
pub open spec fn or_zero(v: Option<i32>) -> i32 {
    match v {
        Some(x) => x,
        None => 0,
    }
}

impl Activity {
    /// The usage one activity adds to its gear: missing values count as
    /// zero, a missing descend counts as the climb, and the count is one.
    pub open spec fn spec_usage(self) -> Usage {
        Usage {
            id: UsageId(0),
            time: or_zero(self.time),
            distance: or_zero(self.distance),
            climb: or_zero(self.climb),
            descend: match self.descend {
                Some(d) => d,
                None => or_zero(self.climb),
            },
            energy: or_zero(self.energy),
            count: 1,
        }
    }

    /// Extract the usage out of an activity
    ///
    /// If the descend value is missing, assume descend = climb
    pub fn usage(&self) -> (r: Usage)
        ensures
            r == self.spec_usage(),
    {
        let climb: i32 = match self.climb {
            Some(c) => c,
            None => 0,
        };
        Usage {
            id: UsageId(0),
            time: match self.time {
                Some(t) => t,
                None => 0,
            },
            distance: match self.distance {
                Some(d) => d,
                None => 0,
            },
            climb,
            descend: match self.descend {
                Some(d) => d,
                None => climb,
            },
            energy: match self.energy {
                Some(e) => e,
                None => 0,
            },
            count: 1,
        }
    }
}

/// Activities of gear `gear` that start in `[begin, end)`.
pub open spec fn found_in(gear: PartId, begin: Timestamp, end: Timestamp) -> spec_fn(Activity) -> bool {
    |a: Activity| a.gear == Some(gear) && begin.nanos <= a.start.nanos && a.start.nanos < end.nanos
}

/// The counters of the usages of `acts`, added up one after the other
/// starting from zero (id zero).
pub open spec fn acts_total(acts: Seq<Activity>) -> Usage
    decreases acts.len(),
{
    if acts.len() == 0 {
        Usage::spec_new(UsageId(0))
    } else {
        acts_total(acts.drop_last()).spec_plus(acts.last().spec_usage())
    }
}

/// Adding up the usages of `acts` one after the other stays within `i32`.
pub open spec fn total_fits(acts: Seq<Activity>) -> bool
    decreases acts.len(),
{
    acts.len() == 0 || (total_fits(acts.drop_last())
        && acts_total(acts.drop_last()).sum_fits(acts.last().spec_usage()))
}

/// The usage with id `id` whose counters are those of all of `acts`.
pub open spec fn total_usage(id: UsageId, acts: Seq<Activity>) -> Usage {
    Usage { id, ..acts_total(acts) }
}

impl Activity {
    /// The usage with id `id` that adds up the usages of `acts`;
    /// `AnyFailure` when a counter leaves the `i32` range on the way.
    pub fn sum_usage(id: UsageId, acts: &Vec<Activity>) -> (r: Result<Usage, Error>)
        ensures
            r is Ok <==> total_fits(acts@),
            r matches Ok(u) ==> u == total_usage(id, acts@),
            r matches Err(e) ==> e is AnyFailure,
    {
        let mut acc = Usage::new(id);
        let mut i: usize = 0;
        while i < acts.len()
            invariant
                0 <= i <= acts@.len(),
                total_fits(acts@.take(i as int)),
                acc == total_usage(id, acts@.take(i as int)),
            decreases acts@.len() - i,
        {
            let u = acts[i].usage();
            proof {
                let s1 = acts@.take(i + 1);
                assert(s1.drop_last() =~= acts@.take(i as int));
                assert(s1.last() == acts@[i as int]);
            }
            match acc.checked_plus(&u) {
                Some(n) => {
                    acc = n;
                },
                None => {
                    proof {
                        if total_fits(acts@) {
                            assert(acts@.take(acts@.len() as int) =~= acts@);
                            lemma_total_fits_prefix(acts@, i + 1, acts@.len() as int);
                        }
                    }
                    return Err(Error::AnyFailure("usage counter overflow".to_owned()));
                },
            }
            i = i + 1;
        }
        proof { assert(acts@.take(acts@.len() as int) =~= acts@); }
        Ok(acc)
    }

    /// find all activities for gear part in the given time frame
    pub fn find(gear: PartId, begin: Timestamp, end: Timestamp, store: &MemStore) -> (r: Result<Vec<Activity>, Error>)
        ensures
            r matches Ok(v) && v@ == store.activities@.filter(found_in(gear, begin, end)),
    {
        store.activities_find_by_gear_and_time(gear, begin, end)
    }
}

/// A sequence whose sums fit has prefixes whose sums fit.
pub proof fn lemma_total_fits_prefix(acts: Seq<Activity>, i: int, j: int)
    requires
        0 <= i <= j <= acts.len(),
        total_fits(acts.take(j)),
    ensures
        total_fits(acts.take(i)),
    decreases j - i,
{
    if i < j {
        assert(acts.take(j).drop_last() =~= acts.take(j - 1));
        lemma_total_fits_prefix(acts, i, j - 1);
    }
}

/// The usage an activity adds (`Add`) or takes back (`Sub`).
pub open spec fn signed_usage(a: Activity, f: Factor) -> Usage {
    match f {
        Factor::Add => a.spec_usage(),
        Factor::Sub => a.spec_usage().spec_negated(),
    }
}

/// Accounting the activity with factor `f` stays within `i32` for every
/// usage record it counts for.
pub open spec fn can_register(store: MemStore, a: Activity, f: Factor) -> bool {
    &&& a.start.wf()
    &&& (f == Factor::Sub ==> a.spec_usage().neg_fits())
    &&& (a.gear matches Some(g) ==> forall|k: u128| #[trigger] crate::attachment::counts_for(store, g, a.start, k)
        ==> store.usage_or_zero(crate::usage::UsageId(k)).sum_fits(signed_usage(a, f)))
}

/// Registering the activity with factor `f` went through: nothing changes
/// without a gear; otherwise its signed usage is accounted to the gear at
/// its start and the parts involved are touched.
pub open spec fn registered(old: MemStore, new: MemStore, a: Activity, f: Factor) -> bool {
    &&& new.wf()
    &&& new.attachments == old.attachments
    &&& new.services == old.services
    &&& new.plans == old.plans
    &&& match a.gear {
        None => new.usages == old.usages && new.parts == old.parts,
        Some(g) => {
            &&& crate::attachment::accounted(old, new, g, a.start, signed_usage(a, f))
            &&& forall|p: PartId| #[trigger] new.part(p) ==
                if crate::attachment::involved(old.attachments@, g, a.start, p) {
                    crate::part::touched(old.part(p), a.start)
                } else {
                    old.part(p)
                }
        },
    }
}

/// Registering an activity keeps the attachments and which parts are
/// stored, hence which activities can be registered.
pub proof fn lemma_registered_keeps_registrable(old: MemStore, new: MemStore, a: Activity, f: Factor, x: Activity)
    requires
        registered(old, new, a, f),
    ensures
        registrable(new, x) == registrable(old, x),
{
    if let Some(g) = x.gear {
        assert forall|p: PartId| #[trigger] new.has_part(p) == old.has_part(p) by {}
        assert(crate::attachment::involved_parts_stored(new, g, x.start)
            == crate::attachment::involved_parts_stored(old, g, x.start));
    }
}

/// `registered` looks only at the parts, usages, attachments, services and plans.
pub proof fn lemma_registered_frame(old: MemStore, mid: MemStore, new: MemStore, a: Activity, f: Factor)
    requires
        registered(old, mid, a, f),
        new.parts == mid.parts,
        new.usages == mid.usages,
        new.attachments == mid.attachments,
        new.services == mid.services,
        new.plans == mid.plans,
        new.dir.wf(),
    ensures
        registered(old, new, a, f),
{
    assert forall|p: PartId| #[trigger] new.has_part(p) == mid.has_part(p) by {}
    assert forall|p: PartId| #[trigger] new.part(p) == mid.part(p) by {}
    assert forall|k: u128| #[trigger] new.usage_or_zero(crate::usage::UsageId(k))
        == mid.usage_or_zero(crate::usage::UsageId(k)) by {}
}

/// Registering the activity can go through: it has no gear or every part
/// involved is stored.
pub open spec fn registrable(store: MemStore, a: Activity) -> bool {
    a.gear matches Some(g) ==> crate::attachment::involved_parts_stored(store, g, a.start)
}

/// What a deleted activity is reported as: no gear and no measurements.
pub open spec fn cleared(a: Activity) -> Activity {
    Activity {
        gear: None,
        duration: 0,
        time: None,
        distance: None,
        climb: None,
        descend: None,
        energy: None,
        ..a
    }
}

impl Activity {
    /// Register or unregister an activity with the given factor.
    ///
    /// If the factor is `Factor::Add`, the activity's usage is added to the
    /// parts and attachments; with `Factor::Sub` it is subtracted. Returns
    /// the affected parts and usages and the activity itself.
    pub fn register(self, factor: Factor, store: &mut MemStore) -> (r: Result<Summary, Error>)
        requires
            old(store).wf(),
            can_register(*old(store), self, factor),
        ensures
            final(store).activities == old(store).activities,
            final(store).next_part_id == old(store).next_part_id,
            final(store).dir == old(store).dir,
            r is Ok <==> registrable(*old(store), self),
            r is Ok ==> registered(*old(store), *final(store), self, factor),
            r matches Ok(s) ==> s.activities@ == seq![self],
            r matches Err(e) ==> e is NotFound && final(store).usages == old(store).usages && final(store).wf(),
    {
        let usage = match factor {
            Factor::Add => self.usage(),
            Factor::Sub => self.usage().negated(),
        };
        let res = Attachment::register_activity(self.gear, self.start, usage, &mut *store)?;
        let mut activities: Vec<Activity> = Vec::new();
        activities.push(self);
        proof { assert(activities@ =~= seq![self]); }
        Ok(Summary { activities, ..res })
    }

    /// Get all activities for a given user.
    pub fn get_all(user: &UserId, store: &MemStore) -> (r: Result<Vec<Activity>, Error>)
        ensures
            r matches Ok(v) && v@ == store.activities@.filter(|a: Activity| a.user_id == *user),
    {
        store.get_all(user)
    }
}

impl ActivityId {
    /// Read the activity with id self, if there is one
    ///
    /// checks authorization: `Forbidden` when it belongs to another user
    pub fn read_optional<S: Session>(self, session: &S, store: &MemStore) -> (r: Result<Option<Activity>, Error>)
        ensures
            match crate::store::activity_by_id(store.activities@, self) {
                None => r == Ok::<Option<Activity>, Error>(None),
                Some(a) => if a.user_id == session.session_user() {
                    r == Ok::<Option<Activity>, Error>(Some(a))
                } else {
                    r matches Err(e) && e is Forbidden
                },
            },
    {
        let act = store.activity_read_by_id(self)?;
        if let Some(a) = &act {
            session.check_owner(a.user_id, "User cannot access activity".to_owned())?;
        }
        Ok(act)
    }

    /// Read the activity with id self
    ///
    /// checks authorization; `NotFound` when there is none
    pub fn read<S: Session>(self, session: &S, store: &MemStore) -> (r: Result<Activity, Error>)
        ensures
            match crate::store::activity_by_id(store.activities@, self) {
                None => r matches Err(e) && e is NotFound,
                Some(a) => if a.user_id == session.session_user() {
                    r == Ok::<Activity, Error>(a)
                } else {
                    r matches Err(e) && e is Forbidden
                },
            },
    {
        match self.read_optional(session, store)? {
            Some(a) => Ok(a),
            None => Err(Error::NotFound("activity does not exist".to_owned())),
        }
    }

    /// Delete the activity with id self
    /// and update part usage accordingly
    ///
    /// returns all affected parts and the activity, reported without gear
    /// and measurements; checks authorization
    pub fn delete<S: Session>(self, session: &S, store: &mut MemStore) -> (r: Result<Summary, Error>)
        requires
            old(store).wf(),
            match crate::store::activity_by_id(old(store).activities@, self) {
                Some(a) => a.user_id == session.session_user() ==> can_register(*old(store), a, Factor::Sub),
                None => true,
            },
        ensures
            match crate::store::activity_by_id(old(store).activities@, self) {
                None => (r matches Err(e) && e is NotFound) && *final(store) == *old(store),
                Some(a) => if a.user_id != session.session_user() {
                    (r matches Err(e) && e is Forbidden) && *final(store) == *old(store)
                } else {
                    &&& r is Ok <==> registrable(*old(store), a)
                    &&& r is Ok ==> registered(*old(store), *final(store), a, Factor::Sub)
                        && final(store).activities@ == old(store).activities@.filter(|x: Activity| x.id != self)
                    &&& r matches Ok(s) ==> s.activities@ == seq![cleared(a)]
                    &&& r matches Err(e) ==> e is NotFound && final(store).usages == old(store).usages
                },
            },
    {
        let act = self.read(session, store)?;
        let mut res = act.register(Factor::Sub, &mut *store)?;
        let ghost mid = *store;
        let _n: usize = store.activity_delete(self)?;
        proof { lemma_registered_frame(*old(store), mid, *store, act, Factor::Sub); }
        let mut a = res.activities.pop().unwrap();
        a.gear = None;
        a.duration = 0;
        a.time = None;
        a.distance = None;
        a.climb = None;
        a.descend = None;
        a.energy = None;
        res.activities.push(a);
        proof { assert(res.activities@ =~= seq![a]); }
        Ok(res)
    }
}

/// The activities after `new` replaced the first activity with its id.
pub open spec fn replaced(acts: Seq<Activity>, new: Activity) -> Seq<Activity> {
    match crate::store::first_activity(acts, new.id) {
        Some(i) => acts.update(i, new),
        None => acts,
    }
}

impl Activity {
    /// Take back the usage of `self` (the stored activity) and account that
    /// of `new`, which replaces it in the store.
    pub fn replace(self, new: Activity, store: &mut MemStore) -> (r: Result<Summary, Error>)
        requires
            old(store).wf(),
            can_register(*old(store), self, Factor::Sub),
            forall|mid: MemStore| #[trigger] registered(*old(store), mid, self, Factor::Sub)
                ==> can_register(mid, new, Factor::Add),
        ensures
            r is Ok ==> exists|mid: MemStore|
                #[trigger] registered(*old(store), mid, self, Factor::Sub)
                    && registered(mid, *final(store), new, Factor::Add),
            r is Ok ==> final(store).activities@ == replaced(old(store).activities@, new),
            r is Ok <==> registrable(*old(store), self) && registrable(*old(store), new),
            r matches Ok(s) ==> crate::summary::merged(seq![self, new], s.activities@),
            r matches Err(e) ==> e is NotFound,
    {
        let ghost s0 = *store;
        let res = self.register(Factor::Sub, &mut *store)?;
        let ghost mid = *store;
        let act = store.activity_update(new)?;
        let ghost mid2 = *store;
        proof {
            lemma_registered_frame(s0, mid, mid2, self, Factor::Sub);
            assert(can_register(mid2, act, Factor::Add));
            lemma_registered_keeps_registrable(s0, mid2, self, Factor::Sub, new);
        }
        let res2 = act.register(Factor::Add, &mut *store)?;
        proof { assert(res.activities@ + res2.activities@ =~= seq![self, new]); }
        Ok(res.merge(res2))
    }

    /// Update the activity with id self according to the data in `self`
    /// and update part usage accordingly
    ///
    /// returns all affected parts; checks authorization
    pub fn update<S: Session>(self, user: &S, store: &mut MemStore) -> (r: Result<Summary, Error>)
        requires
            old(store).wf(),
            match crate::store::activity_by_id(old(store).activities@, self.id) {
                Some(a) => a.user_id == user.session_user() ==> {
                    &&& can_register(*old(store), a, Factor::Sub)
                    &&& forall|mid: MemStore| #[trigger] registered(*old(store), mid, a, Factor::Sub)
                        ==> can_register(mid, self, Factor::Add)
                },
                None => true,
            },
        ensures
            match crate::store::activity_by_id(old(store).activities@, self.id) {
                None => r matches Err(e) && e is NotFound,
                Some(a) => if a.user_id != user.session_user() {
                    (r matches Err(e) && e is Forbidden) && *final(store) == *old(store)
                } else {
                    &&& r is Ok ==> exists|mid: MemStore|
                        #[trigger] registered(*old(store), mid, a, Factor::Sub)
                            && registered(mid, *final(store), self, Factor::Add)
                    &&& r is Ok ==> final(store).activities@ == replaced(old(store).activities@, self)
                    &&& r is Ok <==> registrable(*old(store), a) && registrable(*old(store), self)
                    &&& r matches Ok(s) ==> crate::summary::merged(seq![a, self], s.activities@)
                    &&& r matches Err(e) ==> e is NotFound
                },
            },
    {
        let act = self.id.read(user, store)?;
        act.replace(self, store)
    }

    /// create a new activity, or update the one with the same id
    ///
    /// returns the activity and all affected parts; checks authorization
    pub fn upsert<S: Session>(self, user: &S, store: &mut MemStore) -> (r: Result<Summary, Error>)
        requires
            old(store).wf(),
            match crate::store::activity_by_id(old(store).activities@, self.id) {
                Some(a) => a.user_id == user.session_user() ==> {
                    &&& can_register(*old(store), a, Factor::Sub)
                    &&& forall|mid: MemStore| #[trigger] registered(*old(store), mid, a, Factor::Sub)
                        ==> can_register(mid, self, Factor::Add)
                },
                None => self.user_id == user.session_user() ==> can_register(*old(store), self, Factor::Add),
            },
        ensures
            match crate::store::activity_by_id(old(store).activities@, self.id) {
                Some(a) => if a.user_id != user.session_user() {
                    (r matches Err(e) && e is Forbidden) && *final(store) == *old(store)
                } else {
                    &&& r is Ok ==> exists|mid: MemStore|
                        #[trigger] registered(*old(store), mid, a, Factor::Sub)
                            && registered(mid, *final(store), self, Factor::Add)
                    &&& r is Ok ==> final(store).activities@ == replaced(old(store).activities@, self)
                    &&& r is Ok <==> registrable(*old(store), a) && registrable(*old(store), self)
                    &&& r matches Ok(s) ==> crate::summary::merged(seq![a, self], s.activities@)
                    &&& r matches Err(e) ==> e is NotFound
                },
                None => if self.user_id != user.session_user() {
                    (r matches Err(e) && e is Forbidden) && *final(store) == *old(store)
                } else {
                    &&& r is Ok <==> registrable(*old(store), self)
                    &&& r is Ok ==> registered(*old(store), *final(store), self, Factor::Add)
                    &&& final(store).activities@ == old(store).activities@.push(self)
                    &&& r matches Ok(s) ==> s.activities@ == seq![self]
                    &&& r matches Err(e) ==> e is NotFound
                },
            },
    {
        if let Some(old_activity) = self.id.read_optional(user, store)? {
            old_activity.replace(self, store)
        } else {
            user.check_owner(self.user_id, "user cannot create activity for another user".to_owned())?;
            let ghost s0 = *store;
            let new = store.activity_create(self)?;
            let ghost s1 = *store;
            proof {
                assert(registrable(s1, new) == registrable(s0, new));
                assert(can_register(s1, new, Factor::Add) == can_register(s0, new, Factor::Add)) by {
                    if let Some(g) = new.gear {
                        assert forall|k: u128| crate::attachment::counts_for(s1, g, new.start, k)
                            == crate::attachment::counts_for(s0, g, new.start, k) by {
                            crate::attachment::lemma_counts_for_stable(s0, s1, g, new.start, k);
                        }
                    }
                }
            }
            let res = new.register(Factor::Add, &mut *store);
            proof {
                if res is Ok {
                    lemma_registered_frame(s1, *store, *store, new, Factor::Add);
                    lemma_registered_from_frame(s0, s1, *store, new, Factor::Add);
                }
            }
            res
        }
    }
}

/// `registered` does not look at the activities of the store it starts from.
pub proof fn lemma_registered_from_frame(old: MemStore, old2: MemStore, new: MemStore, a: Activity, f: Factor)
    requires
        registered(old2, new, a, f),
        old2.parts == old.parts,
        old2.usages == old.usages,
        old2.attachments == old.attachments,
        old2.services == old.services,
        old2.plans == old.plans,
    ensures
        registered(old, new, a, f),
{
    if let Some(g) = a.gear {
        assert forall|k: u128| #[trigger] crate::attachment::counts_for(old2, g, a.start, k)
            == crate::attachment::counts_for(old, g, a.start, k) by {
            crate::attachment::lemma_counts_for_stable(old, old2, g, a.start, k);
        }
        assert forall|p: PartId| #[trigger] new.has_part(p) == old.has_part(p) by {
            assert(old2.has_part(p) == old.has_part(p));
        }
        assert forall|p: PartId| #[trigger] new.part(p).usage == old.part(p).usage by {
            assert(old2.part(p) == old.part(p));
        }
        assert forall|k: u128| #[trigger] new.usage_or_zero(crate::usage::UsageId(k)) ==
            if crate::attachment::counts_for(old, g, a.start, k) {
                old.usage_or_zero(crate::usage::UsageId(k)).spec_plus(signed_usage(a, f))
            } else {
                old.usage_or_zero(crate::usage::UsageId(k))
            } by {
            assert(old2.usage_or_zero(crate::usage::UsageId(k)) == old.usage_or_zero(crate::usage::UsageId(k)));
        }
        assert forall|p: PartId| #[trigger] new.part(p) ==
            if crate::attachment::involved(old.attachments@, g, a.start, p) {
                crate::part::touched(old.part(p), a.start)
            } else {
                old.part(p)
            } by {
            assert(old2.part(p) == old.part(p));
        }
    }
}


impl Activity {
    /// Whether accounting the activity with factor `f` stays within `i32`
    /// (see `can_register`).
    pub fn registrable_now(&self, f: Factor, store: &MemStore) -> (r: bool)
        requires
            store.wf(),
        ensures
            r == can_register(*store, *self, f),
    {
        if !self.start.is_wf() {
            return false;
        }
        let u = self.usage();
        let signed = match f {
            Factor::Add => u,
            Factor::Sub => {
                if !u.can_negate() {
                    return false;
                }
                u.negated()
            },
        };
        proof { assert(signed == signed_usage(*self, f)); }
        let g = match self.gear {
            None => return true,
            Some(g) => g,
        };
        let ids = Attachment::usage_ids_counted(g, self.start, store);
        let mut i: usize = 0;
        while i < ids.len()
            invariant
                0 <= i <= ids@.len(),
                self.gear == Some(g),
                signed == signed_usage(*self, f),
                forall|k: u128| #[trigger] ids@.contains(UsageId(k)) <==> crate::attachment::counts_for(*store, g, self.start, k),
                forall|q: int| 0 <= q < i ==> store.usage_or_zero(#[trigger] ids@[q]).sum_fits(signed),
            decreases ids@.len() - i,
        {
            let cur = ids[i].read(store).unwrap();
            if cur.checked_plus(&signed).is_none() {
                proof {
                    assert(UsageId(ids@[i as int].0) == ids@[i as int]);
                    assert(ids@.contains(UsageId(ids@[i as int].0)));
                    assert(crate::attachment::counts_for(*store, g, self.start, ids@[i as int].0));
                    assert(!store.usage_or_zero(UsageId(ids@[i as int].0)).sum_fits(signed_usage(*self, f)));
                    assert(!(forall|k: u128| #[trigger] crate::attachment::counts_for(*store, g, self.start, k)
                        ==> store.usage_or_zero(crate::usage::UsageId(k)).sum_fits(signed_usage(*self, f))));
                    assert((*self).gear matches Some(gg) && gg == g);
                    assert((*self).gear == Some(g));
                    assert(!can_register(*store, *self, f));
                }
                return false;
            }
            i = i + 1;
        }
        proof {
            assert forall|k: u128| #[trigger] crate::attachment::counts_for(*store, g, self.start, k)
                implies store.usage_or_zero(UsageId(k)).sum_fits(signed_usage(*self, f)) by {
                assert(ids@.contains(UsageId(k)));
                let q = choose|q: int| 0 <= q < ids@.len() && ids@[q] == UsageId(k);
            }
        }
        true
    }

    /// Register the activity with factor `f` when that stays within `i32`;
    /// `AnyFailure` (and no change) otherwise.
    pub fn register_checked(self, f: Factor, store: &mut MemStore) -> (r: Result<Summary, Error>)
        requires
            old(store).wf(),
        ensures
            final(store).activities == old(store).activities,
            final(store).next_part_id == old(store).next_part_id,
            final(store).dir == old(store).dir,
            final(store).wf(),
            !can_register(*old(store), self, f) ==> (r matches Err(e) && e is AnyFailure) && *final(store) == *old(store),
            can_register(*old(store), self, f) ==> {
                &&& r is Ok <==> registrable(*old(store), self)
                &&& r is Ok ==> registered(*old(store), *final(store), self, f)
                &&& r matches Ok(s) ==> s.activities@ == seq![self]
                &&& r matches Err(e) ==> e is NotFound && final(store).usages == old(store).usages
            },
    {
        if !self.registrable_now(f, store) {
            return Err(Error::AnyFailure("usage counter overflow".to_owned()));
        }
        self.register(f, store)
    }
}


/// Activities of `user` without gear whose type is one of `types`.
pub open spec fn gearless_of(user: UserId, types: Seq<ActTypeId>) -> spec_fn(Activity) -> bool {
    |a: Activity| a.user_id == user && a.gear is None && types.contains(a.what)
}

/// The activity with gear `gear` where it is gearless of `user` and of a
/// type of `types`; unchanged otherwise.
pub open spec fn with_default_gear(a: Activity, user: UserId, types: Seq<ActTypeId>, gear: PartId) -> Activity {
    if gearless_of(user, types)(a) { Activity { gear: Some(gear), ..a } } else { a }
}

/// Store `i + 1` of `stores` comes from store `i` by registering activity
/// `i` of `acts` (factor `Add`); the activities, the part ids and the
/// directory stay.
pub open spec fn replay_step(stores: Seq<MemStore>, acts: Seq<Activity>, i: int) -> bool {
    &&& registered(stores[i], stores[i + 1], acts[i], Factor::Add)
    &&& stores[i + 1].activities == stores[i].activities
    &&& stores[i + 1].next_part_id == stores[i].next_part_id
    &&& stores[i + 1].dir == stores[i].dir
}

/// `end` comes from `start` by registering the activities of `acts` one
/// after the other (factor `Add`).
pub open spec fn replayed(start: MemStore, end: MemStore, acts: Seq<Activity>) -> bool {
    exists|stores: Seq<MemStore>| {
        &&& #[trigger] stores.len() == acts.len() + 1
        &&& stores[0] == start
        &&& stores.last() == end
        &&& forall|i: int| 0 <= i < acts.len() ==> #[trigger] replay_step(stores, acts, i)
    }
}

/// `stores` replays the first `stores.len() - 1` activities of `acts` from
/// `start`, one step each.
pub open spec fn replay_prefix(start: MemStore, acts: Seq<Activity>, stores: Seq<MemStore>) -> bool {
    &&& 1 <= stores.len() <= acts.len() + 1
    &&& stores[0] == start
    &&& forall|k: int| 0 <= k < stores.len() - 1 ==> #[trigger] replay_step(stores, acts, k)
}

/// Replaying `acts` from `start` never leaves the `i32` range and always
/// finds the parts involved: whatever the steps before it gave, each
/// activity can be registered and is registrable.
pub open spec fn replay_fits(start: MemStore, acts: Seq<Activity>) -> bool {
    forall|stores: Seq<MemStore>| #[trigger] replay_prefix(start, acts, stores) && stores.len() <= acts.len() ==> {
        &&& can_register(stores.last(), acts[stores.len() - 1], Factor::Add)
        &&& registrable(stores.last(), acts[stores.len() - 1])
    }
}

/// `mid` is `old` with the activities `acts` in place of its own.
pub open spec fn gear_set(old: MemStore, mid: MemStore, acts: Seq<Activity>) -> bool {
    &&& mid.wf()
    &&& mid.activities@ == acts
    &&& mid.usages == old.usages
    &&& mid.parts == old.parts
    &&& mid.attachments == old.attachments
    &&& mid.services == old.services
    &&& mid.plans == old.plans
    &&& mid.next_part_id == old.next_part_id
    &&& mid.dir == old.dir
}

/// `mid` is `old` with all usages forgotten.
pub open spec fn usages_cleared(old: MemStore, mid: MemStore) -> bool {
    &&& mid.wf()
    &&& mid.usages@ == Map::<u128, Usage>::empty()
    &&& mid.parts == old.parts
    &&& mid.activities == old.activities
    &&& mid.attachments == old.attachments
    &&& mid.services == old.services
    &&& mid.plans == old.plans
    &&& mid.next_part_id == old.next_part_id
    &&& mid.dir == old.dir
}

/// Taking back the usage of `a` from `store` and then adding that of `new`
/// stays within the `i32` range, whatever the first step gave.
pub open spec fn replace_fits(store: MemStore, a: Activity, new: Activity) -> bool {
    &&& can_register(store, a, Factor::Sub)
    &&& forall|mid: MemStore| #[trigger] registered(store, mid, a, Factor::Sub) ==> can_register(mid, new, Factor::Add)
}

fn contains_act_type(types: &Vec<ActTypeId>, t: ActTypeId) -> (r: bool)
    ensures
        r == types@.contains(t),
{
    let mut i: usize = 0;
    while i < types.len()
        invariant
            0 <= i <= types.len(),
            forall|k: int| 0 <= k < i ==> types@[k] != t,
        decreases types.len() - i,
    {
        if types[i] == t {
            return true;
        }
        i = i + 1;
    }
    false
}

impl MemStore {
    /// Give every gearless activity of `user` of a type of `types` the gear
    /// `gear`; returns those activities, changed, in store order.
    pub fn activity_set_gear_if_null(&mut self, user: UserId, types: &Vec<ActTypeId>, gear: &PartId)
        -> (r: Result<Vec<Activity>, Error>)
        ensures
            final(self).activities@ == old(self).activities@.map_values(
                |a: Activity| with_default_gear(a, user, types@, *gear)),
            r matches Ok(v) && v@ == old(self).activities@.filter(gearless_of(user, types@)).map_values(
                |a: Activity| with_default_gear(a, user, types@, *gear)),
            final(self).parts == old(self).parts,
            final(self).usages == old(self).usages,
            final(self).attachments == old(self).attachments,
            final(self).services == old(self).services,
            final(self).plans == old(self).plans,
            final(self).next_part_id == old(self).next_part_id,
            final(self).dir == old(self).dir,
    {
        let ghost orig = self.activities@;
        let ghost pred = gearless_of(user, types@);
        let ghost f = |a: Activity| with_default_gear(a, user, types@, *gear);
        let mut updated: Vec<Activity> = Vec::new();
        let mut i: usize = 0;
        while i < self.activities.len()
            invariant
                0 <= i <= self.activities@.len(),
                self.activities@.len() == orig.len(),
                orig == old(self).activities@,
                pred == gearless_of(user, types@),
                f == (|a: Activity| with_default_gear(a, user, types@, *gear)),
                forall|k: int| 0 <= k < i ==> self.activities@[k] == f(orig[k]),
                forall|k: int| i <= k < orig.len() ==> self.activities@[k] == orig[k],
                updated@ == orig.take(i as int).filter(pred).map_values(f),
                self.parts == old(self).parts,
                self.usages == old(self).usages,
                self.attachments == old(self).attachments,
                self.services == old(self).services,
                self.plans == old(self).plans,
                self.next_part_id == old(self).next_part_id,
                self.dir == old(self).dir,
            decreases orig.len() - i,
        {
            let ghost a = orig[i as int];
            let keep: bool = self.activities[i].user_id == user && self.activities[i].gear.is_none()
                && contains_act_type(types, self.activities[i].what);
            proof {
                assert(pred(a) == keep);
                let s1 = orig.take(i + 1);
                assert(s1.drop_last() =~= orig.take(i as int));
                assert(s1.last() == a);
                reveal_with_fuel(Seq::filter, 1);
                if keep {
                    assert(s1.filter(pred) =~= orig.take(i as int).filter(pred).push(a));
                    assert(s1.filter(pred).map_values(f) =~= orig.take(i as int).filter(pred).map_values(f).push(f(a)));
                } else {
                    assert(s1.filter(pred) =~= orig.take(i as int).filter(pred));
                }
            }
            if keep {
                let mut changed = self.activities[i].duplicate();
                changed.gear = Some(*gear);
                updated.push(changed.duplicate());
                self.activities.set(i, changed);
            }
            i = i + 1;
        }
        proof {
            assert(orig.take(orig.len() as int) =~= orig);
            assert(self.activities@ =~= orig.map_values(f));
        }
        Ok(updated)
    }

    /// All activities of the store, in store order.
    pub fn activity_get_really_all(&self) -> (r: Result<Vec<Activity>, Error>)
        ensures
            r matches Ok(v) && v@ == self.activities@,
    {
        let mut r: Vec<Activity> = Vec::new();
        let mut i: usize = 0;
        while i < self.activities.len()
            invariant
                0 <= i <= self.activities@.len(),
                r@ == self.activities@.take(i as int),
            decreases self.activities@.len() - i,
        {
            r.push(self.activities[i].duplicate());
            proof { assert(self.activities@.take(i + 1) =~= self.activities@.take(i as int).push(self.activities@[i as int])); }
            i = i + 1;
        }
        proof { assert(self.activities@.take(self.activities@.len() as int) =~= self.activities@); }
        Ok(r)
    }

    /// The first activity of `uid` starting at `start`; `NotFound` when there is none.
    pub fn get_by_user_and_time(&self, uid: UserId, start: Timestamp) -> (r: Result<Activity, Error>)
        ensures
            match first_where(self.activities@, started_at(uid, start)) {
                Some(a) => r == Ok::<Activity, Error>(a),
                None => r matches Err(e) && e is NotFound,
            },
    {
        let ghost p = started_at(uid, start);
        let mut i: usize = 0;
        while i < self.activities.len()
            invariant
                0 <= i <= self.activities@.len(),
                p == started_at(uid, start),
                self.activities@.take(i as int).filter(p).len() == 0,
            decreases self.activities@.len() - i,
        {
            if self.activities[i].user_id == uid && self.activities[i].start.nanos == start.nanos {
                proof { crate::seqs::lemma_first_where_found(self.activities@, p, i as int); }
                return Ok(self.activities[i].duplicate());
            }
            proof { crate::seqs::lemma_no_match_step(self.activities@, p, i as int); }
            i = i + 1;
        }
        proof { crate::seqs::lemma_first_where_none(self.activities@, p); }
        Err(Error::NotFound("activity not found".to_owned()))
    }
}

/// Activities of `uid` that started at the instant `start`.
pub open spec fn started_at(uid: UserId, start: Timestamp) -> spec_fn(Activity) -> bool {
    |a: Activity| a.user_id == uid && a.start.nanos == start.nanos
}

/// Register the activities `acts` one after the other; `AnyFailure` on the
/// first that would leave the `i32` range.
fn register_all(acts: &Vec<Activity>, store: &mut MemStore) -> (r: Result<Summary, Error>)
    requires
        old(store).wf(),
    ensures
        final(store).wf(),
        final(store).activities == old(store).activities,
        final(store).next_part_id == old(store).next_part_id,
        final(store).dir == old(store).dir,
        r is Ok ==> replayed(*old(store), *final(store), acts@),
        replay_fits(*old(store), acts@) ==> r is Ok,
        acts@.len() == 0 ==> (r matches Ok(s) && s.is_empty()) && *final(store) == *old(store),
        r matches Err(e) ==> e is NotFound || e is AnyFailure,
{
    let mut hash = Summary::empty();
    let ghost mut chain: Seq<MemStore> = seq![*store];
    let mut i: usize = 0;
    while i < acts.len()
        invariant
            0 <= i <= acts@.len(),
            store.wf(),
            store.activities == old(store).activities,
            store.next_part_id == old(store).next_part_id,
            store.dir == old(store).dir,
            chain.len() == i + 1,
            chain[0] == *old(store),
            chain.last() == *store,
            forall|k: int| 0 <= k < i ==> #[trigger] replay_step(chain, acts@, k),
            i == 0 ==> hash.is_empty() && *store == *old(store),
        decreases acts@.len() - i,
    {
        let ghost before = *store;
        let act = acts[i].duplicate();
        proof {
            if replay_fits(*old(store), acts@) {
                assert(replay_prefix(*old(store), acts@, chain));
                assert(chain.last() == *store);
            }
        }
        let res = act.register_checked(Factor::Add, store)?;
        proof {
            let c2 = chain.push(*store);
            assert forall|k: int| 0 <= k < i + 1 implies #[trigger] replay_step(c2, acts@, k) by {
                assert(c2[k] == chain[k]);
                if k < i {
                    assert(replay_step(chain, acts@, k));
                    assert(c2[k + 1] == chain[k + 1]);
                } else {
                    assert(c2[k + 1] == *store);
                }
            }
            chain = c2;
        }
        hash = hash.merge(res);
        i = i + 1;
    }
    proof {
        assert(chain.len() == acts@.len() + 1);
    }
    Ok(hash)
}

impl Activity {
    /// Make `gear_id` the gear of the session user's activities that have
    /// none and whose type uses the gear's type, and account them to it.
    ///
    /// checks authorization on the gear
    pub fn set_default_part<S: Session>(gear_id: PartId, user: &S, store: &mut MemStore) -> (r: Result<Summary, Error>)
        requires
            old(store).wf(),
        ensures
            final(store).wf(),
            match crate::part::part_denial(*old(store), user.session_user(), user.session_shop(), gear_id) {
                Some(k) => (r matches Err(e) && e.kind() == k) && *final(store) == *old(store),
                None => {
                    let types = act_type_ids_for(old(store).part(gear_id).what);
                    let f = |a: Activity| with_default_gear(a, user.session_user(), types, gear_id);
                    &&& final(store).activities@ == old(store).activities@.map_values(f)
                    &&& r is Ok ==> exists|mid: MemStore| #[trigger] replayed(mid, *final(store),
                            old(store).activities@.filter(gearless_of(user.session_user(), types)).map_values(f))
                        && mid.parts == old(store).parts && mid.usages == old(store).usages
                        && mid.attachments == old(store).attachments && mid.services == old(store).services
                        && mid.plans == old(store).plans
                    &&& (forall|mid: MemStore| #[trigger] gear_set(*old(store), mid, old(store).activities@.map_values(f))
                        ==> replay_fits(mid, old(store).activities@.filter(gearless_of(user.session_user(), types)).map_values(f)))
                        ==> r is Ok
                    &&& r matches Err(e) ==> e is NotFound || e is AnyFailure
                    &&& old(store).activities@.filter(gearless_of(user.session_user(), types)).len() == 0
                        ==> (r matches Ok(s) && s.is_empty()) && final(store).activities@ == old(store).activities@
                            && final(store).usages == old(store).usages && final(store).parts == old(store).parts
                },
            },
    {
        let part = gear_id.part(user, store)?;
        let types = part.what.act_types();
        let uid = user.user_id();
        let ghost s0 = *store;
        let acts = store.activity_set_gear_if_null(uid, &types, &gear_id)?;
        let ghost mid = *store;
        proof { assert(gear_set(s0, mid, mid.activities@)); }
        let res = register_all(&acts, store);
        proof {
            if res is Ok {
                assert(replayed(mid, *store, acts@));
            }
            let g = gearless_of(user.session_user(), act_type_ids_for(s0.part(gear_id).what));
            if s0.activities@.filter(g).len() == 0 {
                assert forall|k: int| 0 <= k < s0.activities@.len() implies #[trigger] mid.activities@[k] == s0.activities@[k] by {
                    s0.activities@.filter_lemma(g);
                    if g(s0.activities@[k]) {
                        assert(s0.activities@.filter(g).contains(s0.activities@[k]));
                    }
                }
                assert(mid.activities@ =~= s0.activities@);
            }
        }
        res
    }

    /// Forget all usages and account every activity anew, in store order.
    pub fn rescan_all(store: &mut MemStore) -> (r: Result<(), Error>)
        requires
            old(store).wf(),
        ensures
            final(store).wf(),
            final(store).activities == old(store).activities,
            r is Ok ==> exists|mid: MemStore| #[trigger] replayed(mid, *final(store), old(store).activities@)
                && mid.usages@ == Map::<u128, Usage>::empty() && mid.parts == old(store).parts
                && mid.attachments == old(store).attachments && mid.services == old(store).services
                && mid.plans == old(store).plans,
            (forall|mid: MemStore| #[trigger] usages_cleared(*old(store), mid) ==> replay_fits(mid, old(store).activities@))
                ==> r is Ok,
            r matches Err(e) ==> e is NotFound || e is AnyFailure,
    {
        let _n: usize = Usage::delete_all(store)?;
        let ghost mid = *store;
        proof { assert(usages_cleared(*old(store), mid)); }
        let all = store.activity_get_really_all()?;
        let _s = register_all(&all, store)?;
        proof { assert(replayed(mid, *store, old(store).activities@)); }
        Ok(())
    }

    /// The gear types used by the activity types of the session user's
    /// activities, each once, in catalogue order.
    pub fn categories<S: Session>(user: &S, store: &MemStore) -> (r: Result<Vec<PartTypeId>, Error>)
        ensures
            r matches Ok(v) && v@.no_duplicates() && forall|t: PartTypeId| #[trigger] v@.contains(t) <==>
                exists|i: int| 0 <= i < activity_type_table().len() && activity_type_table()[i].gear_type == t
                    && exists|a: Activity| #[trigger] store.activities@.contains(a) && a.user_id == user.session_user()
                        && a.what == activity_type_table()[i].id,
    {
        let uid = user.user_id();
        let acts = store.get_all(&uid)?;
        let mut act_types: Vec<ActTypeId> = Vec::new();
        let mut i: usize = 0;
        while i < acts.len()
            invariant
                0 <= i <= acts@.len(),
                acts@ == store.activities@.filter(|a: Activity| a.user_id == uid),
                forall|t: ActTypeId| #[trigger] act_types@.contains(t) <==> exists|k: int| 0 <= k < i && acts@[k].what == t,
            decreases acts@.len() - i,
        {
            let t = acts[i].what;
            let ghost before = act_types@;
            if !contains_act_type(&act_types, t) {
                act_types.push(t);
            }
            proof {
                assert forall|x: ActTypeId| #[trigger] act_types@.contains(x) <==> exists|k: int| 0 <= k < i + 1 && acts@[k].what == x by {
                    if act_types@.len() > 0 {
                        crate::store::lemma_contains_last(act_types@, x);
                    }
                    if act_types@.len() > before.len() {
                        assert(act_types@.drop_last() == before);
                    }
                    if exists|k: int| 0 <= k < i + 1 && acts@[k].what == x {
                        let k = choose|k: int| 0 <= k < i + 1 && acts@[k].what == x;
                        if k < i {
                            assert(exists|k2: int| 0 <= k2 < i && acts@[k2].what == x);
                        }
                    }
                    if x == t {
                        assert(acts@[i as int].what == x);
                    }
                }
            }
            i = i + 1;
        }
        let all = ActivityType::all_ordered();
        let ghost table = all@.map_values(|a: ActivityType| a@);
        let mut res: Vec<PartTypeId> = Vec::new();
        let mut j: usize = 0;
        while j < all.len()
            invariant
                0 <= j <= all@.len(),
                table == all@.map_values(|a: ActivityType| a@),
                table == activity_type_table(),
                res@.no_duplicates(),
                forall|t: PartTypeId| #[trigger] res@.contains(t) <==> exists|q: int| 0 <= q < j
                    && table[q].gear_type == t && act_types@.contains(table[q].id),
            decreases all@.len() - j,
        {
            let at = &all[j];
            proof { assert(table[j as int] == at@); }
            let ghost before = res@;
            if contains_act_type(&act_types, at.id) && !crate::types::contains_type(&res, at.gear_type) {
                res.push(at.gear_type);
            }
            proof {
                assert forall|t: PartTypeId| #[trigger] res@.contains(t) <==> exists|q: int| 0 <= q < j + 1
                    && table[q].gear_type == t && act_types@.contains(table[q].id) by {
                    if res@.len() > 0 {
                        crate::store::lemma_contains_last(res@, t);
                    }
                    if res@.len() > before.len() {
                        assert(res@.drop_last() == before);
                    }
                    if exists|q: int| 0 <= q < j + 1 && table[q].gear_type == t && act_types@.contains(table[q].id) {
                        let q = choose|q: int| 0 <= q < j + 1 && table[q].gear_type == t && act_types@.contains(table[q].id);
                        if q < j {
                            assert(exists|q2: int| 0 <= q2 < j && table[q2].gear_type == t && act_types@.contains(table[q2].id));
                        }
                    }
                    if t == at.gear_type && act_types@.contains(at.id) {
                        assert(table[j as int].gear_type == t);
                    }
                }
                if res@.len() > before.len() {
                    assert forall|a: int, b: int| 0 <= a < b < res@.len() implies res@[a] != res@[b] by {
                        if b == res@.len() - 1 {
                            assert(before.contains(before[a]));
                        }
                    }
                }
            }
            j = j + 1;
        }
        proof {
            let pred = |a: Activity| a.user_id == uid;
            crate::store::lemma_filter_members(store.activities@, pred);
            assert forall|t: PartTypeId| #[trigger] res@.contains(t) <==>
                exists|i: int| 0 <= i < activity_type_table().len() && activity_type_table()[i].gear_type == t
                    && exists|a: Activity| #[trigger] store.activities@.contains(a) && a.user_id == uid
                        && a.what == activity_type_table()[i].id by {
                if res@.contains(t) {
                    let q = choose|q: int| 0 <= q < table.len() && table[q].gear_type == t && act_types@.contains(table[q].id);
                    let k = choose|k: int| 0 <= k < acts@.len() && acts@[k].what == table[q].id;
                    assert(acts@.contains(acts@[k]));
                    assert(store.activities@.contains(acts@[k]));
                }
                if exists|i: int| 0 <= i < activity_type_table().len() && activity_type_table()[i].gear_type == t
                    && exists|a: Activity| #[trigger] store.activities@.contains(a) && a.user_id == uid
                        && a.what == activity_type_table()[i].id {
                    let i = choose|i: int| 0 <= i < activity_type_table().len() && activity_type_table()[i].gear_type == t
                        && exists|a: Activity| #[trigger] store.activities@.contains(a) && a.user_id == uid
                            && a.what == activity_type_table()[i].id;
                    let a = choose|a: Activity| #[trigger] store.activities@.contains(a) && a.user_id == uid
                        && a.what == activity_type_table()[i].id;
                    assert(acts@.contains(a));
                    let k = choose|k: int| 0 <= k < acts@.len() && acts@[k] == a;
                    assert(act_types@.contains(a.what));
                }
            }
        }
        Ok(res)
    }
}



impl Activity {
    /// Take back the usage of `self` (the stored activity) and account that
    /// of `new`, which replaces it in the store; `AnyFailure` where a usage
    /// counter would leave the `i32` range.
    pub fn replace_checked(self, new: Activity, store: &mut MemStore) -> (r: Result<Summary, Error>)
        requires
            old(store).wf(),
        ensures
            final(store).wf(),
            final(store).next_part_id == old(store).next_part_id,
            final(store).dir == old(store).dir,
            !can_register(*old(store), self, Factor::Sub) ==> (r matches Err(e) && e is AnyFailure) && *final(store) == *old(store),
            r is Ok ==> exists|mid: MemStore|
                #[trigger] registered(*old(store), mid, self, Factor::Sub)
                    && registered(mid, *final(store), new, Factor::Add),
            r is Ok ==> final(store).activities@ == replaced(old(store).activities@, new),
            !registrable(*old(store), self) ==> r is Err,
            replace_fits(*old(store), self, new) && registrable(*old(store), self) && registrable(*old(store), new)
                ==> r is Ok,
            r matches Ok(s) ==> crate::summary::merged(seq![self, new], s.activities@),
            r matches Err(e) ==> e is NotFound || e is AnyFailure,
    {
        let ghost s0 = *store;
        let res = self.register_checked(Factor::Sub, store)?;
        let ghost mid = *store;
        let act = store.activity_update(new)?;
        let ghost mid2 = *store;
        proof {
            lemma_registered_frame(s0, mid, mid2, self, Factor::Sub);
            lemma_registered_keeps_registrable(s0, mid2, self, Factor::Sub, new);
        }
        let res2 = act.register_checked(Factor::Add, store)?;
        proof { assert(res.activities@ + res2.activities@ =~= seq![self, new]); }
        Ok(res.merge(res2))
    }

    /// Update the stored activity with the id of `self` to `self` and move
    /// the usage accordingly; `AnyFailure` where a usage counter would leave
    /// the `i32` range.
    ///
    /// checks authorization
    pub fn update_checked<S: Session>(self, user: &S, store: &mut MemStore) -> (r: Result<Summary, Error>)
        requires
            old(store).wf(),
        ensures
            final(store).wf(),
            final(store).next_part_id == old(store).next_part_id,
            final(store).dir == old(store).dir,
            match crate::store::activity_by_id(old(store).activities@, self.id) {
                None => (r matches Err(e) && e is NotFound) && *final(store) == *old(store),
                Some(a) => if a.user_id != user.session_user() {
                    (r matches Err(e) && e is Forbidden) && *final(store) == *old(store)
                } else {
                    &&& r is Ok ==> exists|mid: MemStore|
                        #[trigger] registered(*old(store), mid, a, Factor::Sub)
                            && registered(mid, *final(store), self, Factor::Add)
                    &&& r is Ok ==> final(store).activities@ == replaced(old(store).activities@, self)
                    &&& replace_fits(*old(store), a, self) && registrable(*old(store), a)
                        && registrable(*old(store), self) ==> r is Ok
                    &&& r matches Ok(s) ==> crate::summary::merged(seq![a, self], s.activities@)
                    &&& r matches Err(e) ==> e is NotFound || e is AnyFailure
                },
            },
    {
        let act = self.id.read(user, store)?;
        act.replace_checked(self, store)
    }
}

} // verus!
