//! Rows as the relational store keeps them, and their conversion to and
//! from the domain's entities.

use vstd::prelude::*;
use crate::error::Error;
use crate::usage::{Usage, UsageId};
use crate::user::{OnboardingStatus, User, UserId};
use crate::activity::{Activity, ActivityId};
use crate::part::PartId;
use crate::timestamp::Timestamp;
use crate::types::{ActTypeId, PartTypeId};
use crate::service::{Service, ServiceId, ServiceView};
use crate::serviceplan::{ServicePlan, ServicePlanId};
use crate::subscription::{ShopSubscription, SubscriptionId, SubscriptionStatus, status_name};
use crate::shop::ShopId;
use crate::attachment::Attachment;
use crate::text::text_eq;

verus! {

/// Convert every element of `from`, keeping the order.
pub fn vec_into<F, T: From<F>>(from: Vec<F>) -> (r: Vec<T>)
    ensures
        r@.len() == from@.len(),
        forall|i: int| 0 <= i < r@.len() ==> #[trigger] call_ensures(T::from, (from@[i],), r@[i]),
        <T as vstd::std_specs::convert::FromSpec<F>>::obeys_from_spec() ==>
            forall|i: int| 0 <= i < r@.len() ==> r@[i] == #[trigger] <T as vstd::std_specs::convert::FromSpec<F>>::from_spec(from@[i]),
{
    let mut src = from;
    let ghost orig = src@;
    let mut r: Vec<T> = Vec::new();
    while src.len() > 0
        invariant
            r@.len() + src@.len() == orig.len(),
            src@ == orig.skip(r@.len() as int),
            forall|k: int| 0 <= k < r@.len() ==> #[trigger] call_ensures(T::from, (orig[k],), r@[k]),
            <T as vstd::std_specs::convert::FromSpec<F>>::obeys_from_spec() ==> forall|k: int| 0 <= k < r@.len()
                ==> r@[k] == #[trigger] <T as vstd::std_specs::convert::FromSpec<F>>::from_spec(orig[k]),
        decreases src@.len(),
    {
        let ghost before = src@;
        let x = src.remove(0);
        proof {
            assert(x == orig[r@.len() as int]);
            assert(src@ =~= orig.skip(r@.len() as int + 1));
        }
        let y = T::from(x);
        r.push(y);
    }
    r
}

/// Convert the value of `from`, if there is one.
pub fn option_into<F, T: From<F>>(from: Option<F>) -> (r: Option<T>)
    ensures
        from is None <==> r is None,
        from matches Some(x) ==> call_ensures(T::from, (x,), r.unwrap()),
        <T as vstd::std_specs::convert::FromSpec<F>>::obeys_from_spec() && from is Some
            ==> r == Some(<T as vstd::std_specs::convert::FromSpec<F>>::from_spec(from.unwrap())),
{
    match from {
        Some(x) => Some(T::from(x)),
        None => None,
    }
}

/// A usage row; its counters may be missing.
#[derive(Clone, Debug, PartialEq, Eq, Structural)]
pub struct DbUsage {
    /// id for referencing
    pub id: u128,
    /// usage time
    pub time: Option<i32>,
    /// Usage distance
    pub distance: Option<i32>,
    /// Overall climbing
    pub climb: Option<i32>,
    /// Overall descending
    pub descend: Option<i32>,
    /// Overall energy
    pub energy: i32,
    /// number of activities
    pub count: Option<i32>,
}

impl Default for DbUsage {
    fn default() -> (r: DbUsage)
        ensures
            r == (DbUsage { id: 0, time: None, distance: None, climb: None, descend: None, energy: 0, count: None }),
    {
        DbUsage { id: 0, time: None, distance: None, climb: None, descend: None, energy: 0, count: None }
    }
}

impl DbUsage {
    /// The row of a usage: every counter present.
    pub fn from_usage(value: &Usage) -> (r: DbUsage)
        ensures
            r == usage_row(*value),
    {
        DbUsage {
            id: value.id.0,
            time: Some(value.time),
            distance: Some(value.distance),
            climb: Some(value.climb),
            descend: Some(value.descend),
            energy: value.energy,
            count: Some(value.count),
        }
    }

    /// The usage of a row: a missing counter counts as 0.
    pub fn into_usage(self) -> (r: Usage)
        ensures
            r == db_usage(self),
    {
        Usage {
            id: UsageId(self.id),
            time: match self.time { Some(v) => v, None => 0 },
            distance: match self.distance { Some(v) => v, None => 0 },
            climb: match self.climb { Some(v) => v, None => 0 },
            descend: match self.descend { Some(v) => v, None => 0 },
            energy: self.energy,
            count: match self.count { Some(v) => v, None => 0 },
        }
    }
}

/// The row of a usage: every counter present.
pub open spec fn usage_row(u: Usage) -> DbUsage {
    DbUsage {
        id: u.id.0,
        time: Some(u.time),
        distance: Some(u.distance),
        climb: Some(u.climb),
        descend: Some(u.descend),
        energy: u.energy,
        count: Some(u.count),
    }
}

/// Storing a usage as a row and reading it back gives the usage.
pub proof fn law_usage_row_roundtrip(u: Usage)
    ensures
        db_usage(usage_row(u)) == u,
{
}

/// The value of an optional counter, 0 when missing.
pub open spec fn or_zero(v: Option<i32>) -> i32 {
    match v {
        Some(x) => x,
        None => 0,
    }
}

/// The usage a row stands for.
pub open spec fn db_usage(d: DbUsage) -> Usage {
    Usage {
        id: UsageId(d.id),
        time: or_zero(d.time),
        distance: or_zero(d.distance),
        climb: or_zero(d.climb),
        descend: or_zero(d.descend),
        energy: d.energy,
        count: or_zero(d.count),
    }
}

impl From<DbUsage> for Usage {
    fn from(value: DbUsage) -> (r: Usage) {
        value.into_usage()
    }
}

impl vstd::std_specs::convert::FromSpecImpl<DbUsage> for Usage {
    open spec fn obeys_from_spec() -> bool {
        true
    }

    open spec fn from_spec(value: DbUsage) -> Usage {
        db_usage(value)
    }
}

/// A user row; the onboarding status is kept as its number.
#[derive(Clone, Debug)]
pub struct DbUser {
    pub id: i32,
    pub name: String,
    pub firstname: String,
    pub is_admin: bool,
    pub avatar: Option<String>,
    pub onboarding_status: i32,
}

impl From<User> for DbUser {
    fn from(value: User) -> (r: DbUser) {
        DbUser {
            id: value.id.0,
            name: value.name,
            firstname: value.firstname,
            is_admin: value.is_admin,
            avatar: value.avatar,
            onboarding_status: i32::from(value.onboarding_status),
        }
    }
}

impl vstd::std_specs::convert::FromSpecImpl<User> for DbUser {
    open spec fn obeys_from_spec() -> bool {
        true
    }

    open spec fn from_spec(value: User) -> DbUser {
        user_row(value)
    }
}

/// The row of a user.
pub open spec fn user_row(value: User) -> DbUser {
    DbUser {
        id: value.id.0,
        name: value.name,
        firstname: value.firstname,
        is_admin: value.is_admin,
        avatar: value.avatar,
        onboarding_status: value.onboarding_status.code(),
    }
}

/// The user a row with a known onboarding status stands for.
pub open spec fn row_user(d: DbUser) -> User {
    User {
        id: UserId(d.id),
        name: d.name,
        firstname: d.firstname,
        avatar: d.avatar,
        is_admin: d.is_admin,
        onboarding_status: OnboardingStatus::from_code(d.onboarding_status)->Some_0,
    }
}

/// Storing a user as a row and reading it back gives the user; the row's
/// onboarding status is one the domain knows.
pub proof fn law_user_row_roundtrip(u: User)
    ensures
        OnboardingStatus::from_code(user_row(u).onboarding_status) is Some,
        row_user(user_row(u)) == u,
{
    crate::user::lemma_onboarding_code_roundtrip(u.onboarding_status);
}

impl DbUser {
    /// The user of a row whose onboarding status is one the domain knows.
    pub fn into_user(self) -> (r: User)
        requires
            OnboardingStatus::from_code(self.onboarding_status) is Some,
        ensures
            r == row_user(self),
    {
        let status = OnboardingStatus::try_from(self.onboarding_status).expect("Invalid onboarding status in database");
        User {
            id: UserId(self.id),
            name: self.name,
            firstname: self.firstname,
            avatar: self.avatar,
            is_admin: self.is_admin,
            onboarding_status: status,
        }
    }

    /// The user of a row; `BadRequest` when its onboarding status is not
    /// one the domain knows.
    pub fn try_into_user(self) -> (r: Result<User, Error>)
        ensures
            OnboardingStatus::from_code(self.onboarding_status) is Some ==> r == Ok::<User, Error>(row_user(self)),
            OnboardingStatus::from_code(self.onboarding_status) is None ==> (r matches Err(e) && e is BadRequest),
    {
        let status = OnboardingStatus::try_from(self.onboarding_status)?;
        Ok(User {
            id: UserId(self.id),
            name: self.name,
            firstname: self.firstname,
            avatar: self.avatar,
            is_admin: self.is_admin,
            onboarding_status: status,
        })
    }
}

/// A row linking a Strava athlete to a user.
#[derive(Clone, Debug)]
pub struct DbStravaUser {
    pub id: i32,
    pub tendabike_id: i32,
    pub refresh_token: Option<String>,
}

impl Default for DbStravaUser {
    fn default() -> (r: DbStravaUser)
        ensures
            r.id == 0 && r.tendabike_id == 0 && r.refresh_token is None,
    {
        DbStravaUser { id: 0, tendabike_id: 0, refresh_token: None }
    }
}

/// A stored Strava webhook event; its updates are kept as JSON text.
#[derive(Debug)]
pub struct DbEvent {
    pub id: Option<i32>,
    pub object_type: String,
    pub object_id: i64,
    pub aspect_type: String,
    pub updates: String,
    pub owner_id: i32,
    pub subscription_id: i32,
    pub event_time: i64,
}

impl Default for DbEvent {
    fn default() -> (r: DbEvent)
        ensures
            r.id is None && r.object_type@.len() == 0 && r.object_id == 0 && r.aspect_type@.len() == 0
                && r.updates@.len() == 0 && r.owner_id == 0 && r.subscription_id == 0 && r.event_time == 0,
    {
        DbEvent {
            id: None,
            object_type: String::new(),
            object_id: 0,
            aspect_type: String::new(),
            updates: String::new(),
            owner_id: 0,
            subscription_id: 0,
            event_time: 0,
        }
    }
}

/// An activity row: the start is kept as an instant, its offset from UTC
/// in a column of its own.
#[derive(Clone, Debug)]
pub struct DbActivity {
    /// The athlete
    pub user_id: i32,
    /// The activity type
    pub what: i32,
    /// This name of the activity.
    pub name: String,
    /// Start time
    pub start: Timestamp,
    /// End time
    pub duration: i32,
    /// activity time
    pub time: Option<i32>,
    /// Covered distance
    pub distance: Option<i32>,
    /// Total climbing
    pub climb: Option<i32>,
    /// Total descending
    pub descend: Option<i32>,
    /// average energy output
    pub energy: Option<i32>,
    /// Which gear did she use?
    pub gear: Option<i32>,
    /// utc offset since timstamptz does not store the timezone
    pub utc_offset: i32,
    /// The primary key
    pub id: i64,
    /// device name
    pub device_name: Option<String>,
    pub external_id: Option<String>,
}

/// The row of an activity.
pub open spec fn activity_row(v: Activity) -> DbActivity {
    DbActivity {
        user_id: v.user_id.0,
        what: v.what.0,
        name: v.name,
        start: v.start,
        duration: v.duration,
        time: v.time,
        distance: v.distance,
        climb: v.climb,
        descend: v.descend,
        energy: v.energy,
        gear: match v.gear {
            Some(g) => Some(g.0),
            None => None,
        },
        utc_offset: v.start.offset,
        id: v.id.0,
        device_name: v.device_name,
        external_id: v.external_id,
    }
}

impl From<Activity> for DbActivity {
    fn from(v: Activity) -> (r: DbActivity) {
        let utc_offset = v.start.offset;
        DbActivity {
            user_id: v.user_id.0,
            what: v.what.0,
            name: v.name,
            start: v.start,
            duration: v.duration,
            time: v.time,
            distance: v.distance,
            climb: v.climb,
            descend: v.descend,
            energy: v.energy,
            gear: match v.gear {
                Some(g) => Some(g.0),
                None => None,
            },
            utc_offset,
            id: v.id.0,
            device_name: v.device_name,
            external_id: v.external_id,
        }
    }
}

impl vstd::std_specs::convert::FromSpecImpl<Activity> for DbActivity {
    open spec fn obeys_from_spec() -> bool {
        true
    }

    open spec fn from_spec(v: Activity) -> DbActivity {
        activity_row(v)
    }
}

/// `a / b` rounded toward zero, as integer division does.
pub open spec fn div_toward_zero(a: int, b: int) -> int {
    if a >= 0 { a / b } else { -((-a) / b) }
}

/// A stored offset rounded to half hours: `((offset + 900) / 1800) * 1800`
/// with the division rounding toward zero.
pub open spec fn half_hours(offset: i32) -> int {
    div_toward_zero(offset + 900, 1800) * 1800
}

/// Whether a number of seconds is an offset from UTC: less than 26 hours
/// either way.
pub open spec fn valid_offset(secs: int) -> bool {
    -93_600 < secs < 93_600
}

/// The activity a row with a valid rounded offset stands for.
pub open spec fn row_activity(d: DbActivity) -> Activity {
    Activity {
        id: ActivityId(d.id),
        user_id: UserId(d.user_id),
        what: ActTypeId(d.what),
        name: d.name,
        start: Timestamp { nanos: d.start.nanos, offset: half_hours(d.utc_offset) as i32 },
        duration: d.duration,
        time: d.time,
        distance: d.distance,
        climb: d.climb,
        descend: d.descend,
        energy: d.energy,
        gear: match d.gear {
            Some(g) => Some(PartId(g)),
            None => None,
        },
        device_name: d.device_name,
        external_id: d.external_id,
    }
}

impl DbActivity {
    /// The activity of a row: its start is the stored instant seen at the
    /// stored offset rounded to half hours; `AnyFailure` when that offset
    /// is not one.
    pub fn try_into_activity(self) -> (r: Result<Activity, Error>)
        ensures
            valid_offset(half_hours(self.utc_offset)) ==> r == Ok::<Activity, Error>(row_activity(self)),
            !valid_offset(half_hours(self.utc_offset)) ==> (r matches Err(Error::AnyFailure(m)) && m@ == "Utc Offset invalid"@),
    {
        let shifted: i64 = self.utc_offset as i64 + 900;
        let quot: i64 = shifted / 1800;
        let rounded: i64 = quot * 1800;
        proof {
            assert(quot == div_toward_zero(self.utc_offset + 900, 1800));
        }
        if !(-93_600 < rounded && rounded < 93_600) {
            return Err(Error::AnyFailure("Utc Offset invalid".to_owned()));
        }
        let offset: i32 = rounded as i32;
        Ok(Activity {
            id: ActivityId(self.id),
            user_id: UserId(self.user_id),
            what: ActTypeId(self.what),
            name: self.name,
            start: Timestamp { nanos: self.start.nanos, offset },
            duration: self.duration,
            time: self.time,
            distance: self.distance,
            climb: self.climb,
            descend: self.descend,
            energy: self.energy,
            gear: match self.gear {
                Some(g) => Some(PartId(g)),
                None => None,
            },
            device_name: self.device_name,
            external_id: self.external_id,
        })
    }
}

/// Storing an activity whose offset is a whole, non-negative number of
/// half hours and reading it back gives the activity.
pub proof fn law_activity_row_roundtrip(v: Activity)
    requires
        v.start.offset % 1800 == 0,
        v.start.offset >= 0,
        valid_offset(v.start.offset as int),
    ensures
        valid_offset(half_hours(activity_row(v).utc_offset)),
        row_activity(activity_row(v)) == v,
{
    let o = v.start.offset as int;
    assert(half_hours(v.start.offset) == o) by {
        assert((o + 900) / 1800 == o / 1800) by (nonlinear_arith)
            requires o % 1800 == 0, o >= 0;
        assert((o / 1800) * 1800 == o) by (nonlinear_arith)
            requires o % 1800 == 0;
    }
}

/// A service row: ids as UUID values.
#[derive(Clone, Debug)]
pub struct DbService {
    pub id: u128,
    /// the part serviced
    pub part_id: i32,
    /// when it was serviced
    pub time: Timestamp,
    /// when there was a new service
    pub redone: Timestamp,
    pub name: String,
    pub notes: String,
    pub usage: u128,
    /// the next service of this kind
    pub successor: Option<u128>,
    /// the service plans it is fulfilling
    pub plans: Vec<u128>,
}

/// The UUID values of plan ids.
pub open spec fn plan_uuids(plans: Seq<ServicePlanId>) -> Seq<u128> {
    plans.map_values(|p: ServicePlanId| p.0)
}

/// The plan ids of UUID values.
pub open spec fn uuid_plans(ids: Seq<u128>) -> Seq<ServicePlanId> {
    ids.map_values(|v: u128| ServicePlanId(v))
}

/// The successor id of a row's UUID value.
pub open spec fn successor_of_row(v: Option<u128>) -> Option<ServiceId> {
    match v {
        Some(x) => Some(ServiceId(x)),
        None => None,
    }
}

/// The UUID value of a successor id.
pub open spec fn successor_uuid(v: Option<ServiceId>) -> Option<u128> {
    match v {
        Some(x) => Some(x.0),
        None => None,
    }
}

impl DbService {
    /// The row of a service.
    pub fn from_service(value: Service) -> (r: DbService)
        ensures
            is_service_row(value, r),
    {
        let mut plans: Vec<u128> = Vec::new();
        let mut i: usize = 0;
        while i < value.plans.len()
            invariant
                0 <= i <= value.plans@.len(),
                plans@ == plan_uuids(value.plans@.take(i as int)),
            decreases value.plans@.len() - i,
        {
            plans.push(value.plans[i].0);
            proof {
                assert(plan_uuids(value.plans@.take(i + 1)) =~= plan_uuids(value.plans@.take(i as int)).push(value.plans@[i as int].0));
            }
            i = i + 1;
        }
        proof { assert(value.plans@.take(value.plans@.len() as int) =~= value.plans@); }
        DbService {
            id: value.id.0,
            part_id: value.part_id.0,
            time: value.time,
            redone: value.redone,
            name: value.name,
            notes: value.notes,
            usage: value.usage.0,
            successor: match value.successor {
                Some(x) => Some(x.0),
                None => None,
            },
            plans,
        }
    }

    /// The service of a row.
    pub fn into_service(self) -> (r: Service)
        ensures
            r@ == row_service(self),
    {
        let mut plans: Vec<ServicePlanId> = Vec::new();
        let mut i: usize = 0;
        while i < self.plans.len()
            invariant
                0 <= i <= self.plans@.len(),
                plans@ == uuid_plans(self.plans@.take(i as int)),
            decreases self.plans@.len() - i,
        {
            plans.push(ServicePlanId(self.plans[i]));
            proof {
                assert(uuid_plans(self.plans@.take(i + 1)) =~= uuid_plans(self.plans@.take(i as int)).push(ServicePlanId(self.plans@[i as int])));
            }
            i = i + 1;
        }
        proof { assert(self.plans@.take(self.plans@.len() as int) =~= self.plans@); }
        Service {
            id: ServiceId(self.id),
            part_id: PartId(self.part_id),
            time: self.time,
            redone: self.redone,
            name: self.name,
            notes: self.notes,
            usage: UsageId(self.usage),
            successor: match self.successor {
                Some(x) => Some(ServiceId(x)),
                None => None,
            },
            plans,
        }
    }
}

/// The values of the service a row stands for.
pub open spec fn row_service(d: DbService) -> ServiceView {
    ServiceView {
        id: ServiceId(d.id),
        part_id: PartId(d.part_id),
        time: d.time,
        redone: d.redone,
        name: d.name@,
        notes: d.notes@,
        usage: UsageId(d.usage),
        successor: successor_of_row(d.successor),
        plans: uuid_plans(d.plans@),
    }
}

/// Whether `d` is the row of `v`.
pub open spec fn is_service_row(v: Service, d: DbService) -> bool {
    &&& d.id == v.id.0
    &&& d.part_id == v.part_id.0
    &&& d.time == v.time
    &&& d.redone == v.redone
    &&& d.name == v.name
    &&& d.notes == v.notes
    &&& d.usage == v.usage.0
    &&& d.successor == successor_uuid(v.successor)
    &&& d.plans@ == plan_uuids(v.plans@)
}

/// Storing a service as a row and reading it back gives its values.
pub proof fn law_service_row_roundtrip(v: Service, d: DbService)
    requires
        is_service_row(v, d),
    ensures
        row_service(d) == v@,
{
    assert(uuid_plans(plan_uuids(v.plans@)) =~= v.plans@);
}

/// A service plan row.
#[derive(Clone, Debug)]
pub struct DbServicePlan {
    pub id: u128,
    pub part: Option<i32>,
    pub what: i32,
    pub hook: Option<i32>,
    pub name: String,
    pub days: Option<i32>,
    pub hours: Option<i32>,
    pub km: Option<i32>,
    pub climb: Option<i32>,
    pub descend: Option<i32>,
    pub rides: Option<i32>,
    pub uid: Option<i32>,
    pub energy: Option<i32>,
}

/// The row of a service plan.
pub open spec fn plan_row(v: ServicePlan) -> DbServicePlan {
    DbServicePlan {
        id: v.id.0,
        part: match v.part { Some(p) => Some(p.0), None => None },
        what: v.what.0,
        hook: match v.hook { Some(h) => Some(h.0), None => None },
        name: v.name,
        days: v.days,
        hours: v.hours,
        km: v.km,
        climb: v.climb,
        descend: v.descend,
        rides: v.rides,
        uid: match v.uid { Some(u) => Some(u.0), None => None },
        energy: v.energy,
    }
}

/// The service plan a row stands for.
pub open spec fn row_plan(d: DbServicePlan) -> ServicePlan {
    ServicePlan {
        id: ServicePlanId(d.id),
        part: match d.part { Some(p) => Some(PartId(p)), None => None },
        what: PartTypeId(d.what),
        hook: match d.hook { Some(h) => Some(PartTypeId(h)), None => None },
        name: d.name,
        days: d.days,
        hours: d.hours,
        km: d.km,
        climb: d.climb,
        descend: d.descend,
        rides: d.rides,
        uid: match d.uid { Some(u) => Some(UserId(u)), None => None },
        energy: d.energy,
    }
}

impl From<ServicePlan> for DbServicePlan {
    fn from(v: ServicePlan) -> (r: DbServicePlan) {
        DbServicePlan {
            id: v.id.0,
            part: match v.part { Some(p) => Some(p.0), None => None },
            what: v.what.0,
            hook: match v.hook { Some(h) => Some(h.0), None => None },
            name: v.name,
            days: v.days,
            hours: v.hours,
            km: v.km,
            climb: v.climb,
            descend: v.descend,
            rides: v.rides,
            uid: match v.uid { Some(u) => Some(u.0), None => None },
            energy: v.energy,
        }
    }
}

impl vstd::std_specs::convert::FromSpecImpl<ServicePlan> for DbServicePlan {
    open spec fn obeys_from_spec() -> bool {
        true
    }

    open spec fn from_spec(v: ServicePlan) -> DbServicePlan {
        plan_row(v)
    }
}

impl From<DbServicePlan> for ServicePlan {
    fn from(d: DbServicePlan) -> (r: ServicePlan) {
        ServicePlan {
            id: ServicePlanId(d.id),
            part: match d.part { Some(p) => Some(PartId(p)), None => None },
            what: PartTypeId(d.what),
            hook: match d.hook { Some(h) => Some(PartTypeId(h)), None => None },
            name: d.name,
            days: d.days,
            hours: d.hours,
            km: d.km,
            climb: d.climb,
            descend: d.descend,
            rides: d.rides,
            uid: match d.uid { Some(u) => Some(UserId(u)), None => None },
            energy: d.energy,
        }
    }
}

impl vstd::std_specs::convert::FromSpecImpl<DbServicePlan> for ServicePlan {
    open spec fn obeys_from_spec() -> bool {
        true
    }

    open spec fn from_spec(d: DbServicePlan) -> ServicePlan {
        row_plan(d)
    }
}

/// Storing a service plan as a row and reading it back gives the plan.
pub proof fn law_plan_row_roundtrip(v: ServicePlan)
    ensures
        row_plan(plan_row(v)) == v,
{
}

/// A subscription row: the status is kept as its lower-case name.
#[derive(Clone, Debug)]
pub struct DbSubscription {
    pub id: i32,
    pub shop_id: i32,
    pub user_id: i32,
    pub status: String,
    pub message: Option<String>,
    pub response_message: Option<String>,
    pub created_at: Timestamp,
    pub updated_at: Timestamp,
}

/// The status a stored name stands for: "active", "rejected" and
/// "cancelled" name theirs, anything else is pending.
pub open spec fn row_status(name: Seq<char>) -> SubscriptionStatus {
    if name == "active"@ {
        SubscriptionStatus::Active
    } else if name == "rejected"@ {
        SubscriptionStatus::Rejected
    } else if name == "cancelled"@ {
        SubscriptionStatus::Cancelled
    } else {
        SubscriptionStatus::Pending
    }
}

/// The subscription a row stands for.
pub open spec fn row_subscription(d: DbSubscription) -> ShopSubscription {
    ShopSubscription {
        id: SubscriptionId(d.id),
        shop_id: ShopId(d.shop_id),
        user_id: UserId(d.user_id),
        status: row_status(d.status@),
        message: d.message,
        response_message: d.response_message,
        created_at: d.created_at,
        updated_at: d.updated_at,
    }
}

impl From<DbSubscription> for ShopSubscription {
    fn from(value: DbSubscription) -> (r: ShopSubscription) {
        proof {
            reveal_strlit("active");
            reveal_strlit("rejected");
            reveal_strlit("cancelled");
        }
        let status = if text_eq(value.status.as_str(), "active") {
            SubscriptionStatus::Active
        } else if text_eq(value.status.as_str(), "rejected") {
            SubscriptionStatus::Rejected
        } else if text_eq(value.status.as_str(), "cancelled") {
            SubscriptionStatus::Cancelled
        } else {
            SubscriptionStatus::Pending
        };
        ShopSubscription {
            id: SubscriptionId(value.id),
            shop_id: ShopId(value.shop_id),
            user_id: UserId(value.user_id),
            status,
            message: value.message,
            response_message: value.response_message,
            created_at: value.created_at,
            updated_at: value.updated_at,
        }
    }
}

impl vstd::std_specs::convert::FromSpecImpl<DbSubscription> for ShopSubscription {
    open spec fn obeys_from_spec() -> bool {
        true
    }

    open spec fn from_spec(value: DbSubscription) -> ShopSubscription {
        row_subscription(value)
    }
}

/// A status stored by its name reads back as itself.
pub proof fn law_status_name_roundtrip(s: SubscriptionStatus)
    ensures
        row_status(status_name(s)) == s,
{
    reveal_strlit("pending");
    reveal_strlit("active");
    reveal_strlit("rejected");
    reveal_strlit("cancelled");
    match s {
        SubscriptionStatus::Pending => {
            assert("pending"@[0] != "active"@[0]);
            assert("pending"@[0] != "rejected"@[0]);
            assert("pending"@[0] != "cancelled"@[0]);
        },
        SubscriptionStatus::Active => {},
        SubscriptionStatus::Rejected => {
            assert("rejected"@[0] != "active"@[0]);
        },
        SubscriptionStatus::Cancelled => {
            assert("cancelled"@[0] != "active"@[0]);
            assert("cancelled"@[0] != "rejected"@[0]);
        },
    }
}

/// An attachment row.
#[derive(Clone, Copy, Debug)]
pub struct DbAttachment {
    pub part_id: i32,
    pub attached: Timestamp,
    pub gear: i32,
    pub hook: i32,
    pub detached: Timestamp,
    pub usage: u128,
}

/// The row of an attachment.
pub open spec fn attachment_row(a: Attachment) -> DbAttachment {
    DbAttachment {
        part_id: a.part_id.0,
        attached: a.attached,
        gear: a.gear.0,
        hook: a.hook.0,
        detached: a.detached,
        usage: a.usage.0,
    }
}

/// The attachment a row stands for.
pub open spec fn row_attachment(d: DbAttachment) -> Attachment {
    Attachment {
        part_id: PartId(d.part_id),
        attached: d.attached,
        gear: PartId(d.gear),
        hook: PartTypeId(d.hook),
        detached: d.detached,
        usage: UsageId(d.usage),
    }
}

impl From<Attachment> for DbAttachment {
    fn from(a: Attachment) -> (r: DbAttachment) {
        DbAttachment {
            part_id: a.part_id.0,
            attached: a.attached,
            gear: a.gear.0,
            hook: a.hook.0,
            detached: a.detached,
            usage: a.usage.0,
        }
    }
}

impl vstd::std_specs::convert::FromSpecImpl<Attachment> for DbAttachment {
    open spec fn obeys_from_spec() -> bool {
        true
    }

    open spec fn from_spec(a: Attachment) -> DbAttachment {
        attachment_row(a)
    }
}

impl From<DbAttachment> for Attachment {
    fn from(d: DbAttachment) -> (r: Attachment) {
        Attachment {
            part_id: PartId(d.part_id),
            attached: d.attached,
            gear: PartId(d.gear),
            hook: PartTypeId(d.hook),
            detached: d.detached,
            usage: UsageId(d.usage),
        }
    }
}

impl vstd::std_specs::convert::FromSpecImpl<DbAttachment> for Attachment {
    open spec fn obeys_from_spec() -> bool {
        true
    }

    open spec fn from_spec(d: DbAttachment) -> Attachment {
        row_attachment(d)
    }
}

/// Storing an attachment as a row and reading it back gives the attachment.
pub proof fn law_attachment_row_roundtrip(a: Attachment)
    ensures
        row_attachment(attachment_row(a)) == a,
{
}

} // verus!
