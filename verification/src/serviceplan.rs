//! Plans that say after how much use a part needs a service.

use vstd::prelude::*;
use crate::part::PartId;
use crate::types::PartTypeId;
use crate::user::UserId;
use crate::uuids::fresh_uuid_v7;
use crate::error::Error;
use crate::store::MemStore;
use crate::session::Session;
use crate::part::part_denial;
use crate::service::Service;
use crate::seqs::{first_where, first_index};

verus! {

/// The id of a service plan (a UUID, held as its 128-bit value).
#[derive(Clone, Copy, Debug, PartialEq, Eq, Structural, Hash)]
pub struct ServicePlanId(pub u128);

impl ServicePlanId {
    /// A fresh id (a version-7 UUID); never the nil id.
    pub fn new() -> (r: ServicePlanId)
        ensures
            r.0 != 0,
    {
        let v: u128 = fresh_uuid_v7();
        proof { crate::uuids::lemma_v7_not_nil(v); }
        ServicePlanId(v)
    }
}

/// A plan for the service of a part (or of every part at a hook of the
/// user's gear).
#[derive(Clone, Debug)]
pub struct ServicePlan {
    pub id: ServicePlanId,
    /// the gear or part involved
    /// if hook is None the plan is for a specific part
    /// if it's Some(hook) it is a generic plan for that hook
    pub part: Option<PartId>,
    /// This is only really used for generic plans
    /// for a specific part it is set to the PartType of the part
    pub what: PartTypeId,
    /// where it is attached
    pub hook: Option<PartTypeId>,
    pub name: String,
    /// Time until service
    pub days: Option<i32>,
    /// Usage time
    pub hours: Option<i32>,
    /// Usage distance
    pub km: Option<i32>,
    /// Overall climbing
    pub climb: Option<i32>,
    /// Overall descending
    pub descend: Option<i32>,
    /// number of activities
    pub rides: Option<i32>,
    /// User for generic plans
    pub uid: Option<UserId>,
    /// Energy expended
    pub energy: Option<i32>,
}


impl ServicePlan {
    /// A copy of the plan.
    pub fn duplicate(&self) -> (r: ServicePlan)
        ensures
            r == *self,
    {
        ServicePlan {
            id: self.id,
            part: self.part,
            what: self.what,
            hook: self.hook,
            name: self.name.clone(),
            days: self.days,
            hours: self.hours,
            km: self.km,
            climb: self.climb,
            descend: self.descend,
            rides: self.rides,
            uid: self.uid,
            energy: self.energy,
        }
    }
}

/// Plans with id `id`.
pub open spec fn with_plan_id(id: ServicePlanId) -> spec_fn(ServicePlan) -> bool {
    |p: ServicePlan| p.id == id
}

/// Plans for part `part`.
pub open spec fn for_part_plan(part: PartId) -> spec_fn(ServicePlan) -> bool {
    |p: ServicePlan| p.part == Some(part)
}

/// Generic plans of user `uid`.
pub open spec fn for_user_plan(uid: UserId) -> spec_fn(ServicePlan) -> bool {
    |p: ServicePlan| p.uid == Some(uid)
}

/// The plans of `plans` passing `keep`, copied, in order.
fn plans_where(plans: &Vec<ServicePlan>, part: Option<PartId>, uid: Option<UserId>) -> (r: Vec<ServicePlan>)
    requires
        part is Some || uid is Some,
    ensures
        part matches Some(p) ==> r@ == plans@.filter(for_part_plan(p)),
        part is None ==> (uid matches Some(u) && r@ == plans@.filter(for_user_plan(u))),
{
    let ghost pred = match part {
        Some(p) => for_part_plan(p),
        None => for_user_plan(uid.unwrap()),
    };
    let mut r: Vec<ServicePlan> = Vec::new();
    let mut i: usize = 0;
    while i < plans.len()
        invariant
            0 <= i <= plans@.len(),
            part is Some || uid is Some,
            pred == match part {
                Some(p) => for_part_plan(p),
                None => for_user_plan(uid.unwrap()),
            },
            r@ == plans@.take(i as int).filter(pred),
        decreases plans@.len() - i,
    {
        let x = &plans[i];
        let keep: bool = match part {
            Some(p) => x.part == Some(p),
            None => x.uid == uid,
        };
        if keep {
            r.push(x.duplicate());
        }
        proof {
            let s1 = plans@.take(i + 1);
            assert(s1.drop_last() =~= plans@.take(i as int));
            assert(s1.last() == *x);
            assert(pred(*x) == keep);
            reveal_with_fuel(Seq::filter, 1);
            if keep {
                assert(s1.filter(pred) =~= plans@.take(i as int).filter(pred).push(*x));
            } else {
                assert(s1.filter(pred) =~= plans@.take(i as int).filter(pred));
            }
        }
        i = i + 1;
    }
    proof { assert(plans@.take(plans@.len() as int) =~= plans@); }
    r
}

impl MemStore {
    /// The first stored plan with id `id`; `NotFound` when there is none.
    pub fn plan_get(&self, id: ServicePlanId) -> (r: Result<ServicePlan, Error>)
        ensures
            match first_where(self.plans@, with_plan_id(id)) {
                Some(x) => r == Ok::<ServicePlan, Error>(x),
                None => r matches Err(e) && e is NotFound,
            },
    {
        let ghost p = with_plan_id(id);
        let mut i: usize = 0;
        while i < self.plans.len()
            invariant
                0 <= i <= self.plans@.len(),
                p == with_plan_id(id),
                self.plans@.take(i as int).filter(p).len() == 0,
            decreases self.plans@.len() - i,
        {
            if self.plans[i].id == id {
                proof { crate::seqs::lemma_first_where_found(self.plans@, p, i as int); }
                return Ok(self.plans[i].duplicate());
            }
            proof { crate::seqs::lemma_no_match_step(self.plans@, p, i as int); }
            i = i + 1;
        }
        proof { crate::seqs::lemma_first_where_none(self.plans@, p); }
        Err(Error::NotFound("ServicePlan not found".to_owned()))
    }

    /// The plans for part `part`, in store order.
    pub fn plans_by_part(&self, part: PartId) -> (r: Result<Vec<ServicePlan>, Error>)
        ensures
            r matches Ok(v) && v@ == self.plans@.filter(for_part_plan(part)),
    {
        Ok(plans_where(&self.plans, Some(part), None))
    }

    /// The generic plans of user `uid`, in store order.
    pub fn plans_by_user(&self, uid: UserId) -> (r: Result<Vec<ServicePlan>, Error>)
        ensures
            r matches Ok(v) && v@ == self.plans@.filter(for_user_plan(uid)),
    {
        Ok(plans_where(&self.plans, None, Some(uid)))
    }

    /// Store a new plan; `Conflict` when a plan with its id is stored.
    pub fn plan_create(&mut self, plan: ServicePlan) -> (r: Result<ServicePlan, Error>)
        ensures
            first_where(old(self).plans@, with_plan_id(plan.id)) is None ==>
                r == Ok::<ServicePlan, Error>(plan) && final(self).plans@ == old(self).plans@.push(plan),
            first_where(old(self).plans@, with_plan_id(plan.id)) is Some ==>
                (r matches Err(e) && e is Conflict) && final(self).plans == old(self).plans,
            final(self).parts == old(self).parts,
            final(self).usages == old(self).usages,
            final(self).activities == old(self).activities,
            final(self).attachments == old(self).attachments,
            final(self).services == old(self).services,
            final(self).next_part_id == old(self).next_part_id,
            final(self).dir == old(self).dir,
    {
        if self.plan_get(plan.id).is_ok() {
            return Err(Error::Conflict("ServicePlan exists already".to_owned()));
        }
        let copy = plan.duplicate();
        self.plans.push(plan);
        Ok(copy)
    }

    /// Replace the first stored plan with the id of `plan` by it;
    /// `NotFound` when there is none.
    pub fn plan_update(&mut self, plan: ServicePlan) -> (r: Result<ServicePlan, Error>)
        ensures
            match first_index(old(self).plans@, with_plan_id(plan.id)) {
                Some(i) => r == Ok::<ServicePlan, Error>(plan) && final(self).plans@ == old(self).plans@.update(i, plan),
                None => (r matches Err(e) && e is NotFound) && final(self).plans == old(self).plans,
            },
            final(self).parts == old(self).parts,
            final(self).usages == old(self).usages,
            final(self).activities == old(self).activities,
            final(self).attachments == old(self).attachments,
            final(self).services == old(self).services,
            final(self).next_part_id == old(self).next_part_id,
            final(self).dir == old(self).dir,
    {
        let ghost p = with_plan_id(plan.id);
        let mut i: usize = 0;
        while i < self.plans.len()
            invariant
                0 <= i <= self.plans@.len(),
                *self == *old(self),
                p == with_plan_id(plan.id),
                forall|k: int| 0 <= k < i ==> !p(self.plans@[k]),
            decreases self.plans@.len() - i,
        {
            if self.plans[i].id == plan.id {
                proof { crate::seqs::lemma_first_index(self.plans@, p, i as int); }
                let copy = plan.duplicate();
                self.plans.set(i, plan);
                return Ok(copy);
            }
            i = i + 1;
        }
        proof { crate::seqs::lemma_first_index_none(self.plans@, p); }
        Err(Error::NotFound("ServicePlan not found".to_owned()))
    }

    /// Remove every plan with id `id`; returns how many there were.
    pub fn plan_delete(&mut self, id: ServicePlanId) -> (r: Result<usize, Error>)
        ensures
            final(self).plans@ == old(self).plans@.filter(|p: ServicePlan| p.id != id),
            r matches Ok(n) && n == old(self).plans@.len() - final(self).plans@.len(),
            final(self).parts == old(self).parts,
            final(self).usages == old(self).usages,
            final(self).activities == old(self).activities,
            final(self).attachments == old(self).attachments,
            final(self).services == old(self).services,
            final(self).next_part_id == old(self).next_part_id,
            final(self).dir == old(self).dir,
    {
        let ghost pred = |p: ServicePlan| p.id != id;
        let ghost orig = self.plans@;
        let mut kept: Vec<ServicePlan> = Vec::new();
        let mut i: usize = 0;
        while i < self.plans.len()
            invariant
                0 <= i <= self.plans@.len(),
                self.plans@ == orig,
                pred == (|p: ServicePlan| p.id != id),
                kept@ == orig.take(i as int).filter(pred),
                kept@.len() <= i,
            decreases self.plans@.len() - i,
        {
            let keep: bool = self.plans[i].id != id;
            let ghost a = self.plans@[i as int];
            if keep {
                kept.push(self.plans[i].duplicate());
            }
            proof {
                let s1 = orig.take(i + 1);
                assert(s1.drop_last() =~= orig.take(i as int));
                assert(s1.last() == a);
                assert(pred(a) == keep);
                reveal_with_fuel(Seq::filter, 1);
                if keep {
                    assert(s1.filter(pred) =~= orig.take(i as int).filter(pred).push(a));
                } else {
                    assert(s1.filter(pred) =~= orig.take(i as int).filter(pred));
                }
            }
            i = i + 1;
        }
        proof { assert(orig.take(orig.len() as int) =~= orig); }
        let n: usize = self.plans.len() - kept.len();
        self.plans = kept;
        Ok(n)
    }
}

/// Why a session of `user` acting for `shop` may not change plan `p`:
/// `None` when it may, else the kind of the error. A plan for a part goes
/// by the part; a generic plan belongs to its user.
pub open spec fn plan_denial(store: MemStore, user: UserId, shop: Option<crate::shop::ShopId>, p: ServicePlan) -> Option<nat> {
    match p.part {
        Some(part) => part_denial(store, user, shop, part),
        None => if p.uid == Some(user) { None } else { Some(2) },
    }
}

impl ServicePlan {
    /// `Ok` when the session may change the plan (see `plan_denial`).
    pub fn checkuser<S: Session>(&self, user: &S, store: &MemStore) -> (r: Result<(), Error>)
        requires
            store.wf(),
        ensures
            match plan_denial(*store, user.session_user(), user.session_shop(), *self) {
                None => r is Ok,
                Some(k) => r matches Err(e) && e.kind() == k,
            },
    {
        if let Some(part) = self.part {
            part.checkuser(user, store)?;
        } else if self.uid != Some(user.user_id()) {
            return Err(Error::BadRequest("user mismatch".to_owned()));
        }
        Ok(())
    }

    /// Store the plan with a fresh id; a generic plan (no part) belongs to
    /// the session's user, a plan for a part to no user. `Conflict` (and
    /// nothing changes) only when the id drawn is taken already.
    pub fn create<S: Session>(self, user: &S, store: &mut MemStore) -> (r: Result<ServicePlan, Error>)
        ensures
            r matches Ok(p) ==> p == (ServicePlan {
                id: p.id,
                uid: match self.part {
                    Some(_) => None,
                    None => Some(user.session_user()),
                },
                ..self
            }) && final(store).plans@ == old(store).plans@.push(p)
                && first_where(old(store).plans@, with_plan_id(p.id)) is None,
            r matches Err(e) ==> e is Conflict && final(store).plans == old(store).plans
                && old(store).plans@.len() > 0,
            final(store).parts == old(store).parts,
            final(store).usages == old(store).usages,
            final(store).activities == old(store).activities,
            final(store).attachments == old(store).attachments,
            final(store).services == old(store).services,
            final(store).next_part_id == old(store).next_part_id,
            final(store).dir == old(store).dir,
    {
        let id = ServicePlanId::new();
        self.create_with_id(id, user, store)
    }

    /// Store the plan with the id `id`; a generic plan (no part) belongs to
    /// the session's user, a plan for a part to no user. `Conflict` (and
    /// nothing changes) exactly when a plan with id `id` is stored.
    pub fn create_with_id<S: Session>(self, id: ServicePlanId, user: &S, store: &mut MemStore)
        -> (r: Result<ServicePlan, Error>)
        ensures
            first_where(old(store).plans@, with_plan_id(id)) is None ==> (r matches Ok(p) && p == (ServicePlan {
                id,
                uid: match self.part {
                    Some(_) => None,
                    None => Some(user.session_user()),
                },
                ..self
            }) && final(store).plans@ == old(store).plans@.push(p)),
            first_where(old(store).plans@, with_plan_id(id)) is Some ==>
                (r matches Err(e) && e is Conflict) && final(store).plans == old(store).plans,
            final(store).parts == old(store).parts,
            final(store).usages == old(store).usages,
            final(store).activities == old(store).activities,
            final(store).attachments == old(store).attachments,
            final(store).services == old(store).services,
            final(store).next_part_id == old(store).next_part_id,
            final(store).dir == old(store).dir,
    {
        proof { crate::seqs::lemma_first_where_member(old(store).plans@, with_plan_id(id)); }
        let mut plan = self;
        plan.id = id;
        plan.uid = match plan.part {
            Some(_) => None,
            None => Some(user.user_id()),
        };
        store.plan_create(plan)
    }

    /// Update a plan: the fields given replace those stored for its id,
    /// except its part, type, hook and user, which stay.
    ///
    /// checks authorization against the stored plan
    pub fn update<S: Session>(self, user: &S, store: &mut MemStore) -> (r: Result<ServicePlan, Error>)
        requires
            old(store).wf(),
        ensures
            final(store).parts == old(store).parts,
            final(store).usages == old(store).usages,
            final(store).activities == old(store).activities,
            final(store).attachments == old(store).attachments,
            final(store).services == old(store).services,
            final(store).next_part_id == old(store).next_part_id,
            final(store).dir == old(store).dir,
            match first_where(old(store).plans@, with_plan_id(self.id)) {
                None => (r matches Err(e) && e is NotFound) && final(store).plans == old(store).plans,
                Some(x) => match plan_denial(*old(store), user.session_user(), user.session_shop(), x) {
                    Some(k) => (r matches Err(e) && e.kind() == k) && final(store).plans == old(store).plans,
                    None => {
                        let p = ServicePlan { part: x.part, what: x.what, hook: x.hook, uid: x.uid, ..self };
                        &&& r == Ok::<ServicePlan, Error>(p)
                        &&& first_index(old(store).plans@, with_plan_id(self.id)) matches Some(i)
                            && final(store).plans@ == old(store).plans@.update(i, p)
                    },
                },
            },
    {
        let plan = store.plan_get(self.id)?;
        plan.checkuser(user, store)?;
        let mut this = self;
        this.part = plan.part;
        this.what = plan.what;
        this.hook = plan.hook;
        this.uid = plan.uid;
        proof {
            crate::seqs::lemma_first_where_index(store.plans@, with_plan_id(self.id));
        }
        store.plan_update(this)
    }

    /// The plans for part `part`.
    pub fn for_part(part: PartId, store: &MemStore) -> (r: Result<Vec<ServicePlan>, Error>)
        ensures
            r matches Ok(v) && v@ == store.plans@.filter(for_part_plan(part)),
    {
        store.plans_by_part(part)
    }

    /// The generic plans of user `uid`.
    pub fn for_user(uid: &UserId, store: &MemStore) -> (r: Result<Vec<ServicePlan>, Error>)
        ensures
            r matches Ok(v) && v@ == store.plans@.filter(for_user_plan(*uid)),
    {
        store.plans_by_user(*uid)
    }
}

impl ServicePlanId {
    /// The stored plan with this id; `NotFound` when there is none.
    pub fn get(self, store: &MemStore) -> (r: Result<ServicePlan, Error>)
        ensures
            match first_where(store.plans@, with_plan_id(self)) {
                Some(x) => r == Ok::<ServicePlan, Error>(x),
                None => r matches Err(e) && e is NotFound,
            },
    {
        store.plan_get(self)
    }

    /// Delete the plan with this id; returns the services reset (none).
    ///
    /// checks authorization
    pub fn delete<S: Session>(self, user: &S, store: &mut MemStore) -> (r: Result<Vec<Service>, Error>)
        requires
            old(store).wf(),
        ensures
            final(store).parts == old(store).parts,
            final(store).usages == old(store).usages,
            final(store).activities == old(store).activities,
            final(store).attachments == old(store).attachments,
            final(store).services == old(store).services,
            final(store).next_part_id == old(store).next_part_id,
            final(store).dir == old(store).dir,
            match first_where(old(store).plans@, with_plan_id(self)) {
                None => (r matches Err(e) && e is NotFound) && final(store).plans == old(store).plans,
                Some(x) => match plan_denial(*old(store), user.session_user(), user.session_shop(), x) {
                    Some(k) => (r matches Err(e) && e.kind() == k) && final(store).plans == old(store).plans,
                    None => (r matches Ok(v) && v@.len() == 0)
                        && final(store).plans@ == old(store).plans@.filter(|p: ServicePlan| p.id != self),
                },
            },
    {
        let plan = self.get(store)?;
        plan.checkuser(user, store)?;
        let res = Service::reset_plan(self, store)?;
        let _n: usize = store.plan_delete(self)?;
        Ok(res)
    }
}

} // verus!
