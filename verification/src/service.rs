//! Services done on parts and the usage accumulated since.

use vstd::prelude::*;
use crate::part::PartId;
use crate::timestamp::Timestamp;
use crate::usage::UsageId;
use crate::serviceplan::ServicePlanId;
use crate::uuids::{fresh_uuid_v7, uuid_to_text};
use crate::error::Error;
use crate::store::MemStore;
use crate::seqs::{first_where, first_index};
use crate::activity::{Activity, found_in, total_fits, total_usage};
use crate::attachment::{Attachment, acts_over, attachments_in_order};
use crate::types::{known_type, main_type};
use crate::usage::Usage;
use crate::timestamp::{min_time, spec_min_time};
use crate::summary::{Summary, Keyed};
use crate::session::Session;
use crate::part::part_denial;

verus! {

/// The id of a service (a UUID, held as its 128-bit value).
#[derive(Clone, Copy, Debug, PartialEq, Eq, Structural, Hash)]
pub struct ServiceId(pub u128);

impl ServiceId {
    /// A fresh id (a version-7 UUID); never the nil id.
    pub fn new() -> (r: ServiceId)
        ensures
            r.0 != 0,
    {
        let v: u128 = fresh_uuid_v7();
        proof { crate::uuids::lemma_v7_not_nil(v); }
        ServiceId(v)
    }

    /// The hyphenated UUID text of the id.
    pub fn to_string(&self) -> (r: String)
        ensures
            r@ == crate::uuids::uuid_text(self.0),
            r@.len() == 36,
            forall|i: int| 0 <= i < 36 ==> ((r@[i] == '-') <==> (i == 8 || i == 13 || i == 18 || i == 23)),
    {
        uuid_to_text(self.0)
    }
}

/// A service logged for a part.
#[derive(Clone, Debug)]
pub struct Service {
    pub id: ServiceId,
    /// the part serviced
    pub part_id: PartId,
    /// when it was serviced
    pub time: Timestamp,
    /// when there was a new service
    pub redone: Timestamp,
    pub name: String,
    pub notes: String,
    /// the usage record of the service
    pub usage: UsageId,
    /// the next service of this kind
    pub successor: Option<ServiceId>,
    /// the service plans it is fullfilling
    pub plans: Vec<ServicePlanId>,
}

/// The values of a service, its plans as a sequence.
pub struct ServiceView {
    pub id: ServiceId,
    pub part_id: PartId,
    pub time: Timestamp,
    pub redone: Timestamp,
    pub name: Seq<char>,
    pub notes: Seq<char>,
    pub usage: UsageId,
    pub successor: Option<ServiceId>,
    pub plans: Seq<ServicePlanId>,
}

impl View for Service {
    type V = ServiceView;

    open spec fn view(&self) -> ServiceView {
        ServiceView {
            id: self.id,
            part_id: self.part_id,
            time: self.time,
            redone: self.redone,
            name: self.name@,
            notes: self.notes@,
            usage: self.usage,
            successor: self.successor,
            plans: self.plans@,
        }
    }
}

/// The views of a sequence of services.
pub open spec fn service_views(s: Seq<Service>) -> Seq<ServiceView> {
    s.map_values(|x: Service| x@)
}

impl Service {
    /// A copy of the service.
    pub fn duplicate(&self) -> (r: Service)
        ensures
            r@ == self@,
    {
        let mut plans: Vec<ServicePlanId> = Vec::new();
        let mut i: usize = 0;
        while i < self.plans.len()
            invariant
                0 <= i <= self.plans@.len(),
                plans@ == self.plans@.take(i as int),
            decreases self.plans@.len() - i,
        {
            plans.push(self.plans[i]);
            proof { assert(self.plans@.take(i + 1) =~= self.plans@.take(i as int).push(self.plans@[i as int])); }
            i = i + 1;
        }
        proof { assert(self.plans@.take(self.plans@.len() as int) =~= self.plans@); }
        Service {
            id: self.id,
            part_id: self.part_id,
            time: self.time,
            redone: self.redone,
            name: self.name.clone(),
            notes: self.notes.clone(),
            usage: self.usage,
            successor: self.successor,
            plans,
        }
    }
}

/// Services of `part` done after `time`.
pub open spec fn serviced_after(part: PartId, time: Timestamp) -> spec_fn(Service) -> bool {
    |s: Service| s.part_id == part && s.time.nanos > time.nanos
}

/// The usage ids of the services of `part` done after `time`, in store order.
pub open spec fn usage_ids_after(services: Seq<Service>, part: PartId, time: Timestamp) -> Seq<UsageId> {
    services.filter(serviced_after(part, time)).map_values(|s: Service| s.usage)
}

impl Service {
    /// The usage ids of the services of `part` done after `time`; an
    /// activity at `time` counts for them.
    pub fn get_usageids(part: PartId, time: Timestamp, store: &MemStore) -> (r: Result<Vec<UsageId>, Error>)
        ensures
            r matches Ok(v) && v@ == usage_ids_after(store.services@, part, time),
    {
        let ghost pred = serviced_after(part, time);
        let mut r: Vec<UsageId> = Vec::new();
        let mut i: usize = 0;
        while i < store.services.len()
            invariant
                0 <= i <= store.services@.len(),
                pred == serviced_after(part, time),
                r@ == store.services@.take(i as int).filter(pred).map_values(|s: Service| s.usage),
            decreases store.services@.len() - i,
        {
            let s = &store.services[i];
            let keep: bool = s.part_id == part && s.time.nanos > time.nanos;
            if keep {
                r.push(s.usage);
            }
            proof {
                let s1 = store.services@.take(i + 1);
                assert(s1.drop_last() =~= store.services@.take(i as int));
                assert(s1.last() == *s);
                assert(pred(*s) == keep);
                reveal_with_fuel(Seq::filter, 1);
                if keep {
                    assert(s1.filter(pred) =~= store.services@.take(i as int).filter(pred).push(*s));
                    assert(s1.filter(pred).map_values(|s: Service| s.usage)
                        =~= store.services@.take(i as int).filter(pred).map_values(|s: Service| s.usage).push(s.usage));
                } else {
                    assert(s1.filter(pred) =~= store.services@.take(i as int).filter(pred));
                }
            }
            i = i + 1;
        }
        proof { assert(store.services@.take(store.services@.len() as int) =~= store.services@); }
        Ok(r)
    }
}


/// Services with id `id`.
pub open spec fn with_service_id(id: ServiceId) -> spec_fn(Service) -> bool {
    |s: Service| s.id == id
}

/// Services with another id than `id`.
pub open spec fn other_service_id(id: ServiceId) -> spec_fn(Service) -> bool {
    |s: Service| s.id != id
}

/// Services of part `part`.
pub open spec fn of_service_part(part: PartId) -> spec_fn(Service) -> bool {
    |s: Service| s.part_id == part
}

impl MemStore {
    /// The first stored service with id `id`; `NotFound` when there is none.
    pub fn service_get(&self, id: ServiceId) -> (r: Result<Service, Error>)
        ensures
            match first_where(self.services@, with_service_id(id)) {
                Some(x) => r matches Ok(v) && v@ == x@,
                None => r matches Err(e) && e is NotFound,
            },
    {
        let ghost p = with_service_id(id);
        let mut i: usize = 0;
        while i < self.services.len()
            invariant
                0 <= i <= self.services@.len(),
                p == with_service_id(id),
                self.services@.take(i as int).filter(p).len() == 0,
            decreases self.services@.len() - i,
        {
            if self.services[i].id == id {
                proof { crate::seqs::lemma_first_where_found(self.services@, p, i as int); }
                return Ok(self.services[i].duplicate());
            }
            proof { crate::seqs::lemma_no_match_step(self.services@, p, i as int); }
            i = i + 1;
        }
        proof { crate::seqs::lemma_first_where_none(self.services@, p); }
        Err(Error::NotFound("Service not found".to_owned()))
    }

    /// The services of part `part`, in store order.
    pub fn services_by_part(&self, part: PartId) -> (r: Result<Vec<Service>, Error>)
        ensures
            r matches Ok(v) && service_views(v@) == service_views(self.services@.filter(of_service_part(part))),
    {
        let ghost pred = of_service_part(part);
        let mut r: Vec<Service> = Vec::new();
        let mut i: usize = 0;
        while i < self.services.len()
            invariant
                0 <= i <= self.services@.len(),
                pred == of_service_part(part),
                service_views(r@) == service_views(self.services@.take(i as int).filter(pred)),
            decreases self.services@.len() - i,
        {
            let keep: bool = self.services[i].part_id == part;
            let ghost x = self.services@[i as int];
            let ghost before = r@;
            if keep {
                r.push(self.services[i].duplicate());
            }
            proof {
                let s1 = self.services@.take(i + 1);
                assert(s1.drop_last() =~= self.services@.take(i as int));
                assert(s1.last() == x);
                assert(pred(x) == keep);
                reveal_with_fuel(Seq::filter, 1);
                if keep {
                    assert(s1.filter(pred) =~= self.services@.take(i as int).filter(pred).push(x));
                    assert(service_views(r@) =~= service_views(before).push(x@));
                    assert(service_views(s1.filter(pred)) =~= service_views(self.services@.take(i as int).filter(pred)).push(x@));
                } else {
                    assert(s1.filter(pred) =~= self.services@.take(i as int).filter(pred));
                }
            }
            i = i + 1;
        }
        proof { assert(self.services@.take(self.services@.len() as int) =~= self.services@); }
        Ok(r)
    }

    /// Store a new service and hand back a copy; `Conflict` when a service
    /// with its id is stored.
    pub fn service_create(&mut self, service: Service) -> (r: Result<Service, Error>)
        ensures
            first_where(old(self).services@, with_service_id(service.id)) is None ==>
                (r matches Ok(v) && v@ == service@) && final(self).services@ == old(self).services@.push(service),
            first_where(old(self).services@, with_service_id(service.id)) is Some ==>
                (r matches Err(e) && e is Conflict) && final(self).services == old(self).services,
            final(self).parts == old(self).parts,
            final(self).usages == old(self).usages,
            final(self).activities == old(self).activities,
            final(self).attachments == old(self).attachments,
            final(self).plans == old(self).plans,
            final(self).next_part_id == old(self).next_part_id,
            final(self).dir == old(self).dir,
    {
        if self.service_get(service.id).is_ok() {
            return Err(Error::Conflict("Service exists already".to_owned()));
        }
        let copy = service.duplicate();
        self.services.push(service);
        Ok(copy)
    }

    /// Replace the first stored service with the id of `service` by it and
    /// hand back a copy; `NotFound` when there is none.
    pub fn service_update(&mut self, service: Service) -> (r: Result<Service, Error>)
        ensures
            match first_index(old(self).services@, with_service_id(service.id)) {
                Some(i) => (r matches Ok(v) && v@ == service@)
                    && final(self).services@ == old(self).services@.update(i, service),
                None => (r matches Err(e) && e is NotFound) && final(self).services == old(self).services,
            },
            final(self).parts == old(self).parts,
            final(self).usages == old(self).usages,
            final(self).activities == old(self).activities,
            final(self).attachments == old(self).attachments,
            final(self).plans == old(self).plans,
            final(self).next_part_id == old(self).next_part_id,
            final(self).dir == old(self).dir,
    {
        let ghost p = with_service_id(service.id);
        let mut i: usize = 0;
        while i < self.services.len()
            invariant
                0 <= i <= self.services@.len(),
                *self == *old(self),
                p == with_service_id(service.id),
                forall|k: int| 0 <= k < i ==> !p(self.services@[k]),
            decreases self.services@.len() - i,
        {
            if self.services[i].id == service.id {
                proof { crate::seqs::lemma_first_index(self.services@, p, i as int); }
                let copy = service.duplicate();
                self.services.set(i, service);
                return Ok(copy);
            }
            i = i + 1;
        }
        proof { crate::seqs::lemma_first_index_none(self.services@, p); }
        Err(Error::NotFound("Service not found".to_owned()))
    }

    /// Remove every service with id `id`; returns how many there were.
    pub fn service_delete(&mut self, id: ServiceId) -> (r: Result<usize, Error>)
        ensures
            final(self).services@ == old(self).services@.filter(other_service_id(id)),
            r matches Ok(n) && n == old(self).services@.len() - final(self).services@.len(),
            final(self).parts == old(self).parts,
            final(self).usages == old(self).usages,
            final(self).activities == old(self).activities,
            final(self).attachments == old(self).attachments,
            final(self).plans == old(self).plans,
            final(self).next_part_id == old(self).next_part_id,
            final(self).dir == old(self).dir,
    {
        let ghost pred = other_service_id(id);
        let mut kept: Vec<Service> = Vec::new();
        let mut rest: Vec<Service> = Vec::new();
        std::mem::swap(&mut rest, &mut self.services);
        let ghost orig = rest@;
        let n: usize = rest.len();
        let mut i: usize = 0;
        while i < n
            invariant
                0 <= i <= n,
                n == orig.len(),
                rest@ == orig.skip(i as int),
                pred == other_service_id(id),
                kept@ == orig.take(i as int).filter(pred),
                kept@.len() <= i,
            decreases n - i,
        {
            let x = rest.remove(0);
            let keep: bool = x.id != id;
            let ghost xx = x;
            if keep {
                kept.push(x);
            }
            proof {
                assert(orig[i as int] == xx);
                let s1 = orig.take(i + 1);
                assert(s1.drop_last() =~= orig.take(i as int));
                assert(s1.last() == xx);
                assert(pred(xx) == keep);
                reveal_with_fuel(Seq::filter, 1);
                if keep {
                    assert(s1.filter(pred) =~= orig.take(i as int).filter(pred).push(xx));
                } else {
                    assert(s1.filter(pred) =~= orig.take(i as int).filter(pred));
                }
                assert(rest@ =~= orig.skip(i + 1));
            }
            i = i + 1;
        }
        proof { assert(orig.take(orig.len() as int) =~= orig); }
        let m: usize = n - kept.len();
        self.services = kept;
        Ok(m)
    }
}


/// `acts` are the activities that count for a service of `part` at `time`:
/// for a main part those it ran since ever until then; for another part
/// those run with it while it was attached, since ever until then.
pub open spec fn window_acts(store: MemStore, part: PartId, time: Timestamp, acts: Seq<Activity>) -> bool {
    if main_type(store.part(part).what) {
        acts == store.activities@.filter(found_in(part, spec_min_time(), time))
    } else {
        exists|atts: Seq<Attachment>| #[trigger] acts_over(store.activities@, atts, spec_min_time(), time) == acts
            && attachments_in_order(store, part, atts)
    }
}

/// `acts` are the activities that count for service `s`.
pub open spec fn service_acts(store: MemStore, s: ServiceView, acts: Seq<Activity>) -> bool {
    window_acts(store, s.part_id, s.time, acts)
}

/// The part `part` and its type are known to the store.
pub open spec fn part_known(store: MemStore, part: PartId) -> bool {
    store.has_part(part) && known_type(store.part(part).what)
}

/// The part of service `s` and its type are known to the store.
pub open spec fn service_part_known(store: MemStore, s: ServiceView) -> bool {
    part_known(store, s.part_id)
}

/// `u` is the usage of service `s` calculated from the store: the usages of
/// the activities that count for it added up, under the service's usage id.
pub open spec fn calculated(store: MemStore, s: ServiceView, u: Usage) -> bool {
    exists|acts: Seq<Activity>| #[trigger] service_acts(store, s, acts) && total_fits(acts) && u == total_usage(s.usage, acts)
}

/// Adding up the usages of the activities that count for a service of
/// `part` at `time` leaves the `i32` range.
pub open spec fn overflows_at(store: MemStore, part: PartId, time: Timestamp) -> bool {
    exists|acts: Seq<Activity>| #[trigger] window_acts(store, part, time, acts) && !total_fits(acts)
}

/// Adding up the usages of the activities that count for `s` leaves the `i32` range.
pub open spec fn calc_overflows(store: MemStore, s: ServiceView) -> bool {
    overflows_at(store, s.part_id, s.time)
}

/// Services of `part` done at or after `time`.
pub open spec fn due_after(part: PartId, time: Timestamp) -> spec_fn(ServiceView) -> bool {
    |s: ServiceView| s.part_id == part && time.nanos <= s.time.nanos
}

impl Service {
    /// The usage accumulated by the part of the service until the service.
    pub fn calculate_usage(&self, store: &MemStore) -> (r: Result<Usage, Error>)
        ensures
            (r matches Err(e) && e is NotFound) <==> !service_part_known(*store, self@),
            r matches Ok(u) ==> calculated(*store, self@, u),
            r matches Err(e) ==> e is NotFound || (e is AnyFailure && calc_overflows(*store, self@)),
    {
        let main = self.part_id.is_main(store)?;
        let acts = if main {
            Activity::find(self.part_id, min_time(), self.time, store)?
        } else {
            Attachment::activities_by_part(self.part_id, min_time(), self.time, store)?
        };
        let res = Activity::sum_usage(self.usage, &acts);
        proof {
            assert(main == main_type(store.part(self@.part_id).what));
            if main {
                assert(acts@ == store.activities@.filter(found_in(self.part_id, spec_min_time(), self.time)));
                assert(service_acts(*store, self@, acts@));
            } else {
                let atts = choose|atts: Seq<Attachment>|
                    #[trigger] acts_over(store.activities@, atts, spec_min_time(), self.time) == acts@
                        && attachments_in_order(*store, self.part_id, atts);
                assert(attachments_in_order(*store, self@.part_id, atts));
                assert(acts_over(store.activities@, atts, spec_min_time(), self@.time) == acts@);
                assert(service_acts(*store, self@, acts@));
            }
            assert(service_acts(*store, self@, acts@));
        }
        res
    }

    /// Recalculate the usages of the services of `part` done at or after
    /// `attach`, in store order.
    pub fn recalculate(part: PartId, attach: Timestamp, store: &MemStore) -> (r: Result<Vec<Usage>, Error>)
        ensures
            r matches Ok(v) ==> {
                let due = service_views(store.services@).filter(due_after(part, attach));
                &&& v@.len() == due.len()
                &&& forall|i: int| 0 <= i < due.len() ==> calculated(*store, due[i], #[trigger] v@[i])
            },
            r matches Err(e) ==> e is NotFound || e is AnyFailure,
            r matches Err(e) && e is NotFound ==> !part_known(*store, part),
            r matches Err(e) && e is AnyFailure ==> crate::attachment::recalc_overflows(*store, part, attach),
            (forall|x: ServiceView| #[trigger] service_views(store.services@).filter(due_after(part, attach)).contains(x)
                ==> service_part_known(*store, x) && !calc_overflows(*store, x)) ==> r is Ok,
    {
        let services = store.services_by_part(part)?;
        let ghost views = service_views(services@);
        let ghost pred = due_after(part, attach);
        let ghost all = service_views(store.services@);
        proof {
            lemma_views_filter(store.services@, of_service_part(part), |x: ServiceView| x.part_id == part);
            lemma_filter_filter(all, |x: ServiceView| x.part_id == part, pred);
        }
        let mut res: Vec<Usage> = Vec::new();
        let ghost done: Seq<ServiceView> = Seq::empty();
        let mut i: usize = 0;
        while i < services.len()
            invariant
                0 <= i <= services@.len(),
                views == service_views(services@),
                pred == due_after(part, attach),
                all == service_views(store.services@),
                views.filter(pred) == all.filter(pred),
                done == views.take(i as int).filter(pred),
                res@.len() == done.len(),
                forall|k: int| 0 <= k < done.len() ==> calculated(*store, done[k], #[trigger] res@[k]),
            decreases services@.len() - i,
        {
            let sv = &services[i];
            let keep: bool = sv.part_id == part && attach.nanos <= sv.time.nanos;
            proof {
                let s1 = views.take(i + 1);
                assert(s1.drop_last() =~= views.take(i as int));
                assert(s1.last() == sv@);
                assert(views[i as int] == sv@);
                assert(pred(sv@) == keep);
                reveal_with_fuel(Seq::filter, 1);
            }
            if keep {
                let u = match sv.calculate_usage(store) {
                    Ok(u) => u,
                    Err(e) => {
                        proof {
                            crate::store::lemma_filter_members(views, pred);
                            assert(views.contains(sv@));
                            assert(all.filter(pred).contains(sv@));
                            assert(sv@.part_id == part);
                        }
                        return Err(e);
                    },
                };
                res.push(u);
                proof {
                    done = done.push(sv@);
                }
            }
            i = i + 1;
        }
        proof { assert(views.take(views.len() as int) =~= views); }
        Ok(res)
    }
}

/// The views of the services passing a filter are the views passing the
/// corresponding filter on views.
pub proof fn lemma_views_filter(s: Seq<Service>, p: spec_fn(Service) -> bool, q: spec_fn(ServiceView) -> bool)
    requires
        forall|x: Service| #[trigger] p(x) == q(x@),
    ensures
        service_views(s.filter(p)) == service_views(s).filter(q),
    decreases s.len(),
{
    reveal_with_fuel(Seq::filter, 1);
    if s.len() > 0 {
        lemma_views_filter(s.drop_last(), p, q);
        assert(service_views(s).drop_last() =~= service_views(s.drop_last()));
        assert(service_views(s).last() == s.last()@);
        if p(s.last()) {
            assert(service_views(s.filter(p)) =~= service_views(s.drop_last().filter(p)).push(s.last()@));
        } else {
            assert(service_views(s.filter(p)) =~= service_views(s.drop_last().filter(p)));
        }
    } else {
        assert(service_views(s.filter(p)) =~= Seq::<ServiceView>::empty());
        assert(service_views(s).filter(q) =~= Seq::<ServiceView>::empty());
    }
}

/// Filtering by `q` and then by `p` where `p` implies `q` is filtering by `p`.
pub proof fn lemma_filter_filter(s: Seq<ServiceView>, q: spec_fn(ServiceView) -> bool, p: spec_fn(ServiceView) -> bool)
    requires
        forall|x: ServiceView| #[trigger] p(x) ==> q(x),
    ensures
        s.filter(q).filter(p) == s.filter(p),
    decreases s.len(),
{
    reveal_with_fuel(Seq::filter, 1);
    if s.len() > 0 {
        lemma_filter_filter(s.drop_last(), q, p);
        if q(s.last()) {
            assert(s.filter(q) =~= s.drop_last().filter(q).push(s.last()));
            assert(s.filter(q).drop_last() =~= s.drop_last().filter(q));
        } else {
            assert(s.filter(q) =~= s.drop_last().filter(q));
        }
    } else {
        assert(s.filter(q) =~= Seq::<ServiceView>::empty());
    }
}


impl ServiceId {
    /// The stored service with this id; `NotFound` when there is none.
    pub fn get(self, store: &MemStore) -> (r: Result<Service, Error>)
        ensures
            match first_where(store.services@, with_service_id(self)) {
                Some(x) => r matches Ok(v) && v@ == x@,
                None => r matches Err(e) && e is NotFound,
            },
    {
        store.service_get(self)
    }
}

/// The summary of a service and its usage alone.
pub open spec fn service_summary(s: Summary, sv: ServiceView, u: Usage) -> bool {
    &&& s.services@.len() == 1 && s.services@[0]@ == sv
    &&& s.usages@ == seq![u]
    &&& s.activities@.len() == 0 && s.parts@.len() == 0 && s.attachments@.len() == 0
    &&& s.plans@.len() == 0 && s.shops@.len() == 0
}

impl Service {
    /// Log a new service of `part_id` at `time`, with fresh ids; its usage
    /// is calculated and stored. Returns the service and its usage.
    /// `Conflict` (and nothing changes) only when the id drawn for the
    /// service is taken already.
    pub fn create(
        part_id: PartId,
        time: Timestamp,
        name: String,
        notes: String,
        successor: Option<ServiceId>,
        plans: Vec<ServicePlanId>,
        store: &mut MemStore,
    ) -> (r: Result<Summary, Error>)
        requires
            old(store).wf(),
        ensures
            final(store).wf(),
            final(store).parts == old(store).parts,
            final(store).activities == old(store).activities,
            final(store).attachments == old(store).attachments,
            final(store).plans == old(store).plans,
            final(store).next_part_id == old(store).next_part_id,
            final(store).dir == old(store).dir,
            r matches Ok(s) ==> {
                let sv = s.services@[0]@;
                let u = s.usages@[0];
                &&& service_summary(s, sv, u)
                &&& sv.part_id == part_id && sv.time == time && sv.redone == crate::timestamp::spec_max_time()
                &&& sv.name == name@ && sv.notes == notes@ && sv.successor == successor && sv.plans == plans@
                &&& u.id == sv.usage && calculated(*old(store), sv, u)
                &&& first_where(old(store).services@, with_service_id(sv.id)) is None
                &&& service_views(final(store).services@) == service_views(old(store).services@).push(sv)
                &&& final(store).usages@ == old(store).usages@.insert(u.id.0, u)
            },
            (r matches Err(e) && e is NotFound) <==> !part_known(*old(store), part_id),
            r matches Err(e) ==> e is NotFound || e is Conflict || (e is AnyFailure && overflows_at(*old(store), part_id, time)),
            r is Err ==> final(store).services == old(store).services && final(store).usages == old(store).usages,
            r matches Err(e) && e is Conflict ==> *final(store) == *old(store) && old(store).services@.len() > 0,
    {
        let id = ServiceId::new();
        let usage = UsageId::new();
        Service::create_with_ids(id, usage, part_id, time, name, notes, successor, plans, store)
    }

    /// Log a new service of `part_id` at `time` with the id `id` and the
    /// usage id `usage`; its usage is calculated and stored. Returns the
    /// service and its usage. `Conflict` (and nothing changes) exactly when
    /// a service with id `id` is stored and the part's usage could be
    /// calculated.
    pub fn create_with_ids(
        id: ServiceId,
        usage: UsageId,
        part_id: PartId,
        time: Timestamp,
        name: String,
        notes: String,
        successor: Option<ServiceId>,
        plans: Vec<ServicePlanId>,
        store: &mut MemStore,
    ) -> (r: Result<Summary, Error>)
        requires
            old(store).wf(),
        ensures
            final(store).wf(),
            final(store).parts == old(store).parts,
            final(store).activities == old(store).activities,
            final(store).attachments == old(store).attachments,
            final(store).plans == old(store).plans,
            final(store).next_part_id == old(store).next_part_id,
            final(store).dir == old(store).dir,
            r matches Ok(s) ==> {
                let sv = s.services@[0]@;
                let u = s.usages@[0];
                &&& service_summary(s, sv, u)
                &&& sv.id == id && sv.usage == usage
                &&& sv.part_id == part_id && sv.time == time && sv.redone == crate::timestamp::spec_max_time()
                &&& sv.name == name@ && sv.notes == notes@ && sv.successor == successor && sv.plans == plans@
                &&& u.id == sv.usage && calculated(*old(store), sv, u)
                &&& first_where(old(store).services@, with_service_id(sv.id)) is None
                &&& service_views(final(store).services@) == service_views(old(store).services@).push(sv)
                &&& final(store).usages@ == old(store).usages@.insert(u.id.0, u)
            },
            (r matches Err(e) && e is NotFound) <==> !part_known(*old(store), part_id),
            r matches Err(e) ==> e is NotFound || e is Conflict || (e is AnyFailure && overflows_at(*old(store), part_id, time)),
            r is Err ==> final(store).services == old(store).services && final(store).usages == old(store).usages,
            r matches Err(e) && e is Conflict ==> *final(store) == *old(store)
                && first_where(old(store).services@, with_service_id(id)) is Some,
            part_known(*old(store), part_id) && !overflows_at(*old(store), part_id, time)
                && first_where(old(store).services@, with_service_id(id)) is None ==> r is Ok,
    {
        let service = Service {
            id,
            part_id,
            time,
            redone: crate::timestamp::max_time(),
            name,
            notes,
            usage,
            successor,
            plans,
        };
        let ghost sv = service@;
        let calc = service.calculate_usage(store)?;
        if store.service_get(service.id).is_ok() {
            return Err(Error::Conflict("Service exists already".to_owned()));
        }
        let usage = calc.update(store)?;
        let service = store.service_create(service)?;
        let mut services: Vec<Service> = Vec::new();
        services.push(service);
        let mut usages: Vec<Usage> = Vec::new();
        usages.push(usage);
        proof {
            assert(service_views(final(store).services@) =~= service_views(old(store).services@).push(sv));
            assert(usages@ =~= seq![usage]);
        }
        Ok(Summary {
            activities: Vec::new(),
            parts: Vec::new(),
            attachments: Vec::new(),
            usages,
            services,
            plans: Vec::new(),
            shops: Vec::new(),
        })
    }
}


impl Service {
    /// Recalculate and store the usage of the service and replace the
    /// stored service with its id by it. Returns both.
    pub fn update_unchecked(self, store: &mut MemStore) -> (r: Result<Summary, Error>)
        requires
            old(store).wf(),
        ensures
            final(store).wf(),
            final(store).parts == old(store).parts,
            final(store).activities == old(store).activities,
            final(store).attachments == old(store).attachments,
            final(store).plans == old(store).plans,
            final(store).next_part_id == old(store).next_part_id,
            final(store).dir == old(store).dir,
            r matches Ok(s) ==> {
                let u = s.usages@[0];
                &&& service_summary(s, self@, u)
                &&& u.id == self.usage && calculated(*old(store), self@, u)
                &&& final(store).usages@ == old(store).usages@.insert(u.id.0, u)
                &&& first_index(old(store).services@, with_service_id(self.id)) matches Some(i)
                    && service_views(final(store).services@) == service_views(old(store).services@).update(i, self@)
            },
            !service_part_known(*old(store), self@) ==> (r matches Err(e) && e is NotFound),
            service_part_known(*old(store), self@) && !calc_overflows(*old(store), self@) ==>
                (r is Ok <==> first_index(old(store).services@, with_service_id(self.id)) is Some),
            r matches Err(e) ==> (e is NotFound && (!service_part_known(*old(store), self@)
                    || first_index(old(store).services@, with_service_id(self.id)) is None))
                || (e is AnyFailure && calc_overflows(*old(store), self@)),
            r is Err ==> final(store).services == old(store).services,
            (r matches Err(e) && (e is AnyFailure || !service_part_known(*old(store), self@))) ==> final(store).usages == old(store).usages,
    {
        let ghost sv = self@;
        let ghost s0 = *store;
        let calc = self.calculate_usage(store)?;
        let usage = calc.update(store)?;
        let service = match store.service_update(self) {
            Ok(x) => x,
            Err(e) => {
                return Err(e);
            },
        };
        proof {
            crate::seqs::lemma_first_index_props(s0.services@, with_service_id(sv.id));
            let i = first_index(s0.services@, with_service_id(sv.id)).unwrap();
            assert(service_views(store.services@) =~= service_views(s0.services@).update(i, sv));
        }
        let mut services: Vec<Service> = Vec::new();
        services.push(service);
        let mut usages: Vec<Usage> = Vec::new();
        usages.push(usage);
        proof { assert(usages@ =~= seq![usage]); }
        Ok(Summary {
            activities: Vec::new(),
            parts: Vec::new(),
            attachments: Vec::new(),
            usages,
            services,
            plans: Vec::new(),
            shops: Vec::new(),
        })
    }
}


/// The frame of service changes: everything but services and usages stays.
pub open spec fn services_frame(old: MemStore, new: MemStore) -> bool {
    &&& new.wf()
    &&& new.parts == old.parts
    &&& new.activities == old.activities
    &&& new.attachments == old.attachments
    &&& new.plans == old.plans
    &&& new.next_part_id == old.next_part_id
    &&& new.dir == old.dir
}

impl Service {
    /// Update a service: the fields given replace those stored for its id
    /// (its usage record is kept) and its usage is recalculated.
    ///
    /// checks authorization on the part
    pub fn update<S: Session>(self, user: &S, store: &mut MemStore) -> (r: Result<Summary, Error>)
        requires
            old(store).wf(),
        ensures
            services_frame(*old(store), *final(store)),
            match part_denial(*old(store), user.session_user(), user.session_shop(), self.part_id) {
                Some(k) => (r matches Err(e) && e.kind() == k) && *final(store) == *old(store),
                None => match first_where(old(store).services@, with_service_id(self.id)) {
                    None => (r matches Err(e) && e is NotFound) && *final(store) == *old(store),
                    Some(x) => {
                        let sv = ServiceView { usage: x.usage, ..self@ };
                        &&& r matches Ok(s) ==> {
                            let u = s.usages@[0];
                            &&& service_summary(s, sv, u)
                            &&& u.id == x.usage && calculated(*old(store), sv, u)
                            &&& final(store).usages@ == old(store).usages@.insert(u.id.0, u)
                            &&& first_index(old(store).services@, with_service_id(self.id)) matches Some(i)
                                && service_views(final(store).services@) == service_views(old(store).services@).update(i, sv)
                        }
                        &&& !calc_overflows(*old(store), sv) && service_part_known(*old(store), sv) ==> r is Ok
                        &&& r matches Err(e) ==> (e is NotFound && !service_part_known(*old(store), sv))
                            || (e is AnyFailure && calc_overflows(*old(store), sv))
                        &&& r is Err ==> final(store).services == old(store).services
                    },
                },
            },
    {
        let mut this = self;
        this.part_id.checkuser(user, store)?;
        let service = this.id.get(store)?;
        this.usage = service.usage;
        proof {
            crate::seqs::lemma_first_where_index(store.services@, with_service_id(this.id));
        }
        this.update_unchecked(store)
    }

    /// Log a new service as a redo of the stored service with the id of
    /// `self`, at the time, with the notes and plans of `self`. A redo
    /// before the stored service precedes it; otherwise the stored
    /// service gets the new one as its successor (and its usage is
    /// recalculated). The id of the new service is drawn at random
    /// (`ServiceId::new`); should it be taken already, the answer is
    /// `Conflict` and nothing changes.
    ///
    /// checks authorization on the part
    pub fn redo<S: Session>(self, user: &S, store: &mut MemStore) -> (r: Result<Summary, Error>)
        requires
            old(store).wf(),
        ensures
            services_frame(*old(store), *final(store)),
            match first_where(old(store).services@, with_service_id(self.id)) {
                None => (r matches Err(e) && e is NotFound) && *final(store) == *old(store),
                Some(x) => match part_denial(*old(store), user.session_user(), user.session_shop(), x.part_id) {
                    Some(k) => (r matches Err(e) && e.kind() == k) && *final(store) == *old(store),
                    None => {
                        &&& r matches Ok(s) ==> redone(*old(store), *final(store), s, x@, self@)
                        &&& r matches Err(e) ==> e is NotFound || e is Conflict || e is AnyFailure
                        &&& !part_known(*old(store), x.part_id) ==> (r matches Err(e) && e is NotFound)
                        &&& part_known(*old(store), x.part_id) && !overflows_at(*old(store), x.part_id, self.time)
                            && !overflows_at(*old(store), x.part_id, x.time)
                            ==> r is Ok || (r matches Err(e) && e is Conflict && *final(store) == *old(store))
                    },
                },
            },
    {
        let new_id = ServiceId::new();
        let new_usage = UsageId::new();
        self.redo_with_ids(new_id, new_usage, user, store)
    }

    /// `redo`, with the id `new_id` and the usage id `new_usage` for the new
    /// service: `Conflict` (and nothing changes) exactly when a service with
    /// id `new_id` is stored and the usage could be calculated.
    ///
    /// checks authorization on the part
    pub fn redo_with_ids<S: Session>(self, new_id: ServiceId, new_usage: UsageId, user: &S, store: &mut MemStore) -> (r: Result<Summary, Error>)
        requires
            old(store).wf(),
        ensures
            services_frame(*old(store), *final(store)),
            match first_where(old(store).services@, with_service_id(self.id)) {
                None => (r matches Err(e) && e is NotFound) && *final(store) == *old(store),
                Some(x) => match part_denial(*old(store), user.session_user(), user.session_shop(), x.part_id) {
                    Some(k) => (r matches Err(e) && e.kind() == k) && *final(store) == *old(store),
                    None => {
                        &&& r matches Ok(s) ==> redone(*old(store), *final(store), s, x@, self@)
                        &&& r matches Err(e) ==> e is NotFound || e is Conflict || e is AnyFailure
                        &&& !part_known(*old(store), x.part_id) ==> (r matches Err(e) && e is NotFound)
                        &&& part_known(*old(store), x.part_id) && !overflows_at(*old(store), x.part_id, self.time)
                            && !overflows_at(*old(store), x.part_id, x.time)
                            ==> r is Ok || (r matches Err(e) && e is Conflict && *final(store) == *old(store))
                        &&& (r matches Err(e) && e is Conflict) ==> (*final(store) == *old(store)
                            && first_where(old(store).services@, with_service_id(new_id)) is Some)
                        &&& part_known(*old(store), x.part_id) && !overflows_at(*old(store), x.part_id, self.time)
                            && !overflows_at(*old(store), x.part_id, x.time)
                            && first_where(old(store).services@, with_service_id(new_id)) is None ==> r is Ok
                    },
                },
            },
    {
        let ghost self_v = self@;
        let Service { id, notes, time, plans, .. } = self;
        let mut old_service = id.get(store)?;
        old_service.part_id.checkuser(user, store)?;
        let ghost x = old_service@;
        let ghost s0 = *store;
        if time.nanos < old_service.time.nanos {
            let res = Service::create_with_ids(new_id, new_usage, old_service.part_id, time, old_service.name.clone(), notes, Some(old_service.id), plans, store)?;
            proof {
                let sv = res.services@[0]@;
                assert(res.services@[0].key_of() == (sv.id.0, 0i128));
                assert(crate::summary::has_key(res.services@, (sv.id.0, 0i128)));
                assert(redone_by(s0, *store, res, x, self_v, sv));
            }
            Ok(res)
        } else {
            let res = Service::create_with_ids(new_id, new_usage, old_service.part_id, time, old_service.name.clone(), notes, None, plans, store)?;
            let ghost sv = res.services@[0]@;
            let ghost s1 = *store;
            proof {
                crate::seqs::lemma_first_where_index(s0.services@, with_service_id(id));
                crate::seqs::lemma_first_index_props(s0.services@, with_service_id(id));
                crate::seqs::lemma_first_where_member(s0.services@, with_service_id(sv.id));
                crate::store::lemma_filter_members(s0.services@, with_service_id(sv.id));
                assert(old_service.id == id);
                lemma_first_index_views(s0.services@, s1.services@, sv, id);
            }
            old_service.successor = Some(res.services[0].id);
            proof {
                lemma_calculated_frame(s0, s1);
            }
            let upd = old_service.update_unchecked(store)?;
            let merged = res.merge(upd);
            proof {
                let i = first_index(s0.services@, with_service_id(id)).unwrap();
                assert((res.services@ + upd.services@)[0] == res.services@[0]);
                assert((res.services@ + upd.services@)[0].key_of() == (sv.id.0, 0i128));
                assert(crate::summary::has_key(res.services@ + upd.services@, (sv.id.0, 0i128)));
                assert(crate::summary::has_key(merged.services@, (sv.id.0, 0i128)));
                assert(first_index(s1.services@, with_service_id(id)) == Some(i));
                assert(old_service@ == ServiceView { successor: Some(sv.id), ..x });
                assert(service_views(store.services@)
                    == service_views(s0.services@).push(sv).update(i, ServiceView { successor: Some(sv.id), ..x }));
                assert(redone_by(s0, *store, merged, x, self_v, sv));
            }
            Ok(merged)
        }
    }
}

/// `new` holds, beside the services of `old`, a new service `sv` that redoes
/// the stored service `x` as `req` asks (at its time, with its notes and
/// plans), and the summary `s` mentions it. A redo before `x` precedes it;
/// otherwise `x` gets `sv` as its successor.
pub open spec fn redone_by(old: MemStore, new: MemStore, s: Summary, x: ServiceView, req: ServiceView, sv: ServiceView) -> bool {
    &&& crate::summary::has_key(s.services@, (sv.id.0, 0i128))
    &&& sv.part_id == x.part_id && sv.time == req.time && sv.name == x.name
    &&& sv.notes == req.notes && sv.plans == req.plans
    &&& sv.redone == crate::timestamp::spec_max_time()
    &&& first_where(old.services@, with_service_id(sv.id)) is None
    &&& if req.time.nanos < x.time.nanos {
        &&& sv.successor == Some(x.id)
        &&& service_views(new.services@) == service_views(old.services@).push(sv)
    } else {
        &&& sv.successor is None
        &&& first_index(old.services@, with_service_id(req.id)) matches Some(i)
            && service_views(new.services@)
                == service_views(old.services@).push(sv).update(i, ServiceView { successor: Some(sv.id), ..x })
    }
}

/// Some new service redoes `x` as `req` asks (see `redone_by`).
pub open spec fn redone(old: MemStore, new: MemStore, s: Summary, x: ServiceView, req: ServiceView) -> bool {
    exists|sv: ServiceView| #[trigger] redone_by(old, new, s, x, req, sv)
}

/// The first index of an id in the stored services carries over to the
/// services after pushing a service with another id.
pub proof fn lemma_first_index_views(before: Seq<Service>, after: Seq<Service>, sv: ServiceView, id: ServiceId)
    requires
        first_index(before, with_service_id(id)) is Some,
        service_views(after) == service_views(before).push(sv),
        sv.id != id,
    ensures
        first_index(after, with_service_id(id)) == first_index(before, with_service_id(id)),
{
    crate::seqs::lemma_first_index_props(before, with_service_id(id));
    let i = first_index(before, with_service_id(id)).unwrap();
    assert(after.len() == before.len() + 1) by {
        assert(service_views(after).len() == after.len());
    }
    assert(after[i]@ == before[i]@) by {
        assert(service_views(after)[i] == service_views(before)[i]);
    }
    assert forall|k: int| 0 <= k < i implies !with_service_id(id)(after[k]) by {
        assert(service_views(after)[k] == service_views(before)[k]);
        assert(!with_service_id(id)(before[k]));
    }
    crate::seqs::lemma_first_index(after, with_service_id(id), i);
}


/// Views with id `id`.
pub open spec fn view_id(id: ServiceId) -> spec_fn(ServiceView) -> bool {
    |x: ServiceView| x.id == id
}

/// `v` after the first view with the id of `p` got `p` without a successor.
pub open spec fn unlink_one(v: Seq<ServiceView>, p: ServiceView) -> Seq<ServiceView> {
    match first_index(v, view_id(p.id)) {
        Some(j) => v.update(j, ServiceView { successor: None, ..p }),
        None => v,
    }
}

/// `v` after each view of `preds` in turn got unlinked.
pub open spec fn unlink_all(v: Seq<ServiceView>, preds: Seq<ServiceView>) -> Seq<ServiceView>
    decreases preds.len(),
{
    if preds.len() == 0 {
        v
    } else {
        unlink_one(unlink_all(v, preds.drop_last()), preds.last())
    }
}

/// Services of `part` whose successor is `id`.
pub open spec fn predecessor_of(part: PartId, id: ServiceId) -> spec_fn(ServiceView) -> bool {
    |x: ServiceView| x.part_id == part && x.successor == Some(id)
}

/// The first index of an id among services is that among their views.
pub proof fn lemma_first_index_of_views(s: Seq<Service>, id: ServiceId)
    ensures
        first_index(s, with_service_id(id)) == first_index(service_views(s), view_id(id)),
{
    let v = service_views(s);
    crate::seqs::lemma_first_index_props(s, with_service_id(id));
    crate::seqs::lemma_first_index_props(v, view_id(id));
    assert forall|k: int| 0 <= k < s.len() implies #[trigger] with_service_id(id)(s[k]) == view_id(id)(v[k]) by {
        assert(v[k] == s[k]@);
    }
    if let Some(i) = first_index(s, with_service_id(id)) {
        crate::seqs::lemma_first_index(v, view_id(id), i);
    } else if let Some(i) = first_index(v, view_id(id)) {
        crate::seqs::lemma_first_index(s, with_service_id(id), i);
    }
}

/// Unlinking keeps the ids at every position.
pub proof fn lemma_unlink_all_ids(v: Seq<ServiceView>, preds: Seq<ServiceView>)
    ensures
        unlink_all(v, preds).len() == v.len(),
        forall|k: int| 0 <= k < v.len() ==> #[trigger] unlink_all(v, preds)[k].id == v[k].id,
    decreases preds.len(),
{
    if preds.len() > 0 {
        lemma_unlink_all_ids(v, preds.drop_last());
        let w = unlink_all(v, preds.drop_last());
        crate::seqs::lemma_first_index_props(w, view_id(preds.last().id));
    }
}

impl ServiceId {
    /// Delete the service with this id and its usage; services of the same
    /// part that had it as successor lose their successor.
    ///
    /// checks authorization on the part; returns the unlinked services
    pub fn delete<S: Session>(self, user: &S, store: &mut MemStore) -> (r: Result<Summary, Error>)
        requires
            old(store).wf(),
        ensures
            services_frame(*old(store), *final(store)),
            match first_where(old(store).services@, with_service_id(self)) {
                None => (r matches Err(e) && e is NotFound) && *final(store) == *old(store),
                Some(x) => match part_denial(*old(store), user.session_user(), user.session_shop(), x.part_id) {
                    Some(k) => (r matches Err(e) && e.kind() == k) && *final(store) == *old(store),
                    None => {
                        let preds = service_views(old(store).services@).filter(predecessor_of(x.part_id, self));
                        &&& r is Ok
                        &&& r matches Ok(s) ==> service_views(s.services@)
                            == preds.map_values(|p: ServiceView| ServiceView { successor: None, ..p })
                        &&& service_views(final(store).services@)
                            == unlink_all(service_views(old(store).services@), preds).filter(|v: ServiceView| v.id != self)
                        &&& final(store).usages@ == old(store).usages@.remove(x.usage.0)
                    },
                },
            },
    {
        let service = self.get(store)?;
        service.part_id.checkuser(user, store)?;
        let ghost s0 = *store;
        let ghost v0 = service_views(s0.services@);
        let ghost pred = predecessor_of(service.part_id, service.id);
        let services = store.services_by_part(service.part_id)?;
        let ghost sv = service_views(services@);
        proof {
            lemma_views_filter(s0.services@, of_service_part(service.part_id), |x: ServiceView| x.part_id == service.part_id);
            lemma_filter_filter(v0, |x: ServiceView| x.part_id == service.part_id, pred);
            crate::store::lemma_filter_members(v0, pred);
        }
        let mut res: Vec<Service> = Vec::new();
        let mut i: usize = 0;
        while i < services.len()
            invariant
                0 <= i <= services@.len(),
                sv == service_views(services@),
                v0 == service_views(s0.services@),
                pred == predecessor_of(service.part_id, service.id),
                sv.filter(pred) == v0.filter(pred),
                forall|x: ServiceView| #[trigger] v0.filter(pred).contains(x) <==> (v0.contains(x) && pred(x)),
                services_frame(s0, *store),
                store.usages == s0.usages,
                service_views(store.services@) == unlink_all(v0, sv.take(i as int).filter(pred)),
                service_views(res@) == sv.take(i as int).filter(pred).map_values(|p: ServiceView| ServiceView { successor: None, ..p }),
            decreases services@.len() - i,
        {
            let ghost x = sv[i as int];
            proof {
                let s1 = sv.take(i + 1);
                assert(s1.drop_last() =~= sv.take(i as int));
                assert(s1.last() == x);
                reveal_with_fuel(Seq::filter, 1);
                assert(services@[i as int]@ == x);
            }
            if services[i].part_id == service.part_id && services[i].successor == Some(service.id) {
                let mut s = services[i].duplicate();
                s.successor = None;
                let ghost before = *store;
                proof {
                    lemma_first_index_of_views(before.services@, x.id);
                    lemma_unlink_all_ids(v0, sv.take(i as int).filter(pred));
                    assert(sv.filter(pred).contains(x)) by {
                        crate::store::lemma_filter_members(sv, pred);
                        assert(sv.contains(x));
                    }
                    assert(v0.contains(x));
                    let k = choose|k: int| 0 <= k < v0.len() && v0[k] == x;
                    assert(service_views(before.services@)[k].id == x.id);
                    crate::seqs::lemma_first_index_props(service_views(before.services@), view_id(x.id));
                    assert(view_id(x.id)(service_views(before.services@)[k]));
                }
                let updated = store.service_update(s)?;
                proof {
                    let j = first_index(before.services@, with_service_id(x.id)).unwrap();
                    assert(service_views(store.services@) =~= service_views(before.services@).update(j, ServiceView { successor: None, ..x }));
                    assert(sv.take(i + 1).filter(pred) =~= sv.take(i as int).filter(pred).push(x));
                    let f1 = sv.take(i + 1).filter(pred);
                    assert(f1.drop_last() =~= sv.take(i as int).filter(pred));
                    assert(f1.last() == x);
                    assert(unlink_all(v0, f1) == unlink_one(unlink_all(v0, sv.take(i as int).filter(pred)), x));
                }
                let ghost res_before = res@;
                res.push(updated);
                proof {
                    assert(service_views(res@) =~= service_views(res_before).push(ServiceView { successor: None, ..x }));
                    assert(sv.take(i + 1).filter(pred).map_values(|p: ServiceView| ServiceView { successor: None, ..p })
                        =~= sv.take(i as int).filter(pred).map_values(|p: ServiceView| ServiceView { successor: None, ..p })
                            .push(ServiceView { successor: None, ..x }));
                }
            } else {
                proof {
                    assert(sv.take(i + 1).filter(pred) =~= sv.take(i as int).filter(pred));
                }
            }
            i = i + 1;
        }
        proof { assert(sv.take(sv.len() as int) =~= sv); }
        let ghost mid = *store;
        let _u = service.usage.delete(store)?;
        let _n: usize = store.service_delete(self)?;
        proof {
            lemma_views_filter(mid.services@, other_service_id(self), |v: ServiceView| v.id != self);
        }
        Ok(Summary {
            activities: Vec::new(),
            parts: Vec::new(),
            attachments: Vec::new(),
            usages: Vec::new(),
            services: res,
            plans: Vec::new(),
            shops: Vec::new(),
        })
    }
}

impl Service {
    /// The services of `part` and their usages, one for each, in store order.
    pub fn for_part_with_usage(part: PartId, store: &MemStore) -> (r: Result<(Vec<Service>, Vec<Usage>), Error>)
        ensures
            r matches Ok((sv, us)) && service_views(sv@) == service_views(store.services@.filter(of_service_part(part)))
                && us@ == sv@.map_values(|s: Service| store.usage_or_zero(s.usage)),
    {
        let services = store.services_by_part(part)?;
        let mut usages: Vec<Usage> = Vec::new();
        let mut i: usize = 0;
        while i < services.len()
            invariant
                0 <= i <= services@.len(),
                usages@ == services@.take(i as int).map_values(|s: Service| store.usage_or_zero(s.usage)),
            decreases services@.len() - i,
        {
            let u = services[i].usage.read(store)?;
            usages.push(u);
            proof {
                assert(services@.take(i + 1).map_values(|s: Service| store.usage_or_zero(s.usage))
                    =~= services@.take(i as int).map_values(|s: Service| store.usage_or_zero(s.usage)).push(u));
            }
            i = i + 1;
        }
        proof { assert(services@.take(services@.len() as int) =~= services@); }
        Ok((services, usages))
    }

    /// Services do not follow a plan's reset: there is nothing to change.
    pub fn reset_plan(_plan: ServicePlanId, _store: &MemStore) -> (r: Result<Vec<Service>, Error>)
        ensures
            r matches Ok(v) && v@.len() == 0,
    {
        Ok(Vec::new())
    }
}


/// What a service's usage is calculated from depends only on the parts,
/// the attachments and the activities of the store.
pub proof fn lemma_calculated_frame(a: MemStore, b: MemStore)
    requires
        a.parts == b.parts,
        a.attachments == b.attachments,
        a.activities == b.activities,
    ensures
        forall|sv: ServiceView, u: Usage| #[trigger] calculated(a, sv, u) == calculated(b, sv, u),
        forall|part: PartId, time: Timestamp| #[trigger] overflows_at(a, part, time) == overflows_at(b, part, time),
        forall|part: PartId| #[trigger] part_known(a, part) == part_known(b, part),
{
    assert forall|part: PartId, time: Timestamp, acts: Seq<Activity>|
        #[trigger] window_acts(a, part, time, acts) == window_acts(b, part, time, acts) by {
        assert forall|atts: Seq<Attachment>| #[trigger] attachments_in_order(a, part, atts) == attachments_in_order(b, part, atts) by {}
    }
    assert forall|sv: ServiceView, u: Usage| #[trigger] calculated(a, sv, u) == calculated(b, sv, u) by {
        if calculated(a, sv, u) {
            let acts = choose|acts: Seq<Activity>| #[trigger] service_acts(a, sv, acts) && total_fits(acts) && u == total_usage(sv.usage, acts);
            assert(service_acts(b, sv, acts));
        }
        if calculated(b, sv, u) {
            let acts = choose|acts: Seq<Activity>| #[trigger] service_acts(b, sv, acts) && total_fits(acts) && u == total_usage(sv.usage, acts);
            assert(service_acts(a, sv, acts));
        }
    }
    assert forall|part: PartId, time: Timestamp| #[trigger] overflows_at(a, part, time) == overflows_at(b, part, time) by {
        if overflows_at(a, part, time) {
            let acts = choose|acts: Seq<Activity>| #[trigger] window_acts(a, part, time, acts) && !total_fits(acts);
            assert(window_acts(b, part, time, acts));
        }
        if overflows_at(b, part, time) {
            let acts = choose|acts: Seq<Activity>| #[trigger] window_acts(b, part, time, acts) && !total_fits(acts);
            assert(window_acts(a, part, time, acts));
        }
    }
}

} // verus!
