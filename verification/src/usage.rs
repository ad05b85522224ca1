//! Usage counters of parts, attachments and services, and their arithmetic.

use vstd::prelude::*;
use vstd::std_specs::ops::{AddSpecImpl, SubSpecImpl, NegSpecImpl};
use crate::uuids::{fresh_uuid_v7, uuid_to_text};
use crate::error::Error;
use crate::store::MemStore;

verus! {

/// The id of a usage record (a UUID, held as its 128-bit value).
#[derive(Clone, Copy, Debug, PartialEq, Eq, Structural, Hash, PartialOrd, Ord)]
pub struct UsageId(pub u128);

impl UsageId {
    /// A fresh id (a version-7 UUID); never the default (nil) id.
    pub fn new() -> (r: UsageId)
        ensures
            r.0 != 0,
    {
        let v: u128 = fresh_uuid_v7();
        proof { crate::uuids::lemma_v7_not_nil(v); }
        UsageId(v)
    }

    /// The nil id.
    pub fn nil() -> (r: UsageId)
        ensures
            r.0 == 0,
    {
        UsageId(0)
    }

    /// The hyphenated UUID text of the id.
    pub fn to_string(&self) -> (r: String)
        ensures
            r@ == crate::uuids::uuid_text(self.0),
            r@.len() == 36,
    {
        uuid_to_text(self.0)
    }
}

impl Default for UsageId {
    fn default() -> (r: UsageId)
        ensures
            r.0 == 0,
    {
        UsageId(0)
    }
}

/// Accumulated use of a part: time, distance, climbing, descending, energy
/// and the number of activities.
#[derive(Clone, Copy, Debug, PartialEq, Eq, Structural)]
pub struct Usage {
    /// id for referencing
    pub id: UsageId,
    /// usage time
    pub time: i32,
    /// Usage distance
    pub distance: i32,
    /// Overall climbing
    pub climb: i32,
    /// Overall descending
    pub descend: i32,
    /// Overall energy
    pub energy: i32,
    /// number of activities
    pub count: i32,
}

/// Whether `x` fits an `i32`.
pub open spec fn fits_i32(x: int) -> bool {
    i32::MIN <= x <= i32::MAX
}

impl Usage {
    /// The counters of a usage as a tuple of mathematical integers
    /// (time, distance, climb, descend, energy, count).
    pub open spec fn counters(self) -> (int, int, int, int, int, int) {
        (self.time as int, self.distance as int, self.climb as int, self.descend as int,
         self.energy as int, self.count as int)
    }

    /// The field-wise sum of the counters fits `i32`.
    pub open spec fn sum_fits(self, rhs: Usage) -> bool {
        &&& fits_i32(self.time + rhs.time)
        &&& fits_i32(self.distance + rhs.distance)
        &&& fits_i32(self.climb + rhs.climb)
        &&& fits_i32(self.descend + rhs.descend)
        &&& fits_i32(self.energy + rhs.energy)
        &&& fits_i32(self.count + rhs.count)
    }

    /// The field-wise difference of the counters fits `i32`.
    pub open spec fn diff_fits(self, rhs: Usage) -> bool {
        &&& fits_i32(self.time - rhs.time)
        &&& fits_i32(self.distance - rhs.distance)
        &&& fits_i32(self.climb - rhs.climb)
        &&& fits_i32(self.descend - rhs.descend)
        &&& fits_i32(self.energy - rhs.energy)
        &&& fits_i32(self.count - rhs.count)
    }

    /// No counter is `i32::MIN`, so each can be negated.
    pub open spec fn neg_fits(self) -> bool {
        &&& self.time != i32::MIN
        &&& self.distance != i32::MIN
        &&& self.climb != i32::MIN
        &&& self.descend != i32::MIN
        &&& self.energy != i32::MIN
        &&& self.count != i32::MIN
    }

    /// `self` with the counters of `rhs` added; the id stays that of `self`.
    pub open spec fn spec_plus(self, rhs: Usage) -> Usage {
        Usage {
            id: self.id,
            time: (self.time + rhs.time) as i32,
            distance: (self.distance + rhs.distance) as i32,
            climb: (self.climb + rhs.climb) as i32,
            descend: (self.descend + rhs.descend) as i32,
            energy: (self.energy + rhs.energy) as i32,
            count: (self.count + rhs.count) as i32,
        }
    }

    /// `self` with the counters of `rhs` subtracted; the id stays that of `self`.
    pub open spec fn spec_minus(self, rhs: Usage) -> Usage {
        Usage {
            id: self.id,
            time: (self.time - rhs.time) as i32,
            distance: (self.distance - rhs.distance) as i32,
            climb: (self.climb - rhs.climb) as i32,
            descend: (self.descend - rhs.descend) as i32,
            energy: (self.energy - rhs.energy) as i32,
            count: (self.count - rhs.count) as i32,
        }
    }

    /// `self` with every counter negated; the id is kept.
    pub open spec fn spec_negated(self) -> Usage {
        Usage {
            id: self.id,
            time: (-self.time) as i32,
            distance: (-self.distance) as i32,
            climb: (-self.climb) as i32,
            descend: (-self.descend) as i32,
            energy: (-self.energy) as i32,
            count: (-self.count) as i32,
        }
    }

    /// A zero usage with the given id.
    pub open spec fn spec_new(id: UsageId) -> Usage {
        Usage { id, time: 0, distance: 0, climb: 0, descend: 0, energy: 0, count: 0 }
    }

    /// A zero usage with the given id.
    pub fn new(id: UsageId) -> (r: Usage)
        ensures
            r == Usage::spec_new(id),
    {
        Usage { id, time: 0, distance: 0, climb: 0, descend: 0, energy: 0, count: 0 }
    }

    /// Add the counters of `rhs` to those of `self`, keeping the id of `self`.
    pub fn plus(&self, rhs: &Usage) -> (r: Usage)
        requires
            self.sum_fits(*rhs),
        ensures
            r == self.spec_plus(*rhs),
    {
        Usage {
            id: self.id,
            time: self.time + rhs.time,
            climb: self.climb + rhs.climb,
            descend: self.descend + rhs.descend,
            energy: self.energy + rhs.energy,
            distance: self.distance + rhs.distance,
            count: self.count + rhs.count,
        }
    }

    /// The sum of `self` and `rhs` (id of `self`), or `None` when a counter
    /// would leave the `i32` range.
    pub fn checked_plus(&self, rhs: &Usage) -> (r: Option<Usage>)
        ensures
            r is Some <==> self.sum_fits(*rhs),
            r matches Some(u) ==> u == self.spec_plus(*rhs),
    {
        let time = self.time.checked_add(rhs.time)?;
        let distance = self.distance.checked_add(rhs.distance)?;
        let climb = self.climb.checked_add(rhs.climb)?;
        let descend = self.descend.checked_add(rhs.descend)?;
        let energy = self.energy.checked_add(rhs.energy)?;
        let count = self.count.checked_add(rhs.count)?;
        Some(Usage { id: self.id, time, distance, climb, descend, energy, count })
    }

    /// Whether every counter can be negated (none is `i32::MIN`).
    pub fn can_negate(&self) -> (r: bool)
        ensures
            r == self.neg_fits(),
    {
        self.time != i32::MIN && self.distance != i32::MIN && self.climb != i32::MIN
            && self.descend != i32::MIN && self.energy != i32::MIN && self.count != i32::MIN
    }

    /// Subtract the counters of `rhs` from those of `self`, keeping the id of `self`.
    pub fn minus(&self, rhs: &Usage) -> (r: Usage)
        requires
            self.diff_fits(*rhs),
        ensures
            r == self.spec_minus(*rhs),
    {
        Usage {
            id: self.id,
            time: self.time - rhs.time,
            climb: self.climb - rhs.climb,
            descend: self.descend - rhs.descend,
            energy: self.energy - rhs.energy,
            distance: self.distance - rhs.distance,
            count: self.count - rhs.count,
        }
    }

    /// Negate every counter, keeping the id.
    pub fn negated(&self) -> (r: Usage)
        requires
            self.neg_fits(),
        ensures
            r == self.spec_negated(),
    {
        Usage {
            id: self.id,
            time: -self.time,
            climb: -self.climb,
            descend: -self.descend,
            energy: -self.energy,
            distance: -self.distance,
            count: -self.count,
        }
    }
}

impl Default for Usage {
    fn default() -> (r: Usage)
        ensures
            r == Usage::spec_new(UsageId(0)),
    {
        Usage::new(UsageId(0))
    }
}

impl<'a, 'b> core::ops::Add<&'b Usage> for &'a Usage {
    type Output = Usage;

    /// Add the counters of the right-hand side, keeping the id of the left.
    fn add(self, rhs: &'b Usage) -> (r: Usage) {
        self.plus(rhs)
    }
}

impl<'a, 'b> AddSpecImpl<&'b Usage> for &'a Usage {
    open spec fn obeys_add_spec() -> bool {
        true
    }

    open spec fn add_req(self, rhs: &'b Usage) -> bool {
        (*self).sum_fits(*rhs)
    }

    open spec fn add_spec(self, rhs: &'b Usage) -> Usage {
        (*self).spec_plus(*rhs)
    }
}

impl<'b> core::ops::Add<&'b Usage> for Usage {
    type Output = Usage;

    /// Add the counters of the right-hand side, keeping the id of the left.
    fn add(self, rhs: &'b Usage) -> (r: Usage) {
        self.plus(rhs)
    }
}

impl<'b> AddSpecImpl<&'b Usage> for Usage {
    open spec fn obeys_add_spec() -> bool {
        true
    }

    open spec fn add_req(self, rhs: &'b Usage) -> bool {
        self.sum_fits(*rhs)
    }

    open spec fn add_spec(self, rhs: &'b Usage) -> Usage {
        self.spec_plus(*rhs)
    }
}

impl core::ops::Sub for Usage {
    type Output = Usage;

    /// Subtract the counters of the right-hand side, keeping the id of the left.
    fn sub(self, rhs: Usage) -> (r: Usage) {
        self.minus(&rhs)
    }
}

impl SubSpecImpl for Usage {
    open spec fn obeys_sub_spec() -> bool {
        true
    }

    open spec fn sub_req(self, rhs: Usage) -> bool {
        self.diff_fits(rhs)
    }

    open spec fn sub_spec(self, rhs: Usage) -> Usage {
        self.spec_minus(rhs)
    }
}

impl core::ops::Neg for Usage {
    type Output = Usage;

    /// Negate every counter, keeping the id.
    fn neg(self) -> (r: Usage) {
        self.negated()
    }
}

impl NegSpecImpl for Usage {
    open spec fn obeys_neg_spec() -> bool {
        true
    }

    open spec fn neg_req(self) -> bool {
        self.neg_fits()
    }

    open spec fn neg_spec(self) -> Usage {
        self.spec_negated()
    }
}

/// The usage with id `id` in `m`, or a zero usage with that id when there is none.
pub open spec fn usage_in(m: Map<u128, Usage>, id: UsageId) -> Usage {
    if m.contains_key(id.0) {
        m[id.0]
    } else {
        Usage::spec_new(id)
    }
}

/// Each usage of `s` with the counters of `rhs` added.
pub open spec fn all_plus(s: Seq<Usage>, rhs: Usage) -> Seq<Usage> {
    s.map_values(|u: Usage| u.spec_plus(rhs))
}

impl Usage {
    /// Add the counters of `rhs` to every usage of `v`, keeping their ids.
    pub fn add_to_all(v: Vec<Usage>, rhs: &Usage) -> (r: Vec<Usage>)
        requires
            forall|i: int| 0 <= i < v@.len() ==> (#[trigger] v@[i]).sum_fits(*rhs),
        ensures
            r@ == all_plus(v@, *rhs),
    {
        let mut r: Vec<Usage> = Vec::new();
        let mut i: usize = 0;
        while i < v.len()
            invariant
                0 <= i <= v@.len(),
                forall|k: int| 0 <= k < v@.len() ==> (#[trigger] v@[k]).sum_fits(*rhs),
                r@ == all_plus(v@.take(i as int), *rhs),
            decreases v.len() - i,
        {
            r.push(v[i].plus(rhs));
            proof {
                assert(all_plus(v@.take(i + 1), *rhs) =~= all_plus(v@.take(i as int), *rhs).push(v@[i as int].spec_plus(*rhs)));
            }
            i = i + 1;
        }
        proof { assert(v@.take(v@.len() as int) =~= v@); }
        r
    }
}

impl<'b> core::ops::Add<&'b Usage> for Vec<Usage> {
    type Output = Vec<Usage>;

    /// Add the right-hand side to every usage of the vector.
    fn add(self, rhs: &'b Usage) -> (r: Vec<Usage>)
        ensures
            r@ == all_plus(self@, *rhs),
    {
        Usage::add_to_all(self, rhs)
    }
}

// The result of `+` on a vector is stated in the `ensures` of its `add`; a
// `Vec` value cannot be written in a spec, so no `add_spec` is claimed.
impl<'b> AddSpecImpl<&'b Usage> for Vec<Usage> {
    open spec fn obeys_add_spec() -> bool {
        false
    }

    open spec fn add_req(self, rhs: &'b Usage) -> bool {
        forall|i: int| 0 <= i < self@.len() ==> (#[trigger] self@[i]).sum_fits(*rhs)
    }

    open spec fn add_spec(self, rhs: &'b Usage) -> Vec<Usage> {
        self
    }
}

/// The usages a store holds for `ids`, one for each id, zero where none is stored.
pub open spec fn usages_of(store: MemStore, ids: Seq<UsageId>) -> Seq<Usage> {
    ids.map_values(|id: UsageId| store.usage_or_zero(id))
}

/// Some usage of `s` has id `k`.
pub open spec fn mentions(s: Seq<Usage>, k: u128) -> bool {
    exists|i: int| 0 <= i < s.len() && #[trigger] s[i].id.0 == k
}

/// Storing several usages that agree with `g` on their ids: every id of `s`
/// then maps to `g` of it, every other key keeps its value.
pub proof fn lemma_with_usages_uniform(m: Map<u128, Usage>, s: Seq<Usage>, g: spec_fn(u128) -> Usage)
    requires
        forall|i: int| 0 <= i < s.len() ==> #[trigger] s[i] == g(s[i].id.0),
    ensures
        forall|k: u128| #[trigger] crate::store::with_usages(m, s).contains_key(k) <==>
            (m.contains_key(k) || mentions(s, k)),
        forall|k: u128| #[trigger] mentions(s, k) ==> crate::store::with_usages(m, s)[k] == g(k),
        forall|k: u128| !mentions(s, k) && m.contains_key(k)
            ==> #[trigger] crate::store::with_usages(m, s)[k] == m[k],
    decreases s.len(),
{
    if s.len() > 0 {
        let t = s.drop_last();
        assert forall|i: int| 0 <= i < t.len() implies #[trigger] t[i] == g(t[i].id.0) by {
            assert(t[i] == s[i]);
        }
        lemma_with_usages_uniform(m, t, g);
        let last = s.last();
        assert(s[s.len() - 1] == last);
        assert(crate::store::with_usages(m, s) == crate::store::with_usages(m, t).insert(last.id.0, last));
        assert forall|k: u128| #[trigger] mentions(s, k) <==> mentions(t, k) || last.id.0 == k by {
            if mentions(s, k) {
                let i = choose|i: int| 0 <= i < s.len() && #[trigger] s[i].id.0 == k;
                if i < t.len() {
                    assert(t[i] == s[i]);
                }
            }
            if mentions(t, k) {
                let i = choose|i: int| 0 <= i < t.len() && #[trigger] t[i].id.0 == k;
                assert(t[i] == s[i]);
            }
            if last.id.0 == k {
                assert(s[s.len() - 1].id.0 == k);
            }
        }
        assert(last == g(last.id.0));
    } else {
        assert(crate::store::with_usages(m, s) == m);
    }
}

impl UsageId {
    /// The stored usage with this id, or a zero usage with this id when none is stored.
    pub fn read(self, store: &MemStore) -> (r: Result<Usage, Error>)
        ensures
            r == Ok::<Usage, Error>(store.usage_or_zero(self)),
    {
        match store.usage_get(self) {
            Some(u) => Ok(u),
            None => Ok(Usage::new(self)),
        }
    }

    /// Remove the usage with this id and hand it back; a zero usage with
    /// this id when none was stored.
    pub fn delete(self, store: &mut MemStore) -> (r: Result<Usage, Error>)
        requires
            old(store).wf(),
        ensures
            final(store).wf(),
            r == Ok::<Usage, Error>(old(store).usage_or_zero(self)),
            final(store).usages@ == old(store).usages@.remove(self.0),
            final(store).parts == old(store).parts,
            final(store).activities == old(store).activities,
            final(store).attachments == old(store).attachments,
            final(store).services == old(store).services,
            final(store).plans == old(store).plans,
            final(store).next_part_id == old(store).next_part_id,
            final(store).dir == old(store).dir,
    {
        match store.usage_delete(self) {
            Err(Error::NotFound(_)) => Ok(Usage::new(self)),
            x => x,
        }
    }
}

impl Usage {
    /// Store this usage under its id and hand it back.
    pub fn update(self, store: &mut MemStore) -> (r: Result<Usage, Error>)
        requires
            old(store).wf(),
        ensures
            final(store).wf(),
            r == Ok::<Usage, Error>(self),
            final(store).usages@ == old(store).usages@.insert(self.id.0, self),
            final(store).parts == old(store).parts,
            final(store).activities == old(store).activities,
            final(store).attachments == old(store).attachments,
            final(store).services == old(store).services,
            final(store).plans == old(store).plans,
            final(store).next_part_id == old(store).next_part_id,
            final(store).dir == old(store).dir,
    {
        let v = [self];
        let n: usize = Usage::update_vec(&v, store)?;
        proof {
            reveal_with_fuel(crate::store::with_usages, 2);
            assert(v@.drop_last() =~= Seq::<Usage>::empty());
        }
        Ok(self)
    }

    /// Store the usages under their ids, one after the other; returns how many were given.
    pub fn update_vec(vec: &[Usage], store: &mut MemStore) -> (r: Result<usize, Error>)
        requires
            old(store).wf(),
        ensures
            final(store).wf(),
            r == Ok::<usize, Error>(vec@.len() as usize),
            final(store).usages@ == crate::store::with_usages(old(store).usages@, vec@),
            final(store).parts == old(store).parts,
            final(store).activities == old(store).activities,
            final(store).attachments == old(store).attachments,
            final(store).services == old(store).services,
            final(store).plans == old(store).plans,
            final(store).next_part_id == old(store).next_part_id,
            final(store).dir == old(store).dir,
    {
        Ok(store.usage_update(vec))
    }

    /// Remove every usage; returns how many there were.
    pub fn delete_all(store: &mut MemStore) -> (r: Result<usize, Error>)
        requires
            old(store).wf(),
        ensures
            final(store).wf(),
            r == Ok::<usize, Error>(old(store).usages@.len() as usize),
            final(store).usages@ == Map::<u128, Usage>::empty(),
            final(store).parts == old(store).parts,
            final(store).activities == old(store).activities,
            final(store).attachments == old(store).attachments,
            final(store).services == old(store).services,
            final(store).plans == old(store).plans,
            final(store).next_part_id == old(store).next_part_id,
            final(store).dir == old(store).dir,
    {
        Ok(store.usage_delete_all())
    }

    /// The usages for `vec`, in order, zero where none is stored.
    pub fn get_vec(vec: &[UsageId], store: &MemStore) -> (r: Result<Vec<Usage>, Error>)
        ensures
            r matches Ok(v) && v@ == usages_of(*store, vec@),
    {
        let mut res: Vec<Usage> = Vec::new();
        let mut i: usize = 0;
        while i < vec.len()
            invariant
                0 <= i <= vec@.len(),
                res@ == usages_of(*store, vec@.take(i as int)),
            decreases vec@.len() - i,
        {
            let u = vec[i].read(store)?;
            res.push(u);
            proof {
                assert(usages_of(*store, vec@.take(i + 1)) =~= usages_of(*store, vec@.take(i as int)).push(u));
            }
            i = i + 1;
        }
        proof { assert(vec@.take(vec@.len() as int) =~= vec@); }
        Ok(res)
    }
}

/// Adding a usage and subtracting it again gives back the usage.
pub proof fn law_plus_then_minus(a: Usage, b: Usage)
    requires
        a.sum_fits(b),
    ensures
        a.spec_plus(b).diff_fits(b),
        a.spec_plus(b).spec_minus(b) == a,
{
}

/// Negating a usage twice gives it back.
pub proof fn law_negate_twice(a: Usage)
    requires
        a.neg_fits(),
    ensures
        a.spec_negated().neg_fits(),
        a.spec_negated().spec_negated() == a,
{
}

/// Adding usages does not depend on their order, but for the id kept.
pub proof fn law_plus_commutes(a: Usage, b: Usage)
    requires
        a.sum_fits(b),
    ensures
        b.sum_fits(a),
        a.spec_plus(b).counters() == b.spec_plus(a).counters(),
{
}

/// Subtracting a usage is adding its negation.
pub proof fn law_minus_is_plus_negated(a: Usage, b: Usage)
    requires
        a.diff_fits(b),
        b.neg_fits(),
    ensures
        a.sum_fits(b.spec_negated()),
        a.spec_minus(b) == a.spec_plus(b.spec_negated()),
{
}

} // verus!
