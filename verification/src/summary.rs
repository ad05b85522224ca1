//! The entities an operation touched, handed back to the caller.

use vstd::prelude::*;
use crate::activity::Activity;
use crate::attachment::AttachmentDetail;
use crate::part::Part;
use crate::service::Service;
use crate::serviceplan::ServicePlan;
use crate::shop::ShopWithOwner;
use crate::usage::Usage;
use crate::activity::ActivityId;
use crate::part::PartId;
use crate::usage::UsageId;
use crate::service::ServiceId;
use crate::serviceplan::ServicePlanId;
use crate::shop::ShopId;

verus! {

/// All entities affected by an operation.
#[derive(Clone, Debug)]
pub struct Summary {
    pub activities: Vec<Activity>,
    pub parts: Vec<Part>,
    pub attachments: Vec<AttachmentDetail>,
    pub usages: Vec<Usage>,
    pub services: Vec<Service>,
    pub plans: Vec<ServicePlan>,
    pub shops: Vec<ShopWithOwner>,
}

impl Summary {
    /// A summary that mentions nothing.
    pub open spec fn is_empty(self) -> bool {
        &&& self.activities@.len() == 0
        &&& self.parts@.len() == 0
        &&& self.attachments@.len() == 0
        &&& self.usages@.len() == 0
        &&& self.services@.len() == 0
        &&& self.plans@.len() == 0
        &&& self.shops@.len() == 0
    }

    /// A summary that mentions nothing.
    pub fn empty() -> (r: Summary)
        ensures
            r.is_empty(),
    {
        Summary {
            activities: Vec::new(),
            parts: Vec::new(),
            attachments: Vec::new(),
            usages: Vec::new(),
            services: Vec::new(),
            plans: Vec::new(),
            shops: Vec::new(),
        }
    }
}

impl Default for Summary {
    fn default() -> (r: Summary)
        ensures
            r.is_empty(),
    {
        Summary::empty()
    }
}

/// Entities identified by a key: a summary holds at most one of each key.
pub trait Keyed: Sized {
    /// The key of the entity.
    spec fn key_of(&self) -> (u128, i128);

    /// Whether two entities have the same key.
    fn same_key(&self, other: &Self) -> (r: bool)
        ensures
            r == (self.key_of() == other.key_of());
}

impl Keyed for Activity {
    open spec fn key_of(&self) -> (u128, i128) {
        (0u128, self.id.0 as i128)
    }

    fn same_key(&self, other: &Self) -> (r: bool) {
        self.id.0 == other.id.0
    }
}

impl Keyed for Part {
    open spec fn key_of(&self) -> (u128, i128) {
        (0u128, self.id.0 as i128)
    }

    fn same_key(&self, other: &Self) -> (r: bool) {
        self.id.0 == other.id.0
    }
}

impl Keyed for AttachmentDetail {
    /// An attachment is identified by its part and the time it was attached.
    open spec fn key_of(&self) -> (u128, i128) {
        ((self.a.part_id.0 as int + 0x1_0000_0000int) as u128, self.a.attached.nanos)
    }

    fn same_key(&self, other: &Self) -> (r: bool) {
        self.a.part_id.0 == other.a.part_id.0 && self.a.attached.nanos == other.a.attached.nanos
    }
}

impl Keyed for Usage {
    open spec fn key_of(&self) -> (u128, i128) {
        (self.id.0, 0i128)
    }

    fn same_key(&self, other: &Self) -> (r: bool) {
        self.id.0 == other.id.0
    }
}

impl Keyed for Service {
    open spec fn key_of(&self) -> (u128, i128) {
        (self.id.0, 0i128)
    }

    fn same_key(&self, other: &Self) -> (r: bool) {
        self.id.0 == other.id.0
    }
}

impl Keyed for ServicePlan {
    open spec fn key_of(&self) -> (u128, i128) {
        (self.id.0, 0i128)
    }

    fn same_key(&self, other: &Self) -> (r: bool) {
        self.id.0 == other.id.0
    }
}

impl Keyed for ShopWithOwner {
    open spec fn key_of(&self) -> (u128, i128) {
        (0u128, self.id.0 as i128)
    }

    fn same_key(&self, other: &Self) -> (r: bool) {
        self.id.0 == other.id.0
    }
}

/// No two entities of `s` share a key.
pub open spec fn keys_unique<T: Keyed>(s: Seq<T>) -> bool {
    forall|i: int, j: int| 0 <= i < j < s.len() ==> #[trigger] s[i].key_of() != #[trigger] s[j].key_of()
}

/// Some entity of `s` has key `k`.
pub open spec fn has_key<T: Keyed>(s: Seq<T>, k: (u128, i128)) -> bool {
    exists|i: int| 0 <= i < s.len() && #[trigger] s[i].key_of() == k
}

/// The last entity of `s` with key `k` (meaningful when `has_key(s, k)`).
pub open spec fn last_with_key<T: Keyed>(s: Seq<T>, k: (u128, i128)) -> T
    decreases s.len(),
{
    if s.len() == 0 {
        arbitrary()
    } else if s.last().key_of() == k {
        s.last()
    } else {
        last_with_key(s.drop_last(), k)
    }
}

/// `r` holds one entity per key of `s`: the last one of `s` with that key.
pub open spec fn merged<T: Keyed>(s: Seq<T>, r: Seq<T>) -> bool {
    &&& keys_unique(r)
    &&& forall|k: (u128, i128)| #[trigger] has_key(r, k) <==> has_key(s, k)
    &&& forall|i: int| 0 <= i < r.len() ==> #[trigger] r[i] == last_with_key(s, r[i].key_of())
}

/// Nothing merged gives nothing.
pub proof fn lemma_merged_empty<T: Keyed>(s: Seq<T>, r: Seq<T>)
    requires
        merged(s, r),
        s.len() == 0,
    ensures
        r.len() == 0,
{
    if r.len() > 0 {
        assert(has_key(r, r[0].key_of()));
    }
}

/// The union of two summaries that mention nothing mentions nothing.
pub proof fn lemma_merge_empties(a: Summary, b: Summary, r: Summary)
    requires
        a.is_empty(),
        b.is_empty(),
        merged(a.activities@ + b.activities@, r.activities@),
        merged(a.parts@ + b.parts@, r.parts@),
        merged(a.attachments@ + b.attachments@, r.attachments@),
        merged(a.usages@ + b.usages@, r.usages@),
        merged(a.services@ + b.services@, r.services@),
        merged(a.plans@ + b.plans@, r.plans@),
        merged(a.shops@ + b.shops@, r.shops@),
    ensures
        r.is_empty(),
{
    lemma_merged_empty(a.activities@ + b.activities@, r.activities@);
    lemma_merged_empty(a.parts@ + b.parts@, r.parts@);
    lemma_merged_empty(a.attachments@ + b.attachments@, r.attachments@);
    lemma_merged_empty(a.usages@ + b.usages@, r.usages@);
    lemma_merged_empty(a.services@ + b.services@, r.services@);
    lemma_merged_empty(a.plans@ + b.plans@, r.plans@);
    lemma_merged_empty(a.shops@ + b.shops@, r.shops@);
}

/// Merging keeps every key of both sides.
pub proof fn lemma_merge_keeps_keys<T: Keyed>(a: Seq<T>, b: Seq<T>, r: Seq<T>, k: (u128, i128))
    requires
        merged(a + b, r),
        has_key(a, k) || has_key(b, k),
    ensures
        has_key(r, k),
{
    if has_key(a, k) {
        let i = choose|i: int| 0 <= i < a.len() && #[trigger] a[i].key_of() == k;
        assert((a + b)[i] == a[i]);
    } else {
        let i = choose|i: int| 0 <= i < b.len() && #[trigger] b[i].key_of() == k;
        assert((a + b)[a.len() + i] == b[i]);
    }
}

proof fn lemma_has_key_push<T: Keyed>(s: Seq<T>, x: T, k: (u128, i128))
    ensures
        has_key(s.push(x), k) <==> (has_key(s, k) || x.key_of() == k),
{
    let t = s.push(x);
    if has_key(t, k) {
        let i = choose|i: int| 0 <= i < t.len() && #[trigger] t[i].key_of() == k;
        if i < s.len() {
            assert(s[i] == t[i]);
        }
    }
    if has_key(s, k) {
        let i = choose|i: int| 0 <= i < s.len() && #[trigger] s[i].key_of() == k;
        assert(t[i] == s[i]);
    }
    if x.key_of() == k {
        assert(t[s.len() as int] == x);
    }
}

/// Insert `x` into `r`, replacing the entity with the same key if there is one.
fn upsert_keyed<T: Keyed>(r: &mut Vec<T>, x: T)
    requires
        keys_unique(old(r)@),
    ensures
        keys_unique(final(r)@),
        forall|k: (u128, i128)| #[trigger] has_key(final(r)@, k) <==> (has_key(old(r)@, k) || x.key_of() == k),
        forall|i: int| 0 <= i < final(r)@.len() ==>
            if final(r)@[i].key_of() == x.key_of() { final(r)@[i] == x } else { old(r)@.contains(final(r)@[i]) },
{
    let mut i: usize = 0;
    while i < r.len()
        invariant
            0 <= i <= r@.len(),
            r@ == old(r)@,
            keys_unique(old(r)@),
            forall|k: int| 0 <= k < i ==> r@[k].key_of() != x.key_of(),
        decreases r@.len() - i,
    {
        if r[i].same_key(&x) {
            let ghost before = r@;
            r.set(i, x);
            proof {
                assert forall|k: (u128, i128)| #[trigger] has_key(r@, k) <==> (has_key(before, k) || x.key_of() == k) by {
                    if has_key(r@, k) {
                        let j = choose|j: int| 0 <= j < r@.len() && #[trigger] r@[j].key_of() == k;
                        if j != i {
                            assert(before[j] == r@[j]);
                        }
                    }
                    if has_key(before, k) {
                        let j = choose|j: int| 0 <= j < before.len() && #[trigger] before[j].key_of() == k;
                        if j != i {
                            assert(before[j] == r@[j]);
                        } else {
                            assert(r@[i as int].key_of() == k);
                        }
                    }
                    if x.key_of() == k {
                        assert(r@[i as int] == x);
                    }
                }
                assert forall|a: int| 0 <= a < r@.len() implies
                    if r@[a].key_of() == x.key_of() { r@[a] == x } else { before.contains(r@[a]) } by {
                    if a != i {
                        assert(r@[a] == before[a]);
                        assert(before[a].key_of() != x.key_of()) by {
                            if a < i {
                            } else {
                                assert(before[a].key_of() != before[i as int].key_of());
                            }
                        }
                    }
                }
                assert forall|a: int, b: int| 0 <= a < b < r@.len() implies #[trigger] r@[a].key_of() != #[trigger] r@[b].key_of() by {
                    if a != i && b != i {
                        assert(r@[a] == before[a] && r@[b] == before[b]);
                    } else if a == i {
                        assert(r@[b] == before[b]);
                    } else {
                        assert(r@[a] == before[a]);
                    }
                }
            }
            return;
        }
        i = i + 1;
    }
    let ghost before = r@;
    r.push(x);
    proof {
        assert forall|k: (u128, i128)| #[trigger] has_key(r@, k) <==> (has_key(before, k) || x.key_of() == k) by {
            lemma_has_key_push(before, x, k);
        }
        assert forall|a: int| 0 <= a < r@.len() implies
            if r@[a].key_of() == x.key_of() { r@[a] == x } else { before.contains(r@[a]) } by {
            if a < before.len() {
                assert(r@[a] == before[a]);
            }
        }
    }
}

/// One entity per key of `a` followed by `b`: the last one with that key.
pub fn merge_keyed<T: Keyed>(a: Vec<T>, b: Vec<T>) -> (r: Vec<T>)
    ensures
        merged(a@ + b@, r@),
{
    let ghost all = a@ + b@;
    let mut r: Vec<T> = Vec::new();
    let mut a = a;
    let mut b = b;
    let mut rest: Vec<T> = Vec::new();
    // consume `a` then `b` from the front by reversing them onto a stack
    a.append(&mut b);
    let ghost seq_all = a@;
    let total: usize = a.len();
    proof { assert(seq_all == all); }
    while a.len() > 0
        invariant
            seq_all == all,
            a@.len() + rest@.len() == seq_all.len(),
            rest@ == seq_all.subrange(a@.len() as int, seq_all.len() as int).reverse(),
            a@ == seq_all.take(a@.len() as int),
        decreases a@.len(),
    {
        let x = a.pop().unwrap();
        rest.push(x);
        proof {
            assert(rest@ =~= seq_all.subrange(a@.len() as int, seq_all.len() as int).reverse());
            assert(a@ =~= seq_all.take(a@.len() as int));
        }
    }
    let mut n: usize = 0;
    while rest.len() > 0
        invariant
            seq_all == all,
            seq_all.len() == total,
            rest@.len() + n == seq_all.len(),
            rest@ == seq_all.subrange(n as int, seq_all.len() as int).reverse(),
            merged(seq_all.take(n as int), r@),
        decreases rest@.len(),
    {
        let x = rest.pop().unwrap();
        let ghost before = r@;
        upsert_keyed(&mut r, x);
        proof {
            let p = seq_all.take(n as int);
            let q = seq_all.take(n + 1);
            assert(x == seq_all[n as int]);
            assert(q == p.push(x));
            assert(q.drop_last() == p);
            assert(rest@ =~= seq_all.subrange(n + 1, seq_all.len() as int).reverse());
            assert forall|k: (u128, i128)| #[trigger] has_key(r@, k) <==> has_key(q, k) by {
                lemma_has_key_push(p, x, k);
            }
            assert forall|i: int| 0 <= i < r@.len() implies #[trigger] r@[i] == last_with_key(q, r@[i].key_of()) by {
                if r@[i].key_of() == x.key_of() {
                    assert(q.last() == x);
                } else {
                    let j = choose|j: int| 0 <= j < before.len() && before[j] == r@[i];
                    assert(before[j] == last_with_key(p, before[j].key_of()));
                }
            }
        }
        n = n + 1;
    }
    proof { assert(seq_all.take(n as int) =~= seq_all); }
    r
}

impl Summary {
    /// The union of two summaries: one entity per key, those of `rhs`
    /// winning over those of `self`.
    pub fn merge(self, rhs: Summary) -> (r: Summary)
        ensures
            merged(self.activities@ + rhs.activities@, r.activities@),
            merged(self.parts@ + rhs.parts@, r.parts@),
            merged(self.attachments@ + rhs.attachments@, r.attachments@),
            merged(self.usages@ + rhs.usages@, r.usages@),
            merged(self.services@ + rhs.services@, r.services@),
            merged(self.plans@ + rhs.plans@, r.plans@),
            merged(self.shops@ + rhs.shops@, r.shops@),
    {
        Summary {
            activities: merge_keyed(self.activities, rhs.activities),
            parts: merge_keyed(self.parts, rhs.parts),
            attachments: merge_keyed(self.attachments, rhs.attachments),
            usages: merge_keyed(self.usages, rhs.usages),
            services: merge_keyed(self.services, rhs.services),
            plans: merge_keyed(self.plans, rhs.plans),
            shops: merge_keyed(self.shops, rhs.shops),
        }
    }
}

} // verus!
