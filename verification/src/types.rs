//! The catalogue of part types and activity types, and how part types hook
//! into each other.
//!
//! Main parts (gear, such as a bike) have no hooks; spares can be attached to
//! the hooks of other parts and so become subparts of a main part.

use vstd::prelude::*;
use crate::error::Error;
use crate::text::decimal_text;

verus! {

/// The id of a part type.
#[derive(Clone, Copy, Debug, PartialEq, Eq, Structural, Hash, PartialOrd, Ord)]
pub struct PartTypeId(pub i32);

/// The id of an activity type.
#[derive(Clone, Copy, Debug, PartialEq, Eq, Structural, Hash, PartialOrd, Ord)]
pub struct ActTypeId(pub i32);

impl PartTypeId {
    /// Create a new PartTypeId from an i32 value.
    pub fn from_id(id: i32) -> (r: PartTypeId)
        ensures
            r.0 == id,
    {
        PartTypeId(id)
    }
}

impl From<i32> for PartTypeId {
    fn from(id: i32) -> (r: PartTypeId) {
        PartTypeId(id)
    }
}

impl vstd::std_specs::convert::FromSpecImpl<i32> for PartTypeId {
    open spec fn obeys_from_spec() -> bool {
        true
    }

    open spec fn from_spec(id: i32) -> PartTypeId {
        PartTypeId(id)
    }
}

impl From<i32> for ActTypeId {
    fn from(id: i32) -> (r: ActTypeId) {
        ActTypeId(id)
    }
}

impl vstd::std_specs::convert::FromSpecImpl<i32> for ActTypeId {
    open spec fn obeys_from_spec() -> bool {
        true
    }

    open spec fn from_spec(id: i32) -> ActTypeId {
        ActTypeId(id)
    }
}

/// List of of all valid part types.
///
/// We distingish main parts from spares:
/// - Main parts can be used for an activity - like a bike
/// - Spares can be attached to other parts and are subparts of main parts
#[derive(Clone, Debug)]
pub struct PartType {
    /// The primary key
    pub id: PartTypeId,
    /// The display name
    pub name: String,
    /// To which main gear type this part belongs
    pub main: PartTypeId,
    /// Part types that can be attached
    pub hooks: Vec<PartTypeId>,
    /// the order for displaying types
    pub order: i32,
    /// Potential group
    pub group: Option<String>,
}

/// The mathematical content of a part type.
pub struct PartTypeView {
    pub id: PartTypeId,
    pub name: Seq<char>,
    pub main: PartTypeId,
    pub hooks: Seq<PartTypeId>,
    pub order: i32,
    pub group: Option<Seq<char>>,
}

impl View for PartType {
    type V = PartTypeView;

    open spec fn view(&self) -> PartTypeView {
        PartTypeView {
            id: self.id,
            name: self.name@,
            main: self.main,
            hooks: self.hooks@,
            order: self.order,
            group: match self.group {
                Some(g) => Some(g@),
                None => None,
            },
        }
    }
}

/// The views of a sequence of part types.
pub open spec fn type_views(s: Seq<PartType>) -> Seq<PartTypeView> {
    s.map_values(|t: PartType| t@)
}

/// The list of activity types
/// Includes the kind of gear which can be used for this activity
/// multiple gears are possible
#[derive(Clone, Debug)]
pub struct ActivityType {
    /// The primary key
    pub id: ActTypeId,
    /// The name
    pub name: String,
    /// Gears which can be used for this activity type
    pub gear_type: PartTypeId,
}

/// The mathematical content of an activity type.
pub struct ActivityTypeView {
    pub id: ActTypeId,
    pub name: Seq<char>,
    pub gear_type: PartTypeId,
}

impl View for ActivityType {
    type V = ActivityTypeView;

    open spec fn view(&self) -> ActivityTypeView {
        ActivityTypeView { id: self.id, name: self.name@, gear_type: self.gear_type }
    }
}

/// A part type entry of the catalogue.
pub open spec fn pt(id: i32, name: Seq<char>, main: i32, hooks: Seq<PartTypeId>, order: i32) -> PartTypeView {
    PartTypeView { id: PartTypeId(id), name, main: PartTypeId(main), hooks, order, group: None }
}

/// The hooks `ids` as part type ids.
pub open spec fn hk1(a: i32) -> Seq<PartTypeId> {
    seq![PartTypeId(a)]
}

/// The hooks `ids` as part type ids.
pub open spec fn hk2(a: i32, b: i32) -> Seq<PartTypeId> {
    seq![PartTypeId(a), PartTypeId(b)]
}

/// The catalogue of part types, ordered by id.
pub open spec fn part_type_table() -> Seq<PartTypeView> {
    seq![
        pt(1, "Bike"@, 1, Seq::empty(), 1),
        pt(2, "Front Wheel"@, 1, hk1(1), 2),
        pt(3, "Tire"@, 1, hk2(2, 5), 3),
        pt(4, "Chain"@, 1, hk1(1), 4),
        pt(5, "Rear Wheel"@, 1, hk1(1), 5),
        pt(6, "Brake Pad"@, 1, hk2(7, 8), 6),
        pt(7, "Front Brake"@, 1, hk1(1), 7),
        pt(8, "Rear Brake"@, 1, hk1(1), 8),
        pt(9, "Cassette"@, 1, hk1(5), 9),
        pt(10, "Seat Post"@, 1, hk1(1), 10),
        pt(11, "Saddle"@, 1, hk1(10), 11),
        pt(12, "Rear Derailleur"@, 1, hk1(1), 12),
        pt(13, "Crankset"@, 1, hk1(1), 13),
        pt(14, "Chainring"@, 1, hk1(13), 14),
        pt(15, "Brake Rotor"@, 1, hk2(2, 5), 15),
        pt(16, "Fork"@, 1, hk1(1), 16),
        pt(17, "Rear Shock"@, 1, hk1(1), 17),
        pt(18, "Handlebar"@, 1, hk1(1), 18),
        pt(19, "Bottom Bracket"@, 1, hk1(1), 19),
        pt(20, "Headset"@, 1, hk1(1), 20),
        pt(301, "Running Shoes"@, 301, Seq::empty(), 30),
        pt(302, "Cycling Shoes"@, 302, Seq::empty(), 31),
        pt(303, "Skis"@, 303, Seq::empty(), 32),
        pt(304, "Ski Boots"@, 304, Seq::empty(), 33),
        pt(305, "Snowboard"@, 305, Seq::empty(), 34),
        pt(306, "Inline Skates"@, 306, Seq::empty(), 35),
        pt(307, "Kayak"@, 307, Seq::empty(), 36),
        pt(308, "Paddle"@, 307, hk1(307), 37),
        pt(309, "Cleats"@, 302, hk1(302), 38),
    ]
}

/// An activity type entry of the catalogue.
pub open spec fn at(id: i32, name: Seq<char>, gear: i32) -> ActivityTypeView {
    ActivityTypeView { id: ActTypeId(id), name, gear_type: PartTypeId(gear) }
}

/// The catalogue of activity types, ordered by id.
pub open spec fn activity_type_table() -> Seq<ActivityTypeView> {
    seq![
        at(1, "Bike Ride"@, 1),
        at(2, "Nordic Ski"@, 303),
        at(3, "Run"@, 301),
        at(4, "Hike"@, 301),
        at(5, "Virtual Ride"@, 1),
        at(6, "Snowboard"@, 305),
        at(7, "Kayaking"@, 307),
        at(8, "Walk"@, 301),
        at(9, "E-Bike Ride"@, 1),
        at(10, "Inline Skate"@, 306),
        at(11, "Alpine Ski"@, 303),
    ]
}

fn mk_type(id: i32, name: &str, main: i32, hooks: Vec<PartTypeId>, order: i32) -> (r: PartType)
    ensures
        r@ == pt(id, name@, main, hooks@, order),
{
    PartType { id: PartTypeId(id), name: name.to_owned(), main: PartTypeId(main), hooks, order, group: None }
}

fn no_hooks() -> (r: Vec<PartTypeId>)
    ensures
        r@ == Seq::<PartTypeId>::empty(),
{
    Vec::new()
}

fn hooks1(a: i32) -> (r: Vec<PartTypeId>)
    ensures
        r@ == hk1(a),
{
    let mut v: Vec<PartTypeId> = Vec::new();
    v.push(PartTypeId(a));
    v
}

fn hooks2(a: i32, b: i32) -> (r: Vec<PartTypeId>)
    ensures
        r@ == hk2(a, b),
{
    let mut v: Vec<PartTypeId> = Vec::new();
    v.push(PartTypeId(a));
    v.push(PartTypeId(b));
    proof { assert(v@ =~= hk2(a, b)); }
    v
}

fn mk_act(id: i32, name: &str, gear: i32) -> (r: ActivityType)
    ensures
        r@ == at(id, name@, gear),
{
    ActivityType { id: ActTypeId(id), name: name.to_owned(), gear_type: PartTypeId(gear) }
}

impl PartType {
    /// All part types, ordered by id.
    pub fn all_ordered() -> (r: Vec<PartType>)
        ensures
            type_views(r@) == part_type_table(),
    {
        let mut v: Vec<PartType> = Vec::new();
        v.push(mk_type(1, "Bike", 1, no_hooks(), 1));
        v.push(mk_type(2, "Front Wheel", 1, hooks1(1), 2));
        v.push(mk_type(3, "Tire", 1, hooks2(2, 5), 3));
        v.push(mk_type(4, "Chain", 1, hooks1(1), 4));
        v.push(mk_type(5, "Rear Wheel", 1, hooks1(1), 5));
        v.push(mk_type(6, "Brake Pad", 1, hooks2(7, 8), 6));
        v.push(mk_type(7, "Front Brake", 1, hooks1(1), 7));
        v.push(mk_type(8, "Rear Brake", 1, hooks1(1), 8));
        v.push(mk_type(9, "Cassette", 1, hooks1(5), 9));
        v.push(mk_type(10, "Seat Post", 1, hooks1(1), 10));
        v.push(mk_type(11, "Saddle", 1, hooks1(10), 11));
        v.push(mk_type(12, "Rear Derailleur", 1, hooks1(1), 12));
        v.push(mk_type(13, "Crankset", 1, hooks1(1), 13));
        v.push(mk_type(14, "Chainring", 1, hooks1(13), 14));
        v.push(mk_type(15, "Brake Rotor", 1, hooks2(2, 5), 15));
        v.push(mk_type(16, "Fork", 1, hooks1(1), 16));
        v.push(mk_type(17, "Rear Shock", 1, hooks1(1), 17));
        v.push(mk_type(18, "Handlebar", 1, hooks1(1), 18));
        v.push(mk_type(19, "Bottom Bracket", 1, hooks1(1), 19));
        v.push(mk_type(20, "Headset", 1, hooks1(1), 20));
        v.push(mk_type(301, "Running Shoes", 301, no_hooks(), 30));
        v.push(mk_type(302, "Cycling Shoes", 302, no_hooks(), 31));
        v.push(mk_type(303, "Skis", 303, no_hooks(), 32));
        v.push(mk_type(304, "Ski Boots", 304, no_hooks(), 33));
        v.push(mk_type(305, "Snowboard", 305, no_hooks(), 34));
        v.push(mk_type(306, "Inline Skates", 306, no_hooks(), 35));
        v.push(mk_type(307, "Kayak", 307, no_hooks(), 36));
        v.push(mk_type(308, "Paddle", 307, hooks1(307), 37));
        v.push(mk_type(309, "Cleats", 302, hooks1(302), 38));
        proof {
            assert(type_views(v@) =~= part_type_table());
        }
        v
    }
}

impl ActivityType {
    /// All activity types, ordered by id.
    pub fn all_ordered() -> (r: Vec<ActivityType>)
        ensures
            r@.map_values(|a: ActivityType| a@) == activity_type_table(),
    {
        let mut v: Vec<ActivityType> = Vec::new();
        v.push(mk_act(1, "Bike Ride", 1));
        v.push(mk_act(2, "Nordic Ski", 303));
        v.push(mk_act(3, "Run", 301));
        v.push(mk_act(4, "Hike", 301));
        v.push(mk_act(5, "Virtual Ride", 1));
        v.push(mk_act(6, "Snowboard", 305));
        v.push(mk_act(7, "Kayaking", 307));
        v.push(mk_act(8, "Walk", 301));
        v.push(mk_act(9, "E-Bike Ride", 1));
        v.push(mk_act(10, "Inline Skate", 306));
        v.push(mk_act(11, "Alpine Ski", 303));
        proof {
            assert(v@.map_values(|a: ActivityType| a@) =~= activity_type_table());
        }
        v
    }
}


/// Part type `x` hooks onto the part type `p` (or is `p` itself).
pub open spec fn hooked(x: PartTypeView, p: PartTypeId) -> bool {
    x.hooks.contains(p) || x.id == p
}

/// `x` can be attached to `root` through a chain of at most `depth`
/// intermediate part types of `types`, each hooking onto the one before it.
pub open spec fn reaches(types: Seq<PartTypeView>, root: PartTypeId, x: PartTypeView, depth: nat) -> bool
    decreases depth,
{
    hooked(x, root) || (depth > 0 && exists|j: int|
        0 <= j < types.len() && #[trigger] hooked(x, types[j].id)
            && reaches(types, root, types[j], (depth - 1) as nat))
}

/// `x` can be attached, directly or indirectly, to `root` within `types`.
pub open spec fn reachable(types: Seq<PartTypeView>, root: PartTypeId, x: PartTypeView) -> bool {
    exists|d: nat| reaches(types, root, x, d)
}

/// Reaching within a bound of `d1` steps implies reaching within any larger bound.
pub proof fn lemma_reaches_mono(types: Seq<PartTypeView>, root: PartTypeId, x: PartTypeView, d1: nat, d2: nat)
    requires
        reaches(types, root, x, d1),
        d1 <= d2,
    ensures
        reaches(types, root, x, d2),
    decreases d1,
{
    if !hooked(x, root) {
        let j = choose|j: int|
            0 <= j < types.len() && #[trigger] hooked(x, types[j].id)
                && reaches(types, root, types[j], (d1 - 1) as nat);
        lemma_reaches_mono(types, root, types[j], (d1 - 1) as nat, (d2 - 1) as nat);
        assert(hooked(x, types[j].id));
    }
}

/// Reaching within a sub-collection implies reaching within the whole.
pub proof fn lemma_reaches_widen(small: Seq<PartTypeView>, big: Seq<PartTypeView>, root: PartTypeId, x: PartTypeView, d: nat)
    requires
        reaches(small, root, x, d),
        forall|y: PartTypeView| small.contains(y) ==> big.contains(y),
    ensures
        reaches(big, root, x, d),
    decreases d,
{
    if !hooked(x, root) {
        let j = choose|j: int|
            0 <= j < small.len() && #[trigger] hooked(x, small[j].id)
                && reaches(small, root, small[j], (d - 1) as nat);
        lemma_reaches_widen(small, big, root, small[j], (d - 1) as nat);
        assert(small.contains(small[j]));
        let k = choose|k: int| 0 <= k < big.len() && big[k] == small[j];
        assert(hooked(x, big[k].id));
    }
}

/// Chains compose: what reaches `t` reaches whatever `t` reaches.
pub proof fn lemma_reaches_compose(types: Seq<PartTypeView>, root: PartTypeId, t: PartTypeView, e: nat, r: PartTypeView, d: nat)
    requires
        reaches(types, root, t, e),
        types.contains(t),
        reaches(types, t.id, r, d),
    ensures
        reaches(types, root, r, d + e + 1),
    decreases d,
{
    let k = choose|k: int| 0 <= k < types.len() && types[k] == t;
    if hooked(r, t.id) {
        assert(hooked(r, types[k].id));
        assert(reaches(types, root, r, e + 1));
        lemma_reaches_mono(types, root, r, e + 1, d + e + 1);
    } else {
        let j = choose|j: int|
            0 <= j < types.len() && #[trigger] hooked(r, types[j].id)
                && reaches(types, t.id, types[j], (d - 1) as nat);
        lemma_reaches_compose(types, root, t, e, types[j], (d - 1) as nat);
        assert(hooked(r, types[j].id));
    }
}

/// When `rest` holds nothing hooked onto `root` or onto any member of `found`,
/// and `orig` is covered by `found` and `rest`, then everything of `orig`
/// that reaches `root` lies in `found`.
pub proof fn lemma_closed_is_complete(
    orig: Seq<PartTypeView>,
    found: Seq<PartTypeView>,
    rest: Seq<PartTypeView>,
    root: PartTypeId,
    d: nat,
)
    requires
        forall|y: PartTypeView| orig.contains(y) ==> found.contains(y) || rest.contains(y),
        forall|y: PartTypeView| rest.contains(y) ==> !hooked(y, root),
        forall|y: PartTypeView, r: PartTypeView|
            rest.contains(y) && found.contains(r) ==> !hooked(y, r.id),
    ensures
        forall|x: PartTypeView| orig.contains(x) && reaches(orig, root, x, d) ==> found.contains(x),
    decreases d,
{
    if d > 0 {
        lemma_closed_is_complete(orig, found, rest, root, (d - 1) as nat);
    }
    assert forall|x: PartTypeView| orig.contains(x) && reaches(orig, root, x, d) implies found.contains(x) by {
        if !hooked(x, root) {
            let j = choose|j: int|
                0 <= j < orig.len() && #[trigger] hooked(x, orig[j].id)
                    && reaches(orig, root, orig[j], (d - 1) as nat);
            assert(orig.contains(orig[j]));
            assert(found.contains(orig[j]));
        }
    }
}

proof fn lemma_views_remove(s: Seq<PartType>, i: int)
    requires
        0 <= i < s.len(),
    ensures
        type_views(s.remove(i)) == type_views(s).remove(i),
        forall|y: PartTypeView| type_views(s).contains(y) <==>
            (type_views(s.remove(i)).contains(y) || y == s[i]@),
{
    assert(type_views(s.remove(i)) =~= type_views(s).remove(i));
    let a = type_views(s);
    let b = type_views(s.remove(i));
    assert forall|y: PartTypeView| a.contains(y) <==> (b.contains(y) || y == s[i]@) by {
        if a.contains(y) {
            let k = choose|k: int| 0 <= k < a.len() && a[k] == y;
            if k < i {
                assert(b[k] == y);
            } else if k > i {
                assert(b[k - 1] == y);
            }
        }
        if b.contains(y) {
            let k = choose|k: int| 0 <= k < b.len() && b[k] == y;
            if k < i {
                assert(a[k] == y);
            } else {
                assert(a[k + 1] == y);
            }
        }
        if y == s[i]@ {
            assert(a[i] == y);
        }
    }
}

proof fn lemma_views_push(s: Seq<PartType>, t: PartType)
    ensures
        type_views(s.push(t)) == type_views(s).push(t@),
        forall|y: PartTypeView| type_views(s.push(t)).contains(y) <==>
            (type_views(s).contains(y) || y == t@),
{
    assert(type_views(s.push(t)) =~= type_views(s).push(t@));
    let a = type_views(s);
    let b = type_views(s.push(t));
    assert forall|y: PartTypeView| b.contains(y) <==> (a.contains(y) || y == t@) by {
        if b.contains(y) {
            let k = choose|k: int| 0 <= k < b.len() && b[k] == y;
            if k < a.len() {
                assert(a[k] == y);
            }
        }
        if a.contains(y) {
            let k = choose|k: int| 0 <= k < a.len() && a[k] == y;
            assert(b[k] == y);
        }
        if y == t@ {
            assert(b[a.len() as int] == y);
        }
    }
}

proof fn lemma_views_append(s: Seq<PartType>, t: Seq<PartType>)
    ensures
        type_views(s + t) == type_views(s) + type_views(t),
        forall|y: PartTypeView| type_views(s + t).contains(y) <==>
            (type_views(s).contains(y) || type_views(t).contains(y)),
{
    assert(type_views(s + t) =~= type_views(s) + type_views(t));
    let a = type_views(s);
    let b = type_views(t);
    let c = type_views(s + t);
    assert forall|y: PartTypeView| c.contains(y) <==> (a.contains(y) || b.contains(y)) by {
        if c.contains(y) {
            let k = choose|k: int| 0 <= k < c.len() && c[k] == y;
            if k < a.len() {
                assert(a[k] == y);
            } else {
                assert(b[k - a.len()] == y);
            }
        }
        if a.contains(y) {
            let k = choose|k: int| 0 <= k < a.len() && a[k] == y;
            assert(c[k] == y);
        }
        if b.contains(y) {
            let k = choose|k: int| 0 <= k < b.len() && b[k] == y;
            assert(c[k + a.len()] == y);
        }
    }
}

/// Whether `hooks` holds the type id `p`.
pub fn contains_type(hooks: &Vec<PartTypeId>, p: PartTypeId) -> (r: bool)
    ensures
        r == hooks@.contains(p),
{
    let mut i: usize = 0;
    while i < hooks.len()
        invariant
            0 <= i <= hooks.len(),
            forall|k: int| 0 <= k < i ==> hooks@[k] != p,
        decreases hooks.len() - i,
    {
        if hooks[i] == p {
            return true;
        }
        i = i + 1;
    }
    false
}

/// `f` places the elements of `a` in `b`, in increasing positions.
pub open spec fn order_map(a: Seq<PartType>, b: Seq<PartType>, f: spec_fn(int) -> int) -> bool {
    &&& forall|k: int| 0 <= k < a.len() ==> 0 <= #[trigger] f(k) < b.len() && a[k] == b[f(k)]
    &&& forall|k1: int, k2: int| 0 <= k1 < k2 < a.len() ==> #[trigger] f(k1) < #[trigger] f(k2)
}

/// `a` is what is left of `b` after taking some elements out: the rest keep
/// their order.
pub open spec fn kept_in_order(a: Seq<PartType>, b: Seq<PartType>) -> bool {
    exists|f: spec_fn(int) -> int| #[trigger] order_map(a, b, f)
}

proof fn lemma_kept_refl(s: Seq<PartType>)
    ensures
        kept_in_order(s, s),
{
    let f = |k: int| k;
    assert(order_map(s, s, f));
}

proof fn lemma_kept_remove(s: Seq<PartType>, i: int)
    requires
        0 <= i < s.len(),
    ensures
        kept_in_order(s.remove(i), s),
{
    let f = |k: int| if k < i { k } else { k + 1 };
    assert(order_map(s.remove(i), s, f));
}

proof fn lemma_kept_trans(a: Seq<PartType>, b: Seq<PartType>, c: Seq<PartType>)
    requires
        kept_in_order(a, b),
        kept_in_order(b, c),
    ensures
        kept_in_order(a, c),
{
    let f = choose|f: spec_fn(int) -> int| order_map(a, b, f);
    let g = choose|g: spec_fn(int) -> int| order_map(b, c, g);
    let h = |k: int| g(f(k));
    assert forall|k: int| 0 <= k < a.len() implies 0 <= #[trigger] h(k) < c.len() && a[k] == c[h(k)] by {
        assert(0 <= f(k) < b.len());
    }
    assert forall|k1: int, k2: int| 0 <= k1 < k2 < a.len() implies #[trigger] h(k1) < #[trigger] h(k2) by {
        assert(f(k1) < f(k2));
        assert(0 <= f(k2) < b.len());
        assert(0 <= f(k1));
    }
    assert(order_map(a, c, h));
}

impl PartTypeId {
    /// Whether part type `t` hooks onto `self` (or is `self`).
    fn hooks_onto(self, t: &PartType) -> (r: bool)
        ensures
            r == hooked(t@, self),
    {
        contains_type(&t.hooks, self) || t.id == self
    }

    /// recursively look for subtypes to self in the PartType vector
    ///
    /// Moves out of `types` every part type that hooks, directly or through
    /// other moved part types, onto `self`, and returns them.
    fn filter_types(self, types: &mut Vec<PartType>) -> (res: Vec<PartType>)
        ensures
            final(types)@.len() <= old(types)@.len(),
            forall|y: PartTypeView| type_views(old(types)@).contains(y) <==>
                (type_views(res@).contains(y) || type_views(final(types)@).contains(y)),
            forall|y: PartTypeView| type_views(final(types)@).contains(y) ==> !hooked(y, self),
            forall|y: PartTypeView, r: PartTypeView|
                type_views(final(types)@).contains(y) && type_views(res@).contains(r) ==> !hooked(y, r.id),
            forall|r: PartTypeView| type_views(res@).contains(r) ==> reachable(type_views(old(types)@), self, r),
            type_views(res@).to_multiset().add(type_views(final(types)@).to_multiset()) == type_views(old(types)@).to_multiset(),
            kept_in_order(final(types)@, old(types)@),
        decreases old(types)@.len(),
    {
        let ghost orig = type_views(types@);
        let ghost orig_ms = type_views(types@).to_multiset();
        proof { lemma_kept_refl(types@); }
        let mut res: Vec<PartType> = Vec::new();
        proof {
            type_views(res@).to_multiset_ensures();
            vstd::multiset::lemma_multiset_empty_len(type_views(res@).to_multiset());
            assert(type_views(res@).to_multiset().add(type_views(types@).to_multiset()) =~= orig_ms);
        }
        let mut i: usize = 0;
        while i < types.len()
            invariant
                0 <= i <= types.len(),
                types@.len() + res@.len() == orig.len(),
                forall|y: PartTypeView| orig.contains(y) <==>
                    (type_views(res@).contains(y) || type_views(types@).contains(y)),
                forall|k: int| 0 <= k < i ==> !hooked(#[trigger] types@[k]@, self),
                forall|r: PartTypeView| type_views(res@).contains(r) ==> hooked(r, self),
                type_views(res@).to_multiset().add(type_views(types@).to_multiset()) == orig_ms,
                kept_in_order(types@, old(types)@),
            decreases types.len() - i,
        {
            if self.hooks_onto(&types[i]) {
                let ghost before = types@;
                let ghost res_before = res@;
                let t = types.remove(i);
                proof {
                    lemma_kept_remove(before, i as int);
                    lemma_kept_trans(types@, before, old(types)@);
                    lemma_views_remove(before, i as int);
                    assert(t == before[i as int]);
                }
                res.push(t);
                proof {
                    type_views(res_before).to_multiset_ensures();
                    type_views(before).to_multiset_ensures();
                    assert(before.remove(i as int) == types@);
                    assert(res_before.push(t) == res@);
                    lemma_views_push(res_before, t);
                    assert(type_views(before)[i as int] == t@);
                    assert(type_views(res@).to_multiset().add(type_views(types@).to_multiset())
                        =~= type_views(res_before).to_multiset().add(type_views(before).to_multiset()));
                    assert forall|k: int| 0 <= k < i implies !hooked(#[trigger] types@[k]@, self) by {
                        assert(types@[k] == before[k]);
                    }
                }
            } else {
                i = i + 1;
            }
        }
        let ghost res0 = res@;
        // the ids of the part types found directly
        let mut roots: Vec<PartTypeId> = Vec::new();
        let mut m: usize = 0;
        while m < res.len()
            invariant
                0 <= m <= res.len(),
                res@ == res0,
                roots@.len() == m,
                forall|k: int| 0 <= k < m ==> roots@[k] == res0[k].id,
            decreases res.len() - m,
        {
            roots.push(res[m].id);
            m = m + 1;
        }
        proof {
            assert forall|r: PartTypeView| type_views(res@).contains(r) implies reachable(orig, self, r) by {
                assert(reaches(orig, self, r, 0));
            }
        }
        let mut k: usize = 0;
        while k < roots.len()
            invariant
                0 <= k <= roots.len(),
                roots@.len() == res0.len(),
                forall|q: int| 0 <= q < roots@.len() ==> roots@[q] == res0[q].id,
                res@.len() >= res0.len(),
                forall|q: int| 0 <= q < res0.len() ==> res@[q] == res0[q],
                types@.len() + res0.len() <= orig.len(),
                orig.len() == old(types)@.len(),
                forall|y: PartTypeView| orig.contains(y) <==>
                    (type_views(res@).contains(y) || type_views(types@).contains(y)),
                forall|y: PartTypeView| type_views(types@).contains(y) ==> !hooked(y, self),
                forall|y: PartTypeView, q: int|
                    type_views(types@).contains(y) && 0 <= q < res@.len() && (q < k || q >= res0.len())
                        ==> !hooked(y, res@[q]@.id),
                forall|r: PartTypeView| type_views(res@).contains(r) ==> reachable(orig, self, r),
                type_views(res@).to_multiset().add(type_views(types@).to_multiset()) == orig_ms,
                kept_in_order(types@, old(types)@),
            decreases roots.len() - k,
        {
            let ghost before = types@;
            let ghost res_before = res@;
            let t: PartTypeId = roots[k];
            let mut sub = t.filter_types(&mut *types);
            proof { lemma_kept_trans(types@, before, old(types)@); }
            let ghost sub_v = sub@;
            assert(forall|y: PartTypeView| type_views(before).contains(y) <==>
                (type_views(sub_v).contains(y) || type_views(types@).contains(y)));
            res.append(&mut sub);
            proof {
                assert(res@ == res_before + sub_v);
                lemma_views_append(res_before, sub_v);
                vstd::seq_lib::lemma_multiset_commutative(type_views(res_before), type_views(sub_v));
                assert(type_views(res@).to_multiset().add(type_views(types@).to_multiset())
                    =~= type_views(res_before).to_multiset().add(type_views(before).to_multiset()));
                assert(res@ == res_before + sub_v);
                let tv = res0[k as int]@;
                assert(type_views(res_before)[k as int] == tv);
                assert(type_views(res_before).contains(tv));
                assert(reachable(orig, self, tv));
                let e = choose|e: nat| reaches(orig, self, tv, e);
                assert(orig.contains(tv));
                assert forall|r: PartTypeView| type_views(res@).contains(r) implies reachable(orig, self, r) by {
                    if type_views(sub_v).contains(r) {
                        assert(reachable(type_views(before), t, r));
                        let d = choose|d: nat| reaches(type_views(before), t, r, d);
                        lemma_reaches_widen(type_views(before), orig, t, r, d);
                        assert(tv.id == t);
                        lemma_reaches_compose(orig, self, tv, e, r, d);
                    }
                }
                assert forall|y: PartTypeView, q: int|
                    type_views(types@).contains(y) && 0 <= q < res@.len() && (q < k + 1 || q >= res0.len())
                        implies !hooked(y, res@[q]@.id) by {
                    assert(type_views(before).contains(y) <==>
                        (type_views(sub_v).contains(y) || type_views(types@).contains(y)));
                    assert(type_views(before).contains(y));
                    if q < res_before.len() {
                        assert(res@[q] == res_before[q]);
                        if q == k {
                            assert(res_before[q]@.id == t);
                        }
                    } else {
                        assert(res@[q] == sub_v[q - res_before.len()]);
                        assert(type_views(sub_v)[q - res_before.len()] == res@[q]@);
                        assert(type_views(sub_v).contains(res@[q]@));
                    }
                }
            }
            k = k + 1;
        }
        proof {
            assert forall|y: PartTypeView, r: PartTypeView|
                type_views(types@).contains(y) && type_views(res@).contains(r) implies !hooked(y, r.id) by {
                let q = choose|q: int| 0 <= q < type_views(res@).len() && type_views(res@)[q] == r;
                assert(res@[q]@ == r);
            }
        }
        res
    }
}


/// The ids of the catalogue are strictly increasing, hence unique.
pub proof fn lemma_part_type_ids_sorted()
    ensures
        forall|i: int, j: int|
            0 <= i < j < part_type_table().len() ==> part_type_table()[i].id.0 < part_type_table()[j].id.0,
{
    let t = part_type_table();
    assert forall|i: int| 0 <= i < t.len() - 1 implies #[trigger] t[i].id.0 < t[i + 1].id.0 by {}
    assert forall|i: int, j: int| 0 <= i < j < t.len() implies t[i].id.0 < t[j].id.0 by {
        lemma_increasing_steps(t, i, j);
    }
}

proof fn lemma_increasing_steps(t: Seq<PartTypeView>, i: int, j: int)
    requires
        0 <= i < j < t.len(),
        forall|k: int| 0 <= k < t.len() - 1 ==> #[trigger] t[k].id.0 < t[k + 1].id.0,
    ensures
        t[i].id.0 < t[j].id.0,
    decreases j - i,
{
    if j > i + 1 {
        lemma_increasing_steps(t, i, j - 1);
        assert(t[j - 1].id.0 < t[j].id.0);
    }
}

/// The part types of the catalogue that `root` and everything hooked onto
/// it, directly or indirectly, stand for.
pub open spec fn subtype_ids(root: PartTypeId) -> Set<PartTypeId> {
    Set::new(|id: PartTypeId| exists|i: int|
        0 <= i < part_type_table().len() && part_type_table()[i].id == id
            && reachable(part_type_table(), root, part_type_table()[i]))
}

/// A set of part type ids that takes in every catalogue type with a hook in
/// it.
pub open spec fn hook_closed(s: Set<PartTypeId>) -> bool {
    forall|i: int, h: PartTypeId| 0 <= i < part_type_table().len()
        && #[trigger] part_type_table()[i].hooks.contains(h) && #[trigger] s.contains(h)
        ==> s.contains(part_type_table()[i].id)
}

/// The subtypes of a known type are the least hook-closed set that holds
/// it: they hold `root`, take in every type with a hook among them, and lie
/// within every other such set.
pub proof fn lemma_subtypes_least_closed(root: PartTypeId, s: Set<PartTypeId>)
    requires
        known_type(root),
    ensures
        subtype_ids(root).contains(root),
        hook_closed(subtype_ids(root)),
        s.contains(root) && hook_closed(s) ==> subtype_ids(root).subset_of(s),
{
    let t = part_type_table();
    let i0 = choose|i: int| 0 <= i < t.len() && t[i].id == root;
    assert(reaches(t, root, t[i0], 0));
    assert forall|i: int, h: PartTypeId| 0 <= i < t.len()
        && #[trigger] t[i].hooks.contains(h) && #[trigger] subtype_ids(root).contains(h)
        implies subtype_ids(root).contains(t[i].id) by {
        let j = choose|j: int| 0 <= j < t.len() && t[j].id == h && reachable(t, root, t[j]);
        let d = choose|d: nat| reaches(t, root, t[j], d);
        assert(hooked(t[i], t[j].id));
        assert(reaches(t, root, t[i], d + 1));
    }
    if s.contains(root) && hook_closed(s) {
        assert forall|id: PartTypeId| #[trigger] subtype_ids(root).contains(id) implies s.contains(id) by {
            let i = choose|i: int| 0 <= i < t.len() && t[i].id == id && reachable(t, root, t[i]);
            let d = choose|d: nat| reaches(t, root, t[i], d);
            lemma_reaches_in_closed(root, s, i, d);
        }
    }
}

/// What reaches `root` within the catalogue lies in every hook-closed set
/// that holds `root`.
proof fn lemma_reaches_in_closed(root: PartTypeId, s: Set<PartTypeId>, i: int, d: nat)
    requires
        s.contains(root),
        hook_closed(s),
        0 <= i < part_type_table().len(),
        reaches(part_type_table(), root, part_type_table()[i], d),
    ensures
        s.contains(part_type_table()[i].id),
    decreases d,
{
    let t = part_type_table();
    if hooked(t[i], root) {
        if t[i].id != root {
            assert(t[i].hooks.contains(root));
        }
    } else {
        let j = choose|j: int| 0 <= j < t.len() && #[trigger] hooked(t[i], t[j].id)
            && reaches(t, root, t[j], (d - 1) as nat);
        lemma_reaches_in_closed(root, s, j, (d - 1) as nat);
        if t[i].id != t[j].id {
            assert(t[i].hooks.contains(t[j].id));
        }
    }
}

/// Whether the catalogue knows the part type `t`.
pub open spec fn known_type(t: PartTypeId) -> bool {
    exists|i: int| 0 <= i < part_type_table().len() && part_type_table()[i].id == t
}

/// Whether `t` is a main type of the catalogue (a gear: it has no hooks).
pub open spec fn main_type(t: PartTypeId) -> bool {
    exists|i: int| 0 <= i < part_type_table().len() && part_type_table()[i].id == t
        && part_type_table()[i].hooks.len() == 0
}


/// The catalogue entry of type `t` (meaningful when `known_type(t)`).
pub open spec fn type_view(t: PartTypeId) -> PartTypeView {
    part_type_table()[choose|i: int| 0 <= i < part_type_table().len() && part_type_table()[i].id == t]
}

/// A type the catalogue hands out for `t` is its entry.
pub proof fn lemma_type_view(t: PartTypeId, v: PartTypeView)
    requires
        exists|i: int| 0 <= i < part_type_table().len() && part_type_table()[i] == v && v.id == t,
    ensures
        known_type(t),
        type_view(t) == v,
{
    lemma_part_type_ids_sorted();
    let i = choose|i: int| 0 <= i < part_type_table().len() && part_type_table()[i] == v && v.id == t;
    let j = choose|j: int| 0 <= j < part_type_table().len() && part_type_table()[j].id == t;
    assert(i == j);
}

/// The activity types of the catalogue whose gear is `gear`, in catalogue order.
pub open spec fn act_type_ids_for(gear: PartTypeId) -> Seq<ActTypeId> {
    activity_type_table().filter(for_gear(gear)).map_values(|a: ActivityTypeView| a.id)
}

/// The activity types using gear `gear`.
pub open spec fn for_gear(gear: PartTypeId) -> spec_fn(ActivityTypeView) -> bool {
    |a: ActivityTypeView| a.gear_type == gear
}

impl PartTypeId {
    /// get the full type for a type_id
    pub fn get(self) -> (r: Result<PartType, Error>)
        ensures
            match r {
                Ok(t) => exists|i: int|
                    0 <= i < part_type_table().len() && part_type_table()[i] == t@ && t.id == self,
                Err(e) => (e matches Error::NotFound(m) && m@ == "parttype "@ + decimal_text(self.0 as int) + " does not exist"@)
                    && forall|i: int| 0 <= i < part_type_table().len() ==> part_type_table()[i].id != self,
            },
    {
        let mut all = PartType::all_ordered();
        let ghost table = type_views(all@);
        let mut i: usize = 0;
        while i < all.len()
            invariant
                0 <= i <= all.len(),
                all@.len() == part_type_table().len(),
                type_views(all@) == part_type_table(),
                forall|k: int| 0 <= k < i ==> part_type_table()[k].id != self,
            decreases all.len() - i,
        {
            if all[i].id == self {
                let ghost before = all@;
                let t = all.remove(i);
                proof {
                    assert(type_views(before)[i as int] == t@);
                }
                return Ok(t);
            }
            proof { assert(type_views(all@)[i as int] == all@[i as int]@); }
            i = i + 1;
        }
        let mut msg = "parttype ".to_owned();
        let num = crate::text::int_to_text(self.0 as i64);
        crate::text::append_text(&mut msg, num.as_str());
        crate::text::append_text(&mut msg, " does not exist");
        Err(Error::NotFound(msg))
    }

    /// Whether the part type is a main part (it has no hooks).
    pub fn is_main(self) -> (r: Result<bool, Error>)
        ensures
            r is Ok <==> known_type(self),
            r matches Ok(b) ==> b == main_type(self),
            r matches Err(e) ==> e is NotFound,
    {
        let t = self.get()?;
        proof {
            lemma_part_type_ids_sorted();
            let i = choose|i: int| 0 <= i < part_type_table().len() && part_type_table()[i] == t@ && t.id == self;
            if main_type(self) {
                let j = choose|j: int| 0 <= j < part_type_table().len() && part_type_table()[j].id == self
                    && part_type_table()[j].hooks.len() == 0;
                assert(i == j);
            }
        }
        Ok(t.hooks.len() == 0)
    }

    /// get all the type_ids you can attach - even indirectly - to this type_id
    ///
    /// Every id returned belongs to the catalogue; it includes `self` when
    /// `self` is in the catalogue.
    pub fn subtypes(self) -> (r: Vec<PartTypeId>)
        ensures
            forall|id: PartTypeId| r@.contains(id) <==> subtype_ids(self).contains(id),
            r@.no_duplicates(),
    {
        let mut types = PartType::all_ordered();
        let ghost orig = type_views(types@);
        let found = self.filter_types(&mut types);
        let mut r: Vec<PartTypeId> = Vec::new();
        let mut i: usize = 0;
        while i < found.len()
            invariant
                0 <= i <= found.len(),
                r@.len() == i,
                forall|k: int| 0 <= k < i ==> r@[k] == found@[k].id,
            decreases found.len() - i,
        {
            r.push(found[i].id);
            i = i + 1;
        }
        proof {
            let table = part_type_table();
            assert(orig == table);
            lemma_part_type_ids_sorted();
            assert forall|id: PartTypeId| r@.contains(id) implies subtype_ids(self).contains(id) by {
                let k = choose|k: int| 0 <= k < r@.len() && r@[k] == id;
                let v = found@[k]@;
                assert(type_views(found@)[k] == v);
                assert(type_views(found@).contains(v));
                assert(table.contains(v));
                let j = choose|j: int| 0 <= j < table.len() && table[j] == v;
                assert(table[j].id == id);
            }
            assert forall|id: PartTypeId| subtype_ids(self).contains(id) implies r@.contains(id) by {
                let j = choose|j: int|
                    0 <= j < table.len() && table[j].id == id && reachable(table, self, table[j]);
                let d = choose|d: nat| reaches(table, self, table[j], d);
                lemma_closed_is_complete(table, type_views(found@), type_views(types@), self, d);
                assert(table.contains(table[j]));
                assert(type_views(found@).contains(table[j]));
                let k = choose|k: int| 0 <= k < type_views(found@).len() && type_views(found@)[k] == table[j];
                assert(r@[k] == id);
            }
            let fv = type_views(found@);
            assert(table.no_duplicates()) by {
                assert forall|a: int, b: int| 0 <= a < table.len() && 0 <= b < table.len() && a != b
                    implies table[a] != table[b] by {
                    if a < b { assert(table[a].id.0 < table[b].id.0); } else { assert(table[b].id.0 < table[a].id.0); }
                }
            }
            table.lemma_multiset_has_no_duplicates();
            fv.to_multiset_ensures();
            table.to_multiset_ensures();
            assert forall|x: PartTypeView| fv.to_multiset().contains(x) implies fv.to_multiset().count(x) == 1 by {
                assert(fv.to_multiset().add(type_views(types@).to_multiset()).count(x) == table.to_multiset().count(x));
                assert(table.to_multiset().contains(x));
            }
            fv.lemma_multiset_has_no_duplicates_conv();
            assert forall|a: int, b: int| 0 <= a < r@.len() && 0 <= b < r@.len() && a != b implies r@[a] != r@[b] by {
                assert(fv[a] == found@[a]@);
                assert(fv[b] == found@[b]@);
                assert(fv.contains(fv[a]));
                assert(fv.contains(fv[b]));
                assert(table.contains(fv[a]));
                assert(table.contains(fv[b]));
                if r@[a] == r@[b] {
                    let i = choose|i: int| 0 <= i < table.len() && table[i] == fv[a];
                    let j = choose|j: int| 0 <= j < table.len() && table[j] == fv[b];
                    if i < j { assert(table[i].id.0 < table[j].id.0); }
                    if j < i { assert(table[j].id.0 < table[i].id.0); }
                }
            }
        }
        r
    }

    /// Get the activity types valid for this part_type
    pub fn act_types(&self) -> (r: Vec<ActTypeId>)
        ensures
            r@ == act_type_ids_for(*self),
    {
        let all = ActivityType::all_ordered();
        let ghost table = all@.map_values(|a: ActivityType| a@);
        let mut r: Vec<ActTypeId> = Vec::new();
        let mut i: usize = 0;
        while i < all.len()
            invariant
                0 <= i <= all.len(),
                table == activity_type_table(),
                table.len() == all@.len(),
                forall|k: int| 0 <= k < all@.len() ==> table[k] == #[trigger] all@[k]@,
                r@ == table.take(i as int).filter(for_gear(*self)).map_values(|a: ActivityTypeView| a.id),
            decreases all.len() - i,
        {
            let ghost pred = for_gear(*self);
            proof {
                assert(table.take(i + 1).drop_last() =~= table.take(i as int));
                assert(table.take(i + 1).last() == all@[i as int]@);
                reveal_with_fuel(Seq::filter, 1);
            }
            if all[i].gear_type == *self {
                r.push(all[i].id);
                proof {
                    assert(table.take(i + 1).filter(pred) =~= table.take(i as int).filter(pred).push(all@[i as int]@));
                    assert(r@ =~= table.take(i + 1).filter(pred).map_values(|a: ActivityTypeView| a.id));
                }
            } else {
                proof {
                    assert(table.take(i + 1).filter(pred) =~= table.take(i as int).filter(pred));
                }
            }
            i = i + 1;
        }
        proof {
            assert(table.take(all@.len() as int) =~= table);
        }
        r
    }
}

} // verus!
