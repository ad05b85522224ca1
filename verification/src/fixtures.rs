//! Ready-made parts and assemblies for exercising the library.

use vstd::prelude::*;
use crate::assembly::{attach_assembly, usable_time};
use crate::attachment::Attachment;
use crate::error::Error;
use crate::part::{Part, PartId};
use crate::session::Session;
use crate::store::MemStore;
use crate::test_support::{TestSession, sample_purchase_date, BIKE, CHAIN, FRONT_WHEEL, TIRE};
use crate::timeline::timeline_ok;
use crate::timestamp::{Timestamp, max_time, spec_max_time, spec_round};
use crate::types::{PartTypeId, known_type, type_view};

verus! {

/// The hook a part of type `what` goes to by default: the first hook of its
/// type, or the type itself when it has none or is unknown.
pub open spec fn default_hook(what: PartTypeId) -> PartTypeId {
    if known_type(what) && type_view(what).hooks.len() > 0 {
        type_view(what).hooks[0]
    } else {
        what
    }
}

/// The hook of `default_hook`.
pub fn first_hook(what: PartTypeId) -> (r: PartTypeId)
    ensures
        r == default_hook(what),
{
    match what.get() {
        Ok(t) => {
            proof { crate::types::lemma_type_view(what, t@); }
            if t.hooks.len() > 0 {
                t.hooks[0]
            } else {
                what
            }
        },
        Err(_) => what,
    }
}

/// The sample purchase date: 2023-11-14 22:13:20 UTC.
pub open spec fn sample_date() -> Timestamp {
    Timestamp { nanos: 1_700_000_000_000_000_000i128, offset: 0 }
}

/// A part the session user creates with the given type, names and purchase
/// date (as `Part::create` stores it).
pub open spec fn created(p: Part, id: i32, user: &TestSession, what: i32, name: Seq<char>, vendor: Seq<char>,
    model: Seq<char>, notes: Seq<char>, purchase: Timestamp) -> bool {
    &&& p.id == PartId(id) && p.owner == user.session_user() && p.shop == user.session_shop()
    &&& p.what == PartTypeId(what) && p.name@ == name && p.vendor@ == vendor && p.model@ == model
    &&& p.notes@ == notes && p.source is None && p.disposed_at is None
    &&& p.purchase == spec_round(purchase) && p.last_used == spec_round(purchase)
}

/// Create a basic part for testing: a chain of the session user.
pub fn fixture_basic_part(session: &TestSession, store: &mut MemStore) -> (r: Result<Part, Error>)
    requires
        old(store).wf(),
    ensures
        final(store).wf(),
        old(store).next_part_id < i32::MAX ==> (r matches Ok(p) && created(p, old(store).next_part_id, session,
            CHAIN, "Test Chain"@, "Shimano"@, "CN-M510"@, "Test part"@, sample_date())
            && final(store).parts@ == old(store).parts@.insert(old(store).next_part_id, p)),
        old(store).next_part_id == i32::MAX ==> (r matches Err(e) && e is AnyFailure) && *final(store) == *old(store),
        final(store).attachments == old(store).attachments,
        final(store).usages == old(store).usages,
{
    Part::create("Test Chain".to_owned(), "Shimano".to_owned(), "CN-M510".to_owned(), PartTypeId(CHAIN), None,
        sample_purchase_date(), "Test part".to_owned(), session, store)
}

/// Create the main bike frame of the session user.
pub fn fixture_bike(session: &TestSession, store: &mut MemStore) -> (r: Result<Part, Error>)
    requires
        old(store).wf(),
    ensures
        final(store).wf(),
        old(store).next_part_id < i32::MAX ==> (r matches Ok(p) && created(p, old(store).next_part_id, session,
            BIKE, "Main Bike"@, "TendaBike"@, "Standard Frame"@, "Main gear"@, sample_date())
            && final(store).parts@ == old(store).parts@.insert(old(store).next_part_id, p)),
        old(store).next_part_id == i32::MAX ==> (r matches Err(e) && e is AnyFailure) && *final(store) == *old(store),
        final(store).attachments == old(store).attachments,
        final(store).usages == old(store).usages,
{
    Part::create("Main Bike".to_owned(), "TendaBike".to_owned(), "Standard Frame".to_owned(), PartTypeId(BIKE), None,
        sample_purchase_date(), "Main gear".to_owned(), session, store)
}

/// Create an assembly: a front wheel attached to a new bike at
/// `attach_time` (at the wheel's default hook), with two tires on the
/// wheel from then on, stored directly. Returns the wheel, the tires and the
/// wheel's attachment.
pub fn fixture_assembly(session: &TestSession, store: &mut MemStore, attach_time: Timestamp)
    -> (r: Result<(Part, Vec<Part>, Attachment), Error>)
    requires
        old(store).wf(),
        timeline_ok(old(store).attachments@),
        attach_time.wf(),
        usable_time(spec_round(attach_time)),
    ensures
        final(store).wf(),
        r matches Ok((main, subs, att)) ==> {
            &&& created(main, old(store).next_part_id, session, FRONT_WHEEL, "Front Wheel"@, "Zipp"@,
                "404 Firecrest"@, "Main assembly part"@, sample_date())
            &&& subs@.len() == 2
            &&& subs@[0].what == PartTypeId(TIRE) && subs@[1].what == PartTypeId(TIRE)
            &&& subs@[0].id.0 == old(store).next_part_id + 1 && subs@[1].id.0 == old(store).next_part_id + 2
            &&& att.part_id == main.id && final(store).attachments@.contains(att)
                && att.active_at(spec_round(attach_time))
            &&& forall|k: int| 0 <= k < 2 ==> exists|a: Attachment| #[trigger] final(store).attachments@.contains(a)
                && a.part_id == (#[trigger] subs@[k]).id && a.gear == main.id && a.hook == default_hook(PartTypeId(TIRE))
                && a.attached == attach_time && a.detached == spec_max_time()
        },
{
    let main_part = Part::create("Front Wheel".to_owned(), "Zipp".to_owned(), "404 Firecrest".to_owned(),
        PartTypeId(FRONT_WHEEL), None, sample_purchase_date(), "Main assembly part".to_owned(), session, store)?;
    let subpart1 = Part::create("Tire 1".to_owned(), "Continental".to_owned(), "Grand Prix 5000".to_owned(),
        PartTypeId(TIRE), None, sample_purchase_date(), "Subpart 1".to_owned(), session, store)?;
    let earlier = Timestamp::from_unix_timestamp(1_699_136_000i64);
    let subpart2 = Part::create("Tire 2".to_owned(), "Continental".to_owned(), "Grand Prix 5000 S TR".to_owned(),
        PartTypeId(TIRE), None, earlier, "Subpart 2".to_owned(), session, store)?;
    let year_before = Timestamp::from_unix_timestamp(1_668_464_000i64);
    let gear = Part::create("Main Bike Frame".to_owned(), "TendaBike".to_owned(), "Standard".to_owned(),
        PartTypeId(BIKE), None, year_before, "Main gear".to_owned(), session, store)?;
    let main_hook = first_hook(main_part.what);
    let _main_summary = attach_assembly(session, main_part.id, attach_time, gear.id, main_hook, false, store)?;
    let hook = first_hook(PartTypeId(TIRE));
    let ghost s0 = *store;
    let a1 = Attachment::new(subpart1.id, attach_time, main_part.id, hook, max_time());
    let _c1 = store.attachment_create(a1)?;
    let ghost s1 = *store;
    let a2 = Attachment::new(subpart2.id, attach_time, main_part.id, hook, max_time());
    let _c2 = store.attachment_create(a2)?;
    proof {
        assert(s1.attachments@ == s0.attachments@.push(a1));
        assert(store.attachments@ == s1.attachments@.push(a2));
        assert(store.attachments@[s0.attachments@.len() as int] == a1);
        assert(store.attachments@[s1.attachments@.len() as int] == a2);
        assert forall|x: Attachment| s0.attachments@.contains(x) implies #[trigger] store.attachments@.contains(x) by {
            let k = choose|k: int| 0 <= k < s0.attachments@.len() && s0.attachments@[k] == x;
            assert(store.attachments@[k] == x);
        }
    }
    let main_id = main_part.id;
    let t = crate::timestamp::round_time(attach_time);
    let found = store.attachment_get_by_part_and_time(main_id, t)?;
    proof {
        crate::seqs::lemma_first_where_member(store.attachments@, crate::timeline::part_active_at(main_id, t));
        let a = choose|a: Attachment| #[trigger] s0.attachments@.contains(a) && a.part_id == main_id
            && a.gear == gear.id && a.hook == main_hook && a.active_at(t);
        assert(store.attachments@.contains(a));
        assert(crate::timeline::part_active_at(main_id, t)(a));
    }
    let att = match found {
        Some(a) => a,
        None => Attachment::new(main_id, attach_time, gear.id, main_hook, max_time()),
    };
    let mut subs: Vec<Part> = Vec::new();
    subs.push(subpart1);
    subs.push(subpart2);
    proof {
        assert(subs@[0] == subpart1 && subs@[1] == subpart2);
        assert(main_part.name@ == "Front Wheel"@);
        assert(main_part.purchase == spec_round(sample_date()));
        assert(att.part_id == main_id && store.attachments@.contains(att));
        assert(a1.part_id == subs@[0].id && a1.hook == default_hook(PartTypeId(TIRE)));
        assert forall|k: int| 0 <= k < 2 implies exists|a: Attachment| #[trigger] store.attachments@.contains(a)
            && a.part_id == (#[trigger] subs@[k]).id && a.gear == main_part.id && a.hook == default_hook(PartTypeId(TIRE))
            && a.attached == attach_time && a.detached == spec_max_time() by {
            if k == 0 {
                assert(store.attachments@.contains(a1));
            } else {
                assert(store.attachments@.contains(a2));
            }
        }
        assert(created(main_part, old(store).next_part_id, session, FRONT_WHEEL, "Front Wheel"@, "Zipp"@,
                "404 Firecrest"@, "Main assembly part"@, sample_date()));
        assert(subs@[0].id.0 == old(store).next_part_id + 1);
    }
    Ok((main_part, subs, att))
}

} // verus!
