use tendabike::assembly::{attach_assembly, detach_assembly, dispose_assembly, is_attached, recover_assembly, subparts};
use tendabike::attachment::Attachment;
use tendabike::error::Error;
use tendabike::part::{Part, PartId};
use tendabike::store::MemStore;
use tendabike::test_support::{sample_purchase_date, test_session, TestSession};
use tendabike::timestamp::{max_time, Timestamp};
use tendabike::types::PartTypeId;

const BIKE: PartTypeId = PartTypeId(1);
const FRONT_WHEEL: PartTypeId = PartTypeId(2);
const TIRE: PartTypeId = PartTypeId(3);

const DAY: i64 = 86_400;

fn at(secs: i64) -> Timestamp {
    Timestamp::from_unix_timestamp(secs)
}

fn attach_time() -> Timestamp {
    // 2024-01-01 00:00 UTC
    at(1_704_067_200)
}

fn mk(session: &TestSession, store: &mut MemStore, name: &str, what: PartTypeId, purchase: Timestamp) -> Part {
    Part::create(
        name.to_string(),
        "Vendor".to_string(),
        "Model".to_string(),
        what,
        None,
        purchase,
        String::new(),
        session,
        store,
    )
    .unwrap()
}

/// A front wheel attached to a bike, with two tires attached to the wheel.
fn fixture_assembly(session: &TestSession, store: &mut MemStore) -> (Part, Vec<Part>, Part) {
    let wheel = mk(session, store, "Front Wheel", FRONT_WHEEL, sample_purchase_date());
    let tire1 = mk(session, store, "Tire 1", TIRE, sample_purchase_date());
    let tire2 = mk(session, store, "Tire 2", TIRE, at(1_700_000_000 - 10 * DAY));
    let gear = mk(session, store, "Main Bike Frame", BIKE, at(1_700_000_000 - 365 * DAY));
    attach_assembly(session, wheel.id, attach_time(), gear.id, BIKE, false, store).unwrap();
    for tire in [&tire1, &tire2] {
        let att = Attachment::new(tire.id, attach_time(), wheel.id, FRONT_WHEEL, max_time());
        store.attachment_create(att).unwrap();
    }
    (wheel, vec![tire1, tire2], gear)
}

#[test]
fn subparts_returns_children_attached_at_time() {
    let session = test_session();
    let mut store = MemStore::new();
    let (wheel, tires, _gear) = fixture_assembly(&session, &mut store);
    let mut found = subparts(wheel.id, attach_time(), &store).unwrap();
    found.sort();
    let mut expected: Vec<PartId> = tires.iter().map(|t| t.id).collect();
    expected.sort();
    assert_eq!(found, expected);
    assert!(subparts(wheel.id, at(1_704_067_200 - DAY), &store).unwrap().is_empty());
    assert!(matches!(subparts(PartId(99), attach_time(), &store), Err(Error::NotFound(_))));
}

#[test]
fn attached_parts_are_attached_only_from_their_attach_time() {
    let session = test_session();
    let mut store = MemStore::new();
    let (wheel, _tires, gear) = fixture_assembly(&session, &mut store);
    assert!(is_attached(wheel.id, attach_time(), &store).unwrap());
    assert!(!is_attached(wheel.id, at(1_704_067_200 - 1), &store).unwrap());
    assert!(!is_attached(gear.id, attach_time(), &store).unwrap());
}

#[test]
fn detaching_an_assembly_detaches_its_subparts() {
    let session = test_session();
    let mut store = MemStore::new();
    let (wheel, tires, _gear) = fixture_assembly(&session, &mut store);
    let later = at(1_704_067_200 + 30 * DAY);
    detach_assembly(&session, wheel.id, later, true, &mut store).unwrap();
    assert!(!is_attached(wheel.id, later, &store).unwrap());
    assert!(is_attached(wheel.id, at(1_704_067_200 + DAY), &store).unwrap());
    for tire in &tires {
        assert!(is_attached(tire.id, later, &store).unwrap());
    }
}

#[test]
fn attach_assembly_refuses_a_stranger() {
    let session = test_session();
    let mut store = MemStore::new();
    let (wheel, _tires, gear) = fixture_assembly(&session, &mut store);
    let stranger = TestSession::new(tendabike::user::UserId(2));
    let result = attach_assembly(&stranger, wheel.id, at(1_704_067_200 + DAY), gear.id, BIKE, false, &mut store);
    assert!(matches!(result, Err(Error::Forbidden(_))));
}

#[test]
fn dispose_and_recover_a_detached_part() {
    let session = test_session();
    let mut store = MemStore::new();
    let chain = mk(&session, &mut store, "Chain", PartTypeId(4), sample_purchase_date());
    let when = at(1_704_067_200);
    dispose_assembly(&session, chain.id, when, false, &mut store).unwrap();
    let disposed = store.partid_get_part(chain.id).unwrap();
    assert_eq!(disposed.disposed_at.map(|t| t.nanos), Some(when.nanos));
    recover_assembly(&session, chain.id, false, &mut store).unwrap();
    assert!(store.partid_get_part(chain.id).unwrap().disposed_at.is_none());
}

#[test]
fn attach_assembly_rejects_invalid_hook() {
    let session = test_session();
    let mut store = MemStore::new();
    let bike = mk(&session, &mut store, "Main Bike", BIKE, at(1_700_000_000 - 365 * DAY));
    let chain = mk(&session, &mut store, "Test Chain", PartTypeId(4), sample_purchase_date());
    let before = store.attachments_all_by_part(chain.id).unwrap().len();
    let result = attach_assembly(&session, chain.id, attach_time(), bike.id, FRONT_WHEEL, false, &mut store);
    assert!(result.is_err());
    match result.unwrap_err() {
        Error::BadRequest(msg) => {
            assert!(msg.contains("cannot be attached to hook"));
            assert_eq!(msg, "Type Chain cannot be attached to hook 2");
        }
        other => panic!("unexpected error {:?}", other),
    }
    assert_eq!(store.attachments_all_by_part(chain.id).unwrap().len(), before);
}

#[test]
fn attach_assembly_detaches_predecessor_on_gear() {
    let session = test_session();
    let mut store = MemStore::new();
    let bike1 = mk(&session, &mut store, "Bike 1", BIKE, at(1_700_000_000 - 365 * DAY));
    let _bike2 = mk(&session, &mut store, "Bike 2", BIKE, at(1_700_000_000 - 180 * DAY));
    let chain1 = mk(&session, &mut store, "Chain 1", PartTypeId(4), at(1_700_000_000 - 30 * DAY));
    let chain2 = mk(&session, &mut store, "Chain 2", PartTypeId(4), at(1_700_000_000 - 10 * DAY));
    store
        .attachment_create(Attachment::new(chain1.id, attach_time(), bike1.id, BIKE, max_time()))
        .unwrap();
    let later = at(1_717_200_000);
    attach_assembly(&session, chain2.id, later, bike1.id, BIKE, false, &mut store).unwrap();
    let chain1_atts = store.attachments_all_by_part(chain1.id).unwrap();
    let on_bike1 = chain1_atts.iter().find(|a| a.gear == bike1.id);
    assert!(on_bike1.is_some());
    assert_eq!(on_bike1.unwrap().detached.nanos, later.nanos);
    let chain2_att = store.attachment_get_by_part_and_time(chain2.id, later).unwrap();
    assert!(chain2_att.is_some());
    assert_eq!(chain2_att.unwrap().gear, bike1.id);
}

#[test]
fn a_part_is_attached_in_one_place_at_a_time() {
    let session = test_session();
    let mut store = MemStore::new();
    let bike1 = mk(&session, &mut store, "Bike 1", BIKE, at(1_700_000_000 - 365 * DAY));
    let bike2 = mk(&session, &mut store, "Bike 2", BIKE, at(1_700_000_000 - 365 * DAY));
    let chain = mk(&session, &mut store, "Chain", PartTypeId(4), at(1_700_000_000 - 30 * DAY));
    attach_assembly(&session, chain.id, attach_time(), bike1.id, BIKE, false, &mut store).unwrap();
    let later = at(1_717_200_000);
    attach_assembly(&session, chain.id, later, bike2.id, BIKE, false, &mut store).unwrap();
    let atts = store.attachments_all_by_part(chain.id).unwrap();
    assert_eq!(atts.len(), 2);
    for (i, a) in atts.iter().enumerate() {
        for b in atts.iter().skip(i + 1) {
            assert!(a.detached.nanos <= b.attached.nanos || b.detached.nanos <= a.attached.nanos);
        }
    }
    let now = store.attachment_get_by_part_and_time(chain.id, later).unwrap().unwrap();
    assert_eq!(now.gear, bike2.id);
    let before = store.attachment_get_by_part_and_time(chain.id, at(1_717_200_000 - DAY)).unwrap().unwrap();
    assert_eq!(before.gear, bike1.id);
    assert_eq!(before.detached.nanos, later.nanos);
}
