use tendabike::activity::{Activity, ActivityId};
use tendabike::part::Part;
use tendabike::store::MemStore;
use tendabike::test_support::{sample_purchase_date, test_session, test_user};
use tendabike::timestamp::Timestamp;
use tendabike::types::{ActTypeId, PartTypeId};

fn ride(gear: Option<tendabike::part::PartId>) -> Activity {
    Activity {
        id: ActivityId::new(7),
        user_id: test_user(),
        what: ActTypeId::from(1),
        name: "Ride".to_string(),
        start: Timestamp::from_unix_timestamp(1_704_067_200),
        duration: 3600,
        time: Some(3500),
        distance: Some(42_000),
        climb: Some(600),
        descend: Some(550),
        energy: Some(800),
        gear,
        device_name: None,
        external_id: None,
    }
}

#[test]
fn registering_then_deleting_an_activity_restores_the_usage() {
    let session = test_session();
    let mut store = MemStore::new();
    let bike = Part::create(
        "Bike".to_string(),
        "Trek".to_string(),
        "Domane".to_string(),
        PartTypeId(1),
        None,
        sample_purchase_date(),
        String::new(),
        &session,
        &mut store,
    )
    .unwrap();
    let before = bike.usage.read(&store).unwrap();
    ride(Some(bike.id)).upsert(&session, &mut store).unwrap();
    let during = bike.usage.read(&store).unwrap();
    assert_eq!(during.time, before.time + 3500);
    assert_eq!(during.distance, before.distance + 42_000);
    assert_eq!(during.climb, before.climb + 600);
    assert_eq!(during.descend, before.descend + 550);
    assert_eq!(during.count, before.count + 1);
    ActivityId::new(7).delete(&session, &mut store).unwrap();
    let after = bike.usage.read(&store).unwrap();
    assert_eq!(after, before);
}

#[test]
fn updating_an_activity_moves_its_usage() {
    let session = test_session();
    let mut store = MemStore::new();
    let bike = Part::create(
        "Bike".to_string(),
        "Trek".to_string(),
        "Domane".to_string(),
        PartTypeId(1),
        None,
        sample_purchase_date(),
        String::new(),
        &session,
        &mut store,
    )
    .unwrap();
    ride(Some(bike.id)).upsert(&session, &mut store).unwrap();
    let mut changed = ride(Some(bike.id));
    changed.distance = Some(10_000);
    changed.update(&session, &mut store).unwrap();
    let now = bike.usage.read(&store).unwrap();
    assert_eq!(now.distance, 10_000);
    assert_eq!(now.count, 1);
    let mut gearless = ride(None);
    gearless.distance = Some(1);
    gearless.update(&session, &mut store).unwrap();
    let gone = bike.usage.read(&store).unwrap();
    assert_eq!(gone.distance, 0);
    assert_eq!(gone.count, 0);
}

fn bike(session: &tendabike::test_support::TestSession, store: &mut MemStore) -> Part {
    Part::create(
        "Bike".to_string(),
        "Trek".to_string(),
        "Domane".to_string(),
        PartTypeId(1),
        None,
        sample_purchase_date(),
        String::new(),
        session,
        store,
    )
    .unwrap()
}

#[test]
fn update_reports_the_new_activity() {
    let session = test_session();
    let mut store = MemStore::new();
    let b = bike(&session, &mut store);
    ride(Some(b.id)).upsert(&session, &mut store).unwrap();
    let mut changed = ride(Some(b.id));
    changed.distance = Some(10_000);
    let summary = changed.update(&session, &mut store).unwrap();
    assert_eq!(summary.activities.len(), 1);
    assert_eq!(summary.activities[0].distance, Some(10_000));
}

#[test]
fn default_part_without_matching_activity_changes_nothing() {
    let session = test_session();
    let mut store = MemStore::new();
    let b = bike(&session, &mut store);
    ride(Some(b.id)).upsert(&session, &mut store).unwrap();
    let before = b.usage.read(&store).unwrap();
    let summary = Activity::set_default_part(b.id, &session, &mut store).unwrap();
    assert!(summary.activities.is_empty() && summary.usages.is_empty() && summary.parts.is_empty());
    assert_eq!(b.usage.read(&store).unwrap(), before);
}

#[test]
fn default_part_takes_gearless_rides() {
    let session = test_session();
    let mut store = MemStore::new();
    let b = bike(&session, &mut store);
    ride(None).upsert(&session, &mut store).unwrap();
    let summary = Activity::set_default_part(b.id, &session, &mut store).unwrap();
    assert_eq!(summary.activities.len(), 1);
    assert_eq!(summary.activities[0].gear, Some(b.id));
    assert_eq!(b.usage.read(&store).unwrap().count, 1);
}
