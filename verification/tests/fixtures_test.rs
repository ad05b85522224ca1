use tendabike::assembly::subparts;
use tendabike::fixtures::{first_hook, fixture_assembly, fixture_basic_part, fixture_bike};
use tendabike::store::MemStore;
use tendabike::test_support::test_session;
use tendabike::timestamp::Timestamp;
use tendabike::types::PartTypeId;

#[test]
fn basic_part_is_a_chain_of_the_session_user() {
    let mut store = MemStore::new();
    let part = fixture_basic_part(&test_session(), &mut store).unwrap();
    assert_eq!(part.what, PartTypeId(4));
    assert_eq!(part.name, "Test Chain");
    assert_eq!(part.vendor, "Shimano");
    assert_eq!(part.owner.0, 1);
    assert!(store.attachments.is_empty());
}

#[test]
fn bike_fixture_is_a_main_bike() {
    let mut store = MemStore::new();
    let first = fixture_basic_part(&test_session(), &mut store).unwrap();
    let bike = fixture_bike(&test_session(), &mut store).unwrap();
    assert_eq!(bike.what, PartTypeId(1));
    assert_eq!(bike.name, "Main Bike");
    assert_eq!(bike.id.0, first.id.0 + 1);
}

#[test]
fn first_hook_of_tire_is_the_front_wheel() {
    assert_eq!(first_hook(PartTypeId(3)), PartTypeId(2));
    assert_eq!(first_hook(PartTypeId(1)), PartTypeId(1));
    assert_eq!(first_hook(PartTypeId(9999)), PartTypeId(9999));
}

#[test]
fn assembly_fixture_has_two_tires_on_the_wheel() {
    let mut store = MemStore::new();
    let t = Timestamp::from_unix_timestamp(1_704_067_200);
    let (wheel, tires, att) = fixture_assembly(&test_session(), &mut store, t).unwrap();
    assert_eq!(wheel.what, PartTypeId(2));
    assert_eq!(tires.len(), 2);
    assert_eq!(att.part_id, wheel.id);
    let subs = subparts(wheel.id, t, &store).unwrap();
    assert_eq!(subs.len(), 2);
    assert!(subs.contains(&tires[0].id) && subs.contains(&tires[1].id));
}
