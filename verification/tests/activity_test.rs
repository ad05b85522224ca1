use tendabike::activity::{Activity, ActivityId};
use tendabike::test_support::{sample_purchase_date, test_user};
use tendabike::types::ActTypeId;

fn sample_activity() -> Activity {
    Activity {
        id: ActivityId::new(1),
        user_id: test_user(),
        what: ActTypeId::from(1),
        name: "Morning Ride".to_string(),
        start: sample_purchase_date(),
        duration: 3600,
        time: Some(3500),
        distance: Some(50000),
        climb: Some(500),
        descend: Some(300),
        energy: Some(1000),
        gear: None,
        device_name: Some("Garmin Edge".to_string()),
        external_id: Some("garmin_12345".to_string()),
    }
}

#[test]
fn activityid_new_creates_with_value() {
    let id = ActivityId::new(42);
    assert_eq!(id.to_string(), "42");
}

#[test]
fn activity_id_text_of_negative_and_extreme() {
    assert_eq!(ActivityId::new(-7).to_string(), "-7");
    assert_eq!(ActivityId::new(0).to_string(), "0");
    assert_eq!(ActivityId::new(i64::MIN).to_string(), i64::MIN.to_string());
    assert_eq!(ActivityId::new(i64::MAX).to_string(), i64::MAX.to_string());
}

#[test]
fn activity_usage_returns_usage() {
    let usage = sample_activity().usage();
    assert_eq!(usage.time, 3500);
    assert_eq!(usage.distance, 50000);
    assert_eq!(usage.climb, 500);
    assert_eq!(usage.descend, 300);
    assert_eq!(usage.energy, 1000);
    assert_eq!(usage.count, 1);
}

#[test]
fn activity_usage_defaults_descend_to_climb() {
    let mut act = sample_activity();
    act.descend = None;
    assert_eq!(act.usage().descend, 500);
}

#[test]
fn activity_usage_defaults_time_to_zero() {
    let mut act = sample_activity();
    act.time = None;
    assert_eq!(act.usage().time, 0);
}

#[test]
fn activity_usage_preserves_all_some_values() {
    let usage = sample_activity().usage();
    assert_eq!(usage.time, 3500);
    assert_eq!(usage.distance, 50000);
    assert_eq!(usage.climb, 500);
    assert_eq!(usage.descend, 300);
    assert_eq!(usage.energy, 1000);
    assert_eq!(usage.count, 1);
}

#[test]
fn activity_usage_all_defaults_to_zero() {
    let mut act = sample_activity();
    act.time = None;
    act.distance = None;
    act.climb = None;
    act.descend = None;
    act.energy = None;
    let usage = act.usage();
    assert_eq!(usage.time, 0);
    assert_eq!(usage.distance, 0);
    assert_eq!(usage.climb, 0);
    assert_eq!(usage.descend, 0);
    assert_eq!(usage.energy, 0);
    assert_eq!(usage.count, 1);
}
