use tendabike::activity::{Activity, ActivityId};
use tendabike::descent::{csv2descend, import_table, parse_dotted_i32};
use tendabike::error::Error;
use tendabike::store::MemStore;
use tendabike::test_support::{test_session, test_user};
use tendabike::timestamp::Timestamp;
use tendabike::types::ActTypeId;

fn ride(id: i64, start_secs: i64) -> Activity {
    Activity {
        id: ActivityId::new(id),
        user_id: test_user(),
        what: ActTypeId::from(1),
        name: "Ride".to_string(),
        start: Timestamp::from_unix_timestamp(start_secs),
        duration: 3600,
        time: Some(3500),
        distance: Some(50000),
        climb: Some(500),
        descend: None,
        energy: None,
        gear: None,
        device_name: None,
        external_id: None,
    }
}

#[test]
fn csv_rows_update_matching_activities() {
    let mut store = MemStore::new();
    // 2024-03-10 10:00:00 UTC
    store.activity_create(ride(1, 1_710_064_800)).unwrap();
    let data = "Datum,Titel,descend\n2024-03-10 10:00:00,Morning,1.234\n2024-03-11 10:00:00,Other,500\n";
    let (_summary, good, bad) = csv2descend(data.as_bytes(), &test_session(), &mut store).unwrap();
    assert_eq!(good, vec!["Morning at 2024-03-10 10:00:00".to_string()]);
    assert_eq!(bad, vec!["Other at 2024-03-11 10:00:00".to_string()]);
    let act = store.activity_read_by_id(ActivityId::new(1)).unwrap().unwrap();
    assert_eq!(act.descend, Some(1234));
    assert_eq!(act.climb, Some(500));
}

#[test]
fn csv_climb_column_is_taken_when_present() {
    let mut store = MemStore::new();
    store.activity_create(ride(1, 1_710_064_800)).unwrap();
    let data = "Date,Title,Total Descent,climb\n2024-03-10 10:00:00,Morning,800,900\n";
    let (_summary, good, bad) = csv2descend(data.as_bytes(), &test_session(), &mut store).unwrap();
    assert_eq!(good.len(), 1);
    assert!(bad.is_empty());
    let act = store.activity_read_by_id(ActivityId::new(1)).unwrap().unwrap();
    assert_eq!(act.descend, Some(800));
    assert_eq!(act.climb, Some(900));
}

#[test]
fn csv_without_required_columns_is_refused() {
    let mut store = MemStore::new();
    let data = "Datum,Titel\n2024-03-10 10:00:00,Morning\n";
    let result = csv2descend(data.as_bytes(), &test_session(), &mut store);
    assert!(matches!(result, Err(Error::AnyFailure(_))));
}

#[test]
fn csv_with_unreadable_date_is_refused() {
    let mut store = MemStore::new();
    let data = "Datum,Titel,descend\nyesterday,Morning,100\n";
    let result = csv2descend(data.as_bytes(), &test_session(), &mut store);
    assert!(matches!(result, Err(Error::AnyFailure(_))));
}

#[test]
fn dotted_numbers_drop_their_dots() {
    assert_eq!(parse_dotted_i32("1.234"), Some(1234));
    assert_eq!(parse_dotted_i32("-12"), Some(-12));
    assert_eq!(parse_dotted_i32("abc"), None);
    assert_eq!(parse_dotted_i32(""), None);
}

fn fields(v: &[&str]) -> Vec<String> {
    v.iter().map(|s| s.to_string()).collect()
}

#[test]
fn table_rows_apply_to_matching_activities() {
    let mut store = MemStore::new();
    store.activity_create(ride(1, 1_710_064_800)).unwrap();
    let headers = Some(fields(&["Datum", "Titel", "Negativer Höhenunterschied", "climb"]));
    let rows = vec![
        Some(fields(&["2024-03-10 10:00:00", "Morning", "700", "650"])),
        Some(fields(&["2024-03-12 10:00:00", "Later", "300", "300"])),
    ];
    let (summary, good, bad) = import_table(&headers, &rows, &test_session(), &mut store).unwrap();
    assert!(summary.activities.iter().any(|a| a.id == ActivityId::new(1) && a.descend == Some(700)));
    assert_eq!(good, vec!["Morning at 2024-03-10 10:00:00".to_string()]);
    assert_eq!(bad, vec!["Later at 2024-03-12 10:00:00".to_string()]);
    let act = store.activity_read_by_id(ActivityId::new(1)).unwrap().unwrap();
    assert_eq!(act.descend, Some(700));
    assert_eq!(act.climb, Some(650));
}

#[test]
fn table_row_without_activity_goes_to_bad_list() {
    let mut store = MemStore::new();
    let headers = Some(fields(&["Datum", "Titel", "Negativer Höhenunterschied"]));
    let rows = vec![Some(fields(&["2023-11-14 22:13:20", "Ride", "300"]))];
    let (summary, good, bad) = import_table(&headers, &rows, &test_session(), &mut store).unwrap();
    assert!(good.is_empty());
    assert_eq!(bad, vec!["Ride at 2023-11-14 22:13:20".to_string()]);
    assert!(summary.activities.is_empty() && summary.usages.is_empty() && summary.parts.is_empty());
}

#[test]
fn table_with_unreadable_row_is_refused() {
    let mut store = MemStore::new();
    let headers = Some(fields(&["Datum", "Titel", "Negativer Höhenunterschied"]));
    let rows = vec![None];
    assert!(matches!(import_table(&headers, &rows, &test_session(), &mut store), Err(Error::AnyFailure(_))));
}
