use tendabike::activity::{Activity, ActivityId};
use tendabike::attachment::Attachment;
use tendabike::db::{vec_into, option_into, DbActivity, DbAttachment, DbEvent, DbService, DbServicePlan, DbStravaUser, DbSubscription, DbUsage, DbUser};
use tendabike::shop::ShopId;
use tendabike::subscription::{ShopSubscription, SubscriptionStatus};
use tendabike::service::{Service, ServiceId};
use tendabike::serviceplan::{ServicePlan, ServicePlanId};
use tendabike::types::PartTypeId;
use tendabike::types::ActTypeId;
use tendabike::error::Error;
use tendabike::part::PartId;
use tendabike::partnote::{DbPartNote, NoteKind, PartNote, PartNoteId};
use tendabike::timestamp::Timestamp;
use tendabike::usage::{Usage, UsageId};
use tendabike::user::{OnboardingStatus, User, UserId};

#[test]
fn db_strava_user_and_event_defaults() {
    let user = DbStravaUser::default();
    assert_eq!(user.id, 0);
    assert_eq!(user.tendabike_id, 0);
    assert_eq!(user.refresh_token, None);
    let event = DbEvent::default();
    assert_eq!(event.id, None);
    assert_eq!(event.object_type, "");
    assert_eq!(event.object_id, 0);
    assert_eq!(event.aspect_type, "");
    assert_eq!(event.updates, "");
    assert_eq!(event.owner_id, 0);
    assert_eq!(event.subscription_id, 0);
    assert_eq!(event.event_time, 0);
}

#[test]
fn onboarding_status_roundtrips_through_i32() {
    for status in [
        OnboardingStatus::Pending,
        OnboardingStatus::InitialSyncPostponed,
        OnboardingStatus::Completed,
    ] {
        assert_eq!(OnboardingStatus::try_from(i32::from(status)).unwrap(), status);
    }
    assert!(matches!(
        OnboardingStatus::try_from(1),
        Err(Error::BadRequest(msg)) if msg == "Invalid onboarding status: 1"
    ));
}

#[test]
fn user_db_roundtrip_preserves_fields() {
    let user = User {
        id: UserId::from(7),
        name: "Bike".to_string(),
        firstname: "Tenda".to_string(),
        avatar: Some("pic.png".to_string()),
        is_admin: false,
        onboarding_status: OnboardingStatus::Completed,
    };
    let db = DbUser::from(user);
    assert_eq!(db.id, 7);
    assert_eq!(db.name, "Bike");
    assert_eq!(db.firstname, "Tenda");
    assert_eq!(db.avatar.as_deref(), Some("pic.png"));
    assert!(!db.is_admin);
    assert_eq!(db.onboarding_status, 99);
    let back = db.into_user();
    assert_eq!(back.id, UserId::from(7));
    assert_eq!(back.name, "Bike");
    assert_eq!(back.firstname, "Tenda");
    assert_eq!(back.avatar.as_deref(), Some("pic.png"));
    assert!(!back.is_admin);
    assert_eq!(back.onboarding_status, OnboardingStatus::Completed);
}

#[test]
#[should_panic(expected = "Invalid onboarding status in database")]
fn user_from_db_panics_on_unknown_onboarding_status() {
    let db = DbUser {
        id: 1,
        name: "Bike".to_string(),
        firstname: "Tenda".to_string(),
        avatar: None,
        is_admin: false,
        onboarding_status: 5,
    };
    let _ = db.into_user();
}

#[test]
fn user_row_with_unknown_status_is_a_bad_request() {
    let db = DbUser {
        id: 1,
        name: "Bike".to_string(),
        firstname: "Tenda".to_string(),
        avatar: None,
        is_admin: false,
        onboarding_status: 5,
    };
    assert!(matches!(db.try_into_user(), Err(Error::BadRequest(_))));
}

#[test]
fn usage_row_roundtrip_and_missing_counters() {
    let u = Usage { id: UsageId(9), time: 1, distance: 2, climb: 3, descend: 4, energy: 5, count: 6 };
    let row = DbUsage::from_usage(&u);
    assert_eq!(row.time, Some(1));
    assert_eq!(row.count, Some(6));
    assert_eq!(Usage::from(row), u);
    let sparse = DbUsage { id: 9, time: None, distance: Some(2), climb: None, descend: None, energy: 5, count: None };
    assert_eq!(
        Usage::from(sparse),
        Usage { id: UsageId(9), time: 0, distance: 2, climb: 0, descend: 0, energy: 5, count: 0 }
    );
}

fn date() -> Timestamp {
    Timestamp::from_unix_timestamp(1_700_000_000)
}

fn db_note(kind: &str) -> DbPartNote {
    DbPartNote {
        id: 7,
        part: 3,
        kind: kind.to_string(),
        name: "torn tire".to_string(),
        mime: Some("image/png".to_string()),
        filename: Some("tire.png".to_string()),
        size: Some(1234),
        created: date(),
    }
}

#[test]
fn from_db_part_note_maps_file_kind() {
    let note = PartNote::from(db_note("file"));
    assert_eq!(note.id, PartNoteId::from(7));
    assert_eq!(note.part, PartId::from(3));
    assert_eq!(note.kind, NoteKind::File);
    assert_eq!(note.name, "torn tire");
    assert_eq!(note.mime, Some("image/png".to_string()));
    assert_eq!(note.filename, Some("tire.png".to_string()));
    assert_eq!(note.size, Some(1234));
    assert_eq!(note.created.nanos, date().nanos);
}

#[test]
fn from_db_part_note_maps_text_kind() {
    let db = DbPartNote { mime: None, filename: None, size: None, ..db_note("text") };
    let note = PartNote::from(db);
    assert_eq!(note.kind, NoteKind::Text);
    assert_eq!(note.mime, None);
    assert_eq!(note.filename, None);
    assert_eq!(note.size, None);
}

#[test]
fn from_db_part_note_unknown_kind_falls_back_to_text() {
    let note = PartNote::from(db_note("garbage"));
    assert_eq!(note.kind, NoteKind::Text);
}

#[test]
fn part_note_is_image_only_for_image_files() {
    assert!(PartNote::from(db_note("file")).is_image());
    assert!(!PartNote::from(db_note("text")).is_image());
    let pdf = DbPartNote { mime: Some("application/pdf".to_string()), ..db_note("file") };
    assert!(!PartNote::from(pdf).is_image());
    let short = DbPartNote { mime: Some("image".to_string()), ..db_note("file") };
    assert!(!PartNote::from(short).is_image());
}

fn instant(offset_secs: i32) -> Timestamp {
    Timestamp { nanos: 1_718_430_600i128 * 1_000_000_000, offset: offset_secs }
}

fn activity() -> Activity {
    Activity {
        id: ActivityId::from(42),
        user_id: UserId::from(1),
        what: ActTypeId::from(4),
        name: "Morning Ride".to_string(),
        start: instant(7200),
        duration: 3600,
        time: Some(3600),
        distance: Some(25000),
        climb: Some(300),
        descend: Some(300),
        energy: Some(3000000),
        gear: Some(PartId::from(1)),
        device_name: Some("Garmin".to_string()),
        external_id: None,
    }
}

fn db_activity(utc_offset: i32) -> DbActivity {
    DbActivity {
        user_id: 1,
        what: 4,
        name: "Morning Ride".to_string(),
        start: instant(7200),
        duration: 3600,
        time: Some(3600),
        distance: Some(25000),
        climb: Some(300),
        descend: Some(300),
        energy: Some(3000000),
        gear: Some(1),
        utc_offset,
        id: 42,
        device_name: Some("Garmin".to_string()),
        external_id: None,
    }
}

#[test]
fn activity_into_db_derives_utc_offset() {
    let db = DbActivity::from(activity());
    assert_eq!(db.utc_offset, 7200);
    assert_eq!(db.id, 42);
    assert_eq!(db.user_id, 1);
    assert_eq!(db.gear, Some(1));
}

#[test]
fn activity_db_roundtrip_preserves_fields() {
    let activity = activity();
    let db = DbActivity::from(activity.clone());
    let back = db.try_into_activity().unwrap();
    assert_eq!(back.id, activity.id);
    assert_eq!(back.user_id, activity.user_id);
    assert_eq!(back.what, activity.what);
    assert_eq!(back.name, activity.name);
    assert_eq!(back.start.nanos, activity.start.nanos);
    assert_eq!(back.duration, activity.duration);
    assert_eq!(back.time, activity.time);
    assert_eq!(back.distance, activity.distance);
    assert_eq!(back.climb, activity.climb);
    assert_eq!(back.descend, activity.descend);
    assert_eq!(back.energy, activity.energy);
    assert_eq!(back.gear, activity.gear);
    assert_eq!(back.device_name, activity.device_name);
    assert_eq!(back.external_id, activity.external_id);
    assert_eq!(back.start.offset, 7200);
}

#[test]
fn activity_db_roundtrip_rounds_offset_to_half_hours() {
    for (stored, expected) in [(3601, 3600), (0, 0), (-3601, -1800), (-7200, -5400)] {
        let back = db_activity(stored).try_into_activity().unwrap();
        assert_eq!(back.start.offset, expected);
    }
}

#[test]
fn activity_db_roundtrip_rejects_out_of_range_offset() {
    for offset in [100000, -100000] {
        let err = db_activity(offset).try_into_activity().unwrap_err();
        assert!(matches!(err, Error::AnyFailure(failure) if failure.contains("Utc Offset invalid")));
    }
}

#[test]
fn activity_rows_map_all_rows() {
    let rows = vec![db_activity(7200), db_activity(0)];
    let acts: Vec<Activity> = rows.into_iter().map(|r| r.try_into_activity().unwrap()).collect();
    assert_eq!(acts.len(), 2);
    assert_eq!(acts[0].id, ActivityId::from(42));
}

fn uuid() -> u128 {
    0x6ba7b810_9dad_11d1_80b4_00c04fd430c8
}

fn service() -> Service {
    Service {
        id: ServiceId(uuid()),
        part_id: PartId::from(2),
        time: date(),
        redone: date(),
        name: "Bleed brakes".to_string(),
        notes: "all four".to_string(),
        usage: UsageId(uuid()),
        successor: Some(ServiceId(uuid())),
        plans: vec![ServicePlanId(uuid())],
    }
}

#[test]
fn service_into_db_maps_ids_and_plans() {
    let service = service();
    let db = DbService::from_service(service.clone());
    assert_eq!(db.id, service.id.0);
    assert_eq!(db.part_id, 2);
    assert_eq!(db.usage, service.usage.0);
    assert_eq!(db.successor, service.successor.map(|s| s.0));
    assert_eq!(db.plans, service.plans.iter().map(|p| p.0).collect::<Vec<_>>());
}

#[test]
fn service_db_roundtrip_preserves_fields() {
    let service = service();
    let back = DbService::from_service(service.clone()).into_service();
    assert_eq!(back.id, service.id);
    assert_eq!(back.part_id, service.part_id);
    assert_eq!(back.time.nanos, service.time.nanos);
    assert_eq!(back.redone.nanos, service.redone.nanos);
    assert_eq!(back.name, service.name);
    assert_eq!(back.notes, service.notes);
    assert_eq!(back.usage, service.usage);
    assert_eq!(back.successor, service.successor);
    assert_eq!(back.plans, service.plans);
}

#[test]
fn service_plan_row_roundtrip() {
    let plan = ServicePlan {
        id: ServicePlanId(uuid()),
        part: None,
        what: PartTypeId(1),
        hook: Some(PartTypeId(4)),
        name: "Chain".to_string(),
        days: Some(365),
        hours: None,
        km: Some(3000),
        climb: None,
        descend: None,
        rides: None,
        uid: Some(UserId(1)),
        energy: None,
    };
    let row = DbServicePlan::from(plan.clone());
    assert_eq!(row.hook, Some(4));
    assert_eq!(row.uid, Some(1));
    let back = ServicePlan::from(row);
    assert_eq!(back.id, plan.id);
    assert_eq!(back.hook, plan.hook);
    assert_eq!(back.uid, plan.uid);
    assert_eq!(back.km, plan.km);
    assert_eq!(back.name, plan.name);
}

fn sub_row(status: &str) -> DbSubscription {
    DbSubscription {
        id: 3,
        shop_id: 4,
        user_id: 5,
        status: status.to_string(),
        message: Some("Hi".to_string()),
        response_message: None,
        created_at: date(),
        updated_at: date(),
    }
}

#[test]
fn subscription_rows_map_status_names() {
    for (name, status) in [
        ("pending", SubscriptionStatus::Pending),
        ("active", SubscriptionStatus::Active),
        ("rejected", SubscriptionStatus::Rejected),
        ("cancelled", SubscriptionStatus::Cancelled),
        ("garbage", SubscriptionStatus::Pending),
    ] {
        let sub = ShopSubscription::from(sub_row(name));
        assert_eq!(sub.status, status);
        assert_eq!(sub.shop_id, ShopId(4));
        assert_eq!(sub.user_id, UserId(5));
    }
    for status in [
        SubscriptionStatus::Pending,
        SubscriptionStatus::Active,
        SubscriptionStatus::Rejected,
        SubscriptionStatus::Cancelled,
    ] {
        let sub = ShopSubscription::from(sub_row(&status.to_string()));
        assert_eq!(sub.status, status);
    }
}

#[test]
fn attachment_row_roundtrip() {
    let a = Attachment::new(PartId(2), date(), PartId(1), PartTypeId(4), date());
    let row = DbAttachment::from(a);
    assert_eq!(row.part_id, 2);
    assert_eq!(row.hook, 4);
    let back = Attachment::from(row);
    assert_eq!(back.part_id, a.part_id);
    assert_eq!(back.gear, a.gear);
    assert_eq!(back.hook, a.hook);
    assert_eq!(back.usage, a.usage);
    assert_eq!(back.attached.nanos, a.attached.nanos);
}

#[test]
fn vec_into_maps_every_element() {
    let ids: Vec<PartId> = vec_into(vec![1, 2, 3]);
    assert_eq!(ids, vec![PartId::from(1), PartId::from(2), PartId::from(3)]);
    let empty: Vec<PartId> = vec_into(Vec::<i32>::new());
    assert!(empty.is_empty());
}

#[test]
fn option_into_maps_some_and_none() {
    let some: Option<PartId> = option_into(Some(7));
    assert_eq!(some, Some(PartId::from(7)));
    let none: Option<PartId> = option_into(None::<i32>);
    assert_eq!(none, None);
}
