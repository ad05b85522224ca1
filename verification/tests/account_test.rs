use tendabike::error::Error;
use tendabike::shop::ShopId;
use tendabike::store::MemStore;
use tendabike::subscription::SubscriptionId;
use tendabike::timestamp::Timestamp;
use tendabike::types::PartTypeId;
use tendabike::usage::UsageId;
use tendabike::user::{OnboardingStatus, UserId};

#[test]
fn user_create_and_read() {
    let mut store = MemStore::new();
    let id = UserId::create("Tenda", "Bike", &Some("pic.png".to_string()), &mut store).unwrap();
    assert_eq!(id, UserId(1));
    let user = id.read(&store).unwrap();
    assert_eq!(user.firstname, "Tenda");
    assert_eq!(user.name, "Bike");
    assert_eq!(user.avatar, Some("pic.png".to_string()));
    assert!(!user.is_admin);
    assert_eq!(user.onboarding_status, OnboardingStatus::Pending);
    assert!(!id.is_admin(&store).unwrap());
    let second = UserId::create("B", "C", &None, &mut store).unwrap();
    assert_eq!(second, UserId(2));
}

#[test]
fn user_get_public_and_update() {
    let mut store = MemStore::new();
    let id = UserId::create("Tenda", "Bike", &None, &mut store).unwrap();
    let public = id.get_public(&store).unwrap();
    assert_eq!(public.id, id);
    assert_eq!(public.firstname, "Tenda");
    assert_eq!(id.update("New", "Name", &Some("a.png".into()), &mut store).unwrap(), id);
    let user = id.read(&store).unwrap();
    assert_eq!(user.firstname, "New");
    assert_eq!(user.name, "Name");
    assert_eq!(user.avatar, Some("a.png".into()));
    assert!(matches!(UserId(9).update("a", "b", &None, &mut store), Err(Error::NotFound(_))));
    assert!(matches!(UserId(9).read(&store), Err(Error::NotFound(_))));
    assert!(matches!(UserId(9).get_public(&store), Err(Error::NotFound(_))));
}

#[test]
fn user_update_onboarding_status() {
    let mut store = MemStore::new();
    let id = UserId::create("Tenda", "Bike", &None, &mut store).unwrap();
    let user = store.update_onboarding_status(&id, OnboardingStatus::Completed).unwrap();
    assert_eq!(user.onboarding_status, OnboardingStatus::Completed);
    assert!(id.read(&store).unwrap().onboarding_status.is_initial_sync_completed());
}

#[test]
fn user_stat_counts_parts_and_activities() {
    let mut store = MemStore::new();
    let id = UserId::create("Tenda", "Bike", &None, &mut store).unwrap();
    for name in ["One", "Two"] {
        store
            .part_create(
                PartTypeId::from(1),
                name.into(),
                "Trek".into(),
                "Marlin".into(),
                Timestamp::from_unix_timestamp(1_700_000_000),
                None,
                String::new(),
                UsageId::new(),
                id,
                None,
            )
            .unwrap();
    }
    let stat = id.get_stat(&store).unwrap();
    assert_eq!(stat.parts, 2);
    assert_eq!(stat.activities, 0);
    assert_eq!(stat.user.firstname, "Tenda");
    assert!(matches!(UserId(5).get_stat(&store), Err(Error::NotFound(_))));
}

#[test]
fn user_summary_and_delete() {
    let mut store = MemStore::new();
    let id = UserId::create("Tenda", "Bike", &None, &mut store).unwrap();
    let other = UserId::create("Other", "Rider", &None, &mut store).unwrap();
    let shop = ShopId::create("Bike Barn".into(), None, true, other, &mut store).unwrap();
    SubscriptionId::create(shop.id, None, id, &mut store).unwrap();
    let part = store
        .part_create(
            PartTypeId::from(1),
            "Bike".into(),
            "Trek".into(),
            "Marlin".into(),
            Timestamp::from_unix_timestamp(1_700_000_000),
            None,
            String::new(),
            UsageId::new(),
            id,
            None,
        )
        .unwrap();
    let summary = id.get_summary(None, &store).unwrap();
    assert_eq!(summary.parts.len(), 1);
    assert_eq!(summary.parts[0].id, part.id);
    assert_eq!(summary.usages.len(), 1);
    assert_eq!(summary.shops.len(), 1);
    assert_eq!(summary.shops[0].owner_firstname, "Other");
    id.delete(&mut store).unwrap();
    assert!(matches!(id.read(&store), Err(Error::NotFound(_))));
    assert!(store.partid_get_part(part.id).is_err());
    assert!(other.read(&store).is_ok());
    assert!(shop.id.read(&store).is_ok());
}
