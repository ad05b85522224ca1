use tendabike::attachment::Attachment;
use tendabike::part::{Part, PartId};
use tendabike::shop::ShopId;
use tendabike::store::MemStore;
use tendabike::test_support::{sample_purchase_date, test_session, test_user};
use tendabike::timestamp::max_time;
use tendabike::types::PartTypeId;
use tendabike::usage::{Usage, UsageId};
use tendabike::user::{OnboardingStatus, User};

fn part(id: i32, what: i32, shop: Option<ShopId>) -> Part {
    let mut scratch = MemStore::new();
    let mut p = Part::create(
        format!("Part {}", id),
        "Vendor".to_string(),
        "Model".to_string(),
        PartTypeId(what),
        None,
        sample_purchase_date(),
        String::new(),
        &test_session(),
        &mut scratch,
    )
    .unwrap();
    p.id = PartId(id);
    p.shop = shop;
    p
}

fn user(id: i32) -> User {
    User {
        id: tendabike::user::UserId(id),
        name: "Doe".to_string(),
        firstname: "Jane".to_string(),
        avatar: None,
        is_admin: false,
        onboarding_status: OnboardingStatus::Completed,
    }
}

#[test]
fn snapshot_store_holds_its_entities_and_next_ids() {
    let parts = vec![part(3, 1, None), part(7, 2, Some(ShopId(4))), part(5, 3, Some(ShopId(2)))];
    let users = vec![user(1), user(6)];
    let atts = vec![Attachment::new(PartId(7), sample_purchase_date(), PartId(3), PartTypeId(1), max_time())];
    let usages = vec![Usage::new(UsageId(42))];
    let store = MemStore::from_snapshot(&users, &parts, &atts, &usages, &vec![]);
    assert_eq!(store.next_part_id, 8);
    assert_eq!(store.dir.next_user_id, 7);
    assert_eq!(store.dir.next_shop_id, 5);
    assert_eq!(store.dir.next_subscription_id, 1);
    assert_eq!(store.parts.len(), 3);
    assert_eq!(store.parts.get(&7).unwrap().name, "Part 7");
    assert_eq!(store.attachments.len(), 1);
    assert!(store.usages.contains_key(&42));
    assert_eq!(store.dir.users.len(), 2);
    let _ = test_user();
}

#[test]
fn empty_snapshot_starts_ids_at_one() {
    let store = MemStore::from_snapshot(&vec![], &vec![], &vec![], &vec![], &vec![]);
    assert_eq!(store.next_part_id, 1);
    assert_eq!(store.dir.next_user_id, 1);
    assert_eq!(store.dir.next_shop_id, 1);
}
