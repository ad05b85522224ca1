use tendabike::error::Error;
use tendabike::part::PartId;
use tendabike::shop::{Shop, ShopId};
use tendabike::store::MemStore;
use tendabike::subscription::{SubscriptionId, SubscriptionStatus};
use tendabike::test_support::TestSession;
use tendabike::timestamp::Timestamp;
use tendabike::types::PartTypeId;
use tendabike::usage::UsageId;
use tendabike::user::UserId;

fn users(store: &mut MemStore) -> (UserId, UserId) {
    let owner = UserId::create("Shop", "Owner", &None, store).unwrap();
    let other = UserId::create("Ride", "Fan", &None, store).unwrap();
    (owner, other)
}

fn bike(store: &mut MemStore, owner: UserId) -> PartId {
    store
        .part_create(
            PartTypeId::from(1),
            "Bike".into(),
            "Trek".into(),
            "Marlin".into(),
            Timestamp::from_unix_timestamp(1_700_000_000),
            None,
            String::new(),
            UsageId::new(),
            owner,
            None,
        )
        .unwrap()
        .id
}

#[test]
fn shop_create_read_update() {
    let mut store = MemStore::new();
    let (owner, other) = users(&mut store);
    let shop = ShopId::create("Bike Barn".into(), Some("Repairs".into()), false, owner, &mut store).unwrap();
    assert_eq!(shop.id, ShopId(1));
    assert_eq!(shop.owner, owner);
    let read = shop.id.read(&store).unwrap();
    assert_eq!(read.name, "Bike Barn");
    assert!(matches!(
        shop.id.update("X".into(), None, true, other, &mut store),
        Err(Error::Forbidden(_))
    ));
    let updated = shop.id.update("Bike Hall".into(), None, true, owner, &mut store).unwrap();
    assert_eq!(updated.name, "Bike Hall");
    assert!(updated.auto_approve);
    assert_eq!(updated.description, None);
    assert!(matches!(ShopId(7).read(&store), Err(Error::NotFound(_))));
}

#[test]
fn shop_access_checks() {
    let mut store = MemStore::new();
    let (owner, other) = users(&mut store);
    let shop = ShopId::create("Bike Barn".into(), None, true, owner, &mut store).unwrap();
    assert_eq!(ShopId::get(shop.id.0, owner, &store).unwrap(), shop.id);
    assert!(matches!(ShopId::get(shop.id.0, other, &store), Err(Error::Forbidden(_))));
    assert!(matches!(ShopId::get(99, owner, &store), Err(Error::NotFound(_))));
    assert!(matches!(ShopId::get_for_read(shop.id.0, other, &store), Err(Error::Forbidden(_))));
    SubscriptionId::create(shop.id, None, other, &mut store).unwrap();
    assert_eq!(ShopId::get_for_read(shop.id.0, other, &store).unwrap(), shop.id);
}

#[test]
fn shop_search_ignores_case_and_orders_by_name() {
    let mut store = MemStore::new();
    let (owner, _) = users(&mut store);
    ShopId::create("Zweirad Zentrale".into(), None, false, owner, &mut store).unwrap();
    ShopId::create("BIKE Barn".into(), None, false, owner, &mut store).unwrap();
    ShopId::create("Alpine Bikes".into(), None, false, owner, &mut store).unwrap();
    let found = Shop::search("bike", &store).unwrap();
    let names: Vec<String> = found.iter().map(|s| s.name.clone()).collect();
    assert_eq!(names, vec!["Alpine Bikes".to_string(), "BIKE Barn".to_string()]);
    let all = Shop::search("", &store).unwrap();
    assert_eq!(all.len(), 3);
    assert_eq!(all[0].name, "Alpine Bikes");
    assert_eq!(all[2].name, "Zweirad Zentrale");
    assert!(Shop::search("carbon", &store).unwrap().is_empty());
}

#[test]
fn shops_for_user_are_owned_or_actively_subscribed() {
    let mut store = MemStore::new();
    let (owner, other) = users(&mut store);
    let a = ShopId::create("B shop".into(), None, false, owner, &mut store).unwrap();
    let b = ShopId::create("A shop".into(), None, true, owner, &mut store).unwrap();
    let c = ShopId::create("C shop".into(), None, false, other, &mut store).unwrap();
    SubscriptionId::create(a.id, None, other, &mut store).unwrap();
    SubscriptionId::create(b.id, None, other, &mut store).unwrap();
    let mine = Shop::get_all_for_user(&owner, &store).unwrap();
    let ids: Vec<ShopId> = mine.iter().map(|s| s.id).collect();
    assert_eq!(ids, vec![b.id, a.id]);
    let theirs = Shop::get_all_for_user(&other, &store).unwrap();
    let ids: Vec<ShopId> = theirs.iter().map(|s| s.id).collect();
    assert_eq!(ids, vec![b.id, c.id]);
}

#[test]
fn shop_get_users_lists_owners_and_subscribers() {
    let mut store = MemStore::new();
    let (owner, other) = users(&mut store);
    let shop = ShopId::create("Bike Barn".into(), None, false, owner, &mut store).unwrap();
    SubscriptionId::create(shop.id, None, other, &mut store).unwrap();
    let shops = vec![shop.clone(), shop.clone()];
    let mut users_of_owner: Vec<i32> = Shop::get_users(&shops, &owner, &store).unwrap().iter().map(|u| u.id.0).collect();
    users_of_owner.sort();
    assert_eq!(users_of_owner, vec![owner.0, other.0]);
    let users_of_other: Vec<i32> = Shop::get_users(&shops, &other, &store).unwrap().iter().map(|u| u.id.0).collect();
    assert_eq!(users_of_other, vec![owner.0]);
    let orphan = Shop { owner: UserId(77), ..shop };
    assert!(matches!(Shop::get_users(&vec![orphan], &owner, &store), Err(Error::NotFound(_))));
}

#[test]
fn shop_register_and_unregister_parts() {
    let mut store = MemStore::new();
    let (owner, other) = users(&mut store);
    let shop = ShopId::create("Bike Barn".into(), None, true, owner, &mut store).unwrap();
    let bike_id = bike(&mut store, other);
    let session = TestSession::new(other);
    assert!(matches!(shop.id.register_part(bike_id, &session, &mut store), Err(Error::Forbidden(_))));
    let sub = SubscriptionId::create(shop.id, None, other, &mut store).unwrap();
    assert_eq!(sub.status, SubscriptionStatus::Active);
    let sum = shop.id.register_part(bike_id, &session, &mut store).unwrap();
    assert_eq!(sum.parts.len(), 1);
    assert_eq!(sum.parts[0].shop, Some(shop.id));
    let parts = shop.id.get_parts(owner, &store).unwrap();
    assert_eq!(parts.len(), 1);
    assert!(matches!(shop.id.get_parts(other, &store), Err(Error::Forbidden(_))));
    assert!(matches!(shop.id.delete(owner, &mut store), Err(Error::Conflict(_))));
    let sum = shop.id.unregister_part(bike_id, &session, &mut store).unwrap();
    assert_eq!(sum.parts[0].shop, None);
    assert_eq!(shop.id.delete(owner, &mut store).unwrap(), shop.id);
    assert!(matches!(shop.id.read(&store), Err(Error::NotFound(_))));
}
