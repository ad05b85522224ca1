use tendabike::error::Error;
use tendabike::shop::{Shop, ShopId};
use tendabike::store::MemStore;
use tendabike::subscription::{ShopSubscription, SubscriptionId, SubscriptionStatus};
use tendabike::timestamp::Timestamp;
use tendabike::types::PartTypeId;
use tendabike::usage::UsageId;
use tendabike::user::UserId;

fn setup_with(name: &str, auto_approve: bool) -> (MemStore, UserId, UserId, Shop) {
    let mut store = MemStore::new();
    let owner = UserId::create("Shop", "Owner", &None, &mut store).unwrap();
    let subscriber = UserId::create("Ride", "Fan", &None, &mut store).unwrap();
    let shop = ShopId::create(name.to_string(), None, auto_approve, owner, &mut store).unwrap();
    (store, owner, subscriber, shop)
}

fn setup() -> (MemStore, UserId, UserId, Shop) {
    setup_with("Bike Barn", false)
}

fn setup_auto_approve() -> (MemStore, UserId, UserId, Shop) {
    setup_with("Auto Shop", true)
}

#[test]
fn subscription_create_fresh_pending() {
    let (mut store, _, subscriber, shop) = setup();
    let sub = SubscriptionId::create(shop.id, Some("Hi!".into()), subscriber, &mut store).unwrap();
    assert_eq!(sub.status, SubscriptionStatus::Pending);
    assert_eq!(sub.shop_id, shop.id);
    assert_eq!(sub.user_id, subscriber);
    assert_eq!(sub.message, Some("Hi!".into()));
    assert_eq!(sub.response_message, None);
    assert!(sub.created_at.nanos > 0);
}

#[test]
fn subscription_create_auto_approve_active() {
    let (mut store, _, subscriber, shop) = setup_auto_approve();
    let sub = SubscriptionId::create(shop.id, None, subscriber, &mut store).unwrap();
    assert_eq!(sub.status, SubscriptionStatus::Active);
    assert_eq!(sub.response_message, Some("Welcome to Auto Shop".to_string()));
}

#[test]
fn subscription_create_unknown_shop_not_found() {
    let (mut store, _, subscriber, _) = setup();
    let result = SubscriptionId::create(ShopId(99), None, subscriber, &mut store);
    assert!(matches!(result, Err(Error::NotFound(_))));
}

#[test]
fn subscription_create_dup_pending_conflict() {
    let (mut store, _, subscriber, shop) = setup();
    SubscriptionId::create(shop.id, None, subscriber, &mut store).unwrap();
    let result = SubscriptionId::create(shop.id, None, subscriber, &mut store);
    assert!(matches!(result, Err(Error::Conflict(_))));
}

#[test]
fn subscription_create_dup_active_conflict() {
    let (mut store, _, subscriber, shop) = setup_auto_approve();
    SubscriptionId::create(shop.id, None, subscriber, &mut store).unwrap();
    let result = SubscriptionId::create(shop.id, None, subscriber, &mut store);
    assert!(matches!(result, Err(Error::Conflict(_))));
}

#[test]
fn subscription_checkuser_subscriber_ok() {
    let (mut store, _, subscriber, shop) = setup();
    let sub = SubscriptionId::create(shop.id, None, subscriber, &mut store).unwrap();
    assert!(sub.id.checkuser(subscriber, &store).is_ok());
}

#[test]
fn subscription_checkuser_shop_owner_ok() {
    let (mut store, owner, subscriber, shop) = setup();
    let sub = SubscriptionId::create(shop.id, None, subscriber, &mut store).unwrap();
    assert!(sub.id.checkuser(owner, &store).is_ok());
}

#[test]
fn subscription_checkuser_stranger_forbidden() {
    let (mut store, owner, _, shop) = setup();
    let stranger = UserId::create("Eve", "X", &None, &mut store).unwrap();
    let sub = SubscriptionId::create(shop.id, None, owner, &mut store).unwrap();
    let result = sub.id.checkuser(stranger, &store);
    assert!(matches!(result, Err(Error::Forbidden(_))));
}

#[test]
fn subscription_approve_owner_only() {
    let (mut store, owner, subscriber, shop) = setup();
    let sub = SubscriptionId::create(shop.id, None, subscriber, &mut store).unwrap();
    let result = sub.id.approve(None, subscriber, &mut store);
    assert!(matches!(result, Err(Error::Forbidden(_))));
    let approved = sub.id.approve(Some("Welcome!".to_string()), owner, &mut store).unwrap();
    assert_eq!(approved.status, SubscriptionStatus::Active);
    assert_eq!(approved.response_message, Some("Welcome!".into()));
    let read = sub.id.read(subscriber, &store).unwrap();
    assert_eq!(read.status, SubscriptionStatus::Active);
}

#[test]
fn subscription_approve_pending_only() {
    let (mut store, owner, _, shop) = setup_auto_approve();
    let sub = SubscriptionId::create(shop.id, None, owner, &mut store).unwrap();
    let result = sub.id.approve(None, owner, &mut store);
    assert!(matches!(result, Err(Error::Conflict(_))));
}

#[test]
fn subscription_reject_owner_only() {
    let (mut store, owner, subscriber, shop) = setup();
    let sub = SubscriptionId::create(shop.id, None, subscriber, &mut store).unwrap();
    let rejected = sub.id.reject(Some("Nope".to_string()), owner, &mut store).unwrap();
    assert_eq!(rejected.status, SubscriptionStatus::Rejected);
    assert_eq!(rejected.response_message, Some("Nope".into()));
}

#[test]
fn subscription_reject_non_owner_forbidden() {
    let (mut store, _, subscriber, shop) = setup();
    let sub = SubscriptionId::create(shop.id, None, subscriber, &mut store).unwrap();
    let result = sub.id.reject(None, subscriber, &mut store);
    assert!(matches!(result, Err(Error::Forbidden(_))));
}

#[test]
fn subscription_cancel_subscriber_only() {
    let (mut store, owner, subscriber, shop) = setup();
    let sub = SubscriptionId::create(shop.id, None, subscriber, &mut store).unwrap();
    let result = sub.id.cancel(owner, &mut store);
    assert!(matches!(result, Err(Error::Forbidden(_))));
    sub.id.cancel(subscriber, &mut store).unwrap();
    assert!(sub.id.read(subscriber, &store).is_err());
}

#[test]
fn subscription_cancel_active_ok() {
    let (mut store, _, subscriber, shop) = setup_auto_approve();
    let sub = SubscriptionId::create(shop.id, None, subscriber, &mut store).unwrap();
    assert_eq!(sub.status, SubscriptionStatus::Active);
    sub.id.cancel(subscriber, &mut store).unwrap();
}

#[test]
fn subscription_cancel_conflict_parts_in_shop() {
    let (mut store, _, subscriber, shop) = setup_auto_approve();
    let sub = SubscriptionId::create(shop.id, None, subscriber, &mut store).unwrap();
    assert_eq!(sub.status, SubscriptionStatus::Active);
    store
        .part_create(
            PartTypeId::from(1),
            "Test Bike".into(),
            "Trek".into(),
            "Marlin".into(),
            Timestamp::from_unix_timestamp(1_700_000_000),
            None,
            String::new(),
            UsageId::new(),
            subscriber,
            Some(shop.id),
        )
        .unwrap();
    let result = sub.id.cancel(subscriber, &mut store);
    assert!(matches!(&result, Err(Error::Conflict(msg)) if msg.contains("parts in the shop")));
}

#[test]
fn subscription_get_pending_for_shop() {
    let (mut store, owner, subscriber, shop) = setup();
    let s1 = SubscriptionId::create(shop.id, None, subscriber, &mut store).unwrap();
    store.subscription_approve(s1.id, SubscriptionStatus::Active, None).unwrap();
    let s2_user = UserId::create("U2", "L2", &None, &mut store).unwrap();
    SubscriptionId::create(shop.id, None, s2_user, &mut store).unwrap();
    let pending = ShopSubscription::get_pending_for_shop(shop.id, owner, &store).unwrap();
    assert_eq!(pending.len(), 1);
    assert_eq!(pending[0].user_id, s2_user);
    assert_eq!(pending[0].shop.name, "Bike Barn");
    let result = ShopSubscription::get_pending_for_shop(shop.id, subscriber, &store);
    assert!(matches!(result, Err(Error::Forbidden(_))));
}

#[test]
fn subscription_get_for_user() {
    let (mut store, _, subscriber, shop) = setup();
    SubscriptionId::create(shop.id, None, subscriber, &mut store).unwrap();
    let subs = ShopSubscription::get_for_user(subscriber, &store).unwrap();
    assert_eq!(subs.len(), 1);
    assert_eq!(subs[0].shop_id, shop.id);
}

#[test]
fn subscription_with_shop_details() {
    let (mut store, _, subscriber, shop) = setup();
    let sub = SubscriptionId::create(shop.id, None, subscriber, &mut store).unwrap();
    let details = ShopSubscription::with_shop_details(vec![sub], &store).unwrap();
    assert_eq!(details.len(), 1);
    assert_eq!(details[0].shop.id, shop.id);
    assert_eq!(details[0].shop.name, "Bike Barn");
}

#[test]
fn subscription_check_active_ok() {
    let (mut store, _, subscriber, shop) = setup_auto_approve();
    SubscriptionId::create(shop.id, None, subscriber, &mut store).unwrap();
    ShopId::get_for_read(shop.id.0, subscriber, &store).unwrap();
    ShopSubscription::check(shop.id, subscriber, &store).unwrap();
}

#[test]
fn subscription_check_pending_forbidden() {
    let (mut store, _, subscriber, shop) = setup();
    assert!(matches!(ShopSubscription::check(shop.id, subscriber, &store), Err(Error::Forbidden(_))));
    SubscriptionId::create(shop.id, None, subscriber, &mut store).unwrap();
    assert!(matches!(ShopSubscription::check(shop.id, subscriber, &store), Err(Error::Forbidden(_))));
    assert!(matches!(ShopId::get_for_read(shop.id.0, subscriber, &store), Err(Error::Forbidden(_))));
}

#[test]
fn subscription_get_for_shop() {
    let (mut store, _, subscriber, shop) = setup();
    SubscriptionId::create(shop.id, None, subscriber, &mut store).unwrap();
    let s2_user = UserId::create("U2", "L2", &None, &mut store).unwrap();
    SubscriptionId::create(shop.id, None, s2_user, &mut store).unwrap();
    let subs = ShopSubscription::get_for_shop(shop.id, &store).unwrap();
    assert_eq!(subs.len(), 2);
    assert!(subs[0].created_at.nanos >= subs[1].created_at.nanos);
}

#[test]
fn subscription_status_names() {
    assert_eq!(SubscriptionStatus::Pending.to_string(), "pending");
    assert_eq!(SubscriptionStatus::Active.to_string(), "active");
    assert_eq!(SubscriptionStatus::Rejected.to_string(), "rejected");
    assert_eq!(SubscriptionStatus::Cancelled.to_string(), "cancelled");
}

#[test]
fn subscription_unknown_id_not_found() {
    let (store, owner, _, _) = setup();
    assert!(matches!(SubscriptionId(42).checkuser(owner, &store), Err(Error::NotFound(_))));
    assert!(matches!(SubscriptionId::get(42, owner, &store), Err(Error::NotFound(_))));
}
