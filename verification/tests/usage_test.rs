use tendabike::usage::{Usage, UsageId};

fn u(time: i32, distance: i32, climb: i32, descend: i32, energy: i32, count: i32) -> Usage {
    Usage { id: UsageId::default(), time, distance, climb, descend, energy, count }
}

#[test]
fn usage_add_two_usages() {
    let u1 = u(1000, 5000, 100, 80, 500, 1);
    let u2 = u(2000, 15000, 300, 200, 1500, 2);
    let combined = &u1 + &u2;
    assert_eq!(combined.time, 3000);
    assert_eq!(combined.distance, 20000);
    assert_eq!(combined.climb, 400);
    assert_eq!(combined.descend, 280);
    assert_eq!(combined.energy, 2000);
    assert_eq!(combined.count, 3);
}

#[test]
fn usage_subtracts_correctly() {
    let u1 = u(3000, 20000, 400, 280, 2000, 3);
    let u2 = u(1000, 5000, 100, 80, 500, 1);
    let diff = u1 - u2;
    assert_eq!(diff.time, 2000);
    assert_eq!(diff.distance, 15000);
    assert_eq!(diff.climb, 300);
    assert_eq!(diff.descend, 200);
    assert_eq!(diff.energy, 1500);
    assert_eq!(diff.count, 2);
}

#[test]
fn usage_negation_produces_inverted() {
    let x = u(1000, 5000, 100, 80, 500, 1);
    let neg_u = -x;
    assert_eq!(neg_u.time, -1000);
    assert_eq!(neg_u.distance, -5000);
    assert_eq!(neg_u.climb, -100);
    assert_eq!(neg_u.descend, -80);
    assert_eq!(neg_u.energy, -500);
    assert_eq!(neg_u.count, -1);
}

#[test]
fn usage_add_vec_adds_single() {
    let u1 = u(1000, 5000, 100, 80, 500, 1);
    let u2 = u(2000, 15000, 300, 200, 1500, 2);
    let increment = u(500, 2000, 100, 50, 250, 1);
    let result = vec![u1, u2] + &increment;
    assert_eq!(result[0].time, 1500);
    assert_eq!(result[1].time, 2500);
    assert_eq!(result[0].distance, 7000);
    assert_eq!(result[1].distance, 17000);
}

#[test]
fn usage_add_keeps_left_id() {
    let mut a = u(1, 1, 1, 1, 1, 1);
    a.id = UsageId(7);
    let mut b = u(1, 1, 1, 1, 1, 1);
    b.id = UsageId(9);
    assert_eq!((&a + &b).id, UsageId(7));
    assert_eq!((a - b).id, UsageId(7));
    assert_eq!((-a).id, UsageId(7));
}

#[test]
fn usage_add_then_sub_restores() {
    let a = u(3, 4, 5, 6, 7, 8);
    let b = u(-1, 20, 0, 2, 9, 1);
    assert_eq!((&a + &b) - b, a);
    assert_eq!(-(-a), a);
}

#[test]
fn new_usage_is_zero_with_id() {
    let id = UsageId::new();
    let x = Usage::new(id);
    assert_eq!(x, Usage { id, time: 0, distance: 0, climb: 0, descend: 0, energy: 0, count: 0 });
    assert_ne!(id, UsageId::default());
}

#[test]
fn usage_id_text_is_hyphenated_uuid() {
    let s = UsageId(0x0123456789abcdef0123456789abcdefu128).to_string();
    assert_eq!(s, "01234567-89ab-cdef-0123-456789abcdef");
}

#[test]
fn usage_sum_does_not_depend_on_order_and_minus_is_plus_negated() {
    let a = u(3, 4, 5, 6, 7, 8);
    let b = u(-1, 20, 0, 2, 9, 1);
    let ab = &a + &b;
    let ba = &b + &a;
    assert_eq!((ab.time, ab.distance, ab.climb, ab.descend, ab.energy, ab.count),
        (ba.time, ba.distance, ba.climb, ba.descend, ba.energy, ba.count));
    assert_eq!(a - b, &a + &(-b));
}
