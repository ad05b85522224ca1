use tendabike::summary::Summary;
use tendabike::usage::{Usage, UsageId};

fn usage(id: UsageId, count: i32, time: i32) -> Usage {
    Usage { id, time, distance: 0, climb: 0, descend: 0, energy: 0, count }
}

fn with_usages(usages: Vec<Usage>) -> Summary {
    let mut s = Summary::empty();
    s.usages = usages;
    s
}

#[test]
fn add_summaries() {
    let id1 = UsageId::new();
    let id2 = UsageId::new();
    let usage1 = usage(id1, 1, 1);
    let usage2 = usage(id2, 2, 2);
    let usage3 = usage(id1, 3, 3);
    let sum1 = with_usages(vec![usage1]);
    let sum2 = with_usages(vec![usage2]);
    let sum3 = with_usages(vec![usage3]);
    let same = sum1.clone().merge(sum1.clone());
    assert_eq!(same.usages, sum1.usages);
    let sum4 = sum1.merge(sum2.clone());
    assert!(sum4.usages.len() == 2);
    let sum4 = sum4.merge(sum3.clone());
    assert_eq!(sum4.usages.len(), 2);
    let u1 = sum4.usages.iter().find(|u| u.id == id1).unwrap();
    let u2 = sum4.usages.iter().find(|u| u.id == id2).unwrap();
    assert_eq!(*u1, sum3.usages[0]);
    assert_eq!(*u2, sum2.usages[0]);
}
