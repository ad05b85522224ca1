use tendabike::part::{Part, PartId};
use tendabike::test_support::{sample_purchase_date, test_user};
use tendabike::types::PartTypeId;
use tendabike::usage::UsageId;

#[test]
fn part_usage_returns_usage_id() {
    let test_usage = UsageId::new();
    let part = Part {
        id: PartId::from(1),
        owner: test_user(),
        what: PartTypeId::from(1),
        name: "Bike".to_string(),
        vendor: "Trek".to_string(),
        model: "Domane".to_string(),
        purchase: sample_purchase_date(),
        last_used: sample_purchase_date(),
        disposed_at: None,
        usage: test_usage,
        source: None,
        notes: "Notes".to_string(),
        shop: None,
    };

    assert_eq!(part.usage(), test_usage);
}
