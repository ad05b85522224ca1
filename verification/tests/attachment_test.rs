use tendabike::attachment::Attachment;
use tendabike::part::PartId;
use tendabike::timestamp::{max_time, Timestamp};
use tendabike::types::PartTypeId;
use tendabike::usage::UsageId;

fn attachment_time() -> Timestamp {
    Timestamp::from_unix_timestamp(1_704_067_200)
}

fn later_time() -> Timestamp {
    Timestamp::from_unix_timestamp(1_717_200_000)
}

fn bike_id() -> PartId {
    PartId::from(1)
}

fn chain_id() -> PartId {
    PartId::from(2)
}

const CHAIN: PartTypeId = PartTypeId(4);

#[test]
fn new_creates_correct_struct() {
    let a = Attachment::new(chain_id(), attachment_time(), bike_id(), CHAIN, max_time());
    assert_eq!(a.part_id, chain_id());
    assert_eq!(a.attached.nanos, attachment_time().nanos);
    assert_eq!(a.gear, bike_id());
    assert_eq!(a.hook, CHAIN);
    assert_eq!(a.detached.nanos, max_time().nanos);
    assert_ne!(a.usage, UsageId::default());
}

#[test]
fn new_sets_default_detached_to_max_time() {
    let a = Attachment::new(chain_id(), attachment_time(), bike_id(), CHAIN, max_time());
    assert_eq!(a.detached.nanos, max_time().nanos);
}

#[test]
fn new_allows_explicit_detached_time() {
    let a = Attachment::new(chain_id(), attachment_time(), bike_id(), CHAIN, later_time());
    assert_eq!(a.detached.nanos, later_time().nanos);
}
