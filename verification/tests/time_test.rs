use tendabike::timestamp::{round_time, Timestamp};

const NS: i128 = 1_000_000_000;

fn utc(secs: i128, nanos: i128) -> Timestamp {
    Timestamp { nanos: secs * NS + nanos, offset: 0 }
}

fn at_offset(utc_secs: i128, nanos: i128, offset: i32) -> Timestamp {
    Timestamp { nanos: utc_secs * NS + nanos, offset }
}

fn same(a: Timestamp, b: Timestamp) -> bool {
    a.nanos == b.nanos && a.offset == b.offset
}

#[test]
fn test_round_time() {
    // 2020-01-01 0:00:00 UTC
    assert!(same(round_time(utc(1_577_836_800, 0)), utc(1_577_836_800, 0)));
    // 2020-01-01 0:07:07.0077 UTC
    assert!(same(round_time(utc(1_577_836_800 + 427, 7_700_000)), utc(1_577_836_800, 0)));
    // 2020-02-28 0:15 -1 (01:15 UTC)
    assert!(same(
        round_time(at_offset(1_582_848_000 + 3600 + 900, 0, -3600)),
        at_offset(1_582_848_000 + 3600 + 900, 0, -3600)
    ));
    // 2020-02-28 0:29:07.0077 -1
    assert!(same(
        round_time(at_offset(1_582_848_000 + 3600 + 29 * 60 + 7, 7_700_000, -3600)),
        at_offset(1_582_848_000 + 3600 + 900, 0, -3600)
    ));
}

#[test]
fn round_time_twice_is_round_time_once() {
    let t = at_offset(1_582_848_000 + 3600 + 29 * 60 + 7, 7_700_000, 5400);
    let once = round_time(t);
    assert!(same(round_time(once), once));
}

#[test]
fn round_time_follows_the_wall_clock_of_half_hour_offsets() {
    // 10:20 UTC is 11:50 at +1:30; the quarter starts at 11:45, i.e. 10:15 UTC
    let t = at_offset(1_700_000_000 - 1_700_000_000 % 86_400 + 10 * 3600 + 20 * 60, 0, 5400);
    let r = round_time(t);
    assert_eq!(r.nanos, (1_700_000_000 - 1_700_000_000 % 86_400 + 10 * 3600 + 15 * 60) * NS);
    assert_eq!(r.offset, 5400);
}

#[test]
fn round_time_before_the_epoch() {
    // 1969-12-31 23:59:59 UTC rounds to 23:45
    assert!(same(round_time(utc(-1, 0)), utc(-900, 0)));
}
