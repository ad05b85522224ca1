use vstd::prelude::*;

verus! {

/// Nanoseconds per second.
pub const NANOS_PER_SEC: i128 = 1_000_000_000i128;

/// Length of a quarter of an hour in nanoseconds.
pub const QUARTER_HOUR_NANOS: i128 = 900_000_000_000i128;

/// Largest magnitude (exclusive) of a UTC offset in seconds.
pub const OFFSET_LIMIT: i32 = 93_600i32;

/// Largest magnitude (exclusive) of an instant in nanoseconds (beyond year 9999 either way).
pub const INSTANT_LIMIT: i128 = 400_000_000_000_000_000_000i128;

/// A point in time together with the UTC offset it is expressed in.
///
/// `nanos` counts nanoseconds since 1970-01-01 00:00 UTC; two timestamps
/// denote the same instant when their `nanos` agree, whatever their offsets.
#[derive(Debug, Clone, Copy)]
pub struct Timestamp {
    /// the instant, in nanoseconds since the unix epoch
    pub nanos: i128,
    /// the offset from UTC, in seconds
    pub offset: i32,
}

impl Timestamp {
    /// A timestamp within the representable calendar range with a valid offset.
    pub open spec fn wf(self) -> bool {
        &&& -INSTANT_LIMIT < self.nanos < INSTANT_LIMIT
        &&& -OFFSET_LIMIT < self.offset < OFFSET_LIMIT
    }

    /// The wall-clock reading, in nanoseconds, at the timestamp's offset.
    pub open spec fn local_nanos(self) -> int {
        self.nanos + self.offset * NANOS_PER_SEC
    }

    /// The timestamp for `secs` seconds after the unix epoch, in UTC.
    pub fn from_unix_timestamp(secs: i64) -> (r: Timestamp)
        ensures
            r.nanos == secs * NANOS_PER_SEC,
            r.offset == 0,
    {
        Timestamp { nanos: (secs as i128) * NANOS_PER_SEC, offset: 0 }
    }

    /// Whether the timestamp is within the representable range (see `wf`).
    pub fn is_wf(&self) -> (r: bool)
        ensures
            r == self.wf(),
    {
        -INSTANT_LIMIT < self.nanos && self.nanos < INSTANT_LIMIT && -OFFSET_LIMIT < self.offset
            && self.offset < OFFSET_LIMIT
    }

    /// Whether `self` lies strictly before `other`.
    pub fn is_before(&self, other: &Timestamp) -> (r: bool)
        ensures
            r == (self.nanos < other.nanos),
    {
        self.nanos < other.nanos
    }

    /// Whether `self` and `other` denote the same instant.
    pub fn same_instant(&self, other: &Timestamp) -> (r: bool)
        ensures
            r == (self.nanos == other.nanos),
    {
        self.nanos == other.nanos
    }

    /// The earlier of two timestamps (the first one when they coincide).
    pub fn earliest(self, other: Timestamp) -> (r: Timestamp)
        ensures
            r == (if other.nanos < self.nanos { other } else { self }),
    {
        if other.nanos < self.nanos { other } else { self }
    }

    /// The later of two timestamps (the second one when they coincide).
    pub fn latest(self, other: Timestamp) -> (r: Timestamp)
        ensures
            r == (if other.nanos < self.nanos { self } else { other }),
    {
        if other.nanos < self.nanos { self } else { other }
    }
}

/// The latest representable time: 9100-01-01 00:00 UTC ("never").
pub open spec fn spec_max_time() -> Timestamp {
    Timestamp { nanos: 224_984_217_600_000_000_000i128, offset: 0 }
}

/// The earliest time used: 0000-01-01 00:00 UTC.
pub open spec fn spec_min_time() -> Timestamp {
    Timestamp { nanos: -62_167_219_200_000_000_000i128, offset: 0 }
}

/// 9100-01-01 00:00 UTC, used as "not detached yet".
pub fn max_time() -> (r: Timestamp)
    ensures
        r == spec_max_time(),
{
    Timestamp { nanos: 224_984_217_600_000_000_000i128, offset: 0 }
}

/// 0000-01-01 00:00 UTC, used as "since ever".
pub fn min_time() -> (r: Timestamp)
    ensures
        r == spec_min_time(),
{
    Timestamp { nanos: -62_167_219_200_000_000_000i128, offset: 0 }
}

/// Euclidean remainder of the wall-clock reading modulo a quarter of an hour.
pub open spec fn quarter_rest(t: Timestamp) -> int {
    t.local_nanos() % (QUARTER_HOUR_NANOS as int)
}

/// The timestamp rounded down to the quarter of an hour of its wall clock.
pub open spec fn spec_round(t: Timestamp) -> Timestamp {
    Timestamp { nanos: (t.nanos - quarter_rest(t)) as i128, offset: t.offset }
}

/// round time down to the quarter of an hour
///
/// The wall clock at the timestamp's offset is set to the last full quarter
/// hour at or before it: minutes go down to a multiple of 15 and seconds and
/// sub-seconds to zero. The offset is kept.
pub fn round_time(time: Timestamp) -> (r: Timestamp)
    requires
        time.wf(),
    ensures
        r == spec_round(time),
        r.offset == time.offset,
        r.nanos == time.nanos - quarter_rest(time),
        0 <= quarter_rest(time) < QUARTER_HOUR_NANOS,
        time.nanos - QUARTER_HOUR_NANOS < r.nanos <= time.nanos,
        r.local_nanos() % (QUARTER_HOUR_NANOS as int) == 0,
{
    let local: i128 = time.nanos + (time.offset as i128) * NANOS_PER_SEC;
    let rest: i128 = if local >= 0 {
        ((local as u128) % (QUARTER_HOUR_NANOS as u128)) as i128
    } else {
        let back: u128 = ((-local) as u128) % (QUARTER_HOUR_NANOS as u128);
        if back == 0 { 0i128 } else { QUARTER_HOUR_NANOS - (back as i128) }
    };
    proof {
        let q = QUARTER_HOUR_NANOS as int;
        let l = local as int;
        if l >= 0 {
            assert(rest as int == l % q);
        } else {
            let b = (-l) % q;
            assert(0 <= b < q);
            assert((-l) == q * ((-l) / q) + b) by (nonlinear_arith)
                requires q > 0, 0 <= b < q, b == (-l) % q;
            if b == 0 {
                assert(l == q * (-((-l) / q)));
                assert(l % q == 0) by (nonlinear_arith)
                    requires l == q * (-((-l) / q)), q > 0;
            } else {
                assert(l == q * (-((-l) / q) - 1) + (q - b));
                assert(l % q == q - b) by (nonlinear_arith)
                    requires l == q * (-((-l) / q) - 1) + (q - b), q > 0, 0 < q - b < q;
            }
        }
        assert(rest as int == quarter_rest(time));
        assert((l - rest) % q == 0) by (nonlinear_arith)
            requires q > 0, rest as int == l % q;
    }
    Timestamp { nanos: time.nanos - rest, offset: time.offset }
}


/// The current time in UTC, from `time::OffsetDateTime::now_utc` (read as
/// nanoseconds since the unix epoch). Nothing is promised of the instant.
#[verifier::external_body]
pub fn now_utc() -> (r: Timestamp)
    ensures
        r.offset == 0,
{
    Timestamp { nanos: time::OffsetDateTime::now_utc().unix_timestamp_nanos(), offset: 0 }
}

/// Rounding a rounded time changes nothing.
pub proof fn law_round_idempotent(t: Timestamp)
    requires
        t.wf(),
    ensures
        spec_round(spec_round(t)) == spec_round(t),
{
    let q = QUARTER_HOUR_NANOS as int;
    let l = t.local_nanos();
    let r = quarter_rest(t);
    assert(0 <= r < q) by {
        vstd::arithmetic::div_mod::lemma_mod_bound(l, q);
    }
    assert(spec_round(t).local_nanos() == l - r);
    assert((l - l % q) % q == 0) by (nonlinear_arith)
        requires
            q > 0,
    {
        vstd::arithmetic::div_mod::lemma_fundamental_div_mod(l, q);
        vstd::arithmetic::div_mod::lemma_mod_multiples_basic(l / q, q);
    }
}

} // verus!
