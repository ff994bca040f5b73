use rate_limiter::nif::NifrateLimiter;
use rate_limiter::rate_limiter::{to_second, RateError, RateLimitResult, RateLimiter, Store};

const SEC: u64 = 1_000_000_000;

fn fresh() -> RateLimiter {
    RateLimiter::new(Store::new())
}

fn ok_at(
    rl: &mut RateLimiter,
    key: &[u8],
    burst: i64,
    count: i64,
    period: i64,
    quantity: i64,
    now: u64,
) -> RateLimitResult {
    rl.rate_limit_at(key, burst, count, period, quantity, now)
        .expect("parameters are valid")
}

#[test]
fn concrete_scenario_two_per_second() {
    let mut rl = fresh();
    let key = b"user:1";

    let r1 = ok_at(&mut rl, key, 0, 2, 1, 1, 0);
    assert!(r1.allowed);
    assert_eq!(r1.limit, 2);
    assert_eq!(r1.remaining, 1);
    assert_eq!(r1.reset_after, SEC / 2);
    assert_eq!(r1.retry_after, 0);

    let r2 = ok_at(&mut rl, key, 0, 2, 1, 1, 0);
    assert!(r2.allowed);
    assert_eq!(r2.remaining, 0);
    assert_eq!(r2.reset_after, SEC);

    let r3 = ok_at(&mut rl, key, 0, 2, 1, 1, 0);
    assert!(!r3.allowed);
    assert_eq!(r3.remaining, 0);
    assert_eq!(r3.reset_after, SEC);
    assert_eq!(r3.retry_after, SEC / 2);

    let r4 = ok_at(&mut rl, key, 0, 2, 1, 1, SEC / 2);
    assert!(r4.allowed);
    assert_eq!(r4.remaining, 0);
}

#[test]
fn remaining_decreases_until_exhausted() {
    let mut rl = fresh();
    let key = b"user:2";
    let limit = 5i64; // count 3 + burst 2
    for k in 0..limit {
        let r = ok_at(&mut rl, key, 2, 3, 1, 1, 0);
        assert!(r.allowed);
        assert_eq!(r.limit, limit);
        assert_eq!(r.remaining, limit - k - 1);
    }
    for _ in 0..3 {
        let r = ok_at(&mut rl, key, 2, 3, 1, 1, 0);
        assert!(!r.allowed);
        assert_eq!(r.remaining, 0);
    }
}

#[test]
fn refill_after_one_emission_interval() {
    let mut rl = fresh();
    let key = b"user:3";
    assert!(ok_at(&mut rl, key, 0, 2, 1, 1, 0).allowed);
    assert!(ok_at(&mut rl, key, 0, 2, 1, 1, 0).allowed);
    assert!(!ok_at(&mut rl, key, 0, 2, 1, 1, 0).allowed);
    // one emission interval (period / count = 0.5 s) later, one unit is back
    let r = ok_at(&mut rl, key, 0, 2, 1, 1, SEC / 2);
    assert!(r.allowed);
    assert_eq!(r.remaining, 0);
}

#[test]
fn denied_call_is_free() {
    let key = b"user:4";
    // limiter a sees a denied call between the allowed ones; limiter b does not
    let mut a = fresh();
    let mut b = fresh();
    for rl in [&mut a, &mut b] {
        assert!(ok_at(rl, key, 0, 2, 1, 1, 0).allowed);
        assert!(ok_at(rl, key, 0, 2, 1, 1, 0).allowed);
    }
    let denied = ok_at(&mut a, key, 0, 2, 1, 1, 0);
    assert!(!denied.allowed);
    let ra = ok_at(&mut a, key, 0, 2, 1, 1, SEC / 2);
    let rb = ok_at(&mut b, key, 0, 2, 1, 1, SEC / 2);
    assert_eq!(ra, rb);
    assert!(ra.allowed);
}

#[test]
fn delete_is_idempotent_and_resets() {
    let mut rl = fresh();
    let key = b"user:5";
    assert!(ok_at(&mut rl, key, 0, 2, 1, 1, 0).allowed);
    assert!(ok_at(&mut rl, key, 0, 2, 1, 1, 0).allowed);
    rl.delete(key);
    rl.delete(key); // deleting again is a no-op, not an error
    let r = ok_at(&mut rl, key, 0, 2, 1, 1, 0);
    assert!(r.allowed);
    assert_eq!(r.remaining, 1); // full capacity again, minus this call
}

#[test]
fn delete_of_absent_key_is_noop() {
    let mut rl = fresh();
    rl.delete(b"never-seen");
    let r = ok_at(&mut rl, b"never-seen", 1, 1, 1, 1, 0);
    assert!(r.allowed);
    assert_eq!(r.remaining, 1);
}

#[test]
fn clear_resets_all_keys() {
    let mut rl = fresh();
    let keys: [&[u8]; 3] = [b"ka", b"kb", b"kc"];
    for key in keys {
        assert!(ok_at(&mut rl, key, 1, 2, 1, 2, 0).allowed); // partial consumption
    }
    rl.clear();
    for key in keys {
        let r = ok_at(&mut rl, key, 1, 2, 1, 1, 0);
        assert!(r.allowed);
        assert_eq!(r.remaining, r.limit - 1); // as if fresh
    }
}

#[test]
fn oversized_quantity_never_allowed() {
    let mut rl = fresh();
    let key = b"user:6";
    for now in [0, SEC / 2, SEC, 3 * SEC, 3600 * SEC, 864000 * SEC] {
        let r = ok_at(&mut rl, key, 0, 5, 1, 10, now);
        assert!(!r.allowed);
        assert_eq!(r.limit, 5);
        assert_eq!(r.remaining, 0);
        // ten units must drain through a five-unit bucket: one extra second, always
        assert_eq!(r.retry_after, SEC);
    }
}

#[test]
fn invalid_parameters_are_rejected() {
    let mut rl = fresh();
    let key = b"user:7";
    assert_eq!(
        rl.rate_limit_at(key, 0, 0, 1, 1, 0),
        Err(RateError::InvalidParameters)
    );
    assert_eq!(
        rl.rate_limit_at(key, 0, 2, -1, 1, 0),
        Err(RateError::InvalidParameters)
    );
    assert_eq!(
        rl.rate_limit_at(key, 0, 2, 1, 0, 0),
        Err(RateError::InvalidParameters)
    );
    assert_eq!(rl.rate_limit(key, 3, 0, 0, 0), Err(RateError::InvalidParameters));
    // rejection happened before the store was touched
    let r = ok_at(&mut rl, key, 0, 2, 1, 1, 0);
    assert_eq!(r.remaining, 1);
}

#[test]
fn keys_are_exact_match() {
    let mut rl = fresh();
    assert!(ok_at(&mut rl, b"k1", 0, 1, 1, 1, 0).allowed);
    assert!(!ok_at(&mut rl, b"k1", 0, 1, 1, 1, 0).allowed);
    // a different byte sequence is a different bucket
    assert!(ok_at(&mut rl, b"k2", 0, 1, 1, 1, 0).allowed);
}

#[test]
fn weighted_quantity_costs_its_units() {
    let mut rl = fresh();
    let key = b"batch";
    let r = ok_at(&mut rl, key, 5, 5, 1, 4, 0);
    assert!(r.allowed);
    assert_eq!(r.limit, 10);
    assert_eq!(r.remaining, 6);
}

#[test]
fn beyond_clock_range_is_denied() {
    let mut rl = fresh();
    let key = b"huge";
    let period: i64 = 18_446_744_073; // the largest whole-second period the nanosecond clock holds
    let r1 = ok_at(&mut rl, key, 0, 1, period, 1, 0);
    assert!(r1.allowed);
    assert_eq!(r1.remaining, 0);
    // a second unit would raise the TAT past the clock's range: denied, and
    // the wait it would take cannot be represented
    let r2 = ok_at(&mut rl, key, 0, 1, period, 1, 0);
    assert!(!r2.allowed);
    assert_eq!(r2.retry_after, u64::MAX);
}

#[test]
fn to_second_rounds_up() {
    assert_eq!(to_second(0), 0);
    assert_eq!(to_second(1), 1);
    assert_eq!(to_second(SEC - 1), 1);
    assert_eq!(to_second(SEC), 1);
    assert_eq!(to_second(SEC + 1), 2);
    assert_eq!(to_second(5 * SEC / 2), 3);
}

#[test]
fn real_clock_rate_limit() {
    let mut rl = fresh();
    let r = rl
        .rate_limit(b"clock", 10, 10, 60, 1)
        .expect("parameters are valid");
    assert!(r.allowed);
    assert_eq!(r.limit, 20);
    assert_eq!(r.remaining, 19);
    assert_eq!(r.retry_after, 0);
    let r2 = rl
        .rate_limit(b"clock", 10, 10, 60, 1)
        .expect("parameters are valid");
    assert!(r2.allowed);
    assert!(r2.remaining <= 19);
}

#[test]
fn nif_limiter_full_flow() {
    let mut nif = NifrateLimiter::new().expect("creation cannot fail");
    let r = nif
        .run(b"caller", 1, 2, 60, 1)
        .expect("parameters are valid");
    assert!(r.allowed);
    assert_eq!(r.limit, 3);
    assert_eq!(r.remaining, 2);
    nif.delete(b"caller");
    let r2 = nif
        .run(b"caller", 1, 2, 60, 1)
        .expect("parameters are valid");
    assert_eq!(r2.remaining, 2); // fresh again after delete
    nif.clear();
    let r3 = nif
        .run(b"caller", 1, 2, 60, 1)
        .expect("parameters are valid");
    assert_eq!(r3.remaining, 2); // fresh again after clear
    assert_eq!(
        nif.run(b"caller", 1, 0, 60, 1),
        Err(RateError::InvalidParameters)
    );
}

#[test]
fn u8_to_string_decodes_lossily() {
    let nif = NifrateLimiter::new().expect("creation cannot fail");
    assert_eq!(nif.u8_to_string(b"hello"), "hello");
    assert_eq!(nif.u8_to_string(b""), "");
    // an ill-formed byte becomes the replacement character
    assert_eq!(nif.u8_to_string(&[0xff, 0x61]), "\u{fffd}a");
}
