//! The rate-limiting core: per-key state store, the GCRA decision arithmetic,
//! and the result and error types.
//!
//! All time quantities are u64 nanoseconds. A key's whole state is one
//! timestamp, the theoretical arrival time (TAT): the instant at which the
//! bucket would be fully drained if no further requests arrived. An absent
//! key behaves like one whose TAT is in the past.

use vstd::prelude::*;

verus! {

/// Nanoseconds in one second: the resolution of every internal duration.
pub const NANOS_PER_SEC: u64 = 1_000_000_000;

/// The decision payload of one `rate_limit` call. `reset_after` and
/// `retry_after` are durations in nanoseconds; `retry_after` is zero exactly
/// when the call was allowed.
#[derive(Clone, Copy, Debug, PartialEq, Eq, Structural)]
pub struct RateLimitResult {
    pub allowed: bool,
    pub limit: i64,
    pub remaining: i64,
    pub reset_after: u64,
    pub retry_after: u64,
}

/// The failure taxonomy. A denial is not an error: it is a normal result
/// with `allowed == false`.
#[derive(Clone, Copy, Debug, PartialEq, Eq, Structural)]
pub enum RateError {
    /// `count <= 0`, `period <= 0`, or `quantity <= 0`: caller misconfiguration.
    InvalidParameters,
    /// The supplied key could not be interpreted as an identifier. The core
    /// treats keys as opaque bytes and never produces this itself; it exists
    /// for embedding layers that decode richer key representations.
    KeyDecodeError,
}

/// The structural validity check applied before the store is touched.
pub open spec fn params_accepted(count: i64, period: i64, quantity: i64) -> bool {
    0 < count && 0 < period && 0 < quantity
}

/// Steady-state time cost of one request unit: `period / count`, in
/// nanoseconds, rounded down.
pub open spec fn emission_interval_ns(count: i64, period: i64) -> int {
    (period as int * NANOS_PER_SEC as int) / (count as int)
}

/// Total slack the bucket may owe: the drain time of a completely full
/// bucket of `count + burst` units.
pub open spec fn tolerance_ns(burst: i64, count: i64, period: i64) -> int {
    emission_interval_ns(count, period) * (count as int + burst as int)
}

/// Time cost of the current call: `quantity` request units.
pub open spec fn increment_ns(count: i64, period: i64, quantity: i64) -> int {
    emission_interval_ns(count, period) * (quantity as int)
}

/// The machine limits on a call's parameters: every derived duration must be
/// representable in u64 nanoseconds, the emission interval must be at least
/// one nanosecond, and the reported limit must fit the result field. These
/// bound nothing that a nanosecond clock could ever satisfy anyway.
pub open spec fn params_representable(burst: i64, count: i64, period: i64, quantity: i64) -> bool {
    &&& 0 <= burst
    &&& count as int + burst as int <= i64::MAX as int
    &&& (params_accepted(count, period, quantity) ==> {
        &&& period as int * NANOS_PER_SEC as int <= u64::MAX as int
        &&& count as int <= period as int * NANOS_PER_SEC as int
        &&& tolerance_ns(burst, count, period) <= u64::MAX as int
        &&& increment_ns(count, period, quantity) <= u64::MAX as int
    })
}

/// The bucket state a call starts from: the stored TAT, or the epoch for an
/// absent key, which behaves identically to a TAT at or before `now`.
pub open spec fn stored_tat(m: Map<Seq<u8>, u64>, key: Seq<u8>) -> u64 {
    if m.contains_key(key) {
        m[key]
    } else {
        0u64
    }
}

/// `max(TAT, now)`: the instant consumption resumes from.
pub open spec fn effective_tat(tat: u64, now: u64) -> int {
    if tat >= now {
        tat as int
    } else {
        now as int
    }
}

/// Whether the TAT raised by this call's increment is still representable.
/// A call whose raised TAT would overflow the clock's range is denied.
pub open spec fn raised_tat_fits(tat: u64, now: u64, count: i64, period: i64, quantity: i64) -> bool {
    effective_tat(tat, now) + increment_ns(count, period, quantity) <= u64::MAX as int
}

/// The TAT this call would store if allowed.
pub open spec fn raised_tat(tat: u64, now: u64, count: i64, period: i64, quantity: i64) -> int {
    effective_tat(tat, now) + increment_ns(count, period, quantity)
}

/// The backlog after accepting this call: how far the raised TAT runs ahead
/// of `now`.
pub open spec fn time_used_ns(tat: u64, now: u64, count: i64, period: i64, quantity: i64) -> int {
    raised_tat(tat, now, count, period, quantity) - now as int
}

/// The decision: allowed iff accepting the call keeps the backlog within the
/// tolerance (and the raised TAT within the clock's range).
pub open spec fn spec_allowed(tat: u64, now: u64, burst: i64, count: i64, period: i64, quantity: i64) -> bool {
    &&& raised_tat_fits(tat, now, count, period, quantity)
    &&& time_used_ns(tat, now, count, period, quantity) <= tolerance_ns(burst, count, period)
}

/// Whole request units still unused after an allowed call.
pub open spec fn spec_remaining(tat: u64, now: u64, burst: i64, count: i64, period: i64, quantity: i64) -> int {
    (tolerance_ns(burst, count, period) - time_used_ns(tat, now, count, period, quantity))
        / emission_interval_ns(count, period)
}

/// Nanoseconds until the bucket drains back to empty.
pub open spec fn spec_reset_after(tat: u64, now: u64, burst: i64, count: i64, period: i64, quantity: i64) -> int {
    if spec_allowed(tat, now, burst, count, period, quantity) {
        time_used_ns(tat, now, count, period, quantity)
    } else if tat >= now {
        tat - now
    } else {
        0
    }
}

/// Minimum wait before this exact call would be admitted: zero when allowed,
/// and the clock's full range when the raised TAT cannot be represented.
pub open spec fn spec_retry_after(tat: u64, now: u64, burst: i64, count: i64, period: i64, quantity: i64) -> int {
    if spec_allowed(tat, now, burst, count, period, quantity) {
        0
    } else if raised_tat_fits(tat, now, count, period, quantity) {
        time_used_ns(tat, now, count, period, quantity) - tolerance_ns(burst, count, period)
    } else {
        u64::MAX as int
    }
}

/// The TAT stored after the call: raised when allowed, untouched when denied.
pub open spec fn spec_next_tat(tat: u64, now: u64, burst: i64, count: i64, period: i64, quantity: i64) -> int {
    if spec_allowed(tat, now, burst, count, period, quantity) {
        raised_tat(tat, now, count, period, quantity)
    } else {
        tat as int
    }
}

/// Every field of an `Ok` decision, pinned as a function of the stored TAT,
/// the clock reading, and the call's parameters.
pub open spec fn result_matches(tat: u64, now: u64, burst: i64, count: i64, period: i64, quantity: i64, r: RateLimitResult) -> bool {
    &&& r.allowed == spec_allowed(tat, now, burst, count, period, quantity)
    &&& r.limit as int == count as int + burst as int
    &&& r.remaining as int == if r.allowed {
        spec_remaining(tat, now, burst, count, period, quantity)
    } else {
        0
    }
    &&& r.reset_after as int == spec_reset_after(tat, now, burst, count, period, quantity)
    &&& r.retry_after as int == spec_retry_after(tat, now, burst, count, period, quantity)
}

/// Compares two byte strings for exact equality.
fn bytes_eq(a: &[u8], b: &[u8]) -> (r: bool)
    ensures
        r <==> a@ == b@,
{
    if a.len() != b.len() {
        return false;
    }
    let mut i: usize = 0;
    while i < a.len()
        invariant
            a@.len() == b@.len(),
            i <= a@.len(),
            forall|j: int| 0 <= j < i ==> a@[j] == b@[j],
        decreases a@.len() - i,
    {
        if a[i] != b[i] {
            return false;
        }
        i += 1;
    }
    proof {
        assert(a@ =~= b@);
    }
    true
}

/// The mapping an association list denotes; on duplicate keys the latest
/// entry wins.
pub open spec fn map_of(s: Seq<(Vec<u8>, u64)>) -> Map<Seq<u8>, u64>
    decreases s.len(),
{
    if s.len() == 0 {
        Map::empty()
    } else {
        map_of(s.drop_last()).insert(s.last().0@, s.last().1)
    }
}

/// No two entries share a key.
pub open spec fn keys_unique(s: Seq<(Vec<u8>, u64)>) -> bool {
    forall|i: int, j: int| 0 <= i < j < s.len() ==> s[i].0@ != s[j].0@
}

proof fn lemma_map_of_contains(s: Seq<(Vec<u8>, u64)>)
    ensures
        forall|k: Seq<u8>|
            #[trigger] map_of(s).contains_key(k) <==> exists|i: int|
                0 <= i < s.len() && #[trigger] s[i].0@ == k,
    decreases s.len(),
{
    if s.len() > 0 {
        lemma_map_of_contains(s.drop_last());
        assert forall|k: Seq<u8>| #[trigger] map_of(s).contains_key(k) implies exists|i: int|
            0 <= i < s.len() && #[trigger] s[i].0@ == k by {
            if k == s.last().0@ {
                assert(s[s.len() - 1].0@ == k);
            } else {
                assert(map_of(s.drop_last()).contains_key(k));
                let i = choose|i: int| 0 <= i < s.drop_last().len() && #[trigger] s.drop_last()[i].0@ == k;
                assert(s.drop_last()[i] == s[i]);
                assert(s[i].0@ == k);
            }
        }
        assert forall|k: Seq<u8>|
            (exists|i: int| 0 <= i < s.len() && #[trigger] s[i].0@ == k) implies #[trigger] map_of(
            s,
        ).contains_key(k) by {
            let i = choose|i: int| 0 <= i < s.len() && #[trigger] s[i].0@ == k;
            if i < s.len() - 1 {
                assert(s.drop_last()[i].0@ == k);
                assert(map_of(s.drop_last()).contains_key(k));
            } else {
                assert(k == s.last().0@);
            }
        }
    }
}

proof fn lemma_map_of_index(s: Seq<(Vec<u8>, u64)>, i: int)
    requires
        keys_unique(s),
        0 <= i < s.len(),
    ensures
        map_of(s).contains_key(s[i].0@),
        map_of(s)[s[i].0@] == s[i].1,
    decreases s.len(),
{
    if i == s.len() - 1 {
    } else {
        assert(keys_unique(s.drop_last()));
        lemma_map_of_index(s.drop_last(), i);
        assert(s[i].0@ != s.last().0@);
    }
}

proof fn lemma_map_of_remove(s: Seq<(Vec<u8>, u64)>, i: int)
    requires
        keys_unique(s),
        0 <= i < s.len(),
    ensures
        map_of(s.remove(i)) == map_of(s).remove(s[i].0@),
    decreases s.len(),
{
    lemma_map_of_contains(s);
    lemma_map_of_contains(s.remove(i));
    if i == s.len() - 1 {
        assert(s.remove(i) =~= s.drop_last());
        assert forall|j: int| 0 <= j < s.drop_last().len() implies s.drop_last()[j].0@
            != s[i].0@ by {}
        assert(!map_of(s.drop_last()).contains_key(s[i].0@)) by {
            lemma_map_of_contains(s.drop_last());
        }
        assert(map_of(s.drop_last()) =~= map_of(s).remove(s[i].0@));
    } else {
        assert(keys_unique(s.drop_last()));
        lemma_map_of_remove(s.drop_last(), i);
        assert(s.remove(i).drop_last() =~= s.drop_last().remove(i));
        assert(s.remove(i).last() == s.last());
        assert(map_of(s.remove(i)) == map_of(s.drop_last().remove(i)).insert(
            s.last().0@,
            s.last().1,
        ));
        assert(s[i].0@ != s.last().0@);
        assert(map_of(s.drop_last()).remove(s[i].0@).insert(s.last().0@, s.last().1) =~= map_of(
            s.drop_last(),
        ).insert(s.last().0@, s.last().1).remove(s[i].0@));
    }
}

/// The per-key state store: a mapping from opaque byte-string keys to stored
/// TATs, viewed as a `Map<Seq<u8>, u64>`.
pub struct Store {
    entries: Vec<(Vec<u8>, u64)>,
}

impl Store {
    #[verifier::type_invariant]
    spec fn wf(&self) -> bool {
        keys_unique(self.entries@)
    }

    pub closed spec fn view(&self) -> Map<Seq<u8>, u64> {
        map_of(self.entries@)
    }

    /// A fresh, empty store.
    pub fn new() -> (r: Store)
        ensures
            r@ == Map::<Seq<u8>, u64>::empty(),
    {
        Store { entries: Vec::new() }
    }

    fn find_index(&self, key: &[u8]) -> (r: Option<usize>)
        ensures
            match r {
                Some(i) => i < self.entries@.len() && self.entries@[i as int].0@ == key@,
                None => forall|i: int| 0 <= i < self.entries@.len() ==> self.entries@[i].0@ != key@,
            },
    {
        let mut i: usize = 0;
        while i < self.entries.len()
            invariant
                i <= self.entries@.len(),
                forall|j: int| 0 <= j < i ==> self.entries@[j].0@ != key@,
            decreases self.entries@.len() - i,
        {
            if bytes_eq(self.entries[i].0.as_slice(), key) {
                return Some(i);
            }
            i += 1;
        }
        None
    }

    /// The current state for `key`, or the empty default for an absent key;
    /// never fails.
    pub fn get_or_default(&self, key: &[u8]) -> (r: u64)
        ensures
            r == stored_tat(self@, key@),
    {
        proof {
            use_type_invariant(self);
        }
        match self.find_index(key) {
            Some(i) => {
                proof {
                    lemma_map_of_index(self.entries@, i as int);
                }
                self.entries[i].1
            },
            None => {
                proof {
                    lemma_map_of_contains(self.entries@);
                }
                0
            },
        }
    }

    /// Removes the entry for `key` if present; removing an absent key is a
    /// no-op, not an error.
    pub fn delete(&mut self, key: &[u8])
        ensures
            final(self)@ == old(self)@.remove(key@),
    {
        proof {
            use_type_invariant(&*self);
        }
        match self.find_index(key) {
            Some(i) => {
                proof {
                    lemma_map_of_remove(self.entries@, i as int);
                    assert(keys_unique(self.entries@.remove(i as int)));
                }
                let mut entries: Vec<(Vec<u8>, u64)> = Vec::new();
                std::mem::swap(&mut entries, &mut self.entries);
                entries.remove(i);
                self.entries = entries;
            },
            None => {
                proof {
                    lemma_map_of_contains(self.entries@);
                    assert(map_of(self.entries@).remove(key@) =~= map_of(self.entries@));
                }
            },
        }
    }

    /// Replaces the state for `key`, creating the entry if absent.
    pub fn upsert(&mut self, key: &[u8], tat: u64)
        ensures
            final(self)@ == old(self)@.insert(key@, tat),
    {
        self.delete(key);
        proof {
            use_type_invariant(&*self);
            lemma_map_of_contains(self.entries@);
        }
        let ghost before = self.entries@;
        let mut entries: Vec<(Vec<u8>, u64)> = Vec::new();
        std::mem::swap(&mut entries, &mut self.entries);
        entries.push((vstd::slice::slice_to_vec(key), tat));
        proof {
            assert(entries@.drop_last() =~= before);
            assert forall|i: int, j: int| 0 <= i < j < entries@.len() implies entries@[i].0@
                != entries@[j].0@ by {
                if j == entries@.len() - 1 {
                    assert(!map_of(before).contains_key(key@));
                    assert(entries@[i] == before[i]);
                    assert(before[i].0@ != key@);
                }
            }
        }
        self.entries = entries;
        proof {
            assert(old(self)@.remove(key@).insert(key@, tat) =~= old(self)@.insert(key@, tat));
        }
    }

    /// Removes all entries; the store behaves as freshly created afterwards.
    pub fn clear(&mut self)
        ensures
            final(self)@ == Map::<Seq<u8>, u64>::empty(),
    {
        self.entries = Vec::new();
    }
}

/// Relies on std::time::SystemTime::now, read once per call: the wall clock
/// as nanoseconds since the Unix epoch, truncated to u64, and zero before the
/// epoch. Nothing further can be promised of a clock reading; every caller
/// contract below holds whatever value comes back.
#[verifier::external_body]
fn now_nanos() -> u64 {
    match std::time::SystemTime::now().duration_since(std::time::UNIX_EPOCH) {
        Ok(d) => d.as_nanos() as u64,
        Err(_) => 0,
    }
}

/// The rate limiter: the GCRA decision arithmetic over a per-key store,
/// viewed as the mapping from keys to stored TATs.
pub struct RateLimiter {
    store: Store,
}

impl RateLimiter {
    pub closed spec fn view(&self) -> Map<Seq<u8>, u64> {
        self.store@
    }

    /// A limiter over the given store.
    pub fn new(store: Store) -> (r: RateLimiter)
        ensures
            r@ == store@,
    {
        RateLimiter { store }
    }

    /// Removes the stored TAT for `key`; the next call for that key starts
    /// from the empty state. Deleting an absent key is a no-op.
    pub fn delete(&mut self, key: &[u8])
        ensures
            final(self)@ == old(self)@.remove(key@),
    {
        self.store.delete(key);
    }

    /// Removes all keys; equivalent to reinitializing the store.
    pub fn clear(&mut self)
        ensures
            final(self)@ == Map::<Seq<u8>, u64>::empty(),
    {
        self.store.clear();
    }

    /// One rate-limit decision against an explicit clock reading, for callers
    /// that supply their own time source. Rejects structurally invalid
    /// parameters before touching the store; otherwise every result field and
    /// the stored state are pinned by the spec-level model.
    pub fn rate_limit_at(&mut self, key: &[u8], burst: i64, count: i64, period: i64, quantity: i64, now: u64) -> (r: Result<RateLimitResult, RateError>)
        requires
            params_representable(burst, count, period, quantity),
        ensures
            r is Ok <==> params_accepted(count, period, quantity),
            !params_accepted(count, period, quantity) ==> r == Err::<RateLimitResult, RateError>(
                RateError::InvalidParameters,
            ) && final(self)@ == old(self)@,
            r matches Ok(res) ==> result_matches(
                stored_tat(old(self)@, key@),
                now,
                burst,
                count,
                period,
                quantity,
                res,
            ),
            r is Ok ==> final(self)@ == if spec_allowed(
                stored_tat(old(self)@, key@),
                now,
                burst,
                count,
                period,
                quantity,
            ) {
                old(self)@.insert(
                    key@,
                    spec_next_tat(
                        stored_tat(old(self)@, key@),
                        now,
                        burst,
                        count,
                        period,
                        quantity,
                    ) as u64,
                )
            } else {
                old(self)@
            },
    {
        if count <= 0 || period <= 0 || quantity <= 0 {
            return Err(RateError::InvalidParameters);
        }
        let tat = self.store.get_or_default(key);
        let period_ns: u64 = (period as u64) * NANOS_PER_SEC;
        let ei: u64 = period_ns / (count as u64);
        let limit: i64 = count + burst;
        proof {
            vstd::arithmetic::div_mod::lemma_div_non_zero(period_ns as int, count as int);
            assert(ei as int == emission_interval_ns(count, period));
        }
        let tol: u64 = ei * (limit as u64);
        let inc: u64 = ei * (quantity as u64);
        let eff: u64 = if tat >= now { tat } else { now };
        let reset_denied: u64 = if tat >= now { tat - now } else { 0 };
        if inc <= u64::MAX - eff {
            let new_tat: u64 = eff + inc;
            let used: u64 = new_tat - now;
            if used <= tol {
                self.store.upsert(key, new_tat);
                proof {
                    crate::laws::lemma_decision_invariants(tat, now, burst, count, period, quantity);
                }
                let remaining_units: u64 = (tol - used) / ei;
                Ok(RateLimitResult {
                    allowed: true,
                    limit,
                    remaining: remaining_units as i64,
                    reset_after: used,
                    retry_after: 0,
                })
            } else {
                Ok(RateLimitResult {
                    allowed: false,
                    limit,
                    remaining: 0,
                    reset_after: reset_denied,
                    retry_after: used - tol,
                })
            }
        } else {
            // The raised TAT would exceed the clock's range: the call is
            // denied, and the wait it would take cannot be represented.
            Ok(RateLimitResult {
                allowed: false,
                limit,
                remaining: 0,
                reset_after: reset_denied,
                retry_after: u64::MAX,
            })
        }
    }

    /// One rate-limit decision for `key` against the real clock. The clock
    /// reading is outside anyone's control, so the contract states what holds
    /// of every outcome: the limit reported, the bounds on `remaining`, that
    /// denial costs nothing and oversized quantities are always denied, that
    /// the stored TAT never moves backward, that no other key is touched --
    /// and that some clock reading explains every field exactly.
    pub fn rate_limit(&mut self, key: &[u8], burst: i64, count: i64, period: i64, quantity: i64) -> (r: Result<RateLimitResult, RateError>)
        requires
            params_representable(burst, count, period, quantity),
        ensures
            r is Ok <==> params_accepted(count, period, quantity),
            !params_accepted(count, period, quantity) ==> r == Err::<RateLimitResult, RateError>(
                RateError::InvalidParameters,
            ) && final(self)@ == old(self)@,
            r matches Ok(res) ==> {
                &&& res.limit as int == count as int + burst as int
                &&& 0 <= res.remaining <= res.limit
                &&& (res.allowed ==> res.retry_after == 0)
                &&& (!res.allowed ==> res.remaining == 0 && res.retry_after > 0 && final(self)@
                    == old(self)@)
                &&& (quantity as int > count as int + burst as int ==> !res.allowed)
                &&& stored_tat(final(self)@, key@) >= stored_tat(old(self)@, key@)
                &&& forall|k2: Seq<u8>|
                    k2 != key@ ==> #[trigger] stored_tat(final(self)@, k2) == stored_tat(
                        old(self)@,
                        k2,
                    )
                &&& exists|now: u64|
                    #[trigger] result_matches(
                        stored_tat(old(self)@, key@),
                        now,
                        burst,
                        count,
                        period,
                        quantity,
                        res,
                    )
            },
    {
        let now = now_nanos();
        let ghost tat = stored_tat(self@, key@);
        let r = self.rate_limit_at(key, burst, count, period, quantity, now);
        proof {
            if params_accepted(count, period, quantity) {
                crate::laws::lemma_decision_invariants(tat, now, burst, count, period, quantity);
                if quantity as int > count as int + burst as int {
                    crate::laws::lemma_oversized_denied(tat, now, burst, count, period, quantity);
                }
                if r is Ok {
                    let res = r->Ok_0;
                    assert(result_matches(tat, now, burst, count, period, quantity, res));
                }
            }
        }
        r
    }
}

/// Converts a duration in nanoseconds to whole seconds, rounding up so that
/// a caller who waits the reported time never under-waits.
pub fn to_second(nanos: u64) -> (r: u64)
    ensures
        r == (nanos as int + NANOS_PER_SEC as int - 1) / NANOS_PER_SEC as int,
{
    if nanos % NANOS_PER_SEC == 0 {
        nanos / NANOS_PER_SEC
    } else {
        nanos / NANOS_PER_SEC + 1
    }
}

} // verus!
