//! The embedding-facing surface: a limiter wrapper with the operations an
//! embedding layer drives (`new`, `run`, `delete`, `clear`), plus the lossy
//! byte-to-string conversion such layers use for textual keys. The wrapper
//! treats keys as opaque bytes; equal byte sequences denote the same bucket.

use vstd::prelude::*;

use crate::rate_limiter::{
    params_accepted, params_representable, result_matches, stored_tat, RateError, RateLimitResult,
    RateLimiter, Store,
};

verus! {

/// A name for what `String::from_utf8_lossy` returns: the bytes decoded as
/// UTF-8, with each ill-formed sequence replaced. The result depends on the
/// input bytes alone.
pub uninterp spec fn lossy_utf8_of(bytes: Seq<u8>) -> Seq<char>;

/// Relies on String::from_utf8_lossy: decodes the bytes as UTF-8, replacing
/// ill-formed sequences with U+FFFD; a function of the input bytes alone.
#[verifier::external_body]
fn lossy_string(msg: &[u8]) -> (r: String)
    ensures
        r@ == lossy_utf8_of(msg@),
{
    String::from_utf8_lossy(msg).into_owned()
}

/// A rate limiter handle as an embedding layer holds it.
pub struct NifrateLimiter {
    data: RateLimiter,
}

impl NifrateLimiter {
    pub closed spec fn view(&self) -> Map<Seq<u8>, u64> {
        self.data@
    }

    /// A fresh limiter with an empty store. Allocation cannot fail here; the
    /// `Result` is the shape embedding layers consume.
    pub fn new() -> (r: Result<Self, String>)
        ensures
            r is Ok,
            r matches Ok(l) ==> l@ == Map::<Seq<u8>, u64>::empty(),
    {
        let store = Store::new();
        let rate = RateLimiter::new(store);
        Ok(NifrateLimiter { data: rate })
    }

    /// The textual form of a byte-string key, for embedding layers that want
    /// one; the limiter itself never converts keys.
    pub fn u8_to_string(&self, msg: &[u8]) -> (r: String)
        ensures
            r@ == lossy_utf8_of(msg@),
    {
        lossy_string(msg)
    }

    /// Drops every key: the limiter behaves as freshly created.
    pub fn clear(&mut self)
        ensures
            final(self)@ == Map::<Seq<u8>, u64>::empty(),
    {
        let store = Store::new();
        let rate = RateLimiter::new(store);
        self.data = rate;
    }

    /// Forgets `key`; the next call for it starts from the empty state.
    pub fn delete(&mut self, key: &[u8])
        ensures
            final(self)@ == old(self)@.remove(key@),
    {
        self.data.delete(key);
    }

    /// One rate-limit decision for `key` against the real clock; see
    /// `RateLimiter::rate_limit` for the guarantees.
    pub fn run(&mut self, key: &[u8], burst: i64, count: i64, seconds: i64, quantity: i64) -> (r:
        Result<RateLimitResult, RateError>)
        requires
            params_representable(burst, count, seconds, quantity),
        ensures
            r is Ok <==> params_accepted(count, seconds, quantity),
            !params_accepted(count, seconds, quantity) ==> r == Err::<RateLimitResult, RateError>(
                RateError::InvalidParameters,
            ) && final(self)@ == old(self)@,
            r matches Ok(res) ==> {
                &&& res.limit as int == count as int + burst as int
                &&& 0 <= res.remaining <= res.limit
                &&& (res.allowed ==> res.retry_after == 0)
                &&& (!res.allowed ==> res.remaining == 0 && res.retry_after > 0 && final(self)@
                    == old(self)@)
                &&& (quantity as int > count as int + burst as int ==> !res.allowed)
                &&& stored_tat(final(self)@, key@) >= stored_tat(old(self)@, key@)
                &&& forall|k2: Seq<u8>|
                    k2 != key@ ==> #[trigger] stored_tat(final(self)@, k2) == stored_tat(
                        old(self)@,
                        k2,
                    )
                &&& exists|now: u64|
                    #[trigger] result_matches(
                        stored_tat(old(self)@, key@),
                        now,
                        burst,
                        count,
                        seconds,
                        quantity,
                        res,
                    )
            },
    {
        self.data.rate_limit(key, burst, count, seconds, quantity)
    }
}

} // verus!
