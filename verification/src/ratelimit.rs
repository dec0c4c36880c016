//! A light token bucket per source address, applied to posts.
//!
//! A bucket is counted in billionths of half a token, so that a nanosecond adds
//! exactly one unit at the sustained rate of half a token per second.

use std::collections::HashMap;
use std::time::Instant;

use vstd::prelude::*;

verus! {

broadcast use vstd::std_specs::hash::group_hash_axioms;

/// One token, in bucket units: two seconds of refill.
pub const TOKEN: u64 = 2_000_000_000;

/// What a full bucket holds: fifteen tokens.
pub const CAPACITY: u64 = 30_000_000_000;

/// A point on the monotonic clock; `std::time::Instant`, of which nothing is
/// known.
#[verifier::external_type_specification]
#[verifier::external_body]
pub struct ExInstant(Instant);

/// `Instant::now`: a reading of the monotonic clock. Nothing is said of it.
#[verifier::external_body]
fn clock_now() -> Instant {
    Instant::now()
}

/// `Instant::elapsed`: the nanoseconds that have passed since a reading of the
/// monotonic clock. Nothing is said of them.
#[verifier::external_body]
fn nanos_since(start: &Instant) -> u128 {
    start.elapsed().as_nanos()
}

/// The address that a request comes from.
pub enum Source {
    /// An IPv4 address, as a number.
    V4(u32),
    /// An IPv6 address, as a number.
    V6(u128),
}

/// What one source may still spend.
#[derive(Clone, Copy)]
pub struct Bucket {
    /// The units in the bucket.
    pub units: u64,
    /// When they were last counted, in nanoseconds.
    pub last: u128,
}

/// The buckets of all sources seen so far.
pub struct RateLimiter {
    start: Instant,
    v4: HashMap<u32, Bucket>,
    v6: HashMap<u128, Bucket>,
}

/// What a bucket holds at a time, once the refill since it was last counted is
/// added: one unit per nanosecond, up to the capacity. A clock that reads
/// earlier than before adds nothing.
pub open spec fn refilled(b: Bucket, now: u128) -> nat {
    let elapsed = if now >= b.last {
        (now - b.last) as nat
    } else {
        0
    };
    if b.units + elapsed <= CAPACITY {
        (b.units + elapsed) as nat
    } else {
        CAPACITY as nat
    }
}

/// Whether a bucket allows one more action at a time.
pub open spec fn allows(b: Bucket, now: u128) -> bool {
    refilled(b, now) >= TOKEN
}

/// A bucket after an action was asked for: an action that is allowed spends one
/// token, one that is refused spends nothing.
pub open spec fn spent(b: Bucket, now: u128) -> Bucket {
    Bucket {
        units: if allows(b, now) {
            (refilled(b, now) - TOKEN) as u64
        } else {
            refilled(b, now) as u64
        },
        last: now,
    }
}

/// The bucket of a source that was not seen before.
pub open spec fn full_bucket(now: u128) -> Bucket {
    Bucket { units: CAPACITY, last: now }
}

/// The bucket of a source at a time: a full one where it was not seen before.
pub open spec fn bucket_of(buckets: Map<Source, Bucket>, source: Source, now: u128) -> Bucket {
    if buckets.contains_key(source) {
        buckets[source]
    } else {
        full_bucket(now)
    }
}

impl View for RateLimiter {
    type V = Map<Source, Bucket>;

    closed spec fn view(&self) -> Map<Source, Bucket> {
        Map::new(
            |s: Source|
                match s {
                    Source::V4(a) => self.v4@.contains_key(a),
                    Source::V6(a) => self.v6@.contains_key(a),
                },
            |s: Source|
                match s {
                    Source::V4(a) => self.v4@[a],
                    Source::V6(a) => self.v6@[a],
                },
        )
    }
}

impl RateLimiter {
    /// Whether a point is one that the monotonic clock gives.
    pub closed spec fn clock_gives(start: Instant) -> bool {
        call_ensures(crate::ratelimit::clock_now, (), start)
    }

    /// Whether a time, in nanoseconds, is one that the monotonic clock shows
    /// since a point.
    pub closed spec fn clock_shows(start: Instant, now: u128) -> bool {
        call_ensures(crate::ratelimit::nanos_since, (&start,), now)
    }

    /// The reading of the monotonic clock that times are counted from.
    pub closed spec fn origin(&self) -> Instant {
        self.start
    }
}

impl Default for RateLimiter {
    /// A limiter that has seen no source yet, and counts time from now on.
    fn default() -> (r: RateLimiter)
        ensures
            r@ == Map::<Source, Bucket>::empty(),
            RateLimiter::clock_gives(r.origin()),
    {
        let r = RateLimiter { start: clock_now(), v4: HashMap::new(), v6: HashMap::new() };
        assert(r@ =~= Map::<Source, Bucket>::empty());
        r
    }
}

/// Asks one bucket for an action.
pub fn spend(b: Bucket, now: u128) -> (r: (Bucket, bool))
    ensures
        r.0 == spent(b, now),
        r.1 == allows(b, now),
{
    let elapsed: u128 = now.saturating_sub(b.last);
    let sum: u128 = elapsed.saturating_add(b.units as u128);
    let units: u64 = if sum <= CAPACITY as u128 {
        sum as u64
    } else {
        CAPACITY
    };
    if units >= TOKEN {
        (Bucket { units: units - TOKEN, last: now }, true)
    } else {
        (Bucket { units, last: now }, false)
    }
}

impl RateLimiter {
    /// Tries to spend one token for `source` at `now`, in nanoseconds, and says
    /// whether it was allowed. No other source's bucket changes.
    pub fn check_at(&mut self, source: Source, now: u128) -> (r: bool)
        ensures
            r == allows(bucket_of(old(self)@, source, now), now),
            final(self)@ == old(self)@.insert(source, spent(bucket_of(old(self)@, source, now), now)),
            final(self).origin() == old(self).origin(),
    {
        let known: Option<Bucket> = match source {
            Source::V4(a) => match self.v4.get(&a) {
                Some(b) => Some(*b),
                None => None,
            },
            Source::V6(a) => match self.v6.get(&a) {
                Some(b) => Some(*b),
                None => None,
            },
        };
        let b: Bucket = match known {
            Some(b) => b,
            None => Bucket { units: CAPACITY, last: now },
        };
        assert(b == bucket_of(old(self)@, source, now));
        let (after, allowed) = spend(b, now);
        match source {
            Source::V4(a) => {
                self.v4.insert(a, after);
            },
            Source::V6(a) => {
                self.v6.insert(a, after);
            },
        }
        assert(self@ =~= old(self)@.insert(source, after));
        allowed
    }

    /// Tries to spend one token for `source` now.
    pub fn check(&mut self, source: Source) -> (r: bool)
        ensures
            exists|now: u128|
                {
                    &&& RateLimiter::clock_shows(old(self).origin(), now)
                    &&& r == #[trigger] allows(bucket_of(old(self)@, source, now), now)
                    &&& final(self)@ == old(self)@.insert(
                        source,
                        spent(bucket_of(old(self)@, source, now), now),
                    )
                },
            final(self).origin() == old(self).origin(),
    {
        let now: u128 = nanos_since(&self.start);
        assert(RateLimiter::clock_shows(self.origin(), now));
        self.check_at(source, now)
    }
}

// ---------------------------------------------------------------------- laws

/// A bucket after a row of requests, made at the given times.
pub open spec fn bucket_after(b: Bucket, times: Seq<u128>) -> Bucket
    decreases times.len(),
{
    if times.len() == 0 {
        b
    } else {
        spent(bucket_after(b, times.drop_last()), times.last())
    }
}

/// How many of a row of requests are allowed.
pub open spec fn allowed_count(b: Bucket, times: Seq<u128>) -> nat
    decreases times.len(),
{
    if times.len() == 0 {
        0
    } else {
        let n = allowed_count(b, times.drop_last());
        if allows(bucket_after(b, times.drop_last()), times.last()) {
            n + 1
        } else {
            n
        }
    }
}

/// Times that do not run backwards, none of them before `from`.
pub open spec fn is_timeline(from: u128, times: Seq<u128>) -> bool {
    &&& forall|i: int| 0 <= i < times.len() ==> from <= #[trigger] times[i]
    &&& forall|i: int, j: int| 0 <= i <= j < times.len() ==> times[i] <= times[j]
}

/// No bucket ever holds more than its capacity.
pub proof fn law_capacity_holds(b: Bucket, now: u128)
    ensures
        spent(b, now).units <= CAPACITY,
{
}

/// Whatever a source does, it is never allowed more actions than a full bucket
/// and the sustained rate pay for: over any stretch of time, the tokens spent
/// and those left are at most those it began with and those refilled.
pub proof fn law_sustained_rate(b: Bucket, times: Seq<u128>)
    requires
        b.units <= CAPACITY,
        is_timeline(b.last, times),
    ensures
        allowed_count(b, times) * TOKEN + bucket_after(b, times).units <= b.units + (bucket_after(
            b,
            times,
        ).last - b.last),
        bucket_after(b, times).units <= CAPACITY,
        bucket_after(b, times).last == if times.len() == 0 {
            b.last
        } else {
            times.last()
        },
    decreases times.len(),
{
    if times.len() > 0 {
        let earlier = times.drop_last();
        assert forall|i: int| 0 <= i < earlier.len() implies b.last <= #[trigger] earlier[i] by {
            assert(earlier[i] == times[i]);
        }
        assert forall|i: int, j: int| 0 <= i <= j < earlier.len() implies earlier[i]
            <= earlier[j] by {
            assert(earlier[i] == times[i] && earlier[j] == times[j]);
        }
        law_sustained_rate(b, earlier);
        let mid = bucket_after(b, earlier);
        if earlier.len() > 0 {
            assert(earlier.last() == times[times.len() - 2]);
            assert(times[times.len() - 2] <= times[times.len() - 1]);
        } else {
            assert(b.last <= times[0]);
        }
        assert(mid.last <= times.last());
    }
}

/// A source that was not seen before may act fifteen times back to back, and is
/// then refused.
pub proof fn law_burst(now: u128, count: nat)
    ensures
        allowed_count(full_bucket(now), Seq::new(count, |i: int| now)) == if count <= 15 {
            count
        } else {
            15
        },
        bucket_after(full_bucket(now), Seq::new(count, |i: int| now)) == (Bucket {
            units: if count <= 15 {
                (CAPACITY - count * TOKEN) as u64
            } else {
                0
            },
            last: now,
        }),
    decreases count,
{
    let times = Seq::new(count, |i: int| now);
    if count > 0 {
        law_burst(now, (count - 1) as nat);
        assert(times.drop_last() =~= Seq::new((count - 1) as nat, |i: int| now));
    }
}

/// A source that has waited two seconds since its last request is allowed the
/// next one, however many it had made before.
pub proof fn law_waiting_pays(b: Bucket, now: u128)
    requires
        now >= b.last + TOKEN,
    ensures
        allows(b, now),
{
}

/// A request of one source leaves what any other source may do as it was.
pub proof fn law_sources_are_independent(
    buckets: Map<Source, Bucket>,
    source: Source,
    other: Source,
    at: u128,
    now: u128,
)
    requires
        source != other,
    ensures
        bucket_of(buckets.insert(source, spent(bucket_of(buckets, source, at), at)), other, now)
            == bucket_of(buckets, other, now),
{
}

/// A bucket refills by one unit for every nanosecond that has passed since it was
/// last counted, up to fifteen tokens of two thousand million units each; an
/// action is allowed where a whole token is there, and then costs exactly one.
pub proof fn law_refill_is_complete(b: Bucket, now: u128)
    requires
        b.units <= 30_000_000_000,
        b.last <= now,
    ensures
        b.units + (now - b.last) <= 30_000_000_000 ==> refilled(b, now) == b.units + (now - b.last),
        b.units + (now - b.last) >= 30_000_000_000 ==> refilled(b, now) == 30_000_000_000,
        allows(b, now) <==> b.units + (now - b.last) >= 2_000_000_000,
        spent(b, now).last == now,
        allows(b, now) ==> spent(b, now).units + 2_000_000_000 == refilled(b, now),
        !allows(b, now) ==> spent(b, now).units == refilled(b, now),
{
}

/// A source that waits for the refill of some tokens, up to fifteen, is allowed as
/// many actions back to back, whatever it had left.
pub proof fn law_waiting_pays_in_full(b: Bucket, now: u128, count: nat)
    requires
        b.units <= 30_000_000_000,
        count <= 15,
        b.last + count * 2_000_000_000 <= now,
    ensures
        allowed_count(b, Seq::new(count, |i: int| now)) == count,
        count > 0 ==> bucket_after(b, Seq::new(count, |i: int| now)).last == now,
        count > 0 ==> bucket_after(b, Seq::new(count, |i: int| now)).units + count * 2_000_000_000
            == if b.units + (now - b.last) <= 30_000_000_000 {
            b.units + (now - b.last)
        } else {
            30_000_000_000
        },
    decreases count,
{
    let times = Seq::new(count, |i: int| now);
    if count > 0 {
        let fewer = (count - 1) as nat;
        law_waiting_pays_in_full(b, now, fewer);
        assert(times.drop_last() =~= Seq::new(fewer, |i: int| now));
        if fewer == 0 {
            assert(bucket_after(b, Seq::new(fewer, |i: int| now)) == b);
        }
    }
}

/// A source that has spent its burst is allowed one more action for every two
/// seconds it waits before each, and none sooner.
pub proof fn law_steady_posting(last: u128, now: u128)
    requires
        last <= now,
    ensures
        allows(Bucket { units: 0, last }, now) <==> now - last >= 2_000_000_000,
        now - last == 2_000_000_000 ==> spent(Bucket { units: 0, last }, now) == (Bucket {
            units: 0,
            last: now,
        }),
{
}

/// A source that was never seen starts with fifteen tokens; one that was seen goes
/// on with what it has.
pub proof fn law_first_seen_is_full(buckets: Map<Source, Bucket>, source: Source, now: u128)
    ensures
        !buckets.contains_key(source) ==> bucket_of(buckets, source, now) == (Bucket {
            units: 30_000_000_000,
            last: now,
        }),
        buckets.contains_key(source) ==> bucket_of(buckets, source, now) == buckets[source],
{
}

} // verus!
