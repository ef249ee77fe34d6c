//! Rate limiting with token buckets: a bucket holds up to its capacity of tokens, gains
//! `refill_rate` tokens per second, and a request passes when the bucket holds enough tokens
//! for it.
use crate::network::TrafficType;
use crate::primitives::Timestamp;
use vstd::prelude::*;

verus! {

/// The rate (and capacity) of a bucket that lets everything pass.
pub const UNLIMITED_RATE_SENTINEL: usize = 1_000_000_000;

/// The milliseconds from `since` to `now` (none if `now` is earlier).
pub open spec fn elapsed_millis(since: Timestamp, now: Timestamp) -> nat {
    if now.millis >= since.millis {
        (now.millis - since.millis) as nat
    } else {
        0
    }
}

/// The tokens that `rate` tokens per second add in the time from `since` to `now`, whole
/// tokens only.
pub open spec fn tokens_gained(rate: nat, since: Timestamp, now: Timestamp) -> nat {
    elapsed_millis(since, now) * rate / 1000
}

/// What taking `tokens` at `now` does to a bucket: it is refilled (and its refill time moves
/// to `now` when that gained a token), then pays for the request when it holds enough; a
/// request for the whole sentinel that it cannot pay empties it. Capacity and rate stay.
pub open spec fn consume_effect(before: TokenBucket, after: TokenBucket, tokens: nat, now: Timestamp) -> bool {
    let held = before.refilled(now);
    let possible = held >= tokens;
    &&& after.capacity() == before.capacity()
    &&& after.rate() == before.rate()
    &&& possible ==> after.current() == held - tokens
    &&& !possible && tokens == UNLIMITED_RATE_SENTINEL ==> after.current() == 0
    &&& !possible && tokens != UNLIMITED_RATE_SENTINEL ==> after.current() == held
    &&& after.smallest() == if after.current() < before.smallest() {
        after.current()
    } else {
        before.smallest()
    }
    &&& tokens_gained(before.rate(), before.last_refill(), now) > 0 ==> after.last_refill() == now
    &&& tokens_gained(before.rate(), before.last_refill(), now) == 0 ==> after.last_refill()
        == before.last_refill()
}

/// A token bucket.
pub struct TokenBucket {
    current_size: usize,
    max_token_count: usize,
    refill_rate: usize,
    smallest_size: usize,
    last_refill: Timestamp,
}

impl TokenBucket {
    pub closed spec fn current(&self) -> nat {
        self.current_size as nat
    }

    pub closed spec fn capacity(&self) -> nat {
        self.max_token_count as nat
    }

    pub closed spec fn rate(&self) -> nat {
        self.refill_rate as nat
    }

    /// The fewest tokens the bucket held since its last reset.
    pub closed spec fn smallest(&self) -> nat {
        self.smallest_size as nat
    }

    pub closed spec fn last_refill(&self) -> Timestamp {
        self.last_refill
    }

    pub closed spec fn wf(&self) -> bool {
        &&& self.current_size <= self.max_token_count
        &&& self.smallest_size <= self.max_token_count
        &&& self.refill_rate <= UNLIMITED_RATE_SENTINEL
    }

    /// The tokens held after refilling at `now`: what was held plus what was gained, up to
    /// the capacity.
    pub open spec fn refilled(&self, now: Timestamp) -> nat {
        let gained = tokens_gained(self.rate(), self.last_refill(), now);
        if self.current() + gained > self.capacity() {
            self.capacity()
        } else {
            self.current() + gained
        }
    }

    /// Whether a request for `tokens` passes at `now`: the refilled bucket holds as many, or
    /// the bucket lets everything pass.
    pub open spec fn passes(&self, tokens: nat, now: Timestamp) -> bool {
        self.refilled(now) >= tokens || self.rate() == UNLIMITED_RATE_SENTINEL
    }

    /// A full bucket with this capacity and rate; when either is zero the bucket lets
    /// everything pass.
    pub fn new(max_token_count: usize, refill_rate: usize, now: Timestamp) -> (r: TokenBucket)
        requires
            refill_rate <= UNLIMITED_RATE_SENTINEL,
        ensures
            r.wf(),
            max_token_count == 0 || refill_rate == 0 ==> r.capacity() == UNLIMITED_RATE_SENTINEL
                && r.rate() == UNLIMITED_RATE_SENTINEL,
            max_token_count != 0 && refill_rate != 0 ==> r.capacity() == max_token_count && r.rate()
                == refill_rate,
            r.current() == r.capacity(),
            r.smallest() == r.capacity(),
            r.last_refill() == now,
    {
        let mut bucket = TokenBucket {
            current_size: 0,
            max_token_count: 0,
            refill_rate: 0,
            smallest_size: 0,
            last_refill: now,
        };
        bucket.reset(max_token_count, refill_rate, now);
        bucket
    }

    /// Refills the bucket, then takes `tokens_required` tokens if it holds as many. Passes
    /// when it did, or when the bucket lets everything pass.
    pub fn try_consume(&mut self, tokens_required: usize, now: Timestamp) -> (r: bool)
        requires
            old(self).wf(),
            tokens_required <= UNLIMITED_RATE_SENTINEL,
        ensures
            final(self).wf(),
            final(self).capacity() == old(self).capacity(),
            final(self).rate() == old(self).rate(),
            r == old(self).passes(tokens_required as nat, now),
            consume_effect(*old(self), *final(self), tokens_required as nat, now),
    {
        self.refill(now);
        let possible = self.current_size >= tokens_required;
        if possible {
            self.current_size = self.current_size - tokens_required;
        } else if tokens_required == UNLIMITED_RATE_SENTINEL {
            self.current_size = 0;
        }
        if self.current_size < self.smallest_size {
            self.smallest_size = self.current_size;
        }
        possible || self.refill_rate == UNLIMITED_RATE_SENTINEL
    }

    fn refill(&mut self, now: Timestamp)
        requires
            old(self).wf(),
        ensures
            final(self).wf(),
            final(self).current() == old(self).refilled(now),
            final(self).capacity() == old(self).capacity(),
            final(self).rate() == old(self).rate(),
            final(self).smallest() == old(self).smallest(),
            tokens_gained(old(self).rate(), old(self).last_refill(), now) > 0 ==> final(self).last_refill() == now,
            tokens_gained(old(self).rate(), old(self).last_refill(), now) == 0 ==> final(self).last_refill()
                == old(self).last_refill(),
    {
        let elapsed: u64 = if now.millis >= self.last_refill.millis {
            now.millis - self.last_refill.millis
        } else {
            0
        };
        assert(elapsed as u128 * self.refill_rate as u128 <= u64::MAX as u128 * UNLIMITED_RATE_SENTINEL as u128) by (nonlinear_arith)
            requires
                elapsed <= u64::MAX,
                self.refill_rate <= UNLIMITED_RATE_SENTINEL,
        ;
        let gained: u128 = elapsed as u128 * self.refill_rate as u128 / 1000;
        if gained > 0 {
            let room = self.max_token_count - self.current_size;
            if gained > room as u128 {
                self.current_size = self.max_token_count;
            } else {
                self.current_size = self.current_size + gained as usize;
            }
            self.last_refill = now;
        }
    }

    /// The tokens the bucket holds.
    pub fn size(&self) -> (r: usize)
        ensures
            r == self.current(),
    {
        self.current_size
    }

    /// Fills the bucket to a new capacity and rate; when either is zero the bucket lets
    /// everything pass.
    pub fn reset(&mut self, max_token_count: usize, refill_rate: usize, now: Timestamp)
        requires
            refill_rate <= UNLIMITED_RATE_SENTINEL,
        ensures
            final(self).wf(),
            max_token_count == 0 || refill_rate == 0 ==> final(self).capacity() == UNLIMITED_RATE_SENTINEL
                && final(self).rate() == UNLIMITED_RATE_SENTINEL,
            max_token_count != 0 && refill_rate != 0 ==> final(self).capacity() == max_token_count
                && final(self).rate() == refill_rate,
            final(self).current() == final(self).capacity(),
            final(self).smallest() == final(self).capacity(),
            final(self).last_refill() == now,
    {
        let mut max = max_token_count;
        let mut rate = refill_rate;
        if max == 0 || rate == 0 {
            max = UNLIMITED_RATE_SENTINEL;
            rate = UNLIMITED_RATE_SENTINEL;
        }
        self.smallest_size = max;
        self.max_token_count = max;
        self.current_size = max;
        self.refill_rate = rate;
        self.last_refill = now;
    }
}

/// Lets a stream of requests pass at up to `limit` units per second.
pub struct RateLimiter {
    bucket: TokenBucket,
}

impl RateLimiter {
    pub closed spec fn bucket(&self) -> TokenBucket {
        self.bucket
    }

    pub closed spec fn wf(&self) -> bool {
        self.bucket.wf()
    }

    /// `limit` units per second, with bursts up to `limit`.
    pub fn new(limit: usize, now: Timestamp) -> (r: RateLimiter)
        requires
            limit <= UNLIMITED_RATE_SENTINEL,
        ensures
            r.wf(),
            r.bucket() == TokenBucket::new_spec(limit, limit, now),
    {
        Self::with_capacity(limit, limit, now)
    }

    /// `limit` units per second, with bursts up to `capacity`.
    pub fn with_capacity(limit: usize, capacity: usize, now: Timestamp) -> (r: RateLimiter)
        requires
            limit <= UNLIMITED_RATE_SENTINEL,
        ensures
            r.wf(),
            r.bucket() == TokenBucket::new_spec(capacity, limit, now),
    {
        RateLimiter { bucket: TokenBucket::new(capacity, limit, now) }
    }

    /// Whether a request of `message_size` units passes now (see `TokenBucket::try_consume`).
    pub fn should_pass(&mut self, message_size: usize, now: Timestamp) -> (r: bool)
        requires
            old(self).wf(),
            message_size <= UNLIMITED_RATE_SENTINEL,
        ensures
            final(self).wf(),
            r == old(self).bucket().passes(message_size as nat, now),
            consume_effect(old(self).bucket(), final(self).bucket(), message_size as nat, now),
    {
        self.bucket.try_consume(message_size, now)
    }

    /// Starts over with a new rate and burst capacity.
    pub fn reset_capacity(&mut self, capacity: usize, limit: usize, now: Timestamp)
        requires
            limit <= UNLIMITED_RATE_SENTINEL,
        ensures
            final(self).wf(),
            final(self).bucket() == TokenBucket::new_spec(capacity, limit, now),
    {
        self.bucket.reset(capacity, limit, now);
    }

    /// The units that may pass right now without refilling.
    pub fn size(&self) -> (r: usize)
        ensures
            r == self.bucket().current(),
    {
        self.bucket.size()
    }
}

impl TokenBucket {
    /// The bucket that `new` makes.
    pub open spec fn new_spec(max_token_count: usize, refill_rate: usize, now: Timestamp) -> TokenBucket {
        let unlimited = max_token_count == 0 || refill_rate == 0;
        let max = if unlimited {
            UNLIMITED_RATE_SENTINEL
        } else {
            max_token_count
        };
        TokenBucket::from_parts(max, if unlimited {
            UNLIMITED_RATE_SENTINEL
        } else {
            refill_rate
        }, now)
    }

    /// A full bucket with these parameters.
    pub closed spec fn from_parts(max: usize, rate: usize, now: Timestamp) -> TokenBucket {
        TokenBucket {
            current_size: max,
            max_token_count: max,
            refill_rate: rate,
            smallest_size: max,
            last_refill: now,
        }
    }
}

/// A fresh bucket is full: it holds its capacity, which is `max_token_count` (or the
/// sentinel when the capacity or the rate is zero), gains `refill_rate` tokens per second (or
/// the sentinel), and was last refilled when it was made.
pub proof fn lemma_fresh_bucket(max_token_count: usize, refill_rate: usize, now: Timestamp)
    ensures
        ({
            let b = TokenBucket::new_spec(max_token_count, refill_rate, now);
            let unlimited = max_token_count == 0 || refill_rate == 0;
            &&& b.capacity() == if unlimited { UNLIMITED_RATE_SENTINEL } else { max_token_count }
            &&& b.rate() == if unlimited { UNLIMITED_RATE_SENTINEL } else { refill_rate }
            &&& b.current() == b.capacity()
            &&& b.smallest() == b.capacity()
            &&& b.last_refill() == now
        }),
{
}

/// A fresh bucket passes any request up to its capacity, whenever it comes; and one made
/// with a zero capacity or a zero rate passes every request.
pub proof fn lemma_fresh_bucket_passes(
    max_token_count: usize,
    refill_rate: usize,
    created: Timestamp,
    tokens: nat,
    now: Timestamp,
)
    ensures
        tokens <= max_token_count ==> TokenBucket::new_spec(max_token_count, refill_rate, created).passes(
            tokens,
            now,
        ),
        max_token_count == 0 || refill_rate == 0 ==> TokenBucket::new_spec(
            max_token_count,
            refill_rate,
            created,
        ).passes(tokens, now),
{
}

/// What letting a buffer of `buffer_size` through does to the limiter: the limiter of its
/// traffic type is refilled and, when that covers the buffer, pays for it (see
/// `consume_effect`); the other limiter is left as it was.
pub open spec fn pass_effect(
    before: BandwidthLimiter,
    after: BandwidthLimiter,
    buffer_size: nat,
    traffic_type: TrafficType,
    now: Timestamp,
) -> bool {
    let used = if is_bootstrap_traffic(traffic_type) {
        before.bootstrap()
    } else {
        before.generic()
    };
    let changed = if is_bootstrap_traffic(traffic_type) {
        after.bootstrap()
    } else {
        after.generic()
    };
    &&& is_bootstrap_traffic(traffic_type) ==> after.generic() == before.generic()
    &&& !is_bootstrap_traffic(traffic_type) ==> after.bootstrap() == before.bootstrap()
    &&& consume_effect(used.bucket(), changed.bucket(), buffer_size, now)
}

/// Limits the generic traffic and the bootstrap serving traffic separately.
pub struct BandwidthLimiter {
    limiter_generic: RateLimiter,
    limiter_bootstrap: RateLimiter,
}

/// Whether traffic of this type goes through the bootstrap limiter.
pub open spec fn is_bootstrap_traffic(t: TrafficType) -> bool {
    t == TrafficType::BootstrapServer
}

impl BandwidthLimiter {
    pub closed spec fn generic(&self) -> RateLimiter {
        self.limiter_generic
    }

    pub closed spec fn bootstrap(&self) -> RateLimiter {
        self.limiter_bootstrap
    }

    pub closed spec fn wf(&self) -> bool {
        self.limiter_generic.wf() && self.limiter_bootstrap.wf()
    }

    /// Whether a buffer of `buffer_size` of this traffic type passes at `now`: the limiter of
    /// its traffic type passes it.
    pub open spec fn passes(&self, buffer_size: nat, traffic_type: TrafficType, now: Timestamp) -> bool {
        if is_bootstrap_traffic(traffic_type) {
            self.bootstrap().bucket().passes(buffer_size, now)
        } else {
            self.generic().bucket().passes(buffer_size, now)
        }
    }

    /// The limiter with these rates and burst capacities.
    pub fn with_capacities(
        generic_limit: usize,
        generic_capacity: usize,
        bootstrap_limit: usize,
        bootstrap_capacity: usize,
        now: Timestamp,
    ) -> (r: BandwidthLimiter)
        requires
            generic_limit <= UNLIMITED_RATE_SENTINEL,
            bootstrap_limit <= UNLIMITED_RATE_SENTINEL,
        ensures
            r.wf(),
            r.generic().bucket() == TokenBucket::new_spec(generic_capacity, generic_limit, now),
            r.bootstrap().bucket() == TokenBucket::new_spec(bootstrap_capacity, bootstrap_limit, now),
    {
        BandwidthLimiter {
            limiter_generic: RateLimiter::with_capacity(generic_limit, generic_capacity, now),
            limiter_bootstrap: RateLimiter::with_capacity(bootstrap_limit, bootstrap_capacity, now),
        }
    }

    /// Whether a buffer of this size and traffic type falls within the bandwidth limits
    /// (false: drop it). Bootstrap serving traffic goes through the bootstrap limiter, all
    /// other traffic through the generic one; the other limiter is left as it was.
    pub fn should_pass(&mut self, buffer_size: usize, traffic_type: TrafficType, now: Timestamp) -> (r: bool)
        requires
            old(self).wf(),
            buffer_size <= UNLIMITED_RATE_SENTINEL,
        ensures
            final(self).wf(),
            r == old(self).passes(buffer_size as nat, traffic_type, now),
            pass_effect(*old(self), *final(self), buffer_size as nat, traffic_type, now),
            traffic_type == TrafficType::BootstrapServer ==> {
                &&& r == old(self).bootstrap().bucket().passes(buffer_size as nat, now)
                &&& consume_effect(old(self).bootstrap().bucket(), final(self).bootstrap().bucket(), buffer_size as nat, now)
                &&& final(self).generic() == old(self).generic()
            },
            traffic_type != TrafficType::BootstrapServer ==> {
                &&& r == old(self).generic().bucket().passes(buffer_size as nat, now)
                &&& consume_effect(old(self).generic().bucket(), final(self).generic().bucket(), buffer_size as nat, now)
                &&& final(self).bootstrap() == old(self).bootstrap()
            },
    {
        match traffic_type {
            TrafficType::BootstrapServer => self.limiter_bootstrap.should_pass(buffer_size, now),
            _ => self.limiter_generic.should_pass(buffer_size, now),
        }
    }

    /// Starts the limiter of this traffic type over with a new rate and burst capacity.
    pub fn reset_capacity(&mut self, limit: usize, capacity: usize, traffic_type: TrafficType, now: Timestamp)
        requires
            old(self).wf(),
            limit <= UNLIMITED_RATE_SENTINEL,
        ensures
            final(self).wf(),
            is_bootstrap_traffic(traffic_type) ==> final(self).generic() == old(self).generic()
                && final(self).bootstrap().bucket() == TokenBucket::new_spec(capacity, limit, now),
            !is_bootstrap_traffic(traffic_type) ==> final(self).bootstrap() == old(self).bootstrap()
                && final(self).generic().bucket() == TokenBucket::new_spec(capacity, limit, now),
            traffic_type == TrafficType::BootstrapServer ==> final(self).generic() == old(self).generic()
                && final(self).bootstrap().bucket() == TokenBucket::new_spec(capacity, limit, now),
            traffic_type != TrafficType::BootstrapServer ==> final(self).bootstrap() == old(self).bootstrap()
                && final(self).generic().bucket() == TokenBucket::new_spec(capacity, limit, now),
    {
        match traffic_type {
            TrafficType::BootstrapServer => self.limiter_bootstrap.reset_capacity(capacity, limit, now),
            _ => self.limiter_generic.reset_capacity(capacity, limit, now),
        }
    }

    /// The tokens the generic and the bootstrap limiter hold.
    pub fn sizes(&self) -> (r: (usize, usize))
        ensures
            r.0 == self.generic().bucket().current(),
            r.1 == self.bootstrap().bucket().current(),
    {
        (self.limiter_generic.size(), self.limiter_bootstrap.size())
    }
}

/// Only bootstrap serving traffic goes through the bootstrap limiter: a buffer of any other
/// traffic type (bootstrap requests among them) is judged and paid for by the generic limiter
/// alone, and leaves the bootstrap limiter as it was.
pub proof fn lemma_only_bootstrap_serving_uses_bootstrap_limiter(
    before: BandwidthLimiter,
    after: BandwidthLimiter,
    buffer_size: nat,
    traffic_type: TrafficType,
    now: Timestamp,
)
    requires
        pass_effect(before, after, buffer_size, traffic_type, now),
    ensures
        traffic_type != TrafficType::BootstrapServer ==> {
            &&& before.passes(buffer_size, traffic_type, now) == before.generic().bucket().passes(buffer_size, now)
            &&& consume_effect(before.generic().bucket(), after.generic().bucket(), buffer_size, now)
            &&& after.bootstrap() == before.bootstrap()
        },
        traffic_type == TrafficType::BootstrapServer ==> {
            &&& before.passes(buffer_size, traffic_type, now) == before.bootstrap().bucket().passes(buffer_size, now)
            &&& consume_effect(before.bootstrap().bucket(), after.bootstrap().bucket(), buffer_size, now)
            &&& after.generic() == before.generic()
        },
{
}

} // verus!
