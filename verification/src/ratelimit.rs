//! Rate limiting for WebSocket connections using token buckets
//!
//! A bucket holds at most its capacity (the burst size) of tokens. Tokens
//! come back at the bucket's rate per second, each operation takes some,
//! and an operation that finds too few tokens is refused. Times are
//! nanoseconds since the Unix epoch; every operation that reads the clock
//! has a variant that takes the time as an argument.
use vstd::prelude::*;
use std::time::Duration;
use crate::error::{Error, Result};
use crate::time::duration_nanos;

verus! {

/// Rate limit type
#[derive(Debug, Clone, Copy, PartialEq, Eq, Hash, Structural)]
pub enum RateLimitType {
    /// Rate limit by message count
    Message,
    /// Rate limit by byte count
    Byte,
    /// Rate limit by operation count
    Operation,
}

impl RateLimitType {
    /// Get all rate limit types
    pub fn all() -> (r: Vec<RateLimitType>)
        ensures
            r@ == seq![RateLimitType::Message, RateLimitType::Byte, RateLimitType::Operation],
    {
        let mut v: Vec<RateLimitType> = Vec::new();
        v.push(RateLimitType::Message);
        v.push(RateLimitType::Byte);
        v.push(RateLimitType::Operation);
        assert(v@ =~= seq![RateLimitType::Message, RateLimitType::Byte, RateLimitType::Operation]);
        v
    }
}

/// Rate limit status
#[derive(Debug, Clone)]
pub struct RateLimitStatus {
    /// Remaining tokens
    pub remaining: u64,
    /// Time until bucket refills to capacity
    pub resets_in: Duration,
    /// Rate limit (tokens per second)
    pub limit: u64,
    /// Burst capacity
    pub capacity: u64,
}

/// Rate limit configuration
#[derive(Debug, Clone)]
pub struct RateLimitConfig {
    /// Maximum messages per second
    pub messages_per_second: u64,
    /// Maximum bytes per second
    pub bytes_per_second: u64,
    /// Maximum operations per second
    pub operations_per_second: u64,
    /// Burst size (maximum token accumulation)
    pub burst_size: u64,
}

/// The default configuration: 100 messages, 1MB and 1000 operations per
/// second, bursts of 100.
pub open spec fn default_rate_config() -> RateLimitConfig {
    RateLimitConfig {
        messages_per_second: 100,
        bytes_per_second: 1048576,
        operations_per_second: 1000,
        burst_size: 100,
    }
}

impl Default for RateLimitConfig {
    fn default() -> (r: Self)
        ensures
            r == default_rate_config(),
    {
        RateLimitConfig {
            messages_per_second: 100,
            bytes_per_second: 1024 * 1024,
            operations_per_second: 1000,
            burst_size: 100,
        }
    }
}

/// The rate of a type in a configuration.
pub open spec fn limit_for(c: RateLimitConfig, t: RateLimitType) -> u64 {
    match t {
        RateLimitType::Message => c.messages_per_second,
        RateLimitType::Byte => c.bytes_per_second,
        RateLimitType::Operation => c.operations_per_second,
    }
}

/// The capacity of a type's bucket: the burst size, but at least 1024 for
/// bytes and at least 1 for the others.
pub open spec fn capacity_for(c: RateLimitConfig, t: RateLimitType) -> u64 {
    match t {
        RateLimitType::Byte => if c.burst_size >= 1024 {
            c.burst_size
        } else {
            1024
        },
        _ => if c.burst_size >= 1 {
            c.burst_size
        } else {
            1
        },
    }
}

impl RateLimitConfig {
    /// Create a new rate limit configuration with default values
    pub fn new() -> (r: Self)
        ensures
            r == default_rate_config(),
    {
        Self::default()
    }

    /// Set messages per second limit
    pub fn with_messages_per_second(self, limit: u64) -> (r: Self)
        ensures
            r == (RateLimitConfig { messages_per_second: limit, ..self }),
    {
        let mut c = self;
        c.messages_per_second = limit;
        c
    }

    /// Set bytes per second limit
    pub fn with_bytes_per_second(self, limit: u64) -> (r: Self)
        ensures
            r == (RateLimitConfig { bytes_per_second: limit, ..self }),
    {
        let mut c = self;
        c.bytes_per_second = limit;
        c
    }

    /// Set operations per second limit
    pub fn with_operations_per_second(self, limit: u64) -> (r: Self)
        ensures
            r == (RateLimitConfig { operations_per_second: limit, ..self }),
    {
        let mut c = self;
        c.operations_per_second = limit;
        c
    }

    /// Set burst size (maximum token accumulation)
    pub fn with_burst_size(self, size: u64) -> (r: Self)
        ensures
            r == (RateLimitConfig { burst_size: size, ..self }),
    {
        let mut c = self;
        c.burst_size = size;
        c
    }

    /// Disable rate limiting (every limit at its maximum)
    pub fn disabled() -> (r: Self)
        ensures
            r == (RateLimitConfig {
                messages_per_second: u64::MAX,
                bytes_per_second: u64::MAX,
                operations_per_second: u64::MAX,
                burst_size: u64::MAX,
            }),
    {
        RateLimitConfig {
            messages_per_second: u64::MAX,
            bytes_per_second: u64::MAX,
            operations_per_second: u64::MAX,
            burst_size: u64::MAX,
        }
    }

    /// Get limit for a specific type
    pub fn get_limit(&self, rate_limit_type: RateLimitType) -> (r: u64)
        ensures
            r == limit_for(*self, rate_limit_type),
    {
        match rate_limit_type {
            RateLimitType::Message => self.messages_per_second,
            RateLimitType::Byte => self.bytes_per_second,
            RateLimitType::Operation => self.operations_per_second,
        }
    }
}

/// The smaller of two numbers.
pub open spec fn min_int(a: int, b: int) -> int {
    if a <= b {
        a
    } else {
        b
    }
}

/// The tokens a bucket holds and the time of its last refill, after a
/// refill at `now`: the tokens earned since the last refill at `rate` per
/// second (rounded down, and at most `u64::MAX`) are added up to the
/// capacity, and the last refill time moves forward by the time those
/// added tokens took to earn (rounded down), never past `now`.
pub open spec fn refill_spec(tokens: u64, last: u64, cap: u64, rate: u64, now: u64) -> (u64, u64) {
    let elapsed: int = if now > last {
        now - last
    } else {
        0
    };
    let earned = min_int(elapsed * rate / 1_000_000_000, u64::MAX as int);
    if elapsed == 0 || earned == 0 {
        (tokens, last)
    } else {
        let new_tokens = min_int(min_int(tokens + earned, u64::MAX as int), cap as int);
        let added: int = if new_tokens > tokens {
            new_tokens - tokens
        } else {
            0
        };
        let added_nanos = min_int(added * 1_000_000_000 / (rate as int), u64::MAX as int);
        (new_tokens as u64, min_int(last + min_int(added_nanos, elapsed), u64::MAX as int) as u64)
    }
}

/// The time, in nanoseconds, until a bucket holding `tokens` is full again:
/// nothing when it is full, a minute when it never refills, otherwise the
/// missing tokens at `rate` per second, rounded down to the nanosecond.
pub open spec fn time_to_full(tokens: u64, cap: u64, rate: u64) -> nat {
    if tokens >= cap {
        0
    } else if rate == 0 {
        60_000_000_000
    } else {
        ((cap - tokens) as nat) * 1_000_000_000 / (rate as nat)
    }
}

#[verifier::external_type_specification]
#[verifier::external_body]
pub struct ExSystemTimeError(std::time::SystemTimeError);

/// `SystemTime::elapsed` on the Unix epoch: the time since the epoch read
/// from the system clock (an error when the clock reads earlier); nothing
/// is promised of it.
#[verifier::external_body]
fn since_unix_epoch() -> core::result::Result<Duration, std::time::SystemTimeError> {
    std::time::UNIX_EPOCH.elapsed()
}

/// The current time in nanoseconds since the Unix epoch (0 when the clock
/// reads earlier than the epoch).
pub fn timestamp_nanos() -> u64 {
    match since_unix_epoch() {
        Ok(d) => {
            let n = d.as_nanos();
            if n > u64::MAX as u128 {
                u64::MAX
            } else {
                n as u64
            }
        },
        Err(_) => 0,
    }
}

/// Token bucket state
#[derive(Debug)]
pub struct TokenBucket {
    /// Current token count
    tokens: u64,
    /// Last refill timestamp (nanoseconds since the Unix epoch)
    last_refill: u64,
    /// Maximum capacity (burst size)
    capacity: u64,
    /// Refill rate (tokens per second)
    refill_rate: u64,
}

impl TokenBucket {
    /// Tokens held.
    pub closed spec fn spec_tokens(&self) -> u64 {
        self.tokens
    }

    /// Time of the last refill.
    pub closed spec fn spec_last_refill(&self) -> u64 {
        self.last_refill
    }

    /// Maximum number of tokens.
    pub closed spec fn spec_capacity(&self) -> u64 {
        self.capacity
    }

    /// Tokens earned per second.
    pub closed spec fn spec_rate(&self) -> u64 {
        self.refill_rate
    }

    /// A bucket never holds more than its capacity.
    pub open spec fn wf(&self) -> bool {
        self.spec_tokens() <= self.spec_capacity()
    }

    /// The bucket's tokens and last refill time after a refill at `now`.
    pub open spec fn refilled(&self, now: u64) -> (u64, u64) {
        refill_spec(
            self.spec_tokens(),
            self.spec_last_refill(),
            self.spec_capacity(),
            self.spec_rate(),
            now,
        )
    }

    /// Whether `b` is this bucket with the given tokens and last refill time.
    pub open spec fn same_but(&self, b: TokenBucket, state: (u64, u64)) -> bool {
        &&& b.spec_tokens() == state.0
        &&& b.spec_last_refill() == state.1
        &&& b.spec_capacity() == self.spec_capacity()
        &&& b.spec_rate() == self.spec_rate()
    }

    /// Create a full bucket at time `now`
    pub fn new_at(capacity: u64, refill_rate: u64, now: u64) -> (r: Self)
        ensures
            r.wf(),
            r.spec_tokens() == capacity,
            r.spec_last_refill() == now,
            r.spec_capacity() == capacity,
            r.spec_rate() == refill_rate,
    {
        TokenBucket { tokens: capacity, last_refill: now, capacity, refill_rate }
    }

    /// Create a full bucket at the current time
    pub fn new(capacity: u64, refill_rate: u64) -> (r: Self)
        ensures
            r.wf(),
            r.spec_tokens() == capacity,
            r.spec_capacity() == capacity,
            r.spec_rate() == refill_rate,
    {
        Self::new_at(capacity, refill_rate, timestamp_nanos())
    }

    /// Refill tokens for the time elapsed until `now`
    pub fn refill_at(&mut self, now: u64)
        requires
            old(self).wf(),
        ensures
            final(self).wf(),
            old(self).same_but(*final(self), old(self).refilled(now)),
    {
        let last = self.last_refill;
        let elapsed_nanos = now.saturating_sub(last);
        if elapsed_nanos == 0 {
            return;
        }
        let e: u128 = elapsed_nanos as u128;
        let rt: u128 = self.refill_rate as u128;
        assert(e * rt <= u64::MAX * u64::MAX) by (nonlinear_arith)
            requires
                e <= u64::MAX,
                rt <= u64::MAX,
        ;
        let earned: u128 = e * rt / 1_000_000_000;
        let tokens_to_add: u64 = if earned > u64::MAX as u128 {
            u64::MAX
        } else {
            earned as u64
        };
        if tokens_to_add > 0 {
            let current = self.tokens;
            let sum = current.saturating_add(tokens_to_add);
            let new_tokens = if sum < self.capacity {
                sum
            } else {
                self.capacity
            };
            self.tokens = new_tokens;
            let added_tokens = new_tokens.saturating_sub(current);
            assert(self.refill_rate > 0) by {
                if self.refill_rate == 0 {
                    assert(e * rt == 0) by (nonlinear_arith)
                        requires
                            rt == 0,
                    ;
                }
            }
            let nanos: u128 = (added_tokens as u128) * 1_000_000_000 / (self.refill_rate as u128);
            let added_nanos: u64 = if nanos > u64::MAX as u128 {
                u64::MAX
            } else {
                nanos as u64
            };
            let step = if added_nanos < elapsed_nanos {
                added_nanos
            } else {
                elapsed_nanos
            };
            self.last_refill = last.saturating_add(step);
        }
    }

    /// Refill tokens for the time elapsed until now
    pub fn refill(&mut self)
        requires
            old(self).wf(),
        ensures
            final(self).wf(),
            exists|now: u64| old(self).same_but(*final(self), #[trigger] old(self).refilled(now)),
    {
        let now = timestamp_nanos();
        self.refill_at(now);
    }

    /// Try to take `amount` tokens at time `now`: after the refill, succeeds
    /// exactly when the bucket holds at least `amount` tokens, and then
    /// takes them.
    pub fn try_consume_at(&mut self, amount: u64, now: u64) -> (r: bool)
        requires
            old(self).wf(),
        ensures
            final(self).wf(),
            r == (old(self).refilled(now).0 >= amount),
            r ==> old(self).same_but(
                *final(self),
                ((old(self).refilled(now).0 - amount) as u64, old(self).refilled(now).1),
            ),
            !r ==> old(self).same_but(*final(self), old(self).refilled(now)),
    {
        self.refill_at(now);
        if self.tokens < amount {
            return false;
        }
        self.tokens = self.tokens - amount;
        true
    }

    /// Try to take `amount` tokens now (non-blocking)
    pub fn try_consume(&mut self, amount: u64) -> (r: bool)
        requires
            old(self).wf(),
        ensures
            final(self).wf(),
            exists|now: u64|
                {
                    &&& r == (#[trigger] old(self).refilled(now).0 >= amount)
                    &&& r ==> old(self).same_but(
                        *final(self),
                        ((old(self).refilled(now).0 - amount) as u64, old(self).refilled(now).1),
                    )
                    &&& !r ==> old(self).same_but(*final(self), old(self).refilled(now))
                },
    {
        let now = timestamp_nanos();
        self.try_consume_at(amount, now)
    }

    /// The tokens held after a refill at `now`
    pub fn available_at(&mut self, now: u64) -> (r: u64)
        requires
            old(self).wf(),
        ensures
            final(self).wf(),
            old(self).same_but(*final(self), old(self).refilled(now)),
            r == old(self).refilled(now).0,
    {
        self.refill_at(now);
        self.tokens
    }

    /// Get current token count (after a refill)
    pub fn available(&mut self) -> (r: u64)
        requires
            old(self).wf(),
        ensures
            final(self).wf(),
            exists|now: u64|
                old(self).same_but(*final(self), #[trigger] old(self).refilled(now)) && r == old(
                    self,
                ).refilled(now).0,
    {
        let now = timestamp_nanos();
        self.available_at(now)
    }

    /// Get capacity
    pub fn capacity(&self) -> (r: u64)
        ensures
            r == self.spec_capacity(),
    {
        self.capacity
    }

    /// Get refill rate
    pub fn refill_rate(&self) -> (r: u64)
        ensures
            r == self.spec_rate(),
    {
        self.refill_rate
    }

    /// The time until the bucket is full, after a refill at `now`
    pub fn time_until_full_at(&mut self, now: u64) -> (r: Duration)
        requires
            old(self).wf(),
        ensures
            final(self).wf(),
            old(self).same_but(*final(self), old(self).refilled(now)),
            duration_nanos(r) == time_to_full(
                old(self).refilled(now).0,
                old(self).spec_capacity(),
                old(self).spec_rate(),
            ),
    {
        let available = self.available_at(now);
        if available >= self.capacity {
            return Duration::new(0, 0);
        }
        let needed = self.capacity - available;
        if self.refill_rate == 0 {
            return Duration::from_secs(60);
        }
        let rate = self.refill_rate;
        let secs = needed / rate;
        let rem = needed % rate;
        let sub: u128 = (rem as u128) * 1_000_000_000 / (rate as u128);
        proof {
            assert(sub < 1_000_000_000) by (nonlinear_arith)
                requires
                    rem < rate,
                    sub == (rem as int) * 1_000_000_000 / (rate as int),
                    rate > 0,
            ;
            assert(secs * 1_000_000_000 + sub == (needed as int) * 1_000_000_000 / (rate as int))
                by (nonlinear_arith)
                requires
                    rate > 0,
                    secs == needed / rate,
                    rem == needed % rate,
                    sub == (rem as int) * 1_000_000_000 / (rate as int),
            {
                assert(needed == secs * rate + rem);
                assert((needed as int) * 1_000_000_000 == (secs * 1_000_000_000) * rate + (rem as int)
                    * 1_000_000_000);
            }
        }
        Duration::new(secs, sub as u32)
    }

    /// Calculate time until bucket is full (after a refill now)
    pub fn time_until_full(&mut self) -> (r: Duration)
        requires
            old(self).wf(),
        ensures
            final(self).wf(),
            exists|now: u64|
                old(self).same_but(*final(self), #[trigger] old(self).refilled(now))
                    && duration_nanos(r) == time_to_full(
                    old(self).refilled(now).0,
                    old(self).spec_capacity(),
                    old(self).spec_rate(),
                ),
    {
        let now = timestamp_nanos();
        self.time_until_full_at(now)
    }

    /// Fill the bucket, with `now` as its last refill time
    pub fn reset_at(&mut self, now: u64)
        ensures
            final(self).wf(),
            old(self).same_but(*final(self), (old(self).spec_capacity(), now)),
    {
        self.tokens = self.capacity;
        self.last_refill = now;
    }

    /// Reset bucket to full capacity
    pub fn reset(&mut self)
        ensures
            final(self).wf(),
            final(self).spec_tokens() == old(self).spec_capacity(),
            final(self).spec_capacity() == old(self).spec_capacity(),
            final(self).spec_rate() == old(self).spec_rate(),
    {
        let now = timestamp_nanos();
        self.reset_at(now);
    }
}

/// A full bucket for a type of a configuration, created at `now`.
pub open spec fn fresh_bucket(b: TokenBucket, c: RateLimitConfig, t: RateLimitType, now: u64) -> bool {
    &&& b.spec_tokens() == capacity_for(c, t)
    &&& b.spec_last_refill() == now
    &&& b.spec_capacity() == capacity_for(c, t)
    &&& b.spec_rate() == limit_for(c, t)
}

/// Whether an error is the rate-limit error for type `t` with the given
/// retry time in nanoseconds.
pub open spec fn rate_limited(e: Error, t: RateLimitType, retry_nanos: nat) -> bool {
    e matches Error::RateLimitExceeded { rate_limit_type, retry_after } && rate_limit_type == t
        && duration_nanos(retry_after) == retry_nanos
}

/// Rate limiter with one token bucket per rate limit type
#[derive(Debug)]
pub struct RateLimiter {
    config: RateLimitConfig,
    message: TokenBucket,
    byte: TokenBucket,
    operation: TokenBucket,
}

impl RateLimiter {
    /// The configuration.
    pub closed spec fn spec_config(&self) -> RateLimitConfig {
        self.config
    }

    /// The bucket of a type.
    pub closed spec fn bucket(&self, t: RateLimitType) -> TokenBucket {
        match t {
            RateLimitType::Message => self.message,
            RateLimitType::Byte => self.byte,
            RateLimitType::Operation => self.operation,
        }
    }

    /// Every bucket is well formed.
    pub open spec fn wf(&self) -> bool {
        &&& self.bucket(RateLimitType::Message).wf()
        &&& self.bucket(RateLimitType::Byte).wf()
        &&& self.bucket(RateLimitType::Operation).wf()
    }

    /// `other` is this limiter with only the bucket of `t` changed to `b`'s state.
    pub open spec fn only_bucket_changed(&self, other: RateLimiter, t: RateLimitType, state: (u64, u64)) -> bool {
        &&& other.spec_config() == self.spec_config()
        &&& self.bucket(t).same_but(other.bucket(t), state)
        &&& forall|u: RateLimitType| u != t ==> #[trigger] other.bucket(u) == self.bucket(u)
    }

    /// Create a rate limiter whose buckets are full at time `now`: each type
    /// gets a bucket of its rate, holding the burst size (at least 1024 for
    /// bytes, at least 1 for the others).
    pub fn new_at(config: RateLimitConfig, now: u64) -> (r: Self)
        ensures
            r.wf(),
            r.spec_config() == config,
            forall|t: RateLimitType| fresh_bucket(#[trigger] r.bucket(t), config, t, now),
    {
        let burst = config.burst_size;
        let byte_capacity = if burst >= 1024 {
            burst
        } else {
            1024
        };
        let capacity = if burst >= 1 {
            burst
        } else {
            1
        };
        let message = TokenBucket::new_at(capacity, config.messages_per_second, now);
        let byte = TokenBucket::new_at(byte_capacity, config.bytes_per_second, now);
        let operation = TokenBucket::new_at(capacity, config.operations_per_second, now);
        RateLimiter { config, message, byte, operation }
    }

    /// Create a new rate limiter, its buckets full at the current time
    pub fn new(config: RateLimitConfig) -> (r: Self)
        ensures
            r.wf(),
            r.spec_config() == config,
            forall|t: RateLimitType|
                fresh_bucket(
                    #[trigger] r.bucket(t),
                    config,
                    t,
                    r.bucket(RateLimitType::Message).spec_last_refill(),
                ),
    {
        let now = timestamp_nanos();
        Self::new_at(config, now)
    }

    /// Create a rate limiter with default configuration
    pub fn default_config() -> (r: Self)
        ensures
            r.wf(),
            r.spec_config() == default_rate_config(),
            forall|t: RateLimitType|
                fresh_bucket(
                    #[trigger] r.bucket(t),
                    default_rate_config(),
                    t,
                    r.bucket(RateLimitType::Message).spec_last_refill(),
                ),
    {
        Self::new(RateLimitConfig::default())
    }

    /// Create a disabled rate limiter (no limits)
    pub fn disabled() -> (r: Self)
        ensures
            r.wf(),
            r.spec_config().messages_per_second == u64::MAX,
            r.spec_config().bytes_per_second == u64::MAX,
            r.spec_config().operations_per_second == u64::MAX,
            r.spec_config().burst_size == u64::MAX,
            forall|t: RateLimitType|
                fresh_bucket(
                    #[trigger] r.bucket(t),
                    r.spec_config(),
                    t,
                    r.bucket(RateLimitType::Message).spec_last_refill(),
                ),
    {
        Self::new(RateLimitConfig::disabled())
    }

    /// Try to take `amount` tokens of type `t` at time `now`. Nothing is
    /// asked for nothing; otherwise the type's bucket is refilled, and the
    /// permit is granted exactly when the bucket holds at least `amount`
    /// tokens (which are then taken). A refusal is a rate-limit error whose
    /// retry time is the time until the bucket is full, after one more
    /// refill.
    pub fn try_acquire_at(&mut self, rate_limit_type: RateLimitType, amount: u64, now: u64) -> (r:
        Result<()>)
        requires
            old(self).wf(),
        ensures
            final(self).wf(),
            amount == 0 ==> r is Ok && *final(self) == *old(self),
            amount > 0 ==> ({
                let b = old(self).bucket(rate_limit_type);
                let s1 = b.refilled(now);
                if s1.0 >= amount {
                    &&& r is Ok
                    &&& old(self).only_bucket_changed(
                        *final(self),
                        rate_limit_type,
                        ((s1.0 - amount) as u64, s1.1),
                    )
                } else {
                    let s2 = refill_spec(s1.0, s1.1, b.spec_capacity(), b.spec_rate(), now);
                    &&& r matches Err(e) && rate_limited(
                        e,
                        rate_limit_type,
                        time_to_full(s2.0, b.spec_capacity(), b.spec_rate()),
                    )
                    &&& old(self).only_bucket_changed(*final(self), rate_limit_type, s2)
                }
            }),
    {
        if amount == 0 {
            return Ok(());
        }
        match rate_limit_type {
            RateLimitType::Message => {
                if self.message.try_consume_at(amount, now) {
                    Ok(())
                } else {
                    let retry_after = self.message.time_until_full_at(now);
                    Err(Error::RateLimitExceeded { rate_limit_type, retry_after })
                }
            },
            RateLimitType::Byte => {
                if self.byte.try_consume_at(amount, now) {
                    Ok(())
                } else {
                    let retry_after = self.byte.time_until_full_at(now);
                    Err(Error::RateLimitExceeded { rate_limit_type, retry_after })
                }
            },
            RateLimitType::Operation => {
                if self.operation.try_consume_at(amount, now) {
                    Ok(())
                } else {
                    let retry_after = self.operation.time_until_full_at(now);
                    Err(Error::RateLimitExceeded { rate_limit_type, retry_after })
                }
            },
        }
    }

    /// Try to acquire a permit now (non-blocking): the outcome of
    /// `try_acquire_at` at some reading of the clock.
    pub fn try_acquire(&mut self, rate_limit_type: RateLimitType, amount: u64) -> (r: Result<()>)
        requires
            old(self).wf(),
        ensures
            final(self).wf(),
            amount == 0 ==> r is Ok && *final(self) == *old(self),
            amount > 0 ==> exists|now: u64|
                #![trigger old(self).bucket(rate_limit_type).refilled(now)]
                {
                    let b = old(self).bucket(rate_limit_type);
                    let s1 = b.refilled(now);
                    if s1.0 >= amount {
                        &&& r is Ok
                        &&& old(self).only_bucket_changed(
                            *final(self),
                            rate_limit_type,
                            ((s1.0 - amount) as u64, s1.1),
                        )
                    } else {
                        let s2 = refill_spec(s1.0, s1.1, b.spec_capacity(), b.spec_rate(), now);
                        &&& r matches Err(e) && rate_limited(
                            e,
                            rate_limit_type,
                            time_to_full(s2.0, b.spec_capacity(), b.spec_rate()),
                        )
                        &&& old(self).only_bucket_changed(*final(self), rate_limit_type, s2)
                    }
                },
    {
        let now = timestamp_nanos();
        self.try_acquire_at(rate_limit_type, amount, now)
    }

    /// The status of type `t` at time `now`: the tokens left after a refill,
    /// the time until the bucket is full after one more refill, the rate and
    /// the capacity.
    pub fn status_at(&mut self, rate_limit_type: RateLimitType, now: u64) -> (r: RateLimitStatus)
        requires
            old(self).wf(),
        ensures
            final(self).wf(),
            ({
                let b = old(self).bucket(rate_limit_type);
                let s1 = b.refilled(now);
                let s2 = refill_spec(s1.0, s1.1, b.spec_capacity(), b.spec_rate(), now);
                &&& r.remaining == s1.0
                &&& duration_nanos(r.resets_in) == time_to_full(s2.0, b.spec_capacity(), b.spec_rate())
                &&& r.limit == b.spec_rate()
                &&& r.capacity == b.spec_capacity()
                &&& old(self).only_bucket_changed(*final(self), rate_limit_type, s2)
            }),
    {
        match rate_limit_type {
            RateLimitType::Message => {
                let remaining = self.message.available_at(now);
                let resets_in = self.message.time_until_full_at(now);
                RateLimitStatus {
                    remaining,
                    resets_in,
                    limit: self.message.refill_rate(),
                    capacity: self.message.capacity(),
                }
            },
            RateLimitType::Byte => {
                let remaining = self.byte.available_at(now);
                let resets_in = self.byte.time_until_full_at(now);
                RateLimitStatus {
                    remaining,
                    resets_in,
                    limit: self.byte.refill_rate(),
                    capacity: self.byte.capacity(),
                }
            },
            RateLimitType::Operation => {
                let remaining = self.operation.available_at(now);
                let resets_in = self.operation.time_until_full_at(now);
                RateLimitStatus {
                    remaining,
                    resets_in,
                    limit: self.operation.refill_rate(),
                    capacity: self.operation.capacity(),
                }
            },
        }
    }

    /// Get rate limit status for a specific type, now
    pub fn status(&mut self, rate_limit_type: RateLimitType) -> (r: RateLimitStatus)
        requires
            old(self).wf(),
        ensures
            final(self).wf(),
            exists|now: u64|
                #![trigger old(self).bucket(rate_limit_type).refilled(now)]
                {
                    let b = old(self).bucket(rate_limit_type);
                    let s1 = b.refilled(now);
                    let s2 = refill_spec(s1.0, s1.1, b.spec_capacity(), b.spec_rate(), now);
                    &&& r.remaining == s1.0
                    &&& duration_nanos(r.resets_in) == time_to_full(
                        s2.0,
                        b.spec_capacity(),
                        b.spec_rate(),
                    )
                    &&& r.limit == b.spec_rate()
                    &&& r.capacity == b.spec_capacity()
                    &&& old(self).only_bucket_changed(*final(self), rate_limit_type, s2)
                },
    {
        let now = timestamp_nanos();
        self.status_at(rate_limit_type, now)
    }

    /// Fill every bucket, with `now` as its last refill time
    pub fn reset_at(&mut self, now: u64)
        ensures
            final(self).wf(),
            final(self).spec_config() == old(self).spec_config(),
            forall|t: RateLimitType|
                old(self).bucket(t).same_but(
                    #[trigger] final(self).bucket(t),
                    (old(self).bucket(t).spec_capacity(), now),
                ),
    {
        self.message.reset_at(now);
        self.byte.reset_at(now);
        self.operation.reset_at(now);
    }

    /// Reset all rate limit counters
    pub fn reset(&mut self)
        ensures
            final(self).wf(),
            final(self).spec_config() == old(self).spec_config(),
            forall|t: RateLimitType|
                old(self).bucket(t).same_but(
                    #[trigger] final(self).bucket(t),
                    (
                        old(self).bucket(t).spec_capacity(),
                        final(self).bucket(RateLimitType::Message).spec_last_refill(),
                    ),
                ),
    {
        let now = timestamp_nanos();
        self.reset_at(now);
    }

    /// Fill the bucket of one type, with `now` as its last refill time
    pub fn reset_type_at(&mut self, rate_limit_type: RateLimitType, now: u64)
        requires
            old(self).wf(),
        ensures
            final(self).wf(),
            old(self).only_bucket_changed(
                *final(self),
                rate_limit_type,
                (old(self).bucket(rate_limit_type).spec_capacity(), now),
            ),
    {
        match rate_limit_type {
            RateLimitType::Message => self.message.reset_at(now),
            RateLimitType::Byte => self.byte.reset_at(now),
            RateLimitType::Operation => self.operation.reset_at(now),
        }
    }

    /// Reset rate limit counter for a specific type
    pub fn reset_type(&mut self, rate_limit_type: RateLimitType)
        requires
            old(self).wf(),
        ensures
            final(self).wf(),
            old(self).only_bucket_changed(
                *final(self),
                rate_limit_type,
                (
                    old(self).bucket(rate_limit_type).spec_capacity(),
                    final(self).bucket(rate_limit_type).spec_last_refill(),
                ),
            ),
    {
        let now = timestamp_nanos();
        self.reset_type_at(rate_limit_type, now);
    }

    /// Rate limiting is enabled unless the message rate is unlimited
    pub fn is_enabled(&self) -> (r: bool)
        ensures
            r == (self.spec_config().messages_per_second != u64::MAX),
    {
        self.config.messages_per_second != u64::MAX
    }

    /// Get configuration
    pub fn config(&self) -> (r: &RateLimitConfig)
        ensures
            *r == self.spec_config(),
    {
        &self.config
    }
}

impl Default for RateLimiter {
    fn default() -> (r: Self)
        ensures
            r.wf(),
            r.spec_config() == default_rate_config(),
    {
        Self::default_config()
    }
}

/// Rate limiter shared by the connections of a pool, with a connection limit
#[derive(Debug)]
pub struct GlobalRateLimiter {
    limiter: RateLimiter,
    connection_count: u64,
    max_connections: u64,
}

impl GlobalRateLimiter {
    /// The rate limiter.
    pub closed spec fn spec_limiter(&self) -> RateLimiter {
        self.limiter
    }

    /// Connections counted.
    pub closed spec fn spec_count(&self) -> u64 {
        self.connection_count
    }

    /// Connection limit.
    pub closed spec fn spec_max(&self) -> u64 {
        self.max_connections
    }

    /// The rate limiter is well formed.
    pub open spec fn wf(&self) -> bool {
        self.spec_limiter().wf()
    }

    /// Create a new global rate limiter with no connection counted
    pub fn new(config: RateLimitConfig, max_connections: u64) -> (r: Self)
        ensures
            r.wf(),
            r.spec_limiter().spec_config() == config,
            r.spec_count() == 0,
            r.spec_max() == max_connections,
    {
        GlobalRateLimiter { limiter: RateLimiter::new(config), connection_count: 0, max_connections }
    }

    /// Create a global rate limiter with default configuration
    pub fn default_config(max_connections: u64) -> (r: Self)
        ensures
            r.wf(),
            r.spec_limiter().spec_config() == default_rate_config(),
            r.spec_count() == 0,
            r.spec_max() == max_connections,
    {
        Self::new(RateLimitConfig::default(), max_connections)
    }

    /// Try to acquire a permit at time `now` (see `RateLimiter::try_acquire_at`)
    pub fn try_acquire_at(&mut self, rate_limit_type: RateLimitType, amount: u64, now: u64) -> (r:
        Result<()>)
        requires
            old(self).wf(),
        ensures
            final(self).wf(),
            final(self).spec_count() == old(self).spec_count(),
            final(self).spec_max() == old(self).spec_max(),
            amount == 0 ==> r is Ok && final(self).spec_limiter() == old(self).spec_limiter(),
            amount > 0 ==> ({
                let b = old(self).spec_limiter().bucket(rate_limit_type);
                let s1 = b.refilled(now);
                if s1.0 >= amount {
                    &&& r is Ok
                    &&& old(self).spec_limiter().only_bucket_changed(
                        final(self).spec_limiter(),
                        rate_limit_type,
                        ((s1.0 - amount) as u64, s1.1),
                    )
                } else {
                    let s2 = refill_spec(s1.0, s1.1, b.spec_capacity(), b.spec_rate(), now);
                    &&& r matches Err(e) && rate_limited(
                        e,
                        rate_limit_type,
                        time_to_full(s2.0, b.spec_capacity(), b.spec_rate()),
                    )
                    &&& old(self).spec_limiter().only_bucket_changed(
                        final(self).spec_limiter(),
                        rate_limit_type,
                        s2,
                    )
                }
            }),
    {
        self.limiter.try_acquire_at(rate_limit_type, amount, now)
    }

    /// Try to acquire a permit now (non-blocking)
    pub fn try_acquire(&mut self, rate_limit_type: RateLimitType, amount: u64) -> (r: Result<()>)
        requires
            old(self).wf(),
        ensures
            final(self).wf(),
            final(self).spec_count() == old(self).spec_count(),
            final(self).spec_max() == old(self).spec_max(),
            amount == 0 ==> r is Ok && final(self).spec_limiter() == old(self).spec_limiter(),
            amount > 0 ==> exists|now: u64|
                #![trigger old(self).spec_limiter().bucket(rate_limit_type).refilled(now)]
                {
                    let b = old(self).spec_limiter().bucket(rate_limit_type);
                    let s1 = b.refilled(now);
                    if s1.0 >= amount {
                        &&& r is Ok
                        &&& old(self).spec_limiter().only_bucket_changed(
                            final(self).spec_limiter(),
                            rate_limit_type,
                            ((s1.0 - amount) as u64, s1.1),
                        )
                    } else {
                        let s2 = refill_spec(s1.0, s1.1, b.spec_capacity(), b.spec_rate(), now);
                        &&& r matches Err(e) && rate_limited(
                            e,
                            rate_limit_type,
                            time_to_full(s2.0, b.spec_capacity(), b.spec_rate()),
                        )
                        &&& old(self).spec_limiter().only_bucket_changed(
                            final(self).spec_limiter(),
                            rate_limit_type,
                            s2,
                        )
                    }
                },
    {
        let now = timestamp_nanos();
        self.try_acquire_at(rate_limit_type, amount, now)
    }

    /// Get rate limit status (see `RateLimiter::status`)
    pub fn status(&mut self, rate_limit_type: RateLimitType) -> (r: RateLimitStatus)
        requires
            old(self).wf(),
        ensures
            final(self).wf(),
            final(self).spec_count() == old(self).spec_count(),
            final(self).spec_max() == old(self).spec_max(),
            exists|now: u64|
                #![trigger old(self).spec_limiter().bucket(rate_limit_type).refilled(now)]
                {
                    let b = old(self).spec_limiter().bucket(rate_limit_type);
                    let s1 = b.refilled(now);
                    let s2 = refill_spec(s1.0, s1.1, b.spec_capacity(), b.spec_rate(), now);
                    &&& r.remaining == s1.0
                    &&& duration_nanos(r.resets_in) == time_to_full(
                        s2.0,
                        b.spec_capacity(),
                        b.spec_rate(),
                    )
                    &&& r.limit == b.spec_rate()
                    &&& r.capacity == b.spec_capacity()
                    &&& old(self).spec_limiter().only_bucket_changed(
                        final(self).spec_limiter(),
                        rate_limit_type,
                        s2,
                    )
                },
    {
        self.limiter.status(rate_limit_type)
    }

    /// Count one more connection: refused with a connection-limit error
    /// (and nothing counted) when that would exceed the limit.
    pub fn add_connection(&mut self) -> (r: Result<()>)
        requires
            old(self).spec_count() < u64::MAX,
        ensures
            final(self).spec_limiter() == old(self).spec_limiter(),
            final(self).spec_max() == old(self).spec_max(),
            old(self).spec_count() + 1 <= old(self).spec_max() ==> r is Ok && final(self).spec_count()
                == old(self).spec_count() + 1,
            old(self).spec_count() + 1 > old(self).spec_max() ==> (r matches Err(
                Error::ConnectionLimitExceeded { current, limit },
            ) && current == old(self).spec_count() + 1 && limit == old(self).spec_max()
                && final(self).spec_count() == old(self).spec_count()),
    {
        let count = self.connection_count;
        if count + 1 > self.max_connections {
            Err(Error::ConnectionLimitExceeded { current: count + 1, limit: self.max_connections })
        } else {
            self.connection_count = count + 1;
            Ok(())
        }
    }

    /// Uncount a connection (the counter wraps below zero, as an atomic
    /// subtraction does)
    pub fn remove_connection(&mut self)
        ensures
            final(self).spec_limiter() == old(self).spec_limiter(),
            final(self).spec_max() == old(self).spec_max(),
            final(self).spec_count() == (if old(self).spec_count() == 0 {
                u64::MAX
            } else {
                (old(self).spec_count() - 1) as u64
            }),
    {
        self.connection_count = self.connection_count.wrapping_sub(1);
    }

    /// Get current connection count
    pub fn connection_count(&self) -> (r: u64)
        ensures
            r == self.spec_count(),
    {
        self.connection_count
    }

    /// Check if rate limiting is enabled
    pub fn is_enabled(&self) -> (r: bool)
        ensures
            r == (self.spec_limiter().spec_config().messages_per_second != u64::MAX),
    {
        self.limiter.is_enabled()
    }

    /// Reset all rate limit counters
    pub fn reset(&mut self)
        ensures
            final(self).wf(),
            final(self).spec_count() == old(self).spec_count(),
            final(self).spec_max() == old(self).spec_max(),
            final(self).spec_limiter().spec_config() == old(self).spec_limiter().spec_config(),
            forall|t: RateLimitType|
                old(self).spec_limiter().bucket(t).same_but(
                    #[trigger] final(self).spec_limiter().bucket(t),
                    (
                        old(self).spec_limiter().bucket(t).spec_capacity(),
                        final(self).spec_limiter().bucket(RateLimitType::Message).spec_last_refill(),
                    ),
                ),
    {
        self.limiter.reset();
    }
}

/// A bucket never holds more than its capacity: every operation on a
/// well-formed bucket leaves it well formed, whatever the times.
pub proof fn law_tokens_within_capacity(b: TokenBucket, now: u64, amount: u64)
    requires
        b.wf(),
    ensures
        b.refilled(now).0 <= b.spec_capacity(),
        b.refilled(now).0 >= amount ==> b.refilled(now).0 - amount <= b.spec_capacity(),
{
}

/// Refilling at the time of the last refill, or earlier, changes nothing.
pub proof fn law_refill_no_time(b: TokenBucket, now: u64)
    requires
        b.wf(),
        now <= b.spec_last_refill(),
    ensures
        b.refilled(now) == (b.spec_tokens(), b.spec_last_refill()),
{
}

/// Refilling never takes tokens away, and never moves the last refill
/// time back: a refused request (which only refills) leaves the bucket
/// with at least the tokens it had.
pub proof fn law_refill_keeps_tokens(b: TokenBucket, now: u64)
    requires
        b.wf(),
    ensures
        b.refilled(now).0 >= b.spec_tokens(),
        b.refilled(now).1 >= b.spec_last_refill(),
{
}

/// `(a + x * e) / e` is `a / e + x`.
proof fn lemma_div_add_multiple(a: int, x: int, e: int)
    requires
        a >= 0,
        x >= 0,
        e > 0,
    ensures
        (a + x * e) / e == a / e + x,
{
    vstd::arithmetic::div_mod::lemma_fundamental_div_mod(a, e);
    vstd::arithmetic::div_mod::lemma_mod_bound(a, e);
    let q = a / e;
    let m = a % e;
    assert(a + x * e == (q + x) * e + m) by (nonlinear_arith)
        requires
            a == e * q + m,
    ;
    vstd::arithmetic::div_mod::lemma_fundamental_div_mod_converse_div(a + x * e, e, q + x, m);
}

/// A quotient times its divisor is at most the dividend.
proof fn lemma_div_times_le(a: int, d: int)
    requires
        a >= 0,
        d > 0,
    ensures
        (a / d) * d <= a,
        a / d >= 0,
{
    vstd::arithmetic::div_mod::lemma_fundamental_div_mod(a, d);
    vstd::arithmetic::div_mod::lemma_mod_bound(a, d);
    vstd::arithmetic::div_mod::lemma_div_pos_is_pos(a, d);
    assert((a / d) * d == d * (a / d)) by (nonlinear_arith);
}

/// Refilling in between never loses earned time: refilling a bucket at `t1`
/// and then at `t2` leaves at least as many tokens as refilling it once at
/// `t2`. (The last refill time moves forward only by the time the added
/// tokens took to earn, so what was earned toward the next token is kept.)
pub proof fn law_refill_loses_no_time(b: TokenBucket, t1: u64, t2: u64)
    requires
        b.wf(),
        t1 <= t2,
    ensures
        refill_spec(
            b.refilled(t1).0,
            b.refilled(t1).1,
            b.spec_capacity(),
            b.spec_rate(),
            t2,
        ).0 >= b.refilled(t2).0,
{
    let tok = b.spec_tokens() as int;
    let last = b.spec_last_refill() as int;
    let cap = b.spec_capacity() as int;
    let r = b.spec_rate() as int;
    let e: int = 1_000_000_000;
    let mx = u64::MAX as int;
    let (tok1, l1) = b.refilled(t1);
    let two = refill_spec(tok1, l1, b.spec_capacity(), b.spec_rate(), t2);
    let one = b.refilled(t2);
    assert(tok1 >= tok);
    assert(two.0 >= tok1) by {
        assert(tok1 <= cap);
    }
    assert(one.0 <= cap || one.0 == tok);
    if (tok1, l1) == (tok as u64, last as u64) {
        assert(two == one);
    } else if tok1 as int == cap {
        assert(one.0 <= cap);
    } else {
        // The first refill added tokens and left the bucket below capacity.
        let d1 = t1 - last;
        assert(d1 > 0);
        let x = d1 * r / e;
        lemma_div_times_le(d1 * r, e);
        assert(d1 * r >= 0) by (nonlinear_arith)
            requires
                d1 > 0,
                r >= 0,
        ;
        assert(x > 0);
        assert(r > 0) by {
            if r == 0 {
                assert(d1 * r == 0) by (nonlinear_arith)
                    requires
                        r == 0,
                ;
            }
        }
        assert(x < mx);
        assert(tok1 == tok + x);
        // The last refill moved forward by n, with n * r <= x * e and n <= d1.
        let n = x * e / r;
        lemma_div_times_le(x * e, r);
        assert(x * e <= d1 * r) by (nonlinear_arith)
            requires
                x * e == e * x,
                (d1 * r / e) * e <= d1 * r,
                x == d1 * r / e,
        ;
        assert(n <= d1) by (nonlinear_arith)
            requires
                n * r <= x * e,
                x * e <= d1 * r,
                r > 0,
        ;
        assert(l1 == last + n);
        if t2 <= l1 {
            assert(two.0 == tok1);
            if t2 > last && (t2 - last) * r / e > 0 {
                let dd = t2 - last;
                assert(dd * r <= n * r) by (nonlinear_arith)
                    requires
                        dd <= n,
                        r > 0,
                ;
                vstd::arithmetic::div_mod::lemma_div_is_ordered(dd * r, x * e, e);
                vstd::arithmetic::div_mod::lemma_div_multiples_vanish(x, e);
                assert((x * e) / e == x) by {
                    assert(x * e == e * x) by (nonlinear_arith);
                }
                assert(dd * r / e <= x);
            }
        } else {
            let d2 = t2 - l1;
            let big = t2 - last;
            assert(big == d2 + n);
            assert(big * r <= d2 * r + x * e) by (nonlinear_arith)
                requires
                    big == d2 + n,
                    n * r <= x * e,
                    r > 0,
            ;
            assert(d2 * r >= 0) by (nonlinear_arith)
                requires
                    d2 > 0,
                    r > 0,
            ;
            vstd::arithmetic::div_mod::lemma_div_is_ordered(big * r, d2 * r + x * e, e);
            lemma_div_add_multiple(d2 * r, x, e);
            assert(big * r / e <= x + d2 * r / e);
            lemma_div_times_le(d2 * r, e);
        }
    }
}

/// Each type is limited at its own configured rate, and a limiter's bucket of
/// each type refills at that rate and holds the burst size: messages at
/// `messages_per_second`, bytes at `bytes_per_second` (holding at least
/// 1024), operations at `operations_per_second`.
pub proof fn law_bucket_rates(c: RateLimitConfig, t: RateLimitType, b: TokenBucket, now: u64)
    requires
        fresh_bucket(b, c, t, now),
    ensures
        limit_for(c, RateLimitType::Message) == c.messages_per_second,
        limit_for(c, RateLimitType::Byte) == c.bytes_per_second,
        limit_for(c, RateLimitType::Operation) == c.operations_per_second,
        t == RateLimitType::Message ==> b.spec_rate() == c.messages_per_second,
        t == RateLimitType::Byte ==> b.spec_rate() == c.bytes_per_second,
        t == RateLimitType::Operation ==> b.spec_rate() == c.operations_per_second,
        t == RateLimitType::Byte ==> b.spec_capacity() == (if c.burst_size >= 1024 {
            c.burst_size
        } else {
            1024
        }),
        t != RateLimitType::Byte ==> b.spec_capacity() == (if c.burst_size >= 1 {
            c.burst_size
        } else {
            1
        }),
        b.spec_tokens() == b.spec_capacity(),
        b.spec_last_refill() == now,
{
}

} // verus!
