//! Rate limiting with the token bucket algorithm.
//!
//! Tokens flow in continuously. A bucket keeps whole tokens and the fraction of the
//! next one, counted in nanoseconds' worth of refill, so that nothing is rounded.

use crate::key::Key;
use crate::time;
use crate::time::{Clock, Duration, Instant};
use vstd::prelude::*;
use vstd::string::*;

verus! {

/// Rate limiter errors.
#[derive(Debug, Clone, Copy, PartialEq, Eq, Structural)]
pub enum RateLimiterError {
    /// Timeout waiting for tokens.
    Timeout,
}

impl RateLimiterError {
    /// The text shown to people.
    pub fn to_string(&self) -> (s: String)
        ensures
            s@ == "Timeout waiting for tokens"@,
    {
        match self {
            RateLimiterError::Timeout => "Timeout waiting for tokens".to_owned(),
        }
    }
}

/// Rate limiter configuration.
#[derive(Debug, Clone, Copy)]
pub struct RateLimiterConfig {
    /// Maximum number of tokens (burst capacity).
    pub capacity: u64,
    /// Number of tokens to refill per interval.
    pub refill_amount: u64,
    /// Refill interval.
    pub refill_interval: Duration,
}

impl Default for RateLimiterConfig {
    fn default() -> (c: RateLimiterConfig)
        ensures
            c.capacity == 100,
            c.refill_amount == 10,
            c.refill_interval@ == time::secs(1),
    {
        RateLimiterConfig {
            capacity: 100,
            refill_amount: 10,
            refill_interval: Duration::from_secs(1),
        }
    }
}

impl RateLimiterConfig {
    /// Creates a new rate limiter configuration.
    pub fn new() -> (c: RateLimiterConfig)
        ensures
            c.capacity == 100,
            c.refill_amount == 10,
            c.refill_interval@ == time::secs(1),
    {
        RateLimiterConfig::default()
    }

    /// Sets the capacity (maximum tokens).
    pub fn with_capacity(self, capacity: u64) -> (c: RateLimiterConfig)
        ensures
            c == (RateLimiterConfig { capacity, ..self }),
    {
        RateLimiterConfig { capacity, ..self }
    }

    /// Sets the refill amount.
    pub fn with_refill_amount(self, amount: u64) -> (c: RateLimiterConfig)
        ensures
            c == (RateLimiterConfig { refill_amount: amount, ..self }),
    {
        RateLimiterConfig { refill_amount: amount, ..self }
    }

    /// Sets the refill interval.
    pub fn with_refill_interval(self, interval: Duration) -> (c: RateLimiterConfig)
        ensures
            c == (RateLimiterConfig { refill_interval: interval, ..self }),
    {
        RateLimiterConfig { refill_interval: interval, ..self }
    }

    /// Creates a configuration for requests per second.
    pub fn per_second(rate: u64) -> (c: RateLimiterConfig)
        ensures
            c.capacity == rate,
            c.refill_amount == rate,
            c.refill_interval@ == time::secs(1),
    {
        RateLimiterConfig {
            capacity: rate,
            refill_amount: rate,
            refill_interval: Duration::from_secs(1),
        }
    }

    /// Creates a configuration for requests per minute.
    pub fn per_minute(rate: u64) -> (c: RateLimiterConfig)
        ensures
            c.capacity == rate,
            c.refill_amount == rate,
            c.refill_interval@ == time::secs(60),
    {
        RateLimiterConfig {
            capacity: rate,
            refill_amount: rate,
            refill_interval: Duration::from_secs(60),
        }
    }
}

/// What a token bucket holds: whole tokens, and the fraction of a further one in parts
/// of which a token has as many as the refill interval has nanoseconds.
pub struct BucketView {
    pub whole: nat,
    pub part: nat,
    pub last_refill: nat,
}

impl BucketView {
    /// The bucket that is full at a given time.
    pub open spec fn full(config: RateLimiterConfig, now: nat) -> BucketView {
        BucketView { whole: config.capacity as nat, part: 0, last_refill: now }
    }

    /// What every bucket keeps: no more than its capacity, and less than one token as a
    /// fraction.
    pub open spec fn wf(self, config: RateLimiterConfig) -> bool {
        &&& self.whole <= config.capacity
        &&& self.whole == config.capacity ==> self.part == 0
        &&& self.part == 0 || self.part < config.refill_interval@
    }

    /// All that is in the bucket, in parts.
    pub open spec fn parts(self, config: RateLimiterConfig) -> nat {
        self.whole * config.refill_interval@ + self.part
    }

    /// The bucket at a given time: for each nanosecond that has passed, as many parts
    /// came in as tokens are refilled per interval, up to the capacity. Without an
    /// interval the bucket is always full.
    pub open spec fn refilled(self, config: RateLimiterConfig, now: nat) -> BucketView {
        let interval = config.refill_interval@;
        let parts = self.parts(config) + time::passed(self.last_refill, now)
            * config.refill_amount as nat;
        if interval == 0 || parts >= config.capacity as nat * interval {
            BucketView::full(config, now)
        } else {
            BucketView { whole: parts / interval, part: parts % interval, last_refill: now }
        }
    }

    /// The bucket after tokens were asked for: they are taken if there are as many.
    pub open spec fn asked(self, config: RateLimiterConfig, tokens: nat, now: nat) -> BucketView {
        let b = self.refilled(config, now);
        if b.whole >= tokens {
            BucketView { whole: (b.whole - tokens) as nat, ..b }
        } else {
            b
        }
    }

    /// Whether tokens that are asked for at a given time are granted.
    pub open spec fn grants(self, config: RateLimiterConfig, tokens: nat, now: nat) -> bool {
        self.refilled(config, now).whole >= tokens
    }
}

/// `a` times `m`, plus `extra`, divided by `d`, where `a` and `extra` are below `d`: the
/// quotient and the remainder.
fn scale(a: u128, m: u64, extra: u128, d: u128) -> (r: (u64, u128))
    requires
        a < d,
        extra < d,
        d <= time::MAX_NANOS,
    ensures
        a * m + extra == r.0 * d + r.1,
        r.1 < d,
        r.0 <= m,
    decreases m,
{
    if m == 0 {
        return (0, extra);
    }
    let half: u64 = m / 2;
    let (q, rest) = scale(a, half, 0, d);
    let odd: u128 = if m % 2 == 1 {
        a
    } else {
        0
    };
    let sum: u128 = 2 * rest + odd + extra;
    let more: u128 = sum / d;
    proof {
        assert(sum < 4 * d);
        assert(more < 4) by (nonlinear_arith)
            requires
                more == sum / d,
                sum < 4 * d,
                d > 0,
        ;
        assert(sum == more * d + sum % d) by (nonlinear_arith)
            requires
                more == sum / d,
                d > 0,
        ;
        assert(a * m + extra == (2 * q + more) * d + sum % d) by (nonlinear_arith)
            requires
                a * half == q * d + rest,
                m == 2 * half + if odd == a && m % 2 == 1 {
                    1int
                } else {
                    0
                },
                odd == if m % 2 == 1 {
                    a
                } else {
                    0
                },
                sum == 2 * rest + odd + extra,
                sum == more * d + sum % d,
        ;
        assert(2 * q + more <= m) by (nonlinear_arith)
            requires
                a * m + extra == (2 * q + more) * d + sum % d,
                a <= d - 1,
                extra <= d - 1,
                d > 0,
                m >= 1,
                0 <= sum % d,
        ;
    }
    ((2 * q as u128 + more) as u64, sum % d)
}

/// Parts that make so many tokens and a fraction are divided by the parts of a token.
proof fn lemma_tokens(tokens: nat, part: nat, interval: nat, parts: nat)
    requires
        interval > 0,
        part < interval,
        parts == tokens * interval + part,
    ensures
        parts / interval == tokens,
        parts % interval == part,
{
    vstd::arithmetic::div_mod::lemma_fundamental_div_mod_converse(
        parts as int,
        interval as int,
        tokens as int,
        part as int,
    );
}

/// Parts reach those of a number of tokens exactly when their whole tokens do.
proof fn lemma_reaches(tokens: nat, part: nat, interval: nat, capacity: nat)
    requires
        interval > 0,
        part < interval,
    ensures
        tokens * interval + part >= capacity * interval <==> tokens >= capacity,
{
    if tokens >= capacity {
        assert(tokens * interval >= capacity * interval) by (nonlinear_arith)
            requires
                tokens >= capacity,
        ;
    } else {
        assert(tokens * interval + interval <= capacity * interval) by (nonlinear_arith)
            requires
                tokens + 1 <= capacity,
        ;
    }
}

/// A token bucket.
struct TokenBucket {
    whole: u64,
    part: u128,
    last_refill: Instant,
}

impl View for TokenBucket {
    type V = BucketView;

    closed spec fn view(&self) -> BucketView {
        BucketView {
            whole: self.whole as nat,
            part: self.part as nat,
            last_refill: self.last_refill@,
        }
    }
}

impl TokenBucket {
    /// The bucket that is full at a given time.
    fn full(config: &RateLimiterConfig, now: Instant) -> (b: TokenBucket)
        ensures
            b@ == BucketView::full(*config, now@),
            b@.wf(*config),
    {
        TokenBucket { whole: config.capacity, part: 0, last_refill: now }
    }

    /// Refills tokens for the time that has passed.
    fn refill_tokens(&mut self, config: &RateLimiterConfig, now: Instant)
        requires
            old(self)@.wf(*config),
        ensures
            final(self)@ == old(self)@.refilled(*config, now@),
            final(self)@.wf(*config),
    {
        let ghost before = self@;
        let interval: u128 = config.refill_interval.as_nanos();
        let elapsed: u128 = now.duration_since(self.last_refill).as_nanos();
        if interval == 0 {
            self.whole = config.capacity;
            self.part = 0;
            self.last_refill = now;
            return;
        }
        let times: u128 = elapsed / interval;
        let (more, part) = scale(elapsed % interval, config.refill_amount, self.part, interval);
        let ghost amount = config.refill_amount as nat;
        let ghost parts = before.parts(*config) + elapsed as nat * amount;
        let ghost tokens = before.whole + times as nat * amount + more as nat;
        proof {
            assert(elapsed == times * interval + elapsed % interval) by (nonlinear_arith)
                requires
                    times == elapsed / interval,
                    interval > 0,
            ;
            let rest = elapsed % interval;
            assert(parts == tokens * (interval as nat) + part as nat) by (nonlinear_arith)
                requires
                    parts == before.whole * (interval as nat) + before.part + elapsed as nat * amount,
                    elapsed == times * interval + rest,
                    rest * amount + before.part == more * interval + part,
                    tokens == before.whole + times as nat * amount + more as nat,
            ;
            lemma_tokens(tokens, part as nat, interval as nat, parts);
            lemma_reaches(tokens, part as nat, interval as nat, config.capacity as nat);
        }
        self.last_refill = now;
        if config.refill_amount > 0 && times > u64::MAX as u128 {
            proof {
                assert(times as nat * amount >= config.capacity) by (nonlinear_arith)
                    requires
                        times > u64::MAX,
                        amount > 0,
                        config.capacity <= u64::MAX,
                ;
            }
            self.whole = config.capacity;
            self.part = 0;
            return;
        }
        let flow: u128 = if config.refill_amount == 0 {
            assert(times as nat * amount == 0) by (nonlinear_arith)
                requires
                    amount == 0,
            ;
            0
        } else {
            assert(times * config.refill_amount <= 0xffff_ffff_ffff_ffff * 0xffff_ffff_ffff_ffff)
                by (nonlinear_arith)
                requires
                    times <= 0xffff_ffff_ffff_ffff,
                    config.refill_amount <= 0xffff_ffff_ffff_ffff,
            ;
            times * config.refill_amount as u128
        };
        if flow >= config.capacity as u128 || self.whole as u128 + flow + more as u128
            >= config.capacity as u128 {
            self.whole = config.capacity;
            self.part = 0;
        } else {
            self.whole = (self.whole as u128 + flow + more as u128) as u64;
            self.part = part;
        }
    }

    /// Takes tokens at a given time, if there are as many.
    fn take(&mut self, config: &RateLimiterConfig, tokens: u64, now: Instant) -> (granted: bool)
        requires
            old(self)@.wf(*config),
        ensures
            final(self)@ == old(self)@.asked(*config, tokens as nat, now@),
            final(self)@.wf(*config),
            granted == old(self)@.grants(*config, tokens as nat, now@),
    {
        self.refill_tokens(config, now);
        if self.whole >= tokens {
            self.whole = self.whole - tokens;
            true
        } else {
            false
        }
    }
}

/// What a [`RateLimiter`] holds.
pub struct LimiterView {
    pub config: RateLimiterConfig,
    pub bucket: BucketView,
}

impl LimiterView {
    /// What every limiter keeps: its bucket is in order.
    pub open spec fn wf(self) -> bool {
        self.bucket.wf(self.config)
    }

    /// The limiter whose bucket is full at a given time.
    pub open spec fn full(config: RateLimiterConfig, now: nat) -> LimiterView {
        LimiterView { config, bucket: BucketView::full(config, now) }
    }

    /// The limiter after tokens were asked for.
    pub open spec fn asked(self, tokens: nat, now: nat) -> LimiterView {
        LimiterView { bucket: self.bucket.asked(self.config, tokens, now), ..self }
    }

    /// The limiter at a given time.
    pub open spec fn refilled(self, now: nat) -> LimiterView {
        LimiterView { bucket: self.bucket.refilled(self.config, now), ..self }
    }

    /// Whether tokens that are asked for at a given time are granted.
    pub open spec fn grants(self, tokens: nat, now: nat) -> bool {
        self.bucket.grants(self.config, tokens, now)
    }
}

/// How long to wait before asking again for tokens that were not granted: the time in
/// which one token comes, or what is left until the deadline.
pub open spec fn pause(config: RateLimiterConfig, deadline: nat, now: nat) -> nat {
    let step = config.refill_interval@ / (config.refill_amount as u32) as nat;
    if step <= time::passed(now, deadline) {
        step
    } else {
        time::passed(now, deadline)
    }
}

/// Whether `r` is what someone who waits until a deadline is told: the tokens are granted, or
/// there is some time to wait, or it is too late.
pub open spec fn answered(
    l: LimiterView,
    tokens: nat,
    deadline: nat,
    now: nat,
    r: Result<Option<Duration>, RateLimiterError>,
) -> bool {
    match r {
        Ok(None) => l.grants(tokens, now),
        Ok(Some(d)) => !l.grants(tokens, now) && now < deadline && d@ == pause(
            l.config,
            deadline,
            now,
        ),
        Err(e) => !l.grants(tokens, now) && now >= deadline && e == RateLimiterError::Timeout,
    }
}

/// Rate limiter using the token bucket algorithm.
pub struct RateLimiter {
    config: RateLimiterConfig,
    clock: Clock,
    bucket: TokenBucket,
}

impl View for RateLimiter {
    type V = LimiterView;

    closed spec fn view(&self) -> LimiterView {
        LimiterView { config: self.config, bucket: self.bucket@ }
    }
}

/// What to do about tokens that were asked for: nothing when they were granted, wait
/// for some time and ask again, or give up when the deadline has passed.
fn next_try(
    config: &RateLimiterConfig,
    granted: bool,
    deadline: Instant,
    now: Instant,
) -> (r: Result<Option<Duration>, RateLimiterError>)
    requires
        !granted && now@ < deadline@ ==> config.refill_amount as u32 > 0,
    ensures
        match r {
            Ok(None) => granted,
            Ok(Some(d)) => !granted && now@ < deadline@ && d@ == pause(*config, deadline@, now@),
            Err(e) => !granted && now@ >= deadline@ && e == RateLimiterError::Timeout,
        },
{
    if granted {
        return Ok(None);
    }
    let left = deadline.duration_since(now);
    if left.is_zero() {
        return Err(RateLimiterError::Timeout);
    }
    let step = config.refill_interval.divided_by(config.refill_amount as u32);
    Ok(Some(step.shorter(left)))
}

impl RateLimiter {
    /// Creates a new rate limiter with default configuration.
    pub fn new() -> (l: RateLimiter)
        ensures
            l@.wf(),
            l@.config.capacity == 100,
            l@.config.refill_amount == 10,
            l@.config.refill_interval@ == time::secs(1),
            exists|now: nat| l@ == #[trigger] LimiterView::full(l@.config, now),
    {
        RateLimiter::with_config(RateLimiterConfig::default())
    }

    /// Creates a new rate limiter with custom configuration, whose bucket is full.
    pub fn with_config(config: RateLimiterConfig) -> (l: RateLimiter)
        ensures
            l@.wf(),
            exists|now: nat| l@ == #[trigger] LimiterView::full(config, now),
    {
        let clock = Clock::start();
        let now = clock.now();
        RateLimiter::with_config_at(config, clock, now)
    }

    /// Creates a new rate limiter with custom configuration, whose bucket is full at a
    /// given time.
    pub fn with_config_at(config: RateLimiterConfig, clock: Clock, now: Instant) -> (l: RateLimiter)
        ensures
            l@.wf(),
            l@ == LimiterView::full(config, now@),
    {
        RateLimiter { config, clock, bucket: TokenBucket::full(&config, now) }
    }

    /// Creates a rate limiter for a number of requests per second.
    pub fn per_second(rate: u64) -> (l: RateLimiter)
        ensures
            l@.wf(),
            l@.config.capacity == rate,
            l@.config.refill_amount == rate,
            l@.config.refill_interval@ == time::secs(1),
            exists|now: nat| l@ == #[trigger] LimiterView::full(l@.config, now),
    {
        RateLimiter::with_config(RateLimiterConfig::per_second(rate))
    }

    /// Creates a rate limiter for a number of requests per minute.
    pub fn per_minute(rate: u64) -> (l: RateLimiter)
        ensures
            l@.wf(),
            l@.config.capacity == rate,
            l@.config.refill_amount == rate,
            l@.config.refill_interval@ == time::secs(60),
            exists|now: nat| l@ == #[trigger] LimiterView::full(l@.config, now),
    {
        RateLimiter::with_config(RateLimiterConfig::per_minute(rate))
    }

    /// What the limiter's clock shows. Any time may come.
    pub fn now(&self) -> Instant {
        self.clock.now()
    }

    /// Tries to acquire tokens at a given time.
    pub fn try_acquire_at(&mut self, tokens: u64, now: Instant) -> (granted: bool)
        requires
            old(self)@.wf(),
        ensures
            final(self)@.wf(),
            final(self)@ == old(self)@.asked(tokens as nat, now@),
            granted == old(self)@.grants(tokens as nat, now@),
    {
        self.bucket.take(&self.config, tokens, now)
    }

    /// Tries to acquire tokens.
    pub fn try_acquire(&mut self, tokens: u64) -> (granted: bool)
        requires
            old(self)@.wf(),
        ensures
            final(self)@.wf(),
            exists|now: nat|
                final(self)@ == #[trigger] old(self)@.asked(tokens as nat, now) && granted == old(
                    self,
                )@.grants(tokens as nat, now),
    {
        let now = self.clock.now();
        self.try_acquire_at(tokens, now)
    }

    /// Tries to acquire a single token.
    pub fn try_acquire_one(&mut self) -> (granted: bool)
        requires
            old(self)@.wf(),
        ensures
            final(self)@.wf(),
            exists|now: nat|
                final(self)@ == #[trigger] old(self)@.asked(1, now) && granted == old(
                    self,
                )@.grants(1, now),
    {
        self.try_acquire(1)
    }

    /// Tries to acquire tokens at a given time, for someone who waits until a deadline:
    /// `Ok(None)` grants them, `Ok(Some(d))` asks to wait and try again.
    pub fn acquire_at(&mut self, tokens: u64, deadline: Instant, now: Instant) -> (r: Result<
        Option<Duration>,
        RateLimiterError,
    >)
        requires
            old(self)@.wf(),
            !old(self)@.grants(tokens as nat, now@) && now@ < deadline@ ==> old(
                self,
            )@.config.refill_amount as u32 > 0,
        ensures
            final(self)@.wf(),
            final(self)@ == old(self)@.asked(tokens as nat, now@),
            answered(old(self)@, tokens as nat, deadline@, now@, r),
    {
        let granted = self.try_acquire_at(tokens, now);
        next_try(&self.config, granted, deadline, now)
    }

    /// Tries to acquire tokens for someone who waits until a deadline.
    pub fn acquire(&mut self, tokens: u64, deadline: Instant) -> (r: Result<
        Option<Duration>,
        RateLimiterError,
    >)
        requires
            old(self)@.wf(),
            old(self)@.config.refill_amount as u32 > 0 || tokens <= old(self)@.bucket.whole,
        ensures
            final(self)@.wf(),
            exists|now: nat|
                final(self)@ == #[trigger] old(self)@.asked(tokens as nat, now) && answered(
                    old(self)@,
                    tokens as nat,
                    deadline@,
                    now,
                    r,
                ),
    {
        let now = self.clock.now();
        proof {
            held_tokens_are_granted(self@.config, self@.bucket, now@);
        }
        self.acquire_at(tokens, deadline, now)
    }

    /// Tries to acquire a single token for someone who waits until a deadline.
    pub fn acquire_one(&mut self, deadline: Instant) -> (r: Result<
        Option<Duration>,
        RateLimiterError,
    >)
        requires
            old(self)@.wf(),
            old(self)@.config.refill_amount as u32 > 0 || 1 <= old(self)@.bucket.whole,
        ensures
            final(self)@.wf(),
            exists|now: nat|
                final(self)@ == #[trigger] old(self)@.asked(1, now) && answered(
                    old(self)@,
                    1,
                    deadline@,
                    now,
                    r,
                ),
    {
        self.acquire(1, deadline)
    }

    /// The tokens available at a given time.
    pub fn available_tokens_at(&mut self, now: Instant) -> (n: u64)
        requires
            old(self)@.wf(),
        ensures
            final(self)@.wf(),
            final(self)@ == old(self)@.refilled(now@),
            n == old(self)@.refilled(now@).bucket.whole,
    {
        self.bucket.refill_tokens(&self.config, now);
        self.bucket.whole
    }

    /// The tokens available.
    pub fn available_tokens(&mut self) -> (n: u64)
        requires
            old(self)@.wf(),
        ensures
            final(self)@.wf(),
            exists|now: nat|
                final(self)@ == #[trigger] old(self)@.refilled(now) && n == old(self)@.refilled(
                    now,
                ).bucket.whole,
    {
        let now = self.clock.now();
        self.available_tokens_at(now)
    }

    /// Resets the rate limiter to full capacity at a given time.
    pub fn reset_at(&mut self, now: Instant)
        ensures
            final(self)@.wf(),
            final(self)@ == LimiterView::full(old(self)@.config, now@),
    {
        self.bucket = TokenBucket::full(&self.config, now);
    }

    /// Resets the rate limiter to full capacity.
    pub fn reset(&mut self)
        ensures
            final(self)@.wf(),
            exists|now: nat| final(self)@ == #[trigger] LimiterView::full(old(self)@.config, now),
    {
        let now = self.clock.now();
        self.reset_at(now)
    }
}

impl Default for RateLimiter {
    fn default() -> (l: RateLimiter)
        ensures
            l@.wf(),
            l@.config.capacity == 100,
            l@.config.refill_amount == 10,
            l@.config.refill_interval@ == time::secs(1),
            exists|now: nat| l@ == #[trigger] LimiterView::full(l@.config, now),
    {
        RateLimiter::new()
    }
}

/// What one place of a [`KeyedRateLimiter`] holds: a bucket, the key that it belongs to, and
/// how many wait for tokens from it. A bucket whose key was removed stays for those who
/// wait.
pub struct SlotView<I> {
    pub key: Option<I>,
    pub waiters: nat,
    pub bucket: BucketView,
}

impl<I> SlotView<I> {
    /// Whether the place can be given to another key.
    pub open spec fn unused(self) -> bool {
        self.key is None && self.waiters == 0
    }
}

/// How many places belong to a key.
pub open spec fn keys_in<I>(slots: Seq<SlotView<I>>) -> nat
    decreases slots.len(),
{
    if slots.len() == 0 {
        0
    } else {
        keys_in(slots.drop_last()) + if slots.last().key is Some {
            1nat
        } else {
            0
        }
    }
}

/// Whether a place is the first that is unused, or the one behind all where each is used.
pub open spec fn is_vacancy<I>(slots: Seq<SlotView<I>>, i: int) -> bool {
    &&& 0 <= i <= slots.len()
    &&& i < slots.len() ==> slots[i].unused()
    &&& forall|j: int| 0 <= j < i ==> !(#[trigger] slots[j]).unused()
}

/// What a [`KeyedRateLimiter`] holds: the bucket of each key, and those that someone waits
/// for.
pub struct KeyedView<I> {
    pub config: RateLimiterConfig,
    pub slots: Seq<SlotView<I>>,
}

impl<I> KeyedView<I> {
    /// What every limiter keeps: each key has one bucket, and each bucket is in order.
    pub open spec fn wf(self) -> bool {
        &&& forall|i: int, j: int|
            0 <= i < self.slots.len() && 0 <= j < self.slots.len() && i != j && (
            #[trigger] self.slots[i]).key is Some ==> self.slots[i].key != (
            #[trigger] self.slots[j]).key
        &&& forall|i: int|
            0 <= i < self.slots.len() ==> (#[trigger] self.slots[i]).bucket.wf(self.config)
    }

    /// Whether a key has a bucket.
    pub open spec fn tracks(self, id: I) -> bool {
        exists|i: int| 0 <= i < self.slots.len() && (#[trigger] self.slots[i]).key == Some(id)
    }

    /// The place of a key's bucket.
    pub open spec fn place(self, id: I) -> int {
        choose|i: int| 0 <= i < self.slots.len() && (#[trigger] self.slots[i]).key == Some(id)
    }

    /// Whether someone waits for tokens from the bucket at a place.
    pub open spec fn waits(self, place: int) -> bool {
        0 <= place < self.slots.len() && self.slots[place].waiters > 0
    }

    /// How many wait for tokens under a key.
    pub open spec fn waiting(self, id: I) -> nat {
        if self.tracks(id) {
            self.slots[self.place(id)].waiters
        } else {
            0
        }
    }

    /// The bucket of a key: one that has none yet gets a full one.
    pub open spec fn bucket(self, id: I, now: nat) -> BucketView {
        if self.tracks(id) {
            self.slots[self.place(id)].bucket
        } else {
            BucketView::full(self.config, now)
        }
    }

    /// The whole tokens that a key has without waiting.
    pub open spec fn held(self, id: I) -> nat {
        self.bucket(id, 0).whole
    }

    /// Whether tokens that are asked for under a key are granted.
    pub open spec fn grants(self, id: I, tokens: nat, now: nat) -> bool {
        self.bucket(id, now).grants(self.config, tokens, now)
    }

    /// Whether tokens that are asked for from the bucket at a place are granted.
    pub open spec fn grants_in(self, place: int, tokens: nat, now: nat) -> bool {
        self.slots[place].bucket.grants(self.config, tokens, now)
    }

    /// The limiter with a bucket for a key: one that has none yet gets a full one, in the
    /// first place that is unused.
    pub open spec fn with_key(self, id: I, now: nat) -> KeyedView<I> {
        if self.tracks(id) {
            self
        } else {
            let s = SlotView {
                key: Some(id),
                waiters: 0,
                bucket: BucketView::full(self.config, now),
            };
            let v = choose|v: int| is_vacancy(self.slots, v);
            KeyedView {
                slots: if v < self.slots.len() {
                    self.slots.update(v, s)
                } else {
                    self.slots.push(s)
                },
                ..self
            }
        }
    }

    /// The limiter after tokens were asked for from the bucket at a place.
    pub open spec fn asked_in(self, place: int, tokens: nat, now: nat) -> KeyedView<I> {
        let s = self.slots[place];
        let bucket = s.bucket.asked(self.config, tokens, now);
        KeyedView { slots: self.slots.update(place, SlotView { bucket, ..s }), ..self }
    }

    /// The limiter after tokens were asked for under a key.
    pub open spec fn asked(self, id: I, tokens: nat, now: nat) -> KeyedView<I> {
        let l = self.with_key(id, now);
        l.asked_in(l.place(id), tokens, now)
    }

    /// The limiter when one more waits for the bucket at a place.
    pub open spec fn joined(self, place: int) -> KeyedView<I> {
        let s = self.slots[place];
        KeyedView {
            slots: self.slots.update(place, SlotView { waiters: s.waiters + 1, ..s }),
            ..self
        }
    }

    /// The limiter when one fewer waits for the bucket at a place.
    pub open spec fn released(self, place: int) -> KeyedView<I> {
        let s = self.slots[place];
        KeyedView {
            slots: self.slots.update(place, SlotView { waiters: (s.waiters - 1) as nat, ..s }),
            ..self
        }
    }

    /// The limiter without a key.
    pub open spec fn forgotten(self, id: I) -> KeyedView<I> {
        if self.tracks(id) {
            let i = self.place(id);
            KeyedView {
                slots: self.slots.update(i, SlotView { key: None, ..self.slots[i] }),
                ..self
            }
        } else {
            self
        }
    }

    /// The limiter without any keys.
    pub open spec fn cleared(self) -> KeyedView<I> {
        KeyedView {
            slots: self.slots.map_values(|s: SlotView<I>| SlotView { key: None, ..s }),
            ..self
        }
    }
}

/// A key that has a bucket has it at one place.
proof fn lemma_place<I>(l: KeyedView<I>, id: I, i: int)
    requires
        l.wf(),
        0 <= i < l.slots.len(),
        l.slots[i].key == Some(id),
    ensures
        l.tracks(id),
        l.place(id) == i,
{
    let p = l.place(id);
    assert(l.slots[p].key == Some(id));
}

/// A new key gets the place that is vacant, and nothing else changes.
proof fn lemma_with_key<I>(l: KeyedView<I>, id: I, now: nat, v: int)
    requires
        l.wf(),
        !l.tracks(id),
        is_vacancy(l.slots, v),
    ensures
        l.with_key(id, now).wf(),
        l.with_key(id, now).tracks(id),
        l.with_key(id, now).place(id) == v,
        l.with_key(id, now).slots == if v < l.slots.len() {
            l.slots.update(
                v,
                SlotView { key: Some(id), waiters: 0, bucket: BucketView::full(l.config, now) },
            )
        } else {
            l.slots.push(
                SlotView { key: Some(id), waiters: 0, bucket: BucketView::full(l.config, now) },
            )
        },
{
    let w = choose|w: int| is_vacancy(l.slots, w);
    assert(is_vacancy(l.slots, w));
    if w < v {
        assert(!l.slots[w].unused());
    } else if v < w {
        assert(!l.slots[v].unused());
    }
    let after = l.with_key(id, now);
    assert(after.slots[v].key == Some(id));
    assert forall|i: int| 0 <= i < after.slots.len() && i != v implies #[trigger] after.slots[i]
        == l.slots[i] && after.slots[i].key != Some(id) by {}
    lemma_place(after, id, v);
}

/// What is asked for from a bucket leaves the limiter in order.
proof fn lemma_asked_in<I>(l: KeyedView<I>, place: int, tokens: nat, now: nat)
    requires
        l.wf(),
        0 <= place < l.slots.len(),
    ensures
        l.asked_in(place, tokens, now).wf(),
{
    let after = l.asked_in(place, tokens, now);
    capacity_bounds_tokens(l.config, l.slots[place].bucket, tokens, now);
    assert forall|i: int| 0 <= i < after.slots.len() implies (#[trigger] after.slots[i]).key
        == l.slots[i].key && after.slots[i].bucket.wf(l.config) by {
        if i != place {
            assert(after.slots[i] == l.slots[i]);
        }
    }
}

/// A place that is updated changes the number of keys by its own.
proof fn lemma_keys_update<I>(slots: Seq<SlotView<I>>, i: int, s: SlotView<I>)
    requires
        0 <= i < slots.len(),
    ensures
        keys_in(slots.update(i, s)) + (if slots[i].key is Some {
            1nat
        } else {
            0
        }) == keys_in(slots) + (if s.key is Some {
            1nat
        } else {
            0
        }),
    decreases slots.len(),
{
    let after = slots.update(i, s);
    if i == slots.len() - 1 {
        assert(after.drop_last() =~= slots.drop_last());
    } else {
        assert(after.drop_last() =~= slots.drop_last().update(i, s));
        lemma_keys_update(slots.drop_last(), i, s);
    }
}

/// One who waits for tokens under a key. Its view is the place of the bucket.
#[derive(Debug)]
pub struct Waiter {
    place: usize,
}

impl View for Waiter {
    type V = int;

    closed spec fn view(&self) -> int {
        self.place as int
    }
}

/// A bucket, the key that it belongs to, and how many wait for it.
struct Slot<K: Key> {
    key: Option<K>,
    waiters: u64,
    bucket: TokenBucket,
}

impl<K: Key> View for Slot<K> {
    type V = SlotView<K::Id>;

    closed spec fn view(&self) -> SlotView<K::Id> {
        SlotView {
            key: match self.key {
                Some(k) => Some(k.id()),
                None => None,
            },
            waiters: self.waiters as nat,
            bucket: self.bucket@,
        }
    }
}

/// Multi-key rate limiter for per-client rate limiting.
pub struct KeyedRateLimiter<K: Key> {
    config: RateLimiterConfig,
    clock: Clock,
    slots: Vec<Slot<K>>,
}

impl<K: Key> View for KeyedRateLimiter<K> {
    type V = KeyedView<K::Id>;

    closed spec fn view(&self) -> KeyedView<K::Id> {
        KeyedView { config: self.config, slots: self.slots@.map_values(|s: Slot<K>| s@) }
    }
}

impl<K: Key> KeyedRateLimiter<K> {
    /// Creates a new keyed rate limiter.
    pub fn new(config: RateLimiterConfig) -> (l: KeyedRateLimiter<K>)
        ensures
            l@.wf(),
            l@ == (KeyedView::<K::Id> { config, slots: Seq::empty() }),
    {
        let l = KeyedRateLimiter { config, clock: Clock::start(), slots: Vec::new() };
        assert(l@.slots =~= Seq::empty());
        l
    }

    /// What the limiter's clock shows. Any time may come.
    pub fn now(&self) -> Instant {
        self.clock.now()
    }

    /// The place of a key's bucket.
    fn find(&self, key: &K) -> (r: Option<usize>)
        requires
            self@.wf(),
        ensures
            match r {
                Some(i) => i < self.slots@.len() && self@.tracks(key.id()) && self@.place(key.id())
                    == i,
                None => !self@.tracks(key.id()),
            },
    {
        let mut i: usize = 0;
        while i < self.slots.len()
            invariant
                i <= self.slots@.len(),
                self@.wf(),
                forall|j: int| 0 <= j < i ==> (#[trigger] self@.slots[j]).key != Some(key.id()),
            decreases self.slots@.len() - i,
        {
            assert(self@.slots[i as int] == self.slots@[i as int]@);
            if let Some(k) = &self.slots[i].key {
                if k.same(key) {
                    proof {
                        lemma_place(self@, key.id(), i as int);
                    }
                    return Some(i);
                }
            }
            i = i + 1;
        }
        None
    }

    /// The first place that is unused, or the one behind all where each is used.
    fn vacancy(&self) -> (v: usize)
        ensures
            is_vacancy(self@.slots, v as int),
    {
        let mut i: usize = 0;
        while i < self.slots.len()
            invariant
                i <= self.slots@.len(),
                forall|j: int| 0 <= j < i ==> !(#[trigger] self@.slots[j]).unused(),
            decreases self.slots@.len() - i,
        {
            assert(self@.slots[i as int] == self.slots@[i as int]@);
            if self.slots[i].key.is_none() && self.slots[i].waiters == 0 {
                return i;
            }
            i = i + 1;
        }
        i
    }

    /// The place of a key's bucket, where one that has none yet gets a full one.
    fn place_of(&mut self, key: &K, now: Instant) -> (place: usize)
        requires
            old(self)@.wf(),
        ensures
            final(self)@.wf(),
            final(self)@ == old(self)@.with_key(key.id(), now@),
            final(self)@.tracks(key.id()),
            final(self)@.place(key.id()) == place,
            place < final(self)@.slots.len(),
    {
        let ghost before = self@;
        if let Some(i) = self.find(key) {
            return i;
        }
        let v: usize = self.vacancy();
        let slot = Slot {
            key: Some(key.duplicate()),
            waiters: 0,
            bucket: TokenBucket::full(&self.config, now),
        };
        proof {
            lemma_with_key(before, key.id(), now@, v as int);
        }
        if v < self.slots.len() {
            self.slots.set(v, slot);
        } else {
            self.slots.push(slot);
        }
        assert(self@.slots =~= before.with_key(key.id(), now@).slots);
        v
    }

    /// Takes tokens from the bucket at a place, if there are as many.
    fn take(&mut self, place: usize, tokens: u64, now: Instant) -> (granted: bool)
        requires
            old(self)@.wf(),
            place < old(self)@.slots.len(),
        ensures
            final(self)@.wf(),
            final(self)@ == old(self)@.asked_in(place as int, tokens as nat, now@),
            granted == old(self)@.grants_in(place as int, tokens as nat, now@),
    {
        let ghost before = self@;
        assert(before.slots[place as int] == self.slots@[place as int]@);
        let granted = self.slots[place].bucket.take(&self.config, tokens, now);
        proof {
            lemma_asked_in(before, place as int, tokens as nat, now@);
            assert(self@.slots =~= before.asked_in(place as int, tokens as nat, now@).slots);
        }
        granted
    }

    /// Tries to acquire tokens for a key at a given time.
    pub fn try_acquire_at(&mut self, key: &K, tokens: u64, now: Instant) -> (granted: bool)
        requires
            old(self)@.wf(),
        ensures
            final(self)@.wf(),
            final(self)@ == old(self)@.asked(key.id(), tokens as nat, now@),
            granted == old(self)@.grants(key.id(), tokens as nat, now@),
    {
        proof {
            lemma_new_key(self@, key.id(), now@);
        }
        let place: usize = self.place_of(key, now);
        self.take(place, tokens, now)
    }

    /// Tries to acquire tokens for a key.
    pub fn try_acquire(&mut self, key: &K, tokens: u64) -> (granted: bool)
        requires
            old(self)@.wf(),
        ensures
            final(self)@.wf(),
            exists|now: nat|
                final(self)@ == #[trigger] old(self)@.asked(key.id(), tokens as nat, now)
                    && granted == old(self)@.grants(key.id(), tokens as nat, now),
    {
        let now = self.clock.now();
        self.try_acquire_at(key, tokens, now)
    }

    /// Tries to acquire a single token for a key.
    pub fn try_acquire_one(&mut self, key: &K) -> (granted: bool)
        requires
            old(self)@.wf(),
        ensures
            final(self)@.wf(),
            exists|now: nat|
                final(self)@ == #[trigger] old(self)@.asked(key.id(), 1, now) && granted == old(
                    self,
                )@.grants(key.id(), 1, now),
    {
        self.try_acquire(key, 1)
    }

    /// Tries to acquire tokens for a key at a given time, for someone who waits until a
    /// deadline: `Ok(None)` grants them, `Ok(Some((w, d)))` asks to wait for `d` and then to
    /// try again as `w`.
    pub fn acquire_at(&mut self, key: &K, tokens: u64, deadline: Instant, now: Instant) -> (r:
        Result<Option<(Waiter, Duration)>, RateLimiterError>)
        requires
            old(self)@.wf(),
            !old(self)@.grants(key.id(), tokens as nat, now@) && now@ < deadline@ ==> old(
                self,
            )@.config.refill_amount as u32 > 0 && old(self)@.waiting(key.id()) < u64::MAX,
        ensures
            final(self)@.wf(),
            acquired(old(self)@, key.id(), tokens as nat, deadline@, now@, r, final(self)@),
    {
        proof {
            lemma_new_key(self@, key.id(), now@);
        }
        let place: usize = self.place_of(key, now);
        let ghost mid = self@;
        let granted = self.take(place, tokens, now);
        match next_try(&self.config, granted, deadline, now) {
            Ok(None) => Ok(None),
            Ok(Some(d)) => {
                let ghost before = self@;
                proof {
                    assert(before.slots.len() == mid.slots.len());
                    assert(before.slots.len() == self.slots@.len());
                    assert(before.slots[place as int] == self.slots@[place as int]@);
                    lemma_place(before, key.id(), place as int);
                }
                self.slots[place].waiters = self.slots[place].waiters + 1;
                proof {
                    assert(self@.slots =~= before.joined(place as int).slots);
                    lemma_counted(before, self@, place as int);
                }
                Ok(Some((Waiter { place }, d)))
            },
            Err(e) => Err(e),
        }
    }

    /// Tries to acquire tokens for a key, for someone who waits until a deadline.
    pub fn acquire(&mut self, key: &K, tokens: u64, deadline: Instant) -> (r: Result<
        Option<(Waiter, Duration)>,
        RateLimiterError,
    >)
        requires
            old(self)@.wf(),
            old(self)@.config.refill_amount as u32 > 0 && old(self)@.waiting(key.id()) < u64::MAX
                || tokens <= old(self)@.held(key.id()),
        ensures
            final(self)@.wf(),
            exists|now: nat| #[trigger]
                acquired(old(self)@, key.id(), tokens as nat, deadline@, now, r, final(self)@),
    {
        let now = self.clock.now();
        proof {
            held_tokens_are_granted(self@.config, self@.bucket(key.id(), now@), now@);
        }
        self.acquire_at(key, tokens, deadline, now)
    }

    /// Tries to acquire a single token for a key, for someone who waits until a deadline.
    pub fn acquire_one(&mut self, key: &K, deadline: Instant) -> (r: Result<
        Option<(Waiter, Duration)>,
        RateLimiterError,
    >)
        requires
            old(self)@.wf(),
            old(self)@.config.refill_amount as u32 > 0 && old(self)@.waiting(key.id()) < u64::MAX
                || 1 <= old(self)@.held(key.id()),
        ensures
            final(self)@.wf(),
            exists|now: nat| #[trigger]
                acquired(old(self)@, key.id(), 1, deadline@, now, r, final(self)@),
    {
        self.acquire(key, 1, deadline)
    }

    /// Tries again to acquire tokens at a given time, for someone who has waited. The bucket
    /// is the one that was waited for, whether or not its key was removed meanwhile.
    pub fn acquire_again_at(
        &mut self,
        waiter: Waiter,
        tokens: u64,
        deadline: Instant,
        now: Instant,
    ) -> (r: Result<Option<(Waiter, Duration)>, RateLimiterError>)
        requires
            old(self)@.wf(),
            old(self)@.waits(waiter@),
            !old(self)@.grants_in(waiter@, tokens as nat, now@) && now@ < deadline@ ==> old(
                self,
            )@.config.refill_amount as u32 > 0,
        ensures
            final(self)@.wf(),
            acquired_again(
                old(self)@,
                waiter@,
                tokens as nat,
                deadline@,
                now@,
                r,
                final(self)@,
            ),
    {
        let place: usize = waiter.place;
        let granted = self.take(place, tokens, now);
        match next_try(&self.config, granted, deadline, now) {
            Ok(None) => {
                self.give_up(waiter);
                Ok(None)
            },
            Ok(Some(d)) => Ok(Some((waiter, d))),
            Err(e) => {
                self.give_up(waiter);
                Err(e)
            },
        }
    }

    /// Tries again to acquire tokens, for someone who has waited.
    pub fn acquire_again(&mut self, waiter: Waiter, tokens: u64, deadline: Instant) -> (r: Result<
        Option<(Waiter, Duration)>,
        RateLimiterError,
    >)
        requires
            old(self)@.wf(),
            old(self)@.waits(waiter@),
            old(self)@.config.refill_amount as u32 > 0,
        ensures
            final(self)@.wf(),
            exists|now: nat| #[trigger]
                acquired_again(
                    old(self)@,
                    waiter@,
                    tokens as nat,
                    deadline@,
                    now,
                    r,
                    final(self)@,
                ),
    {
        let now = self.clock.now();
        self.acquire_again_at(waiter, tokens, deadline, now)
    }

    /// Ends the wait of someone who does not want the tokens any more.
    pub fn give_up(&mut self, waiter: Waiter)
        requires
            old(self)@.wf(),
            old(self)@.waits(waiter@),
        ensures
            final(self)@.wf(),
            final(self)@ == old(self)@.released(waiter@),
    {
        let ghost before = self@;
        let place: usize = waiter.place;
        proof {
            assert(before.slots[place as int] == self.slots@[place as int]@);
        }
        self.slots[place].waiters = self.slots[place].waiters - 1;
        proof {
            assert(self@.slots =~= before.released(place as int).slots);
            lemma_counted(before, self@, place as int);
        }
    }

    /// The number of tracked keys.
    pub fn key_count(&self) -> (n: usize)
        ensures
            n == keys_in(self@.slots),
    {
        let mut n: usize = 0;
        let mut i: usize = 0;
        assert(self@.slots.take(0) =~= Seq::empty());
        while i < self.slots.len()
            invariant
                i <= self.slots@.len(),
                n <= i,
                n == keys_in(self@.slots.take(i as int)),
            decreases self.slots@.len() - i,
        {
            proof {
                let seen = self@.slots.take(i + 1);
                assert(seen.drop_last() =~= self@.slots.take(i as int));
                assert(seen.last() == self.slots@[i as int]@);
            }
            if self.slots[i].key.is_some() {
                n = n + 1;
            }
            i = i + 1;
        }
        assert(self@.slots.take(i as int) =~= self@.slots);
        n
    }

    /// Removes a key from tracking.
    pub fn remove_key(&mut self, key: &K)
        requires
            old(self)@.wf(),
        ensures
            final(self)@.wf(),
            final(self)@ == old(self)@.forgotten(key.id()),
    {
        let ghost before = self@;
        if let Some(i) = self.find(key) {
            assert(before.slots[i as int] == self.slots@[i as int]@);
            self.slots[i].key = None;
            proof {
                let after = before.forgotten(key.id());
                assert(self@.slots =~= after.slots);
                assert forall|a: int| 0 <= a < after.slots.len() implies (
                #[trigger] after.slots[a]).bucket == before.slots[a].bucket && (a != i
                    ==> after.slots[a].key == before.slots[a].key) by {}
            }
        }
    }

    /// Clears all keys.
    pub fn clear(&mut self)
        requires
            old(self)@.wf(),
        ensures
            final(self)@.wf(),
            final(self)@ == old(self)@.cleared(),
    {
        let ghost before = self@;
        let mut i: usize = 0;
        while i < self.slots.len()
            invariant
                i <= self.slots@.len(),
                self.slots@.len() == before.slots.len(),
                self.config == before.config,
                forall|j: int|
                    0 <= j < i ==> (#[trigger] self@.slots[j]) == (SlotView {
                        key: None,
                        ..before.slots[j]
                    }),
                forall|j: int|
                    i <= j < self.slots@.len() ==> (#[trigger] self@.slots[j]) == before.slots[j],
            decreases self.slots@.len() - i,
        {
            let ghost mid = self@;
            assert(mid.slots[i as int] == self.slots@[i as int]@);
            self.slots[i].key = None;
            assert(self@.slots =~= mid.slots.update(
                i as int,
                SlotView { key: None, ..mid.slots[i as int] },
            ));
            i = i + 1;
        }
        proof {
            let after = before.cleared();
            assert(self@.slots =~= after.slots);
            assert forall|a: int| 0 <= a < after.slots.len() implies (#[trigger] after.slots[a]).key
                is None && after.slots[a].bucket == before.slots[a].bucket by {}
        }
    }
}

/// What someone gets who first asks for tokens under a key: the tokens, a wait, or the
/// timeout.
pub open spec fn acquired<I>(
    before: KeyedView<I>,
    id: I,
    tokens: nat,
    deadline: nat,
    now: nat,
    r: Result<Option<(Waiter, Duration)>, RateLimiterError>,
    after: KeyedView<I>,
) -> bool {
    let asked = before.asked(id, tokens, now);
    match r {
        Ok(None) => before.grants(id, tokens, now) && after == asked,
        Ok(Some((w, d))) => {
            &&& !before.grants(id, tokens, now)
            &&& now < deadline
            &&& d@ == pause(before.config, deadline, now)
            &&& w@ == asked.place(id)
            &&& after.waits(w@)
            &&& after == asked.joined(w@)
        },
        Err(e) => !before.grants(id, tokens, now) && now >= deadline && e
            == RateLimiterError::Timeout && after == asked,
    }
}

/// What someone gets who has waited and asks again: the tokens, a further wait, or the
/// timeout.
pub open spec fn acquired_again<I>(
    before: KeyedView<I>,
    place: int,
    tokens: nat,
    deadline: nat,
    now: nat,
    r: Result<Option<(Waiter, Duration)>, RateLimiterError>,
    after: KeyedView<I>,
) -> bool {
    let asked = before.asked_in(place, tokens, now);
    match r {
        Ok(None) => before.grants_in(place, tokens, now) && after == asked.released(place),
        Ok(Some((w, d))) => {
            &&& !before.grants_in(place, tokens, now)
            &&& now < deadline
            &&& d@ == pause(before.config, deadline, now)
            &&& w@ == place
            &&& after.waits(w@)
            &&& after == asked
        },
        Err(e) => !before.grants_in(place, tokens, now) && now >= deadline && e
            == RateLimiterError::Timeout && after == asked.released(place),
    }
}

/// A limiter in which only the number of those who wait for one bucket has changed is in
/// order.
proof fn lemma_counted<I>(before: KeyedView<I>, after: KeyedView<I>, place: int)
    requires
        before.wf(),
        0 <= place < before.slots.len(),
        after.config == before.config,
        after.slots == before.slots.update(
            place,
            SlotView { waiters: after.slots[place].waiters, ..before.slots[place] },
        ),
    ensures
        after.wf(),
{
    assert forall|i: int| 0 <= i < after.slots.len() implies (#[trigger] after.slots[i]).key
        == before.slots[i].key && after.slots[i].bucket == before.slots[i].bucket by {}
}

/// A key that gets a bucket gets the one that it would be asked for.
proof fn lemma_new_key<I>(l: KeyedView<I>, id: I, now: nat)
    requires
        l.wf(),
    ensures
        l.with_key(id, now).wf(),
        l.with_key(id, now).config == l.config,
        l.with_key(id, now).tracks(id),
        0 <= l.with_key(id, now).place(id) < l.with_key(id, now).slots.len(),
        l.with_key(id, now).slots[l.with_key(id, now).place(id)].key == Some(id),
        l.with_key(id, now).slots[l.with_key(id, now).place(id)].bucket == l.bucket(id, now),
        l.with_key(id, now).waiting(id) == l.waiting(id),
{
    if !l.tracks(id) {
        lemma_vacancy(l.slots);
        let v = choose|v: int| is_vacancy(l.slots, v);
        lemma_with_key(l, id, now, v);
    }
}

/// There is a first place that is unused, or one behind all.
proof fn lemma_vacancy<I>(slots: Seq<SlotView<I>>)
    ensures
        exists|v: int| is_vacancy(slots, v),
    decreases slots.len(),
{
    if slots.len() == 0 {
        assert(is_vacancy(slots, 0));
    } else {
        let rest = slots.drop_last();
        lemma_vacancy(rest);
        let v = choose|v: int| is_vacancy(rest, v);
        assert forall|j: int| 0 <= j < v implies !(#[trigger] slots[j]).unused() by {
            assert(rest[j] == slots[j]);
        }
        if v < rest.len() {
            assert(rest[v] == slots[v]);
            assert(is_vacancy(slots, v));
        } else if slots[v].unused() {
            assert(is_vacancy(slots, v));
        } else {
            assert(is_vacancy(slots, v + 1));
        }
    }
}

/// Tokens that are in a bucket are granted, whenever they are asked for.
pub proof fn held_tokens_are_granted(config: RateLimiterConfig, b: BucketView, now: nat)
    requires
        b.wf(config),
    ensures
        b.refilled(config, now).whole >= b.whole,
        forall|tokens: nat| tokens <= b.whole ==> #[trigger] b.grants(config, tokens, now),
{
    let interval = config.refill_interval@;
    let came = time::passed(b.last_refill, now) * config.refill_amount as nat;
    let parts = b.parts(config) + came;
    if interval > 0 && parts < config.capacity as nat * interval {
        assert(came >= 0) by (nonlinear_arith)
            requires
                came == time::passed(b.last_refill, now) * config.refill_amount as nat,
        ;
        assert(parts / interval >= b.whole) by (nonlinear_arith)
            requires
                interval > 0,
                parts >= b.whole * interval,
        ;
    }
}

/// A bucket never holds more than its capacity, at any time.
pub proof fn capacity_bounds_tokens(config: RateLimiterConfig, b: BucketView, tokens: nat, now: nat)
    requires
        b.wf(config),
    ensures
        b.refilled(config, now).wf(config),
        b.asked(config, tokens, now).wf(config),
        b.refilled(config, now).whole <= config.capacity,
{
    lemma_refilled(config, b, now);
}

/// Refilling adds what flowed in, except for what does not fit.
proof fn lemma_refilled(config: RateLimiterConfig, b: BucketView, now: nat)
    requires
        b.wf(config),
    ensures
        b.refilled(config, now).wf(config),
        config.refill_interval@ > 0 ==> b.refilled(config, now).parts(config) <= b.parts(config)
            + time::passed(b.last_refill, now) * config.refill_amount as nat,
{
    let interval = config.refill_interval@;
    let parts = b.parts(config) + time::passed(b.last_refill, now) * config.refill_amount as nat;
    if interval > 0 && parts < config.capacity as nat * interval {
        let whole = parts / interval;
        let part = parts % interval;
        vstd::arithmetic::div_mod::lemma_fundamental_div_mod(parts as int, interval as int);
        assert(parts == whole * interval + part) by (nonlinear_arith)
            requires
                parts == interval * whole + part,
        ;
        lemma_reaches(whole, part, interval, config.capacity as nat);
    }
}

/// Someone asks for tokens at a time.
pub struct Request {
    pub tokens: nat,
    pub at: nat,
}

/// A bucket after several requests, and the tokens granted in all.
pub open spec fn served(config: RateLimiterConfig, b: BucketView, requests: Seq<Request>) -> (
    BucketView,
    nat,
)
    decreases requests.len(),
{
    if requests.len() == 0 {
        (b, 0)
    } else {
        let before = served(config, b, requests.drop_last());
        let r = requests.last();
        (
            before.0.asked(config, r.tokens, r.at),
            before.1 + if before.0.grants(config, r.tokens, r.at) {
                r.tokens
            } else {
                0
            },
        )
    }
}

/// Whether requests come one after another, none before a given time.
pub open spec fn in_time(requests: Seq<Request>, start: nat) -> bool {
    forall|i: int|
        0 <= i < requests.len() ==> (#[trigger] requests[i]).at >= if i == 0 {
            start
        } else {
            requests[i - 1].at
        }
}

/// The rate limit holds: whatever is asked for and when, the tokens granted are no more
/// than what the bucket held at first and what flowed in since. In parts of a token,
/// what is left and what was granted never exceed what there was and what came.
pub proof fn rate_is_limited(
    config: RateLimiterConfig,
    b: BucketView,
    requests: Seq<Request>,
    end: nat,
)
    requires
        b.wf(config),
        config.refill_interval@ > 0,
        in_time(requests, b.last_refill),
        end == if requests.len() == 0 {
            b.last_refill
        } else {
            requests.last().at
        },
    ensures
        served(config, b, requests).0.wf(config),
        served(config, b, requests).0.last_refill == end,
        end >= b.last_refill,
        served(config, b, requests).0.parts(config) + served(config, b, requests).1
            * config.refill_interval@ <= b.parts(config) + (end - b.last_refill) as nat
            * config.refill_amount as nat,
    decreases requests.len(),
{
    let interval = config.refill_interval@;
    let amount = config.refill_amount as nat;
    if requests.len() > 0 {
        let rest = requests.drop_last();
        let r = requests.last();
        let mid = if rest.len() == 0 {
            b.last_refill
        } else {
            rest.last().at
        };
        assert forall|i: int| 0 <= i < rest.len() implies (#[trigger] rest[i]).at >= if i == 0 {
            b.last_refill
        } else {
            rest[i - 1].at
        } by {
            assert(rest[i] == requests[i]);
            if i > 0 {
                assert(rest[i - 1] == requests[i - 1]);
            }
        }
        rate_is_limited(config, b, rest, mid);
        assert(requests[requests.len() - 1].at >= mid);
        let before = served(config, b, rest).0;
        let granted = served(config, b, rest).1;
        let filled = before.refilled(config, r.at);
        lemma_refilled(config, before, r.at);
        let after = served(config, b, requests).0;
        let total = served(config, b, requests).1;
        assert(after.parts(config) + total * interval == filled.parts(config) + granted * interval)
            by {
            if filled.whole >= r.tokens {
                assert((filled.whole - r.tokens) * interval + (granted + r.tokens) * interval
                    == filled.whole * interval + granted * interval) by (nonlinear_arith);
            }
        }
        assert((mid - b.last_refill) as nat * amount + (r.at - mid) as nat * amount == (r.at
            - b.last_refill) as nat * amount) by (nonlinear_arith)
            requires
                b.last_refill <= mid <= r.at,
        ;
    } else {
        assert(0 * interval == 0) by (nonlinear_arith);
        assert(0 * amount == 0) by (nonlinear_arith);
    }
}

/// Keys are independent: asking under one key changes nothing for another.
pub proof fn keys_are_independent<I>(l: KeyedView<I>, id: I, other: I, tokens: nat, now: nat, later: nat)
    requires
        l.wf(),
        id != other,
    ensures
        l.asked(id, tokens, now).tracks(other) == l.tracks(other),
        l.asked(id, tokens, now).bucket(other, later) == l.bucket(other, later),
{
    let after = l.asked(id, tokens, now);
    lemma_asked(l, id, tokens, now);
    if l.tracks(other) {
        let i = l.place(other);
        assert(after.slots[i] == l.slots[i]);
        lemma_place(after, other, i);
    } else if after.tracks(other) {
        let j = after.place(other);
        assert(after.slots[j].key == Some(other));
        assert(l.slots[j].key == Some(other));
    }
}

/// What asking under a key leaves as it is: all that does not belong to the key, except for
/// an unused place that the key may get.
proof fn lemma_asked<I>(l: KeyedView<I>, id: I, tokens: nat, now: nat)
    requires
        l.wf(),
    ensures
        l.asked(id, tokens, now).wf(),
        l.asked(id, tokens, now).slots.len() >= l.slots.len(),
        forall|i: int|
            0 <= i < l.slots.len() && !(#[trigger] l.slots[i]).unused() && l.slots[i].key != Some(
                id,
            ) ==> l.asked(id, tokens, now).slots[i] == l.slots[i],
        forall|i: int|
            0 <= i < l.slots.len() ==> (#[trigger] l.asked(id, tokens, now).slots[i]).waiters
                == l.slots[i].waiters,
        forall|i: int|
            0 <= i < l.asked(id, tokens, now).slots.len() && (#[trigger] l.asked(
                id,
                tokens,
                now,
            ).slots[i]).key != Some(id) ==> i < l.slots.len() && l.asked(id, tokens, now).slots[i]
                == l.slots[i],
{
    lemma_new_key(l, id, now);
    let mid = l.with_key(id, now);
    let p = mid.place(id);
    lemma_asked_in(mid, p, tokens, now);
    if !l.tracks(id) {
        lemma_vacancy(l.slots);
        let v = choose|v: int| is_vacancy(l.slots, v);
        lemma_with_key(l, id, now, v);
    }
}

/// A key that was forgotten is not tracked, and starts anew with a full bucket.
pub proof fn forgotten_key_starts_anew<I>(l: KeyedView<I>, id: I, now: nat)
    requires
        l.wf(),
    ensures
        !l.forgotten(id).tracks(id),
        l.forgotten(id).bucket(id, now) == BucketView::full(l.config, now),
        !l.cleared().tracks(id),
        l.cleared().bucket(id, now) == BucketView::full(l.config, now),
{
    if l.tracks(id) {
        let i = l.place(id);
        let after = l.forgotten(id);
        if after.tracks(id) {
            let j = after.place(id);
            assert(after.slots[j].key == Some(id));
            assert(l.slots[j].key == l.slots[i].key);
        }
    }
    if l.cleared().tracks(id) {
        let j = l.cleared().place(id);
        assert(l.cleared().slots[j].key == Some(id));
    }
}

/// Whoever waits keeps the bucket: removing keys changes nothing for them, asking under any
/// key does not end their wait, and asking under another key leaves their bucket as it is.
pub proof fn waiter_keeps_bucket<I>(l: KeyedView<I>, place: int, id: I, tokens: nat, now: nat)
    requires
        l.wf(),
        l.waits(place),
    ensures
        l.forgotten(id).waits(place),
        l.forgotten(id).slots[place].bucket == l.slots[place].bucket,
        l.cleared().waits(place),
        l.cleared().slots[place].bucket == l.slots[place].bucket,
        l.asked(id, tokens, now).waits(place),
        l.slots[place].key != Some(id) ==> l.asked(id, tokens, now).slots[place] == l.slots[place],
{
    lemma_asked(l, id, tokens, now);
    assert(l.asked(id, tokens, now).slots[place].waiters == l.slots[place].waiters);
}

/// As long as its key is tracked, the bucket that is waited for is the key's: asking for
/// tokens from it is asking under the key.
pub proof fn waiter_shares_bucket<I>(l: KeyedView<I>, place: int, id: I, tokens: nat, now: nat)
    requires
        l.wf(),
        l.waits(place),
        l.slots[place].key == Some(id),
    ensures
        l.asked_in(place, tokens, now) == l.asked(id, tokens, now),
        l.grants_in(place, tokens, now) == l.grants(id, tokens, now),
{
    lemma_place(l, id, place);
}

/// Whoever waits tracks no key: asking again leaves the tracked keys as they are, even where
/// the key was removed meanwhile.
pub proof fn waiter_tracks_no_key<I>(l: KeyedView<I>, place: int, id: I, tokens: nat, now: nat)
    requires
        l.wf(),
        l.waits(place),
    ensures
        l.asked_in(place, tokens, now).tracks(id) == l.tracks(id),
        keys_in(l.asked_in(place, tokens, now).slots) == keys_in(l.slots),
        l.released(place).tracks(id) == l.tracks(id),
        keys_in(l.released(place).slots) == keys_in(l.slots),
{
    let asked = l.asked_in(place, tokens, now);
    let released = l.released(place);
    lemma_keys_update(l.slots, place, asked.slots[place]);
    lemma_keys_update(l.slots, place, released.slots[place]);
    assert forall|i: int| 0 <= i < l.slots.len() implies (#[trigger] l.slots[i]).key
        == asked.slots[i].key && l.slots[i].key == released.slots[i].key by {}
    if l.tracks(id) {
        let i = l.place(id);
        assert(l.slots[i].key == Some(id));
        assert(asked.slots[i].key == Some(id));
        assert(released.slots[i].key == Some(id));
    }
    if asked.tracks(id) {
        let i = asked.place(id);
        assert(asked.slots[i].key == Some(id));
        assert(l.slots[i].key == Some(id));
    }
    if released.tracks(id) {
        let i = released.place(id);
        assert(released.slots[i].key == Some(id));
        assert(l.slots[i].key == Some(id));
    }
}

/// The number of keys: asking under a new key adds one, forgetting a tracked key takes one
/// away, and clearing leaves none.
pub proof fn keys_are_counted<I>(l: KeyedView<I>, id: I, tokens: nat, now: nat)
    requires
        l.wf(),
    ensures
        keys_in(l.asked(id, tokens, now).slots) == keys_in(l.slots) + if l.tracks(id) {
            0nat
        } else {
            1
        },
        keys_in(l.slots) == keys_in(l.forgotten(id).slots) + if l.tracks(id) {
            1nat
        } else {
            0
        },
        keys_in(l.cleared().slots) == 0,
{
    lemma_new_key(l, id, now);
    let mid = l.with_key(id, now);
    let p = mid.place(id);
    let s = mid.slots[p];
    lemma_keys_update(mid.slots, p, l.asked(id, tokens, now).slots[p]);
    if l.tracks(id) {
        let i = l.place(id);
        lemma_keys_update(l.slots, i, SlotView { key: None, ..l.slots[i] });
    } else {
        lemma_vacancy(l.slots);
        let v = choose|v: int| is_vacancy(l.slots, v);
        lemma_with_key(l, id, now, v);
        if v < l.slots.len() {
            lemma_keys_update(l.slots, v, s);
        } else {
            assert(mid.slots.drop_last() =~= l.slots);
        }
    }
    lemma_no_keys(l.cleared().slots);
}

/// Where no place belongs to a key, there are no keys.
proof fn lemma_no_keys<I>(slots: Seq<SlotView<I>>)
    requires
        forall|i: int| 0 <= i < slots.len() ==> (#[trigger] slots[i]).key is None,
    ensures
        keys_in(slots) == 0,
    decreases slots.len(),
{
    if slots.len() > 0 {
        let rest = slots.drop_last();
        assert forall|i: int| 0 <= i < rest.len() implies (#[trigger] rest[i]).key is None by {
            assert(rest[i] == slots[i]);
        }
        lemma_no_keys(rest);
    }
}

/// What flows into a bucket is exactly what the refill rate gives for the time that has
/// passed, up to the capacity. Without an interval the bucket is always full.
pub proof fn refill_is_exact(config: RateLimiterConfig, b: BucketView, now: nat)
    requires
        b.wf(config),
    ensures
        ({
            let interval = config.refill_interval@;
            let sum = b.whole * interval + b.part + time::passed(b.last_refill, now)
                * config.refill_amount as nat;
            let after = b.refilled(config, now);
            &&& after.last_refill == now
            &&& interval == 0 ==> after.whole == config.capacity && after.part == 0
            &&& interval > 0 && sum >= config.capacity as nat * interval ==> after.whole
                == config.capacity && after.part == 0
            &&& interval > 0 && sum < config.capacity as nat * interval ==> after.whole * interval
                + after.part == sum && after.part < interval
        }),
{
    let interval = config.refill_interval@;
    let sum = b.parts(config) + time::passed(b.last_refill, now) * config.refill_amount as nat;
    if interval > 0 && sum < config.capacity as nat * interval {
        vstd::arithmetic::div_mod::lemma_fundamental_div_mod(sum as int, interval as int);
        vstd::arithmetic::div_mod::lemma_mod_bound(sum as int, interval as int);
        assert(sum == (sum / interval) * interval + sum % interval) by (nonlinear_arith)
            requires
                sum == interval * (sum / interval) + sum % interval,
        ;
    }
}

/// Every interval that passes adds the refill amount, until the bucket is full.
pub proof fn each_interval_adds_amount(config: RateLimiterConfig, b: BucketView, intervals: nat)
    requires
        b.wf(config),
        config.refill_interval@ > 0,
    ensures
        b.refilled(config, b.last_refill + intervals * config.refill_interval@).whole == if b.whole
            + intervals * config.refill_amount as nat >= config.capacity {
            config.capacity as nat
        } else {
            b.whole + intervals * config.refill_amount as nat
        },
{
    let interval = config.refill_interval@;
    let amount = config.refill_amount as nat;
    let tokens = b.whole + intervals * amount;
    let now = b.last_refill + intervals * interval;
    assert(intervals * interval >= 0) by (nonlinear_arith);
    assert(time::passed(b.last_refill, now) == intervals * interval);
    let sum = b.parts(config) + (intervals * interval) * amount;
    assert(sum == tokens * interval + b.part) by (nonlinear_arith)
        requires
            sum == b.whole * interval + b.part + (intervals * interval) * amount,
            tokens == b.whole + intervals * amount,
    ;
    lemma_tokens(tokens, b.part, interval, sum);
    lemma_reaches(tokens, b.part, interval, config.capacity as nat);
}

/// Looking at a bucket in between changes nothing: refilled at one time and then at a later
/// one, it holds what it holds when it is refilled at the later time only.
pub proof fn refilling_in_steps(config: RateLimiterConfig, b: BucketView, then: nat, now: nat)
    requires
        b.wf(config),
        b.last_refill <= then <= now,
    ensures
        b.refilled(config, then).refilled(config, now) == b.refilled(config, now),
{
    let interval = config.refill_interval@;
    let amount = config.refill_amount as nat;
    let cap = config.capacity as nat * interval;
    if interval > 0 {
        let early = (then - b.last_refill) as nat * amount;
        let late = (now - then) as nat * amount;
        let whole = (now - b.last_refill) as nat * amount;
        assert(early + late == whole) by (nonlinear_arith)
            requires
                early == (then - b.last_refill) as nat * amount,
                late == (now - then) as nat * amount,
                whole == (now - b.last_refill) as nat * amount,
                b.last_refill <= then <= now,
        ;
        assert(late >= 0);
        refill_is_exact(config, b, then);
        let mid = b.refilled(config, then);
        assert(mid.parts(config) == if b.parts(config) + early >= cap {
            cap
        } else {
            b.parts(config) + early
        });
    }
}

/// Tokens are granted when as many are there, and then they are gone; a refusal takes
/// nothing.
pub proof fn granted_tokens_are_taken(
    config: RateLimiterConfig,
    b: BucketView,
    tokens: nat,
    now: nat,
)
    ensures
        b.grants(config, tokens, now) <==> tokens <= b.refilled(config, now).whole,
        b.grants(config, tokens, now) ==> b.asked(config, tokens, now).whole + tokens == b.refilled(
            config,
            now,
        ).whole,
        !b.grants(config, tokens, now) ==> b.asked(config, tokens, now) == b.refilled(config, now),
        b.asked(config, tokens, now).part == b.refilled(config, now).part,
        b.asked(config, tokens, now).last_refill == b.refilled(config, now).last_refill,
{
}

/// Asking for tokens that are refused costs nothing: whatever is asked for later is granted
/// or refused as if that had not been asked.
pub proof fn refusal_costs_nothing(
    config: RateLimiterConfig,
    b: BucketView,
    tokens: nat,
    then: nat,
    others: nat,
    now: nat,
)
    requires
        b.wf(config),
        b.last_refill <= then <= now,
        !b.grants(config, tokens, then),
    ensures
        b.asked(config, tokens, then).grants(config, others, now) == b.grants(config, others, now),
{
    refilling_in_steps(config, b, then, now);
}

/// A full bucket grants as many tokens as its capacity, at once, and no more.
pub proof fn full_bucket_grants_capacity(
    config: RateLimiterConfig,
    tokens: nat,
    then: nat,
    now: nat,
)
    ensures
        BucketView::full(config, then).grants(config, tokens, now) <==> tokens <= config.capacity,
        BucketView::full(config, then).wf(config),
        BucketView::full(config, then).last_refill == then,
{
    let b = BucketView::full(config, then);
    let interval = config.refill_interval@;
    let came = time::passed(then, now) * config.refill_amount as nat;
    assert(came >= 0);
    assert(b.parts(config) + came >= config.capacity as nat * interval);
}

/// Whoever waits does so until the deadline at most, and no longer than a token takes to
/// come.
pub proof fn pause_is_bounded(config: RateLimiterConfig, deadline: nat, now: nat)
    requires
        config.refill_amount as u32 > 0,
    ensures
        pause(config, deadline, now) <= time::passed(now, deadline),
        pause(config, deadline, now) <= config.refill_interval@ / (config.refill_amount as u32) as nat,
        pause(config, deadline, now) == time::passed(now, deadline) || pause(config, deadline, now)
            == config.refill_interval@ / (config.refill_amount as u32) as nat,
{
}

/// Asking under a key asks its bucket, and a key that is new has a full one.
pub proof fn key_has_its_bucket<I>(l: KeyedView<I>, id: I, tokens: nat, now: nat, later: nat)
    requires
        l.wf(),
    ensures
        l.asked(id, tokens, now).tracks(id),
        l.asked(id, tokens, now).config == l.config,
        l.asked(id, tokens, now).bucket(id, later) == l.bucket(id, now).asked(
            l.config,
            tokens,
            now,
        ),
        l.grants(id, tokens, now) <==> tokens <= l.bucket(id, now).refilled(l.config, now).whole,
        !l.tracks(id) ==> (l.grants(id, tokens, now) <==> tokens <= l.config.capacity),
{
    lemma_new_key(l, id, now);
    let mid = l.with_key(id, now);
    let p = mid.place(id);
    let after = l.asked(id, tokens, now);
    lemma_asked(l, id, tokens, now);
    assert(after.slots[p].key == Some(id));
    lemma_place(after, id, p);
    full_bucket_grants_capacity(l.config, tokens, now, now);
}

/// Forgetting one key changes nothing for another.
pub proof fn forgetting_leaves_others<I>(l: KeyedView<I>, id: I, other: I, now: nat)
    requires
        l.wf(),
        id != other,
    ensures
        l.forgotten(id).tracks(other) == l.tracks(other),
        l.forgotten(id).bucket(other, now) == l.bucket(other, now),
        l.forgotten(id).config == l.config,
{
    let after = l.forgotten(id);
    if l.tracks(id) {
        assert forall|i: int, j: int|
            0 <= i < after.slots.len() && 0 <= j < after.slots.len() && i != j && (
            #[trigger] after.slots[i]).key is Some implies after.slots[i].key != (
        #[trigger] after.slots[j]).key by {
            assert(after.slots[i].key == l.slots[i].key);
        }
        assert forall|i: int| 0 <= i < after.slots.len() implies (
        #[trigger] after.slots[i]).bucket.wf(after.config) by {
            assert(after.slots[i].bucket == l.slots[i].bucket);
        }
        if l.tracks(other) {
            let i = l.place(other);
            assert(l.slots[i].key == Some(other));
            assert(after.slots[i] == l.slots[i]);
            lemma_place(after, other, i);
        } else if after.tracks(other) {
            let i = after.place(other);
            assert(after.slots[i].key == Some(other));
            assert(l.slots[i].key == Some(other));
        }
    }
}

/// A limiter does what its bucket does, under its configuration.
pub proof fn limiter_is_its_bucket(l: LimiterView, tokens: nat, now: nat)
    requires
        l.wf(),
    ensures
        l.grants(tokens, now) <==> tokens <= l.refilled(now).bucket.whole,
        l.grants(tokens, now) ==> l.asked(tokens, now).bucket.whole + tokens == l.refilled(
            now,
        ).bucket.whole,
        !l.grants(tokens, now) ==> l.asked(tokens, now) == l.refilled(now),
        l.refilled(now).bucket == l.bucket.refilled(l.config, now),
        l.asked(tokens, now).config == l.config,
        l.refilled(now).config == l.config,
        LimiterView::full(l.config, now).config == l.config,
        LimiterView::full(l.config, now).bucket.whole == l.config.capacity,
        LimiterView::full(l.config, now).grants(tokens, now) <==> tokens <= l.config.capacity,
        LimiterView::full(l.config, now).bucket.last_refill == now,
{
    full_bucket_grants_capacity(l.config, tokens, now, now);
}

/// Whoever asks under a key gets the tokens exactly when as many are there, and otherwise
/// waits before the deadline and is refused after it. Waiting is for the key's own bucket,
/// and never beyond the deadline.
pub proof fn acquisition_has_three_ends<I>(
    before: KeyedView<I>,
    id: I,
    tokens: nat,
    deadline: nat,
    now: nat,
    r: Result<Option<(Waiter, Duration)>, RateLimiterError>,
    after: KeyedView<I>,
)
    requires
        before.wf(),
        before.config.refill_amount as u32 > 0,
        acquired(before, id, tokens, deadline, now, r, after),
    ensures
        (r matches Ok(None)) <==> tokens <= before.bucket(id, now).refilled(
            before.config,
            now,
        ).whole,
        r is Err ==> now >= deadline && r->Err_0 == RateLimiterError::Timeout,
        r matches Ok(Some((w, d))) ==> {
            &&& now < deadline
            &&& now + d@ <= deadline
            &&& after.waits(w@)
            &&& after.slots[w@].key == Some(id)
            &&& after.slots[w@].bucket == before.bucket(id, now).refilled(before.config, now)
        },
        r matches Ok(None) ==> after.bucket(id, now).whole + tokens == before.bucket(
            id,
            now,
        ).refilled(before.config, now).whole,
{
    key_has_its_bucket(before, id, tokens, now, now);
    pause_is_bounded(before.config, deadline, now);
    let asked = before.asked(id, tokens, now);
    lemma_asked(before, id, tokens, now);
    let p = asked.place(id);
    assert(asked.slots[p].key == Some(id));
    assert(asked.bucket(id, now) == asked.slots[p].bucket);
}

/// Whoever has waited gets the tokens exactly when as many are in the bucket that was waited
/// for, and otherwise waits on before the deadline and is refused after it. Only those who
/// wait on are still counted as waiting.
pub proof fn waiting_has_three_ends<I>(
    before: KeyedView<I>,
    place: int,
    tokens: nat,
    deadline: nat,
    now: nat,
    r: Result<Option<(Waiter, Duration)>, RateLimiterError>,
    after: KeyedView<I>,
)
    requires
        before.wf(),
        before.waits(place),
        before.config.refill_amount as u32 > 0,
        acquired_again(before, place, tokens, deadline, now, r, after),
    ensures
        (r matches Ok(None)) <==> tokens <= before.slots[place].bucket.refilled(
            before.config,
            now,
        ).whole,
        r is Err ==> now >= deadline && r->Err_0 == RateLimiterError::Timeout,
        r matches Ok(Some((w, d))) ==> {
            &&& now < deadline
            &&& now + d@ <= deadline
            &&& w@ == place
            &&& after.slots[place].waiters == before.slots[place].waiters
        },
        !(r matches Ok(Some(_))) ==> after.slots[place].waiters + 1 == before.slots[place].waiters,
        after.slots[place].key == before.slots[place].key,
        after.slots[place].bucket == before.slots[place].bucket.asked(before.config, tokens, now),
{
    pause_is_bounded(before.config, deadline, now);
}

/// One who begins to wait and one who ends are counted, and change nothing else.
pub proof fn waiters_are_counted<I>(l: KeyedView<I>, place: int)
    requires
        0 <= place < l.slots.len(),
    ensures
        l.joined(place).slots[place].waiters == l.slots[place].waiters + 1,
        l.joined(place).released(place) == l,
        l.joined(place).slots[place].bucket == l.slots[place].bucket,
        l.joined(place).slots[place].key == l.slots[place].key,
        l.waits(place) ==> l.released(place).slots[place].waiters + 1 == l.slots[place].waiters
            && l.released(place).slots[place].bucket == l.slots[place].bucket,
{
    assert(l.joined(place).released(place).slots =~= l.slots);
}

/// Whoever waits gets the tokens exactly when as many are there, and otherwise waits before
/// the deadline, never beyond it, and is refused after it.
pub proof fn answer_has_three_ends(
    l: LimiterView,
    tokens: nat,
    deadline: nat,
    now: nat,
    r: Result<Option<Duration>, RateLimiterError>,
)
    requires
        l.wf(),
        l.config.refill_amount as u32 > 0,
        answered(l, tokens, deadline, now, r),
    ensures
        (r matches Ok(None)) <==> tokens <= l.bucket.refilled(l.config, now).whole,
        r is Err <==> tokens > l.bucket.refilled(l.config, now).whole && now >= deadline,
        r matches Ok(Some(d)) ==> now < deadline && now + d@ <= deadline,
        r matches Err(e) ==> e == RateLimiterError::Timeout,
{
    pause_is_bounded(l.config, deadline, now);
}

} // verus!
