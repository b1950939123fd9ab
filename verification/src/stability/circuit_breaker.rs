//! Circuit breaker pattern for fault tolerance.

use crate::error::concatenated;
use crate::time;
use crate::time::{Clock, Duration, Instant};
use vstd::prelude::*;
use vstd::string::*;

verus! {

/// Circuit breaker state.
#[derive(Debug, Clone, Copy, PartialEq, Eq, Structural)]
pub enum CircuitState {
    /// Circuit is closed, requests flow normally.
    Closed,
    /// Circuit is open, requests are rejected.
    Open,
    /// Circuit is half-open, testing if the service recovered.
    HalfOpen,
}

/// Circuit breaker configuration.
#[derive(Debug, Clone, Copy)]
pub struct CircuitBreakerConfig {
    /// Number of failures before opening the circuit.
    pub failure_threshold: u32,
    /// Number of successes to close the circuit from half-open.
    pub success_threshold: u32,
    /// Timeout before attempting recovery (half-open state).
    pub timeout: Duration,
    /// Window size for failure counting.
    pub window_size: Duration,
}

/// Whether a configuration is the default one.
pub open spec fn is_default_config(c: CircuitBreakerConfig) -> bool {
    &&& c.failure_threshold == 5
    &&& c.success_threshold == 2
    &&& c.timeout@ == time::secs(60)
    &&& c.window_size@ == time::secs(10)
}

impl Default for CircuitBreakerConfig {
    fn default() -> (c: CircuitBreakerConfig)
        ensures
            is_default_config(c),
    {
        CircuitBreakerConfig {
            failure_threshold: 5,
            success_threshold: 2,
            timeout: Duration::from_secs(60),
            window_size: Duration::from_secs(10),
        }
    }
}

impl CircuitBreakerConfig {
    /// Creates a new circuit breaker configuration.
    pub fn new() -> (c: CircuitBreakerConfig)
        ensures
            is_default_config(c),
    {
        CircuitBreakerConfig::default()
    }

    /// Sets the failure threshold.
    pub fn with_failure_threshold(self, threshold: u32) -> (c: CircuitBreakerConfig)
        ensures
            c == (CircuitBreakerConfig { failure_threshold: threshold, ..self }),
    {
        CircuitBreakerConfig { failure_threshold: threshold, ..self }
    }

    /// Sets the success threshold.
    pub fn with_success_threshold(self, threshold: u32) -> (c: CircuitBreakerConfig)
        ensures
            c == (CircuitBreakerConfig { success_threshold: threshold, ..self }),
    {
        CircuitBreakerConfig { success_threshold: threshold, ..self }
    }

    /// Sets the timeout duration.
    pub fn with_timeout(self, timeout: Duration) -> (c: CircuitBreakerConfig)
        ensures
            c == (CircuitBreakerConfig { timeout, ..self }),
    {
        CircuitBreakerConfig { timeout, ..self }
    }

    /// Sets the window size.
    pub fn with_window_size(self, window_size: Duration) -> (c: CircuitBreakerConfig)
        ensures
            c == (CircuitBreakerConfig { window_size, ..self }),
    {
        CircuitBreakerConfig { window_size, ..self }
    }
}

/// Circuit breaker error.
#[derive(Debug)]
pub enum CircuitBreakerError<E> {
    /// Circuit is open, request rejected.
    CircuitOpen,
    /// Inner operation failed.
    InnerError(E),
}

impl CircuitBreakerError<String> {
    /// The text shown to people.
    pub fn to_string(&self) -> (s: String)
        ensures
            s@ == match self {
                CircuitBreakerError::CircuitOpen => "Circuit breaker is open"@,
                CircuitBreakerError::InnerError(e) => "Operation failed: "@ + e@,
            },
    {
        match self {
            CircuitBreakerError::CircuitOpen => "Circuit breaker is open".to_owned(),
            CircuitBreakerError::InnerError(e) => concatenated("Operation failed: ", e),
        }
    }
}

/// What a [`CircuitBreaker`] holds. Times are in nanoseconds of its clock.
pub struct BreakerView {
    pub config: CircuitBreakerConfig,
    pub state: CircuitState,
    pub failure_count: nat,
    pub success_count: nat,
    pub last_failure_time: Option<nat>,
    pub opened_at: Option<nat>,
}

impl BreakerView {
    /// The breaker that was just made, or reset.
    pub open spec fn fresh(config: CircuitBreakerConfig) -> BreakerView {
        BreakerView {
            config,
            state: CircuitState::Closed,
            failure_count: 0,
            success_count: 0,
            last_failure_time: None,
            opened_at: None,
        }
    }

    /// What every breaker keeps: while closed it has counted fewer failures than would
    /// open it, while half-open fewer successes than would close it, and while open it
    /// knows since when.
    pub open spec fn wf(self) -> bool {
        &&& self.failure_count <= u32::MAX
        &&& self.success_count <= u32::MAX
        &&& self.state == CircuitState::Closed ==> self.failure_count == 0 || self.failure_count
            < self.config.failure_threshold
        &&& self.state == CircuitState::HalfOpen ==> self.success_count == 0
            || self.success_count < self.config.success_threshold
        &&& self.state == CircuitState::Open ==> self.opened_at is Some
    }

    /// Whether the circuit has been open for long enough to be tried again.
    pub open spec fn timeout_elapsed(self, now: nat) -> bool {
        self.opened_at matches Some(t) && time::passed(t, now) >= self.config.timeout@
    }

    /// Whether a request is allowed.
    pub open spec fn allows(self, now: nat) -> bool {
        self.state != CircuitState::Open || self.timeout_elapsed(now)
    }

    /// The breaker after it was asked whether a request is allowed.
    pub open spec fn asked(self, now: nat) -> BreakerView {
        if self.state == CircuitState::Open && self.timeout_elapsed(now) {
            BreakerView {
                state: CircuitState::HalfOpen,
                success_count: 0,
                failure_count: 0,
                ..self
            }
        } else {
            self
        }
    }

    /// The breaker after a success.
    pub open spec fn succeeded(self) -> BreakerView {
        match self.state {
            CircuitState::Closed => BreakerView {
                failure_count: 0,
                last_failure_time: None,
                ..self
            },
            CircuitState::HalfOpen => if self.success_count + 1 >= self.config.success_threshold {
                BreakerView {
                    state: CircuitState::Closed,
                    failure_count: 0,
                    success_count: 0,
                    opened_at: None,
                    ..self
                }
            } else {
                BreakerView { success_count: self.success_count + 1, ..self }
            },
            CircuitState::Open => self,
        }
    }

    /// The failures that still count at a given time: none when the last one lies
    /// further back than the window.
    pub open spec fn recent_failures(self, now: nat) -> nat {
        if self.last_failure_time matches Some(t) && time::passed(t, now)
            > self.config.window_size@ {
            0
        } else {
            self.failure_count
        }
    }

    /// The breaker after a failure.
    pub open spec fn failed(self, now: nat) -> BreakerView {
        let failures = self.recent_failures(now) + 1;
        match self.state {
            CircuitState::Closed => BreakerView {
                state: if failures >= self.config.failure_threshold {
                    CircuitState::Open
                } else {
                    CircuitState::Closed
                },
                opened_at: if failures >= self.config.failure_threshold {
                    Some(now)
                } else {
                    self.opened_at
                },
                failure_count: failures,
                last_failure_time: Some(now),
                ..self
            },
            CircuitState::HalfOpen => BreakerView {
                state: CircuitState::Open,
                opened_at: Some(now),
                failure_count: 1,
                success_count: 0,
                last_failure_time: Some(now),
                ..self
            },
            CircuitState::Open => BreakerView {
                failure_count: failures,
                last_failure_time: Some(now),
                ..self
            },
        }
    }
}

/// Circuit breaker for fault tolerance.
pub struct CircuitBreaker {
    config: CircuitBreakerConfig,
    clock: Clock,
    state: CircuitState,
    failure_count: u32,
    success_count: u32,
    last_failure_time: Option<Instant>,
    opened_at: Option<Instant>,
}

/// The nanoseconds of a point in time that may be missing.
pub open spec fn instant_view(i: Option<Instant>) -> Option<nat> {
    match i {
        Some(t) => Some(t@),
        None => None,
    }
}

impl View for CircuitBreaker {
    type V = BreakerView;

    closed spec fn view(&self) -> BreakerView {
        BreakerView {
            config: self.config,
            state: self.state,
            failure_count: self.failure_count as nat,
            success_count: self.success_count as nat,
            last_failure_time: instant_view(self.last_failure_time),
            opened_at: instant_view(self.opened_at),
        }
    }
}

impl CircuitBreaker {
    /// Creates a new circuit breaker with default configuration.
    pub fn new() -> (b: CircuitBreaker)
        ensures
            b@.wf(),
            is_default_config(b@.config),
            b@ == BreakerView::fresh(b@.config),
    {
        CircuitBreaker::with_config(CircuitBreakerConfig::default())
    }

    /// Creates a new circuit breaker with custom configuration.
    pub fn with_config(config: CircuitBreakerConfig) -> (b: CircuitBreaker)
        ensures
            b@.wf(),
            b@ == BreakerView::fresh(config),
    {
        CircuitBreaker {
            config,
            clock: Clock::start(),
            state: CircuitState::Closed,
            failure_count: 0,
            success_count: 0,
            last_failure_time: None,
            opened_at: None,
        }
    }

    /// What the breaker's clock shows. Any time may come.
    pub fn now(&self) -> Instant {
        self.clock.now()
    }

    /// Whether a request is allowed at a given time. An open circuit whose timeout has
    /// elapsed becomes half-open.
    pub fn is_request_allowed_at(&mut self, now: Instant) -> (b: bool)
        requires
            old(self)@.wf(),
        ensures
            final(self)@.wf(),
            b == old(self)@.allows(now@),
            final(self)@ == old(self)@.asked(now@),
    {
        match self.state {
            CircuitState::Closed => true,
            CircuitState::HalfOpen => true,
            CircuitState::Open => match self.opened_at {
                Some(opened_at) => if now.duration_since(opened_at).reaches(self.config.timeout) {
                    self.state = CircuitState::HalfOpen;
                    self.success_count = 0;
                    self.failure_count = 0;
                    true
                } else {
                    false
                },
                None => false,
            },
        }
    }

    /// Whether a request is allowed.
    pub fn is_request_allowed(&mut self) -> (b: bool)
        requires
            old(self)@.wf(),
        ensures
            final(self)@.wf(),
            exists|now: nat|
                b == old(self)@.allows(now) && final(self)@ == #[trigger] old(self)@.asked(now),
    {
        let now = self.clock.now();
        self.is_request_allowed_at(now)
    }

    /// Records a successful request.
    pub fn record_success(&mut self)
        requires
            old(self)@.wf(),
        ensures
            final(self)@.wf(),
            final(self)@ == old(self)@.succeeded(),
    {
        match self.state {
            CircuitState::Closed => {
                self.failure_count = 0;
                self.last_failure_time = None;
            },
            CircuitState::HalfOpen => {
                self.success_count = self.success_count + 1;
                if self.success_count >= self.config.success_threshold {
                    self.state = CircuitState::Closed;
                    self.failure_count = 0;
                    self.success_count = 0;
                    self.opened_at = None;
                }
            },
            CircuitState::Open => {},
        }
    }

    /// Records a failed request at a given time.
    pub fn record_failure_at(&mut self, now: Instant)
        requires
            old(self)@.wf(),
            old(self)@.state == CircuitState::Open ==> old(self)@.recent_failures(now@) < u32::MAX,
        ensures
            final(self)@.wf(),
            final(self)@ == old(self)@.failed(now@),
    {
        if let Some(last_failure) = self.last_failure_time {
            if now.duration_since(last_failure).exceeds(self.config.window_size) {
                self.failure_count = 0;
            }
        }
        self.last_failure_time = Some(now);
        match self.state {
            CircuitState::Closed => {
                self.failure_count = self.failure_count + 1;
                if self.failure_count >= self.config.failure_threshold {
                    self.state = CircuitState::Open;
                    self.opened_at = Some(now);
                }
            },
            CircuitState::HalfOpen => {
                self.state = CircuitState::Open;
                self.opened_at = Some(now);
                self.failure_count = 1;
                self.success_count = 0;
            },
            CircuitState::Open => {
                self.failure_count = self.failure_count + 1;
            },
        }
    }

    /// Records a failed request.
    pub fn record_failure(&mut self)
        requires
            old(self)@.wf(),
            old(self)@.state == CircuitState::Open ==> old(self)@.failure_count < u32::MAX,
        ensures
            final(self)@.wf(),
            exists|now: nat| final(self)@ == #[trigger] old(self)@.failed(now),
    {
        let now = self.clock.now();
        self.record_failure_at(now)
    }

    /// The current state.
    pub fn state(&self) -> (s: CircuitState)
        ensures
            s == self@.state,
    {
        self.state
    }

    /// The failure count.
    pub fn failure_count(&self) -> (n: u32)
        ensures
            n == self@.failure_count,
    {
        self.failure_count
    }

    /// The success count (for the half-open state).
    pub fn success_count(&self) -> (n: u32)
        ensures
            n == self@.success_count,
    {
        self.success_count
    }

    /// Resets the circuit breaker to the closed state.
    pub fn reset(&mut self)
        ensures
            final(self)@.wf(),
            final(self)@ == BreakerView::fresh(old(self)@.config),
    {
        self.state = CircuitState::Closed;
        self.failure_count = 0;
        self.success_count = 0;
        self.last_failure_time = None;
        self.opened_at = None;
    }

    /// Takes in, at a given time, the outcome of a request that was allowed.
    pub fn settle_at<T, E>(&mut self, outcome: Result<T, E>, now: Instant) -> (r: Result<
        T,
        CircuitBreakerError<E>,
    >)
        requires
            old(self)@.wf(),
            old(self)@.state == CircuitState::Open ==> old(self)@.recent_failures(now@) < u32::MAX,
        ensures
            final(self)@.wf(),
            match outcome {
                Ok(v) => r == Ok::<T, CircuitBreakerError<E>>(v) && final(self)@ == old(
                    self,
                )@.succeeded(),
                Err(e) => r == Err::<T, CircuitBreakerError<E>>(
                    CircuitBreakerError::InnerError(e),
                ) && final(self)@ == old(self)@.failed(now@),
            },
    {
        match outcome {
            Ok(v) => {
                self.record_success();
                Ok(v)
            },
            Err(e) => {
                self.record_failure_at(now);
                Err(CircuitBreakerError::InnerError(e))
            },
        }
    }

    /// Runs a function under the protection of the circuit breaker: it runs if and only
    /// if a request is allowed, and its outcome is recorded.
    pub fn call<T, E, F: FnOnce() -> Result<T, E>>(&mut self, f: F) -> (r: Result<
        T,
        CircuitBreakerError<E>,
    >)
        requires
            old(self)@.wf(),
            call_requires(f, ()),
        ensures
            final(self)@.wf(),
            exists|then: nat, now: nat|
                #![trigger old(self)@.asked(then).failed(now)]
                if !old(self)@.allows(then) {
                    r == Err::<T, CircuitBreakerError<E>>(CircuitBreakerError::CircuitOpen)
                        && final(self)@ == old(self)@
                } else {
                    match r {
                        Ok(v) => call_ensures(f, (), Ok(v)) && final(self)@ == old(self)@.asked(
                            then,
                        ).succeeded(),
                        Err(CircuitBreakerError::InnerError(e)) => call_ensures(f, (), Err(e))
                            && final(self)@ == old(self)@.asked(then).failed(now),
                        Err(CircuitBreakerError::CircuitOpen) => false,
                    }
                },
    {
        let then = self.clock.now();
        let ghost before = self@;
        if !self.is_request_allowed_at(then) {
            assert(before.asked(then@).failed(then@) == before.asked(then@).failed(then@));
            return Err(CircuitBreakerError::CircuitOpen);
        }
        let outcome = f();
        let now = self.clock.now();
        assert(before.asked(then@).failed(now@) == before.asked(then@).failed(now@));
        self.settle_at(outcome, now)
    }
}

impl Default for CircuitBreaker {
    fn default() -> (b: CircuitBreaker)
        ensures
            b@.wf(),
            is_default_config(b@.config),
            b@ == BreakerView::fresh(b@.config),
    {
        CircuitBreaker::new()
    }
}

/// The breaker after failures at some times.
pub open spec fn failed_all(b: BreakerView, times: Seq<nat>) -> BreakerView
    decreases times.len(),
{
    if times.len() == 0 {
        b
    } else {
        failed_all(b, times.drop_last()).failed(times.last())
    }
}

/// Whether each time lies within the window after the one before.
pub open spec fn close_together(times: Seq<nat>, window: nat) -> bool {
    forall|i: int|
        #![trigger times[i]]
        0 < i < times.len() ==> time::passed(times[i - 1], times[i]) <= window
}

/// A fresh circuit opens with as many failures in a row as configured, each within the
/// window after the one before, and not before.
pub proof fn opens_at_threshold(config: CircuitBreakerConfig, times: Seq<nat>)
    requires
        0 < times.len() <= config.failure_threshold,
        close_together(times, config.window_size@),
    ensures
        failed_all(BreakerView::fresh(config), times).failure_count == times.len(),
        failed_all(BreakerView::fresh(config), times).last_failure_time == Some(times.last()),
        failed_all(BreakerView::fresh(config), times).config == config,
        failed_all(BreakerView::fresh(config), times).state == if times.len()
            == config.failure_threshold {
            CircuitState::Open
        } else {
            CircuitState::Closed
        },
    decreases times.len(),
{
    let rest = times.drop_last();
    let fresh = BreakerView::fresh(config);
    if rest.len() > 0 {
        assert forall|i: int| #![trigger rest[i]] 0 < i < rest.len() implies time::passed(
            rest[i - 1],
            rest[i],
        ) <= config.window_size@ by {
            assert(rest[i] == times[i] && rest[i - 1] == times[i - 1]);
        }
        opens_at_threshold(config, rest);
        assert(rest.last() == times[times.len() - 2]);
        assert(times[times.len() - 1] == times.last());
    } else {
        assert(failed_all(fresh, rest) == fresh);
    }
}

/// While a circuit is open and its timeout has not elapsed, every request is rejected
/// and asking changes nothing.
pub proof fn open_circuit_rejects(b: BreakerView, now: nat)
    requires
        b.wf(),
        b.state == CircuitState::Open,
        !b.timeout_elapsed(now),
    ensures
        !b.allows(now),
        b.asked(now) == b,
{
}

/// Once its timeout has elapsed, an open circuit lets requests through on trial: the
/// first failure opens it again, after however many successes that did not close it.
pub proof fn trial_decides(b: BreakerView, now: nat, successes: nat, later: nat)
    requires
        b.wf(),
        b.state == CircuitState::Open,
        b.timeout_elapsed(now),
    ensures
        b.allows(now),
        b.asked(now).state == CircuitState::HalfOpen,
        b.asked(now).success_count == 0,
        succeeded_all(b.asked(now), successes).state == CircuitState::HalfOpen ==> {
            &&& succeeded_all(b.asked(now), successes).failed(later).state == CircuitState::Open
            &&& succeeded_all(b.asked(now), successes).failed(later).opened_at == Some(later)
        },
{
}

/// The breaker after some successes.
pub open spec fn succeeded_all(b: BreakerView, n: nat) -> BreakerView
    decreases n,
{
    if n == 0 {
        b
    } else {
        succeeded_all(b, (n - 1) as nat).succeeded()
    }
}

/// A half-open circuit closes with as many successes as configured, and not before.
pub proof fn closes_at_threshold(b: BreakerView, n: nat)
    requires
        b.state == CircuitState::HalfOpen,
        b.success_count == 0,
        0 < n <= b.config.success_threshold,
    ensures
        succeeded_all(b, n).state == if n == b.config.success_threshold {
            CircuitState::Closed
        } else {
            CircuitState::HalfOpen
        },
        n < b.config.success_threshold ==> succeeded_all(b, n) == (BreakerView {
            success_count: n,
            ..b
        }),
        n == b.config.success_threshold ==> succeeded_all(b, n).failure_count == 0,
    decreases n,
{
    if n > 1 {
        closes_at_threshold(b, (n - 1) as nat);
    } else {
        assert(succeeded_all(b, 0) == b);
    }
}

/// A failure that opens the circuit opens it from then on: until the timeout has passed since
/// that failure every request is rejected and asking changes nothing, and afterwards the
/// next one is let through on trial.
pub proof fn opens_for_timeout(b: BreakerView, now: nat, later: nat)
    requires
        b.wf(),
        b.state != CircuitState::Open,
        b.failed(now).state == CircuitState::Open,
    ensures
        time::passed(now, later) < b.config.timeout@ ==> !b.failed(now).allows(later) && b.failed(
            now,
        ).asked(later) == b.failed(now),
        time::passed(now, later) >= b.config.timeout@ ==> b.failed(now).allows(later) && b.failed(
            now,
        ).asked(later).state == CircuitState::HalfOpen,
        b.failed(now).config == b.config,
{
}

/// A closed circuit opens with the failure that makes up the threshold: it counts one more
/// than before where the last failure lies within the window, and starts anew with one
/// where it lies further back.
pub proof fn failures_are_counted(b: BreakerView, now: nat)
    requires
        b.wf(),
        b.state == CircuitState::Closed,
    ensures
        b.failed(now).failure_count == if b.last_failure_time matches Some(t) && time::passed(
            t,
            now,
        ) > b.config.window_size@ {
            1
        } else {
            b.failure_count + 1
        },
        b.failed(now).state == CircuitState::Open <==> b.failed(now).failure_count
            >= b.config.failure_threshold,
        b.failed(now).state != CircuitState::HalfOpen,
        b.failed(now).last_failure_time == Some(now),
        b.failed(now).success_count == b.success_count,
{
}

/// A failure while the circuit is on trial opens it again, with that failure as the only one
/// that counts.
pub proof fn trial_failure_reopens(b: BreakerView, now: nat)
    requires
        b.wf(),
        b.state == CircuitState::HalfOpen,
    ensures
        b.failed(now).state == CircuitState::Open,
        b.failed(now).failure_count == 1,
        b.failed(now).success_count == 0,
        b.failed(now).last_failure_time == Some(now),
{
}

/// A failure that is reported while the circuit is open does not prolong the time for which
/// it is: requests are allowed again exactly when they would have been without it.
pub proof fn late_failure_changes_nothing(b: BreakerView, now: nat, later: nat)
    requires
        b.wf(),
        b.state == CircuitState::Open,
    ensures
        b.failed(now).state == CircuitState::Open,
        b.failed(now).allows(later) == b.allows(later),
        b.failed(now).failure_count == b.recent_failures(now) + 1,
        b.succeeded() == b,
{
}

/// A circuit that is not open lets every request through, and asking changes nothing.
pub proof fn closed_circuit_allows(b: BreakerView, now: nat)
    requires
        b.state != CircuitState::Open,
    ensures
        b.allows(now),
        b.asked(now) == b,
{
}

/// A success clears the failures of a closed circuit: as many are needed to open it as if
/// none had happened.
pub proof fn success_clears_failures(b: BreakerView, now: nat)
    requires
        b.wf(),
        b.state == CircuitState::Closed,
    ensures
        b.succeeded().state == CircuitState::Closed,
        b.succeeded().failure_count == 0,
        b.succeeded().failed(now).failure_count == 1,
        b.succeeded().failed(now).state == BreakerView::fresh(b.config).failed(now).state,
        b.succeeded().config == b.config,
{
}

/// A circuit that has closed after its trial behaves as one that never was open: it allows
/// requests, and neither failures nor successes from before count.
pub proof fn closing_starts_anew(b: BreakerView, now: nat)
    requires
        b.wf(),
        b.state == CircuitState::HalfOpen,
        b.succeeded().state == CircuitState::Closed,
    ensures
        b.success_count + 1 >= b.config.success_threshold,
        b.succeeded().allows(now),
        b.succeeded().failure_count == 0,
        b.succeeded().success_count == 0,
        b.succeeded().opened_at is None,
        b.succeeded().failed(now).failure_count == 1,
{
}

/// A success on trial counts, and closes the circuit when it makes up the threshold.
pub proof fn trial_successes_are_counted(b: BreakerView)
    requires
        b.wf(),
        b.state == CircuitState::HalfOpen,
    ensures
        b.succeeded().state == CircuitState::Closed <==> b.success_count + 1
            >= b.config.success_threshold,
        b.succeeded().state != CircuitState::Open,
        b.succeeded().state == CircuitState::HalfOpen ==> b.succeeded().success_count
            == b.success_count + 1 && b.succeeded().failure_count == b.failure_count,
{
}

/// A breaker that was just made, or reset, is closed and has counted nothing.
pub proof fn fresh_breaker_is_closed(config: CircuitBreakerConfig, now: nat)
    ensures
        BreakerView::fresh(config).state == CircuitState::Closed,
        BreakerView::fresh(config).failure_count == 0,
        BreakerView::fresh(config).success_count == 0,
        BreakerView::fresh(config).allows(now),
        BreakerView::fresh(config).config == config,
        BreakerView::fresh(config).failed(now).failure_count == 1,
{
}

/// By default five failures, each within 10 s after the one before, open a circuit, for 60 s,
/// and two successes close it.
pub proof fn default_thresholds(c: CircuitBreakerConfig)
    requires
        is_default_config(c),
    ensures
        c.failure_threshold == 5,
        c.success_threshold == 2,
        c.timeout@ == 60_000_000_000,
        c.window_size@ == 10_000_000_000,
{
}

} // verus!
