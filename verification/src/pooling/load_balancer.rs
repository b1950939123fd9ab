//! Load balancing with multiple strategies and health checks.

use crate::chance::random_below;
use crate::text::{same_text, IntoText};
use crate::time;
use crate::time::{Clock, Duration, Instant};
use vstd::prelude::*;
use vstd::string::*;

verus! {

/// Backend server endpoint.
#[derive(Debug, PartialEq, Eq, Hash)]
pub struct Backend {
    /// Server address.
    pub address: String,
    /// Server weight (for weighted strategies).
    pub weight: u32,
}

impl Clone for Backend {
    fn clone(&self) -> (b: Backend)
        ensures
            b == *self,
    {
        Backend { address: self.address.clone(), weight: self.weight }
    }
}

impl Backend {
    /// Creates a new backend.
    pub fn new<S: IntoText>(address: S) -> (b: Backend)
        ensures
            b.address@ == address.text(),
            b.weight == 1,
    {
        Backend { address: address.into_text(), weight: 1 }
    }

    /// Creates a backend with a weight.
    pub fn with_weight<S: IntoText>(address: S, weight: u32) -> (b: Backend)
        ensures
            b.address@ == address.text(),
            b.weight == weight,
    {
        Backend { address: address.into_text(), weight }
    }
}

/// Health check status.
#[derive(Debug, Clone, Copy)]
pub struct HealthStatus {
    /// Whether the backend is healthy.
    pub healthy: bool,
    /// Last check time.
    pub last_check: Instant,
    /// Consecutive failures.
    pub consecutive_failures: u32,
    /// Total requests.
    pub total_requests: u64,
    /// Failed requests.
    pub failed_requests: u64,
}

/// Load balancing strategy.
#[derive(Debug, Clone, Copy, PartialEq, Eq, Structural)]
pub enum Strategy {
    /// Round-robin selection.
    RoundRobin,
    /// Least connections.
    LeastConnections,
    /// Weighted round-robin.
    WeightedRoundRobin,
    /// Random selection.
    Random,
}

/// Health check configuration.
#[derive(Debug, Clone, Copy)]
pub struct HealthCheckConfig {
    /// Interval between health checks.
    pub interval: Duration,
    /// Timeout for health checks.
    pub timeout: Duration,
    /// Number of failures before marking unhealthy.
    pub unhealthy_threshold: u32,
    /// Number of successes before marking healthy.
    pub healthy_threshold: u32,
}

/// Whether a health check configuration is the default one.
pub open spec fn is_default_check(c: HealthCheckConfig) -> bool {
    &&& c.interval@ == time::secs(10)
    &&& c.timeout@ == time::secs(2)
    &&& c.unhealthy_threshold == 3
    &&& c.healthy_threshold == 2
}

impl Default for HealthCheckConfig {
    fn default() -> (c: HealthCheckConfig)
        ensures
            is_default_check(c),
    {
        HealthCheckConfig {
            interval: Duration::from_secs(10),
            timeout: Duration::from_secs(2),
            unhealthy_threshold: 3,
            healthy_threshold: 2,
        }
    }
}

/// Load balancer configuration.
#[derive(Debug, Clone, Copy)]
pub struct LoadBalancerConfig {
    /// Load balancing strategy.
    pub strategy: Strategy,
    /// Health check configuration.
    pub health_check: Option<HealthCheckConfig>,
}

impl Default for LoadBalancerConfig {
    fn default() -> (c: LoadBalancerConfig)
        ensures
            c.strategy == Strategy::RoundRobin,
            c.health_check matches Some(check) && is_default_check(check),
    {
        LoadBalancerConfig::new(Strategy::RoundRobin)
    }
}

impl LoadBalancerConfig {
    /// Creates a new configuration.
    pub fn new(strategy: Strategy) -> (c: LoadBalancerConfig)
        ensures
            c.strategy == strategy,
            c.health_check matches Some(check) && is_default_check(check),
    {
        LoadBalancerConfig { strategy, health_check: Some(HealthCheckConfig::default()) }
    }

    /// Disables health checks.
    pub fn without_health_checks(self) -> (c: LoadBalancerConfig)
        ensures
            c == (LoadBalancerConfig { health_check: None, ..self }),
    {
        LoadBalancerConfig { health_check: None, ..self }
    }
}

/// What is kept of a backend. The time of its last check is in nanoseconds of the
/// balancer's clock.
pub struct BackendView {
    pub id: u64,
    pub address: Seq<char>,
    pub weight: u32,
    pub healthy: bool,
    pub active_connections: usize,
    pub total_requests: u64,
    pub failed_requests: u64,
    pub consecutive_failures: u32,
    pub consecutive_successes: u32,
    pub last_check: nat,
}

impl BackendView {
    /// A backend that was just added.
    pub open spec fn added(id: u64, address: Seq<char>, weight: u32, now: nat) -> BackendView {
        BackendView {
            id,
            address,
            weight,
            healthy: true,
            active_connections: 0,
            total_requests: 0,
            failed_requests: 0,
            consecutive_failures: 0,
            consecutive_successes: 0,
            last_check: now,
        }
    }

    /// The backend when it is marked healthy.
    pub open spec fn marked_healthy(self, now: nat) -> BackendView {
        BackendView {
            healthy: true,
            consecutive_failures: 0,
            consecutive_successes: 0,
            last_check: now,
            ..self
        }
    }

    /// The backend when it is marked unhealthy.
    pub open spec fn marked_unhealthy(self, now: nat) -> BackendView {
        BackendView { healthy: false, consecutive_successes: 0, last_check: now, ..self }
    }

    /// The backend after a request.
    pub open spec fn requested(self, success: bool) -> BackendView {
        if success {
            BackendView {
                total_requests: self.total_requests.wrapping_add(1),
                consecutive_failures: 0,
                ..self
            }
        } else {
            BackendView {
                total_requests: self.total_requests.wrapping_add(1),
                failed_requests: self.failed_requests.wrapping_add(1),
                consecutive_failures: self.consecutive_failures.wrapping_add(1),
                ..self
            }
        }
    }

    /// The backend after a health check: one that is healthy stays so after a success,
    /// an unhealthy one becomes healthy after enough successes in a row, and after a
    /// failed check one with enough failed requests in a row becomes unhealthy.
    pub open spec fn checked(self, config: HealthCheckConfig, success: bool, now: nat) -> BackendView {
        if success {
            if self.healthy || self.consecutive_successes + 1 >= config.healthy_threshold {
                self.marked_healthy(now)
            } else {
                BackendView {
                    consecutive_successes: (self.consecutive_successes + 1) as u32,
                    last_check: now,
                    ..self
                }
            }
        } else if self.consecutive_failures >= config.unhealthy_threshold {
            self.marked_unhealthy(now)
        } else {
            BackendView { consecutive_successes: 0, last_check: now, ..self }
        }
    }
}

/// The healthy ones of some backends, in order.
pub open spec fn healthy_of(backends: Seq<BackendView>) -> Seq<BackendView> {
    backends.filter(|b: BackendView| b.healthy)
}

/// The place of the first backend with the fewest connections.
pub open spec fn least(backends: Seq<BackendView>) -> int
    decreases backends.len(),
{
    if backends.len() <= 1 {
        0
    } else {
        let before = least(backends.drop_last());
        if backends.last().active_connections < backends[before].active_connections {
            backends.len() - 1
        } else {
            before
        }
    }
}

/// The weights of some backends together.
pub open spec fn weights(backends: Seq<BackendView>) -> nat
    decreases backends.len(),
{
    if backends.len() == 0 {
        0
    } else {
        weights(backends.drop_last()) + backends.last().weight as nat
    }
}

/// The place of the backend on whose share a number below the weights together falls:
/// the shares follow one another, each as long as its backend's weight.
pub open spec fn by_weight(backends: Seq<BackendView>, target: nat) -> int {
    choose|i: int|
        0 <= i < backends.len() && #[trigger] weights(backends.take(i)) <= target < weights(
            backends.take(i),
        ) + backends[i].weight
}

/// Which of the healthy backends a strategy selects, given how often one was selected
/// in turn before, and a random place.
pub open spec fn pick(
    strategy: Strategy,
    healthy: Seq<BackendView>,
    turn: usize,
    draw: usize,
) -> int {
    match strategy {
        Strategy::RoundRobin => turn as int % healthy.len() as int,
        Strategy::LeastConnections => least(healthy),
        Strategy::WeightedRoundRobin => by_weight(
            healthy,
            ((turn as u32) as nat % weights(healthy)) as nat,
        ),
        Strategy::Random => draw as int,
    }
}

/// The backends with one of them changed.
pub open spec fn changed(
    backends: Seq<BackendView>,
    id: u64,
    change: spec_fn(BackendView) -> BackendView,
) -> Seq<BackendView> {
    backends.map_values(
        |b: BackendView|
            if b.id == id {
                change(b)
            } else {
                b
            },
    )
}

/// What a [`LoadBalancer`] holds.
pub struct BalancerView {
    pub config: LoadBalancerConfig,
    pub backends: Seq<BackendView>,
    /// How often a backend was selected in turn, up to wrap-around.
    pub turn: usize,
    /// The number that the next backend gets.
    pub next_id: u64,
}

impl BalancerView {
    /// What every balancer keeps: each backend has a number of its own.
    pub open spec fn wf(self) -> bool {
        &&& forall|i: int, j: int|
            0 <= i < self.backends.len() && 0 <= j < self.backends.len() && i != j ==> (
            #[trigger] self.backends[i]).id != (#[trigger] self.backends[j]).id
        &&& forall|i: int|
            0 <= i < self.backends.len() ==> (#[trigger] self.backends[i]).id < self.next_id
    }

    /// The backends that can be selected.
    pub open spec fn healthy(self) -> Seq<BackendView> {
        healthy_of(self.backends)
    }

    /// Whether a backend can be selected at all: with weights, those of the healthy
    /// backends must add up to something that a 32-bit number holds.
    pub open spec fn selectable(self) -> bool {
        self.config.strategy == Strategy::WeightedRoundRobin && self.healthy().len() > 0 ==> 0
            < weights(self.healthy()) <= u32::MAX
    }

    /// The backend that is selected.
    pub open spec fn chosen(self, draw: usize) -> BackendView {
        self.healthy()[pick(self.config.strategy, self.healthy(), self.turn, draw)]
    }

    /// The balancer after a selection.
    pub open spec fn selected(self, draw: usize) -> BalancerView {
        if self.healthy().len() == 0 {
            self
        } else {
            let id = self.chosen(draw).id;
            BalancerView {
                backends: changed(
                    self.backends,
                    id,
                    |b: BackendView|
                        BackendView {
                            active_connections: b.active_connections.wrapping_add(1),
                            ..b
                        },
                ),
                turn: if self.config.strategy == Strategy::RoundRobin || self.config.strategy
                    == Strategy::WeightedRoundRobin {
                    self.turn.wrapping_add(1)
                } else {
                    self.turn
                },
                ..self
            }
        }
    }

    /// The balancer after a backend was taken back from use.
    pub open spec fn given_back(self, id: u64) -> BalancerView {
        BalancerView {
            backends: changed(
                self.backends,
                id,
                |b: BackendView|
                    BackendView { active_connections: b.active_connections.wrapping_sub(1), ..b },
            ),
            ..self
        }
    }

    /// The balancer after a request of a backend.
    pub open spec fn recorded(self, id: u64, success: bool) -> BalancerView {
        BalancerView {
            backends: changed(self.backends, id, |b: BackendView| b.requested(success)),
            ..self
        }
    }

    /// The balancer after a health check of a backend.
    pub open spec fn health_checked(self, id: u64, success: bool, now: nat) -> BalancerView {
        match self.config.health_check {
            Some(check) => BalancerView {
                backends: changed(
                    self.backends,
                    id,
                    |b: BackendView| b.checked(check, success, now),
                ),
                ..self
            },
            None => self,
        }
    }

    /// The balancer with one more backend.
    pub open spec fn with_backend(self, address: Seq<char>, weight: u32, now: nat) -> BalancerView {
        BalancerView {
            backends: self.backends.push(BackendView::added(self.next_id, address, weight, now)),
            next_id: (self.next_id + 1) as u64,
            ..self
        }
    }

    /// The balancer without the backends with an address.
    pub open spec fn without_address(self, address: Seq<char>) -> BalancerView {
        BalancerView {
            backends: self.backends.filter(|b: BackendView| b.address != address),
            ..self
        }
    }
}

/// The place of the least of some backends is one of theirs, nobody has fewer
/// connections, and everyone before has more.
pub proof fn least_is_least(backends: Seq<BackendView>)
    requires
        backends.len() > 0,
    ensures
        0 <= least(backends) < backends.len(),
        forall|i: int|
            0 <= i < backends.len() ==> backends[least(backends)].active_connections <= (
            #[trigger] backends[i]).active_connections,
        forall|i: int|
            0 <= i < least(backends) ==> backends[least(backends)].active_connections < (
            #[trigger] backends[i]).active_connections,
    decreases backends.len(),
{
    if backends.len() > 1 {
        let rest = backends.drop_last();
        least_is_least(rest);
        assert forall|i: int| 0 <= i < backends.len() implies backends[least(
            backends,
        )].active_connections <= (#[trigger] backends[i]).active_connections by {
            if i < rest.len() {
                assert(rest[i] == backends[i]);
            }
        }
        assert forall|i: int| 0 <= i < least(backends) implies backends[least(
            backends,
        )].active_connections < (#[trigger] backends[i]).active_connections by {
            assert(rest[i] == backends[i]);
        }
    }
}

/// More backends weigh no less.
proof fn lemma_weights_grow(backends: Seq<BackendView>, a: int, b: int)
    requires
        0 <= a <= b <= backends.len(),
    ensures
        weights(backends.take(a)) <= weights(backends.take(b)),
        b < backends.len() ==> weights(backends.take(b + 1)) == weights(backends.take(b))
            + backends[b].weight,
    decreases b - a,
{
    if b < backends.len() {
        assert(backends.take(b + 1).drop_last() =~= backends.take(b));
    }
    if a < b {
        lemma_weights_grow(backends, a, b - 1);
        assert(backends.take(b).drop_last() =~= backends.take(b - 1));
    }
}

/// A number falls on one share only.
proof fn lemma_share_unique(backends: Seq<BackendView>, target: nat, i: int)
    requires
        0 <= i < backends.len(),
        weights(backends.take(i)) <= target < weights(backends.take(i)) + backends[i].weight,
    ensures
        by_weight(backends, target) == i,
{
    let j = by_weight(backends, target);
    lemma_weights_grow(backends, i, i);
    lemma_weights_grow(backends, j, j);
    if i < j {
        lemma_weights_grow(backends, i + 1, j);
    } else if j < i {
        lemma_weights_grow(backends, j + 1, i);
    }
}

/// Each backend has a share as long as its weight: a number is given to a backend
/// exactly when it falls on that backend's share.
pub proof fn shares_follow_weights(backends: Seq<BackendView>, target: nat, i: int)
    requires
        target < weights(backends),
        0 <= i < backends.len(),
    ensures
        (by_weight(backends, target) == i) <==> weights(backends.take(i)) <= target < weights(
            backends.take(i),
        ) + backends[i].weight,
        0 <= by_weight(backends, target) < backends.len(),
{
    assert(backends.take(backends.len() as int) =~= backends);
    lemma_share_exists(backends, target, backends.len());
    if weights(backends.take(i)) <= target < weights(backends.take(i)) + backends[i].weight {
        lemma_share_unique(backends, target, i);
    }
}

/// Every number below the weights together falls on some share.
proof fn lemma_share_exists(backends: Seq<BackendView>, target: nat, n: nat)
    requires
        n <= backends.len(),
        target < weights(backends.take(n as int)),
    ensures
        exists|i: int|
            0 <= i < n && #[trigger] weights(backends.take(i)) <= target < weights(
                backends.take(i),
            ) + backends[i].weight,
    decreases n,
{
    if n > 0 {
        lemma_weights_grow(backends, n - 1, n - 1);
        if target < weights(backends.take(n - 1)) {
            lemma_share_exists(backends, target, (n - 1) as nat);
        } else {
            assert(weights(backends.take(n - 1)) <= target);
        }
    }
}

/// Taking turns is fair: as many selections in a row as there are healthy backends
/// select each of them once, as long as the count of turns does not wrap round.
pub proof fn turns_are_fair(healthy: Seq<BackendView>, turn: usize, a: nat, b: nat, draw: usize)
    requires
        healthy.len() > 0,
        a < b < healthy.len(),
        turn + b <= usize::MAX,
    ensures
        pick(Strategy::RoundRobin, healthy, (turn + a) as usize, draw) != pick(
            Strategy::RoundRobin,
            healthy,
            (turn + b) as usize,
            draw,
        ),
{
    let n = healthy.len() as int;
    let x = turn + a;
    let y = turn + b;
    if x % n == y % n {
        vstd::arithmetic::div_mod::lemma_fundamental_div_mod(x, n);
        vstd::arithmetic::div_mod::lemma_fundamental_div_mod(y, n);
        assert(y - x == n * (y / n - x / n)) by (nonlinear_arith)
            requires
                x == n * (x / n) + x % n,
                y == n * (y / n) + y % n,
                x % n == y % n,
        ;
        let k = y / n - x / n;
        assert(false) by (nonlinear_arith)
            requires
                0 < n * k < n,
                n > 0,
        ;
    }
}

/// A backend with its health and its counts.
struct BackendState {
    id: u64,
    backend: Backend,
    healthy: bool,
    active_connections: usize,
    total_requests: u64,
    failed_requests: u64,
    consecutive_failures: u32,
    consecutive_successes: u32,
    last_check: Instant,
}

impl View for BackendState {
    type V = BackendView;

    closed spec fn view(&self) -> BackendView {
        BackendView {
            id: self.id,
            address: self.backend.address@,
            weight: self.backend.weight,
            healthy: self.healthy,
            active_connections: self.active_connections,
            total_requests: self.total_requests,
            failed_requests: self.failed_requests,
            consecutive_failures: self.consecutive_failures,
            consecutive_successes: self.consecutive_successes,
            last_check: self.last_check@,
        }
    }
}

impl BackendState {
    /// A backend that is added at a given time.
    fn new(id: u64, backend: Backend, now: Instant) -> (s: BackendState)
        ensures
            s@ == BackendView::added(id, backend.address@, backend.weight, now@),
    {
        BackendState {
            id,
            backend,
            healthy: true,
            active_connections: 0,
            total_requests: 0,
            failed_requests: 0,
            consecutive_failures: 0,
            consecutive_successes: 0,
            last_check: now,
        }
    }

    /// Marks the backend healthy.
    fn mark_healthy(&mut self, now: Instant)
        ensures
            final(self)@ == old(self)@.marked_healthy(now@),
    {
        self.healthy = true;
        self.consecutive_failures = 0;
        self.consecutive_successes = 0;
        self.last_check = now;
    }

    /// Marks the backend unhealthy.
    fn mark_unhealthy(&mut self, now: Instant)
        ensures
            final(self)@ == old(self)@.marked_unhealthy(now@),
    {
        self.healthy = false;
        self.consecutive_successes = 0;
        self.last_check = now;
    }

    /// Counts a request.
    fn record_request(&mut self, success: bool)
        ensures
            final(self)@ == old(self)@.requested(success),
    {
        self.total_requests = self.total_requests.wrapping_add(1);
        if success {
            self.consecutive_failures = 0;
        } else {
            self.failed_requests = self.failed_requests.wrapping_add(1);
            self.consecutive_failures = self.consecutive_failures.wrapping_add(1);
        }
    }

    /// Takes in the outcome of a health check.
    fn check(&mut self, config: &HealthCheckConfig, success: bool, now: Instant)
        ensures
            final(self)@ == old(self)@.checked(*config, success, now@),
    {
        if success {
            if self.healthy || self.consecutive_successes >= config.healthy_threshold
                || self.consecutive_successes + 1 >= config.healthy_threshold {
                self.mark_healthy(now);
            } else {
                self.consecutive_successes = self.consecutive_successes + 1;
                self.last_check = now;
            }
        } else if self.consecutive_failures >= config.unhealthy_threshold {
            self.mark_unhealthy(now);
        } else {
            self.consecutive_successes = 0;
            self.last_check = now;
        }
    }

    /// The health of the backend.
    fn get_status(&self) -> (s: HealthStatus)
        ensures
            is_status(s, self@),
    {
        HealthStatus {
            healthy: self.healthy,
            last_check: self.last_check,
            consecutive_failures: self.consecutive_failures,
            total_requests: self.total_requests,
            failed_requests: self.failed_requests,
        }
    }
}

/// Whether a status is that of a backend.
pub open spec fn is_status(s: HealthStatus, b: BackendView) -> bool {
    &&& s.healthy == b.healthy
    &&& s.last_check@ == b.last_check
    &&& s.consecutive_failures == b.consecutive_failures
    &&& s.total_requests == b.total_requests
    &&& s.failed_requests == b.failed_requests
}

/// A backend in use.
pub struct BackendGuard {
    backend: Backend,
    id: u64,
}

impl BackendGuard {
    /// The number of the backend.
    pub closed spec fn number(&self) -> u64 {
        self.id
    }

    /// The characters of the backend's address.
    pub closed spec fn server(&self) -> Seq<char> {
        self.backend.address@
    }

    /// The backend address.
    pub fn address(&self) -> (a: &str)
        ensures
            a@ == self.server(),
    {
        self.backend.address.as_str()
    }

    /// Records a request's success with the balancer that selected the backend.
    pub fn record_success(&self, balancer: &mut LoadBalancer)
        requires
            old(balancer)@.wf(),
        ensures
            final(balancer)@.wf(),
            final(balancer)@ == old(balancer)@.recorded(self.number(), true),
    {
        balancer.record(self.id, true)
    }

    /// Records a request's failure with the balancer that selected the backend.
    pub fn record_failure(&self, balancer: &mut LoadBalancer)
        requires
            old(balancer)@.wf(),
        ensures
            final(balancer)@.wf(),
            final(balancer)@ == old(balancer)@.recorded(self.number(), false),
    {
        balancer.record(self.id, false)
    }
}

/// Load balancer.
pub struct LoadBalancer {
    config: LoadBalancerConfig,
    clock: Clock,
    backends: Vec<BackendState>,
    round_robin_index: usize,
    next_id: u64,
}

impl View for LoadBalancer {
    type V = BalancerView;

    closed spec fn view(&self) -> BalancerView {
        BalancerView {
            config: self.config,
            backends: self.backends@.map_values(|b: BackendState| b@),
            turn: self.round_robin_index,
            next_id: self.next_id,
        }
    }
}

/// Changing a backend other than in its number keeps the numbers apart.
proof fn lemma_changed_wf(
    b: BalancerView,
    id: u64,
    change: spec_fn(BackendView) -> BackendView,
)
    requires
        b.wf(),
        forall|x: BackendView| (#[trigger] change(x)).id == x.id,
    ensures
        (BalancerView { backends: changed(b.backends, id, change), ..b }).wf(),
{
    let after = changed(b.backends, id, change);
    assert forall|i: int| 0 <= i < after.len() implies (#[trigger] after[i]).id
        == b.backends[i].id by {}
}

impl LoadBalancer {
    /// Creates a new load balancer at a given time, in which nothing was selected yet.
    pub fn new_at(
        config: LoadBalancerConfig,
        backends: Vec<Backend>,
        clock: Clock,
        now: Instant,
    ) -> (b: LoadBalancer)
        ensures
            b@.wf(),
            b@ == (BalancerView {
                config,
                backends: numbered(backends@, now@),
                turn: 0,
                next_id: backends@.len() as u64,
            }),
    {
        let count: usize = backends.len();
        let mut balancer = LoadBalancer {
            config,
            clock,
            backends: Vec::new(),
            round_robin_index: 0,
            next_id: 0,
        };
        let mut i: usize = 0;
        proof {
            assert(balancer@.backends =~= numbered(backends@, now@).take(0));
        }
        while i < count
            invariant
                i <= count,
                count == backends@.len(),
                balancer.config == config,
                balancer.round_robin_index == 0,
                balancer.next_id == i,
                balancer@.backends == numbered(backends@, now@).take(i as int),
            decreases count - i,
        {
            let ghost held = balancer@.backends;
            let state = BackendState::new(balancer.next_id, backends[i].clone(), now);
            let ghost s = state@;
            balancer.backends.push(state);
            proof {
                assert(balancer@.backends =~= held.push(s));
                assert(balancer@.backends =~= numbered(backends@, now@).take(i + 1));
            }
            balancer.next_id = balancer.next_id + 1;
            i = i + 1;
        }
        proof {
            assert(balancer@.backends =~= numbered(backends@, now@));
        }
        balancer
    }

    /// Creates a new load balancer.
    pub fn new(config: LoadBalancerConfig, backends: Vec<Backend>) -> (b: LoadBalancer)
        ensures
            b@.wf(),
            exists|now: nat|
                b@ == (BalancerView {
                    config,
                    backends: #[trigger] numbered(backends@, now),
                    turn: 0,
                    next_id: backends@.len() as u64,
                }),
    {
        let clock = Clock::start();
        let now = clock.now();
        LoadBalancer::new_at(config, backends, clock, now)
    }

    /// Creates a balancer with the round-robin strategy.
    pub fn round_robin(backends: Vec<Backend>) -> (b: LoadBalancer)
        ensures
            b@.wf(),
            b@.config.strategy == Strategy::RoundRobin,
            b@.config.health_check matches Some(check) && is_default_check(check),
            exists|now: nat|
                b@ == (BalancerView {
                    config: b@.config,
                    backends: #[trigger] numbered(backends@, now),
                    turn: 0,
                    next_id: backends@.len() as u64,
                }),
    {
        LoadBalancer::new(LoadBalancerConfig::new(Strategy::RoundRobin), backends)
    }

    /// Creates a balancer with the least-connections strategy.
    pub fn least_connections(backends: Vec<Backend>) -> (b: LoadBalancer)
        ensures
            b@.wf(),
            b@.config.strategy == Strategy::LeastConnections,
            b@.config.health_check matches Some(check) && is_default_check(check),
            exists|now: nat|
                b@ == (BalancerView {
                    config: b@.config,
                    backends: #[trigger] numbered(backends@, now),
                    turn: 0,
                    next_id: backends@.len() as u64,
                }),
    {
        LoadBalancer::new(LoadBalancerConfig::new(Strategy::LeastConnections), backends)
    }

    /// What the balancer's clock shows. Any time may come.
    pub fn now(&self) -> Instant {
        self.clock.now()
    }

    /// The places of the healthy backends, in order.
    fn healthy_places(&self) -> (places: Vec<usize>)
        ensures
            places@.len() == self@.healthy().len(),
            forall|k: int|
                0 <= k < places@.len() ==> (#[trigger] places@[k]) < self.backends@.len()
                    && self.backends@[places@[k] as int]@ == self@.healthy()[k],
    {
        let ghost good = |b: BackendView| b.healthy;
        let mut places: Vec<usize> = Vec::new();
        let mut i: usize = 0;
        proof {
            reveal(Seq::filter);
            assert(self@.backends.take(0) =~= Seq::empty());
        }
        while i < self.backends.len()
            invariant
                i <= self.backends@.len(),
                good == (|b: BackendView| b.healthy),
                places@.len() == self@.backends.take(i as int).filter(good).len(),
                forall|k: int|
                    0 <= k < places@.len() ==> (#[trigger] places@[k]) < self.backends@.len()
                        && self.backends@[places@[k] as int]@ == self@.backends.take(
                        i as int,
                    ).filter(good)[k],
            decreases self.backends@.len() - i,
        {
            proof {
                reveal(Seq::filter);
                assert(self@.backends.take(i + 1).drop_last() =~= self@.backends.take(i as int));
                assert(self@.backends.take(i + 1).last() == self.backends@[i as int]@);
            }
            if self.backends[i].healthy {
                places.push(i);
            }
            i = i + 1;
        }
        proof {
            assert(self@.backends.take(self.backends@.len() as int) =~= self@.backends);
        }
        places
    }

    /// Takes the next turn.
    fn next_turn(&mut self) -> (turn: usize)
        ensures
            turn == old(self)@.turn,
            final(self)@ == (BalancerView { turn: old(self)@.turn.wrapping_add(1), ..old(self)@ }),
            final(self).backends == old(self).backends,
    {
        let turn: usize = self.round_robin_index;
        self.round_robin_index = turn.wrapping_add(1);
        turn
    }

    /// The first of the healthy backends with the fewest connections.
    fn select_least_connections(&self, places: &Vec<usize>) -> (k: usize)
        requires
            places@.len() > 0,
            places@.len() == self@.healthy().len(),
            forall|k: int|
                0 <= k < places@.len() ==> (#[trigger] places@[k]) < self.backends@.len()
                    && self.backends@[places@[k] as int]@ == self@.healthy()[k],
        ensures
            k == least(self@.healthy()),
            k < places@.len(),
    {
        let ghost healthy = self@.healthy();
        let mut k: usize = 0;
        let mut i: usize = 1;
        proof {
            assert(healthy.take(1).len() == 1);
        }
        while i < places.len()
            invariant
                1 <= i <= places@.len(),
                k < i,
                healthy == self@.healthy(),
                k == least(healthy.take(i as int)),
                places@.len() == healthy.len(),
                forall|k: int|
                    0 <= k < places@.len() ==> (#[trigger] places@[k]) < self.backends@.len()
                        && self.backends@[places@[k] as int]@ == healthy[k],
            decreases places@.len() - i,
        {
            proof {
                assert(healthy.take(i + 1).drop_last() =~= healthy.take(i as int));
                assert(healthy.take(i as int)[k as int] == healthy[k as int]);
            }
            if self.backends[places[i]].active_connections
                < self.backends[places[k]].active_connections {
                k = i;
            }
            i = i + 1;
        }
        proof {
            assert(healthy.take(healthy.len() as int) =~= healthy);
        }
        k
    }

    /// The healthy backend on whose share a turn falls.
    fn select_weighted_round_robin(&self, places: &Vec<usize>, turn: usize) -> (k: usize)
        requires
            places@.len() == self@.healthy().len(),
            0 < weights(self@.healthy()) <= u32::MAX,
            forall|k: int|
                0 <= k < places@.len() ==> (#[trigger] places@[k]) < self.backends@.len()
                    && self.backends@[places@[k] as int]@ == self@.healthy()[k],
        ensures
            k == by_weight(self@.healthy(), ((turn as u32) as nat % weights(self@.healthy())) as nat),
            k < places@.len(),
    {
        let ghost healthy = self@.healthy();
        let mut total: u32 = 0;
        let mut i: usize = 0;
        assert(healthy.take(0) =~= Seq::empty());
        assert(healthy.take(healthy.len() as int) =~= healthy);
        while i < places.len()
            invariant
                i <= places@.len(),
                healthy == self@.healthy(),
                healthy.take(healthy.len() as int) == healthy,
                total == weights(healthy.take(i as int)),
                weights(healthy) <= u32::MAX,
                places@.len() == healthy.len(),
                forall|k: int|
                    0 <= k < places@.len() ==> (#[trigger] places@[k]) < self.backends@.len()
                        && self.backends@[places@[k] as int]@ == healthy[k],
            decreases places@.len() - i,
        {
            proof {
                lemma_weights_grow(healthy, i as int, i as int);
                lemma_weights_grow(healthy, i + 1, healthy.len() as int);
            }
            total = total + self.backends[places[i]].backend.weight;
            i = i + 1;
        }
        let target: u32 = (turn as u32) % total;
        let mut rest: u32 = target;
        let mut k: usize = 0;
        while k < places.len()
            invariant
                k <= places@.len(),
                healthy == self@.healthy(),
                healthy.take(healthy.len() as int) == healthy,
                target < weights(healthy),
                target == weights(healthy.take(k as int)) + rest,
                target == (turn as u32) as nat % weights(healthy),
                places@.len() == healthy.len(),
                forall|k: int|
                    0 <= k < places@.len() ==> (#[trigger] places@[k]) < self.backends@.len()
                        && self.backends@[places@[k] as int]@ == healthy[k],
            decreases places@.len() - k,
        {
            let weight: u32 = self.backends[places[k]].backend.weight;
            proof {
                lemma_weights_grow(healthy, k as int, k as int);
            }
            if rest < weight {
                proof {
                    lemma_share_unique(healthy, target as nat, k as int);
                }
                return k;
            }
            rest = rest - weight;
            k = k + 1;
        }
        assert(false);
        0
    }

    /// Selects the next backend, given a random place among the healthy ones.
    pub fn select_with(&mut self, draw: usize) -> (r: Option<BackendGuard>)
        requires
            old(self)@.wf(),
            old(self)@.selectable(),
            old(self)@.config.strategy == Strategy::Random && old(self)@.healthy().len() > 0 ==> draw
                < old(self)@.healthy().len(),
        ensures
            final(self)@.wf(),
            final(self)@ == old(self)@.selected(draw),
            match r {
                Some(guard) => old(self)@.healthy().len() > 0 && guard.number() == old(
                    self,
                )@.chosen(draw).id && guard.server() == old(self)@.chosen(draw).address,
                None => old(self)@.healthy().len() == 0,
            },
    {
        let places = self.healthy_places();
        if places.len() == 0 {
            return None;
        }
        let ghost before = self@;
        let k: usize = match self.config.strategy {
            Strategy::RoundRobin => {
                let turn: usize = self.next_turn();
                turn % places.len()
            },
            Strategy::LeastConnections => {
                proof {
                    least_is_least(before.healthy());
                }
                self.select_least_connections(&places)
            },
            Strategy::WeightedRoundRobin => {
                let turn: usize = self.next_turn();
                self.select_weighted_round_robin(&places, turn)
            },
            Strategy::Random => draw,
        };
        let place: usize = places[k];
        assert(self.backends@[place as int]@ == before.chosen(draw));
        assert(before.backends[place as int] == before.chosen(draw));
        let guard = BackendGuard {
            backend: self.backends[place].backend.clone(),
            id: self.backends[place].id,
        };
        let active: usize = self.backends[place].active_connections;
        self.backends[place].active_connections = active.wrapping_add(1);
        proof {
            let change = |b: BackendView|
                BackendView { active_connections: b.active_connections.wrapping_add(1), ..b };
            lemma_changed_wf(before, guard.id, change);
            assert(self@.backends =~= changed(before.backends, guard.id, change));
        }
        Some(guard)
    }

    /// Selects the next backend.
    pub fn select(&mut self) -> (r: Option<BackendGuard>)
        requires
            old(self)@.wf(),
            old(self)@.selectable(),
        ensures
            final(self)@.wf(),
            exists|draw: usize|
                {
                    &&& final(self)@ == #[trigger] old(self)@.selected(draw)
                    &&& (old(self)@.config.strategy == Strategy::Random && old(
                        self,
                    )@.healthy().len() > 0 ==> draw < old(self)@.healthy().len())
                    &&& match r {
                        Some(guard) => old(self)@.healthy().len() > 0 && guard.number() == old(
                            self,
                        )@.chosen(draw).id && guard.server() == old(self)@.chosen(draw).address,
                        None => old(self)@.healthy().len() == 0,
                    }
                },
    {
        let draw: usize = match self.config.strategy {
            Strategy::Random => {
                let count: usize = self.healthy_backend_count();
                if count > 0 {
                    random_below(count)
                } else {
                    0
                }
            },
            _ => 0,
        };
        self.select_with(draw)
    }

    /// Whether a backend can be selected at all.
    pub fn can_select(&self) -> (b: bool)
        ensures
            b == self@.selectable(),
    {
        match self.config.strategy {
            Strategy::WeightedRoundRobin => {},
            _ => {
                return true;
            },
        }
        let places = self.healthy_places();
        let ghost healthy = self@.healthy();
        let mut total: u32 = 0;
        let mut i: usize = 0;
        assert(healthy.take(0) =~= Seq::empty());
        assert(healthy.take(healthy.len() as int) =~= healthy);
        while i < places.len()
            invariant
                i <= places@.len(),
                healthy == self@.healthy(),
                healthy.take(healthy.len() as int) == healthy,
                total == weights(healthy.take(i as int)),
                self@.config.strategy == Strategy::WeightedRoundRobin,
                places@.len() == healthy.len(),
                forall|k: int|
                    0 <= k < places@.len() ==> (#[trigger] places@[k]) < self.backends@.len()
                        && self.backends@[places@[k] as int]@ == healthy[k],
            decreases places@.len() - i,
        {
            proof {
                lemma_weights_grow(healthy, i as int, i as int);
                lemma_weights_grow(healthy, i + 1, healthy.len() as int);
            }
            match total.checked_add(self.backends[places[i]].backend.weight) {
                Some(sum) => {
                    total = sum;
                },
                None => {
                    return false;
                },
            }
            i = i + 1;
        }
        places.len() == 0 || total > 0
    }

    /// Whether there is a number left for one more backend.
    pub fn can_add_backend(&self) -> (b: bool)
        ensures
            b == (self@.next_id < u64::MAX),
    {
        self.next_id < u64::MAX
    }

    /// The place of the backend with a number.
    fn place_of(&self, id: u64) -> (r: Option<usize>)
        ensures
            match r {
                Some(i) => i < self.backends@.len() && self.backends@[i as int]@.id == id,
                None => forall|i: int|
                    0 <= i < self.backends@.len() ==> (#[trigger] self@.backends[i]).id != id,
            },
    {
        let mut i: usize = 0;
        while i < self.backends.len()
            invariant
                i <= self.backends@.len(),
                forall|j: int| 0 <= j < i ==> (#[trigger] self@.backends[j]).id != id,
            decreases self.backends@.len() - i,
        {
            if self.backends[i].id == id {
                return Some(i);
            }
            i = i + 1;
        }
        None
    }

    /// Counts a request of a backend. One that was removed is not counted.
    fn record(&mut self, id: u64, success: bool)
        requires
            old(self)@.wf(),
        ensures
            final(self)@.wf(),
            final(self)@ == old(self)@.recorded(id, success),
    {
        let ghost before = self@;
        let ghost change = |b: BackendView| b.requested(success);
        proof {
            lemma_changed_wf(before, id, change);
        }
        match self.place_of(id) {
            Some(i) => {
                assert(before.backends[i as int].id == id);
                self.backends[i].record_request(success);
            },
            None => {},
        }
        assert(self@.backends =~= changed(before.backends, id, change));
    }

    /// Takes a backend back from use. One that was removed is not counted.
    pub fn release(&mut self, guard: BackendGuard)
        requires
            old(self)@.wf(),
        ensures
            final(self)@.wf(),
            final(self)@ == old(self)@.given_back(guard.number()),
    {
        let ghost before = self@;
        let ghost change = |b: BackendView|
            BackendView { active_connections: b.active_connections.wrapping_sub(1), ..b };
        proof {
            lemma_changed_wf(before, guard.id, change);
        }
        match self.place_of(guard.id) {
            Some(i) => {
                assert(before.backends[i as int].id == guard.id);
                let active: usize = self.backends[i].active_connections;
                self.backends[i].active_connections = active.wrapping_sub(1);
            },
            None => {},
        }
        assert(self@.backends =~= changed(before.backends, guard.id, change));
    }
}

/// Backends that were added one after another, numbered from zero.
pub open spec fn numbered(backends: Seq<Backend>, now: nat) -> Seq<BackendView> {
    Seq::new(
        backends.len(),
        |i: int| BackendView::added(i as u64, backends[i].address@, backends[i].weight, now),
    )
}

/// Whether the backend at a place is the first with an address.
pub open spec fn is_first(backends: Seq<BackendView>, address: Seq<char>, i: int) -> bool {
    &&& 0 <= i < backends.len()
    &&& backends[i].address == address
    &&& forall|j: int| 0 <= j < i ==> (#[trigger] backends[j]).address != address
}

/// The backend when it is marked healthy or unhealthy.
pub open spec fn marked(b: BackendView, healthy: bool, now: nat) -> BackendView {
    if healthy {
        b.marked_healthy(now)
    } else {
        b.marked_unhealthy(now)
    }
}

/// The backends when the first one with an address is marked healthy or unhealthy.
pub open spec fn first_marked(
    before: Seq<BackendView>,
    after: Seq<BackendView>,
    address: Seq<char>,
    healthy: bool,
    now: nat,
) -> bool {
    ||| (forall|i: int| 0 <= i < before.len() ==> (#[trigger] before[i]).address != address)
        && after == before
    ||| exists|i: int|
        #[trigger] is_first(before, address, i) && after == before.update(
            i,
            marked(before[i], healthy, now),
        )
}

/// Leaving backends out keeps the numbers of the others apart.
proof fn lemma_filter_wf(b: BalancerView, keep: spec_fn(BackendView) -> bool)
    requires
        b.wf(),
    ensures
        (BalancerView { backends: b.backends.filter(keep), ..b }).wf(),
        forall|i: int|
            0 <= i < b.backends.filter(keep).len() ==> b.backends.contains(
                #[trigger] b.backends.filter(keep)[i],
            ),
    decreases b.backends.len(),
{
    reveal(Seq::filter);
    let all = b.backends;
    if all.len() > 0 {
        let rest = all.drop_last();
        let last = all.last();
        assert forall|i: int, j: int|
            0 <= i < rest.len() && 0 <= j < rest.len() && i != j implies (#[trigger] rest[i]).id
            != (#[trigger] rest[j]).id by {
            assert(rest[i] == all[i] && rest[j] == all[j]);
        }
        assert forall|i: int| 0 <= i < rest.len() implies (#[trigger] rest[i]).id < b.next_id by {
            assert(rest[i] == all[i]);
        }
        lemma_filter_wf(BalancerView { backends: rest, ..b }, keep);
        let kept = rest.filter(keep);
        let out = all.filter(keep);
        assert forall|i: int| 0 <= i < kept.len() implies all.contains(#[trigger] kept[i])
            && kept[i].id != last.id by {
            assert(rest.contains(kept[i]));
            let j = choose|j: int| 0 <= j < rest.len() && rest[j] == kept[i];
            assert(all[j] == kept[i]);
            assert(all[j].id != all[all.len() - 1].id);
        }
        if keep(last) {
            assert(out == kept.push(last));
            assert forall|i: int| 0 <= i < out.len() implies all.contains(#[trigger] out[i]) by {
                if i == kept.len() {
                    assert(all[all.len() - 1] == out[i]);
                } else {
                    assert(out[i] == kept[i]);
                }
            }
            assert forall|i: int| 0 <= i < out.len() implies (#[trigger] out[i]).id < b.next_id by {
                if i == kept.len() {
                    assert(all[all.len() - 1] == out[i]);
                } else {
                    assert(out[i] == kept[i]);
                }
            }
            assert forall|i: int, j: int|
                0 <= i < out.len() && 0 <= j < out.len() && i != j implies (#[trigger] out[i]).id
                != (#[trigger] out[j]).id by {
                if i == kept.len() {
                    assert(out[j] == kept[j]);
                } else if j == kept.len() {
                    assert(out[i] == kept[i]);
                } else {
                    let part = BalancerView { backends: kept, ..b };
                    assert(part.wf());
                    assert(part.backends[i].id != part.backends[j].id);
                    assert(out[i] == kept[i] && out[j] == kept[j]);
                }
            }
        } else {
            assert(out == kept);
        }
    }
}

impl LoadBalancer {
    /// Adds a backend at a given time.
    pub fn add_backend_at(&mut self, backend: Backend, now: Instant)
        requires
            old(self)@.wf(),
            old(self)@.next_id < u64::MAX,
        ensures
            final(self)@.wf(),
            final(self)@ == old(self)@.with_backend(backend.address@, backend.weight, now@),
    {
        let ghost before = self@;
        let state = BackendState::new(self.next_id, backend, now);
        let ghost s = state@;
        self.backends.push(state);
        self.next_id = self.next_id + 1;
        proof {
            assert(self@.backends =~= before.backends.push(s));
            assert forall|i: int| 0 <= i < self@.backends.len() implies (
            #[trigger] self@.backends[i]).id < self.next_id by {
                if i < before.backends.len() {
                    assert(self@.backends[i] == before.backends[i]);
                }
            }
            assert forall|i: int, j: int|
                0 <= i < self@.backends.len() && 0 <= j < self@.backends.len() && i != j implies (
            #[trigger] self@.backends[i]).id != (#[trigger] self@.backends[j]).id by {
                if i < before.backends.len() {
                    assert(self@.backends[i] == before.backends[i]);
                }
                if j < before.backends.len() {
                    assert(self@.backends[j] == before.backends[j]);
                }
            }
        }
    }

    /// Adds a backend.
    pub fn add_backend(&mut self, backend: Backend)
        requires
            old(self)@.wf(),
            old(self)@.next_id < u64::MAX,
        ensures
            final(self)@.wf(),
            exists|now: nat|
                final(self)@ == #[trigger] old(self)@.with_backend(
                    backend.address@,
                    backend.weight,
                    now,
                ),
    {
        let now = self.clock.now();
        self.add_backend_at(backend, now)
    }

    /// Removes the backends with an address.
    pub fn remove_backend(&mut self, address: &str)
        requires
            old(self)@.wf(),
        ensures
            final(self)@.wf(),
            final(self)@ == old(self)@.without_address(address@),
    {
        let ghost before = self@;
        let ghost keep = |b: BackendView| b.address != address@;
        let size: usize = self.backends.len();
        let mut gone: usize = 0;
        let mut i: usize = 0;
        proof {
            lemma_filter_wf(before, keep);
            reveal(Seq::filter);
            assert(before.backends.take(0) =~= Seq::empty());
            assert(self@.backends =~= before.backends.take(0).filter(keep) + before.backends.skip(
                0,
            ));
        }
        while i < self.backends.len()
            invariant
                keep == (|b: BackendView| b.address != address@),
                before.backends.len() == size,
                i + gone <= size,
                self@ == (BalancerView { backends: self@.backends, ..before }),
                self@.backends == before.backends.take(i + gone).filter(keep)
                    + before.backends.skip(i + gone),
                i == before.backends.take(i + gone).filter(keep).len(),
            decreases self.backends@.len() - i,
        {
            let ghost n = i + gone;
            let ghost held = self@.backends;
            proof {
                reveal(Seq::filter);
                assert(held.len() == self.backends@.len());
                assert(held[i as int] == self.backends@[i as int]@);
                assert(held[i as int] == before.backends[n]);
                assert(before.backends.take(n + 1).drop_last() =~= before.backends.take(n));
                assert(before.backends.take(n + 1).last() == before.backends[n]);
            }
            if same_text(self.backends[i].backend.address.as_str(), address) {
                let _ = self.backends.remove(i);
                assert(self@.backends =~= held.remove(i as int));
                assert(held.remove(i as int) =~= before.backends.take(n + 1).filter(keep)
                    + before.backends.skip(n + 1));
                gone = gone + 1;
            } else {
                assert(held =~= before.backends.take(n + 1).filter(keep) + before.backends.skip(
                    n + 1,
                ));
                i = i + 1;
            }
        }
        proof {
            assert(self@.backends.len() == self.backends@.len());
            assert(before.backends.take(before.backends.len() as int) =~= before.backends);
            assert(self@.backends =~= before.backends.filter(keep));
        }
    }

    /// All backends with their health, in order.
    pub fn health_statuses(&self) -> (list: Vec<(Backend, HealthStatus)>)
        ensures
            list@.len() == self@.backends.len(),
            forall|i: int|
                0 <= i < list@.len() ==> (#[trigger] list@[i]).0.address@
                    == self@.backends[i].address && list@[i].0.weight == self@.backends[i].weight
                    && is_status(list@[i].1, self@.backends[i]),
    {
        let mut list: Vec<(Backend, HealthStatus)> = Vec::new();
        let mut i: usize = 0;
        while i < self.backends.len()
            invariant
                i <= self.backends@.len(),
                list@.len() == i,
                forall|k: int|
                    0 <= k < i ==> (#[trigger] list@[k]).0.address@ == self@.backends[k].address
                        && list@[k].0.weight == self@.backends[k].weight && is_status(
                        list@[k].1,
                        self@.backends[k],
                    ),
            decreases self.backends@.len() - i,
        {
            assert(self@.backends[i as int] == self.backends@[i as int]@);
            list.push((self.backends[i].backend.clone(), self.backends[i].get_status()));
            i = i + 1;
        }
        list
    }

    /// The number of backends.
    pub fn backend_count(&self) -> (n: usize)
        ensures
            n == self@.backends.len(),
    {
        self.backends.len()
    }

    /// The number of healthy backends.
    pub fn healthy_backend_count(&self) -> (n: usize)
        ensures
            n == self@.healthy().len(),
    {
        self.healthy_places().len()
    }

    /// The place of the first backend with an address.
    fn first_with(&self, address: &str) -> (r: Option<usize>)
        ensures
            match r {
                Some(i) => is_first(self@.backends, address@, i as int),
                None => forall|i: int|
                    0 <= i < self@.backends.len() ==> (#[trigger] self@.backends[i]).address
                        != address@,
            },
    {
        let mut i: usize = 0;
        while i < self.backends.len()
            invariant
                i <= self.backends@.len(),
                forall|j: int| 0 <= j < i ==> (#[trigger] self@.backends[j]).address != address@,
            decreases self.backends@.len() - i,
        {
            assert(self@.backends[i as int] == self.backends@[i as int]@);
            if same_text(self.backends[i].backend.address.as_str(), address) {
                return Some(i);
            }
            i = i + 1;
        }
        None
    }

    /// Marks the first backend with an address healthy or unhealthy, at a given time.
    pub fn set_backend_health_at(&mut self, address: &str, healthy: bool, now: Instant)
        requires
            old(self)@.wf(),
        ensures
            final(self)@.wf(),
            final(self)@ == (BalancerView { backends: final(self)@.backends, ..old(self)@ }),
            first_marked(old(self)@.backends, final(self)@.backends, address@, healthy, now@),
    {
        let ghost before = self@;
        if let Some(i) = self.first_with(address) {
            assert(before.backends[i as int] == self.backends@[i as int]@);
            if healthy {
                self.backends[i].mark_healthy(now);
            } else {
                self.backends[i].mark_unhealthy(now);
            }
            proof {
                let after = before.backends.update(
                    i as int,
                    marked(before.backends[i as int], healthy, now@),
                );
                assert(self@.backends =~= after);
                assert forall|k: int| 0 <= k < after.len() implies (#[trigger] after[k]).id
                    == before.backends[k].id by {}
            }
        }
    }

    /// Marks the first backend with an address healthy or unhealthy.
    pub fn set_backend_health(&mut self, address: &str, healthy: bool)
        requires
            old(self)@.wf(),
        ensures
            final(self)@.wf(),
            final(self)@ == (BalancerView { backends: final(self)@.backends, ..old(self)@ }),
            exists|now: nat| #[trigger]
                first_marked(old(self)@.backends, final(self)@.backends, address@, healthy, now),
    {
        let now = self.clock.now();
        self.set_backend_health_at(address, healthy, now)
    }

    /// The health check configuration, if health is checked.
    pub fn health_check(&self) -> (c: Option<HealthCheckConfig>)
        ensures
            c == self@.config.health_check,
    {
        self.config.health_check
    }

    /// The backends whose health is to be checked, with their numbers, in order.
    pub fn health_targets(&self) -> (list: Vec<(u64, Backend)>)
        ensures
            list@.len() == self@.backends.len(),
            forall|i: int|
                0 <= i < list@.len() ==> (#[trigger] list@[i]).0 == self@.backends[i].id
                    && list@[i].1.address@ == self@.backends[i].address && list@[i].1.weight
                    == self@.backends[i].weight,
    {
        let mut list: Vec<(u64, Backend)> = Vec::new();
        let mut i: usize = 0;
        while i < self.backends.len()
            invariant
                i <= self.backends@.len(),
                list@.len() == i,
                forall|k: int|
                    0 <= k < i ==> (#[trigger] list@[k]).0 == self@.backends[k].id
                        && list@[k].1.address@ == self@.backends[k].address && list@[k].1.weight
                        == self@.backends[k].weight,
            decreases self.backends@.len() - i,
        {
            assert(self@.backends[i as int] == self.backends@[i as int]@);
            list.push((self.backends[i].id, self.backends[i].backend.clone()));
            i = i + 1;
        }
        list
    }

    /// Takes in the outcome of a health check of a backend, at a given time. Without a
    /// health check configuration, and for a backend that was removed, nothing changes.
    pub fn health_checked_at(&mut self, id: u64, success: bool, now: Instant)
        requires
            old(self)@.wf(),
        ensures
            final(self)@.wf(),
            final(self)@ == old(self)@.health_checked(id, success, now@),
    {
        let ghost before = self@;
        match self.config.health_check {
            Some(check) => {
                let ghost change = |b: BackendView| b.checked(check, success, now@);
                proof {
                    lemma_changed_wf(before, id, change);
                }
                match self.place_of(id) {
                    Some(i) => {
                        assert(before.backends[i as int].id == id);
                        self.backends[i].check(&check, success, now);
                    },
                    None => {},
                }
                assert(self@.backends =~= changed(before.backends, id, change));
            },
            None => {},
        }
    }
}

/// Only a healthy backend is selected, and one of those that the balancer has.
pub proof fn selects_healthy(b: BalancerView, draw: usize)
    requires
        b.wf(),
        b.selectable(),
        b.healthy().len() > 0,
        b.config.strategy == Strategy::Random ==> draw < b.healthy().len(),
    ensures
        b.chosen(draw).healthy,
        b.backends.contains(b.chosen(draw)),
{
    let good = |x: BackendView| x.healthy;
    let healthy = b.healthy();
    let k = pick(b.config.strategy, healthy, b.turn, draw);
    least_is_least(healthy);
    if b.config.strategy == Strategy::WeightedRoundRobin {
        shares_follow_weights(healthy, ((b.turn as u32) as nat % weights(healthy)) as nat, 0);
    }
    b.backends.lemma_filter_pred(good, k);
    lemma_filter_wf(b, good);
    assert(b.backends.contains(b.backends.filter(good)[k]));
}

/// Taking a backend back undoes the count of its selection.
pub proof fn release_undoes_select(b: BalancerView, draw: usize)
    requires
        b.healthy().len() > 0,
    ensures
        changed(
            b.selected(draw).backends,
            b.chosen(draw).id,
            |x: BackendView|
                BackendView { active_connections: x.active_connections.wrapping_sub(1), ..x },
        ) == b.backends,
{
    assert(changed(
        b.selected(draw).backends,
        b.chosen(draw).id,
        |x: BackendView|
            BackendView { active_connections: x.active_connections.wrapping_sub(1), ..x },
    ) =~= b.backends);
}

/// Whether a number falls into a range when it is counted round and round up to `w`.
pub open spec fn falls(lo: nat, hi: nat, w: nat, number: nat) -> bool {
    lo <= number % w < hi
}

/// How many of `n` numbers in a row fall into a range.
pub open spec fn hits(lo: nat, hi: nat, w: nat, start: nat, n: nat) -> nat
    decreases n,
{
    if n == 0 {
        0
    } else {
        hits(lo, hi, w, start, (n - 1) as nat) + if falls(lo, hi, w, (start + n - 1) as nat) {
            1nat
        } else {
            0
        }
    }
}

/// The first of some numbers counts, and then the others.
proof fn lemma_hits_front(lo: nat, hi: nat, w: nat, start: nat, n: nat)
    ensures
        hits(lo, hi, w, start, n + 1) == hits(lo, hi, w, start + 1, n) + if falls(
            lo,
            hi,
            w,
            start,
        ) {
            1nat
        } else {
            0
        },
    decreases n,
{
    if n > 0 {
        lemma_hits_front(lo, hi, w, start, (n - 1) as nat);
    } else {
        assert(hits(lo, hi, w, start, 0) == 0);
    }
}

/// Of the first numbers, those fall into a range that lie in it.
proof fn lemma_hits_first(lo: nat, hi: nat, w: nat, n: nat)
    requires
        lo <= hi <= w,
        n <= w,
    ensures
        hits(lo, hi, w, 0, n) == if n <= lo {
            0nat
        } else if n <= hi {
            (n - lo) as nat
        } else {
            (hi - lo) as nat
        },
    decreases n,
{
    if n > 0 {
        lemma_hits_first(lo, hi, w, (n - 1) as nat);
        vstd::arithmetic::div_mod::lemma_small_mod((n - 1) as nat, w);
    }
}

/// In one round, wherever it starts, as many numbers fall into a range as it is long.
proof fn lemma_hits_round(lo: nat, hi: nat, w: nat, start: nat)
    requires
        lo <= hi <= w,
        w > 0,
    ensures
        hits(lo, hi, w, start, w) == hi - lo,
    decreases start,
{
    if start == 0 {
        lemma_hits_first(lo, hi, w, w);
    } else {
        let before = (start - 1) as nat;
        lemma_hits_round(lo, hi, w, before);
        lemma_hits_front(lo, hi, w, before, w);
        vstd::arithmetic::div_mod::lemma_mod_add_multiples_vanish(before as int, w as int);
        assert((before + w) % w == before % w);
        assert(hits(lo, hi, w, before, w + 1) == hits(lo, hi, w, before, w) + if falls(
            lo,
            hi,
            w,
            before + w,
        ) {
            1nat
        } else {
            0
        });
    }
}

/// Whether two lists hold the same backends with the same weights.
pub open spec fn same_shares(a: Seq<BackendView>, b: Seq<BackendView>) -> bool {
    a.len() == b.len() && forall|i: int|
        0 <= i < a.len() ==> (#[trigger] a[i]).id == b[i].id && a[i].weight == b[i].weight
}

/// The same backends weigh the same.
proof fn lemma_same_weights(a: Seq<BackendView>, b: Seq<BackendView>, n: int)
    requires
        same_shares(a, b),
        0 <= n <= a.len(),
    ensures
        weights(a.take(n)) == weights(b.take(n)),
    decreases n,
{
    if n > 0 {
        lemma_same_weights(a, b, n - 1);
        assert(a.take(n).drop_last() =~= a.take(n - 1));
        assert(b.take(n).drop_last() =~= b.take(n - 1));
        assert(a[n - 1].weight == b[n - 1].weight);
    }
}

/// Counting a connection of a backend changes neither which backends are healthy nor
/// their shares.
proof fn lemma_shares_stay(
    backends: Seq<BackendView>,
    id: u64,
    change: spec_fn(BackendView) -> BackendView,
)
    requires
        forall|x: BackendView|
            (#[trigger] change(x)).healthy == x.healthy && change(x).id == x.id && change(x).weight
                == x.weight,
    ensures
        same_shares(healthy_of(changed(backends, id, change)), healthy_of(backends)),
    decreases backends.len(),
{
    reveal(Seq::filter);
    let after = changed(backends, id, change);
    if backends.len() > 0 {
        let rest = backends.drop_last();
        lemma_shares_stay(rest, id, change);
        assert(after.drop_last() =~= changed(rest, id, change));
        assert(after.last().healthy == backends.last().healthy);
    }
}

/// The balancer after some selections, given the random places.
pub open spec fn after_selections(b: BalancerView, draws: Seq<usize>) -> BalancerView
    decreases draws.len(),
{
    if draws.len() == 0 {
        b
    } else {
        after_selections(b, draws.drop_last()).selected(draws.last())
    }
}

/// How often a backend is the one that is selected in some selections.
pub open spec fn times_selected(b: BalancerView, draws: Seq<usize>, id: u64) -> nat
    decreases draws.len(),
{
    if draws.len() == 0 {
        0
    } else {
        times_selected(b, draws.drop_last(), id) + if after_selections(
            b,
            draws.drop_last(),
        ).chosen(draws.last()).id == id {
            1nat
        } else {
            0
        }
    }
}

/// Selections with weights count turns, and change no share.
proof fn lemma_turns_counted(b: BalancerView, draws: Seq<usize>)
    requires
        b.config.strategy == Strategy::WeightedRoundRobin,
        b.healthy().len() > 0,
        b.turn + draws.len() <= usize::MAX,
    ensures
        after_selections(b, draws).config == b.config,
        after_selections(b, draws).turn == b.turn + draws.len(),
        same_shares(after_selections(b, draws).healthy(), b.healthy()),
    decreases draws.len(),
{
    if draws.len() > 0 {
        let before = after_selections(b, draws.drop_last());
        lemma_turns_counted(b, draws.drop_last());
        let change = |x: BackendView|
            BackendView { active_connections: x.active_connections.wrapping_add(1), ..x };
        lemma_shares_stay(before.backends, before.chosen(draws.last()).id, change);
        let now = after_selections(b, draws).healthy();
        assert(same_shares(now, before.healthy()));
        assert forall|i: int| 0 <= i < now.len() implies (#[trigger] now[i]).id == b.healthy()[i].id
            && now[i].weight == b.healthy()[i].weight by {
            assert(now[i].id == before.healthy()[i].id);
            assert(before.healthy()[i].id == b.healthy()[i].id);
        }
    }
}

/// With weights, the selection after some others gives the backend on whose share its
/// turn falls, and no other: the first whose weight, with those before it, exceeds the
/// turn counted round up to the weights together.
pub proof fn turn_falls_on_share(b: BalancerView, draws: Seq<usize>, draw: usize, i: int)
    requires
        b.wf(),
        b.config.strategy == Strategy::WeightedRoundRobin,
        0 <= i < b.healthy().len(),
        weights(b.healthy()) > 0,
        b.turn + draws.len() <= u32::MAX,
    ensures
        after_selections(b, draws).chosen(draw).id == b.healthy()[i].id <==> falls(
            weights(b.healthy().take(i)),
            weights(b.healthy().take(i)) + b.healthy()[i].weight as nat,
            weights(b.healthy()),
            b.turn as nat + draws.len(),
        ),
{
    let healthy = b.healthy();
    let later = after_selections(b, draws);
    let now = later.healthy();
    let w = weights(healthy);
    lemma_turns_counted(b, draws);
    lemma_same_weights(now, healthy, i);
    lemma_same_weights(now, healthy, now.len() as int);
    assert(now.take(now.len() as int) =~= now);
    assert(healthy.take(healthy.len() as int) =~= healthy);
    assert((later.turn as u32) as nat == b.turn as nat + draws.len());
    let target = (b.turn as nat + draws.len()) % w;
    assert(target < w) by (nonlinear_arith)
        requires
            target == (b.turn as nat + draws.len()) % w,
            w > 0,
    ;
    shares_follow_weights(now, target, i);
    let k = by_weight(now, target);
    assert(later.chosen(draw) == now[k]);
    assert(now[k].id == healthy[k].id);
    assert(now[i].weight == healthy[i].weight);
    let good = |x: BackendView| x.healthy;
    let kept = BalancerView { backends: b.backends.filter(good), ..b };
    lemma_filter_wf(b, good);
    assert(kept.backends == healthy);
    if k != i {
        assert(kept.backends[k].id != kept.backends[i].id);
    }
}

/// How often a backend is selected is how often a turn falls on its share.
proof fn lemma_times_selected(b: BalancerView, draws: Seq<usize>, i: int)
    requires
        b.wf(),
        b.config.strategy == Strategy::WeightedRoundRobin,
        0 <= i < b.healthy().len(),
        weights(b.healthy()) > 0,
        b.turn + draws.len() <= u32::MAX + 1,
    ensures
        times_selected(b, draws, b.healthy()[i].id) == hits(
            weights(b.healthy().take(i)),
            weights(b.healthy().take(i)) + b.healthy()[i].weight as nat,
            weights(b.healthy()),
            b.turn as nat,
            draws.len(),
        ),
    decreases draws.len(),
{
    if draws.len() > 0 {
        lemma_times_selected(b, draws.drop_last(), i);
        turn_falls_on_share(b, draws.drop_last(), draws.last(), i);
    }
}

/// Weights are honoured: of as many selections in a row as the weights make together,
/// wherever they start, each healthy backend gets exactly as many as its weight, and one
/// without weight none, as long as the count of turns stays below what 32 bits hold.
pub proof fn weights_are_honoured(b: BalancerView, draws: Seq<usize>, i: int)
    requires
        b.wf(),
        b.config.strategy == Strategy::WeightedRoundRobin,
        0 <= i < b.healthy().len(),
        weights(b.healthy()) > 0,
        draws.len() == weights(b.healthy()),
        b.turn + draws.len() <= u32::MAX + 1,
    ensures
        times_selected(b, draws, b.healthy()[i].id) == b.healthy()[i].weight,
{
    let healthy = b.healthy();
    lemma_times_selected(b, draws, i);
    lemma_weights_grow(healthy, i, i);
    lemma_weights_grow(healthy, i + 1, healthy.len() as int);
    assert(healthy.take(healthy.len() as int) =~= healthy);
    lemma_hits_round(
        weights(healthy.take(i)),
        weights(healthy.take(i)) + healthy[i].weight as nat,
        weights(healthy),
        b.turn as nat,
    );
}

/// A backend after a number of successful health checks.
pub open spec fn checked_well(b: BackendView, config: HealthCheckConfig, times: Seq<nat>) -> BackendView
    decreases times.len(),
{
    if times.len() == 0 {
        b
    } else {
        checked_well(b, config, times.drop_last()).checked(config, true, times.last())
    }
}

/// An unhealthy backend becomes healthy with as many successful health checks in a row
/// as configured, and not before.
pub proof fn recovers_at_threshold(b: BackendView, config: HealthCheckConfig, times: Seq<nat>)
    requires
        !b.healthy,
        b.consecutive_successes == 0,
        config.healthy_threshold > 0,
        times.len() <= config.healthy_threshold,
    ensures
        checked_well(b, config, times).healthy == (times.len() == config.healthy_threshold),
        times.len() < config.healthy_threshold ==> checked_well(
            b,
            config,
            times,
        ).consecutive_successes == times.len(),
    decreases times.len(),
{
    if times.len() > 0 {
        recovers_at_threshold(b, config, times.drop_last());
    }
}

/// A failed health check makes a backend unhealthy exactly when enough of its requests
/// failed in a row.
pub proof fn fails_at_threshold(b: BackendView, config: HealthCheckConfig, now: nat)
    requires
        b.healthy,
    ensures
        b.checked(config, false, now).healthy == (b.consecutive_failures
            < config.unhealthy_threshold),
{
}

/// Of those that are kept, each stood somewhere, and those kept before it stood before it.
proof fn lemma_filter_place(
    backends: Seq<BackendView>,
    keep: spec_fn(BackendView) -> bool,
    k: int,
) -> (p: int)
    requires
        0 <= k < backends.filter(keep).len(),
    ensures
        0 <= p < backends.len(),
        backends[p] == backends.filter(keep)[k],
        backends.take(p).filter(keep) == backends.filter(keep).take(k),
    decreases backends.len(),
{
    reveal(Seq::filter);
    let rest = backends.drop_last();
    let kept = rest.filter(keep);
    if k < kept.len() {
        let p = lemma_filter_place(rest, keep, k);
        assert(rest.take(p) =~= backends.take(p));
        assert(backends.filter(keep).take(k) =~= kept.take(k));
        p
    } else {
        let p = backends.len() - 1;
        assert(backends.take(p) =~= rest);
        assert(backends.filter(keep).take(k) =~= kept);
        p
    }
}

/// The healthy backends are those that are marked so, and each is one of the backends.
pub proof fn healthy_are_those_marked(b: BalancerView, i: int)
    ensures
        0 <= i < b.backends.len() ==> (b.healthy().contains(b.backends[i])
            <==> b.backends[i].healthy),
        0 <= i < b.healthy().len() ==> b.healthy()[i].healthy && b.backends.contains(
            b.healthy()[i],
        ),
{
    let good = |x: BackendView| x.healthy;
    if 0 <= i < b.backends.len() {
        if b.backends[i].healthy {
            assert(good(b.backends[i]));
            b.backends.lemma_filter_contains(good, i);
        }
        if b.healthy().contains(b.backends[i]) {
            let k = choose|k: int| 0 <= k < b.healthy().len() && b.healthy()[k] == b.backends[i];
            b.backends.lemma_filter_pred(good, k);
        }
    }
    if 0 <= i < b.healthy().len() {
        let p = lemma_filter_place(b.backends, good, i);
        b.backends.lemma_filter_pred(good, i);
        assert(b.backends.contains(b.backends[p]));
    }
}

/// With the fewest connections, the backend that is selected is healthy, no healthy backend
/// has fewer connections, and every healthy one that stands before it has more.
pub proof fn fewest_connections_are_chosen(b: BalancerView, draw: usize)
    requires
        b.config.strategy == Strategy::LeastConnections,
        b.healthy().len() > 0,
    ensures
        b.chosen(draw).healthy,
        forall|i: int|
            0 <= i < b.backends.len() && (#[trigger] b.backends[i]).healthy ==> b.chosen(
                draw,
            ).active_connections <= b.backends[i].active_connections,
        exists|p: int|
            {
                &&& 0 <= p < b.backends.len()
                &&& #[trigger] b.backends[p] == b.chosen(draw)
                &&& forall|j: int|
                    0 <= j < p && (#[trigger] b.backends[j]).healthy ==> b.chosen(
                        draw,
                    ).active_connections < b.backends[j].active_connections
            },
{
    let good = |x: BackendView| x.healthy;
    let h = b.healthy();
    least_is_least(h);
    let k = least(h);
    healthy_are_those_marked(b, k);
    assert forall|i: int| 0 <= i < b.backends.len() && (#[trigger] b.backends[i]).healthy implies
        b.chosen(draw).active_connections <= b.backends[i].active_connections by {
        healthy_are_those_marked(b, i);
        let m = choose|m: int| 0 <= m < h.len() && h[m] == b.backends[i];
        assert(h[k].active_connections <= h[m].active_connections);
    }
    let p = lemma_filter_place(b.backends, good, k);
    assert forall|j: int| 0 <= j < p && (#[trigger] b.backends[j]).healthy implies b.chosen(
        draw,
    ).active_connections < b.backends[j].active_connections by {
        let front = b.backends.take(p);
        assert(front[j] == b.backends[j]);
        assert(good(front[j]));
        front.lemma_filter_contains(good, j);
        let m = choose|m: int| 0 <= m < h.take(k).len() && h.take(k)[m] == front[j];
        assert(h[m] == b.backends[j]);
    }
    assert(b.backends[p] == b.chosen(draw));
}

/// Selections in turn go round: the first goes to the first healthy backend, and after each
/// the healthy backend behind it is next, after the last again the first.
pub proof fn turns_go_round(b: BalancerView, draw: usize, next: usize, k: int)
    requires
        b.wf(),
        b.config.strategy == Strategy::RoundRobin,
        b.turn < usize::MAX,
        0 <= k < b.healthy().len(),
    ensures
        b.turn == 0 ==> b.chosen(draw) == b.healthy()[0],
        b.chosen(draw) == b.healthy()[k] ==> b.selected(draw).chosen(next).id
            == b.healthy()[if k + 1 < b.healthy().len() {
            k + 1
        } else {
            0
        }].id,
{
    let h = b.healthy();
    let n = h.len() as int;
    let later = b.selected(draw);
    let change = |x: BackendView|
        BackendView { active_connections: x.active_connections.wrapping_add(1), ..x };
    lemma_shares_stay(b.backends, b.chosen(draw).id, change);
    assert(same_shares(later.healthy(), h));
    let t = b.turn as int;
    let m = t % n;
    assert(0 <= m < n && (t + 1) % n == if m + 1 < n {
        m + 1
    } else {
        0
    }) by {
        vstd::arithmetic::div_mod::lemma_fundamental_div_mod(t, n);
        vstd::arithmetic::div_mod::lemma_mod_bound(t, n);
        if m + 1 < n {
            vstd::arithmetic::div_mod::lemma_fundamental_div_mod_converse(
                t + 1,
                n,
                t / n,
                m + 1,
            );
        } else {
            assert(t + 1 == (t / n + 1) * n) by (nonlinear_arith)
                requires
                    t == n * (t / n) + m,
                    m + 1 == n,
            ;
            vstd::arithmetic::div_mod::lemma_fundamental_div_mod_converse(
                t + 1,
                n,
                t / n + 1,
                0,
            );
        }
    }
    if t == 0 {
        vstd::arithmetic::div_mod::lemma_small_mod(0, n as nat);
    }
    if b.chosen(draw) == h[k] {
        let good = |x: BackendView| x.healthy;
        let kept = BalancerView { backends: b.backends.filter(good), ..b };
        lemma_filter_wf(b, good);
        assert(kept.backends == h);
        if k != m {
            assert(kept.backends[k].id != kept.backends[m].id);
        }
        let j = (t + 1) % n;
        assert(later.chosen(next) == later.healthy()[j]);
        assert(later.healthy()[j].id == h[j].id);
    }
}

/// At random, each healthy backend can be selected, and different draws select different
/// ones.
pub proof fn every_draw_selects_another(b: BalancerView, one: usize, other: usize, i: int)
    requires
        b.wf(),
        b.config.strategy == Strategy::Random,
        one < b.healthy().len() <= usize::MAX,
        other < b.healthy().len(),
        0 <= i < b.backends.len(),
    ensures
        one != other ==> b.chosen(one).id != b.chosen(other).id,
        b.backends[i].healthy ==> exists|draw: usize|
            draw < b.healthy().len() && #[trigger] b.chosen(draw) == b.backends[i],
{
    let good = |x: BackendView| x.healthy;
    let kept = BalancerView { backends: b.backends.filter(good), ..b };
    lemma_filter_wf(b, good);
    assert(kept.backends == b.healthy());
    if one != other {
        assert(kept.backends[one as int].id != kept.backends[other as int].id);
    }
    if b.backends[i].healthy {
        healthy_are_those_marked(b, i);
        let k = choose|k: int| 0 <= k < b.healthy().len() && b.healthy()[k] == b.backends[i];
        assert(b.chosen(k as usize) == b.backends[i]);
    }
}

/// A selection counts one connection for the backend that is selected and changes nothing
/// else of any backend. Where none is healthy, nothing changes at all.
pub proof fn selection_counts_one(b: BalancerView, draw: usize, i: int)
    requires
        0 <= i < b.backends.len(),
    ensures
        b.selected(draw).config == b.config,
        b.selected(draw).next_id == b.next_id,
        b.selected(draw).backends.len() == b.backends.len(),
        b.healthy().len() == 0 ==> b.selected(draw) == b,
        b.healthy().len() > 0 ==> b.selected(draw).backends[i] == if b.backends[i].id == b.chosen(
            draw,
        ).id {
            BackendView {
                active_connections: b.backends[i].active_connections.wrapping_add(1),
                ..b.backends[i]
            }
        } else {
            b.backends[i]
        },
{
}

/// Taking a backend back counts one connection less for it, and changes nothing else.
pub proof fn release_counts_one(b: BalancerView, id: u64, i: int)
    requires
        0 <= i < b.backends.len(),
    ensures
        b.given_back(id).backends.len() == b.backends.len(),
        b.given_back(id).backends[i] == if b.backends[i].id == id {
            BackendView {
                active_connections: b.backends[i].active_connections.wrapping_sub(1),
                ..b.backends[i]
            }
        } else {
            b.backends[i]
        },
        b.given_back(id) == (BalancerView { backends: b.given_back(id).backends, ..b }),
{
}

/// Selecting a backend and giving it back leaves the backends as they were.
pub proof fn given_back_undoes_selected(b: BalancerView, draw: usize)
    requires
        b.healthy().len() > 0,
    ensures
        b.selected(draw).given_back(b.chosen(draw).id).backends == b.backends,
{
    release_undoes_select(b, draw);
}

/// A backend after some requests, each of which succeeded or not.
pub open spec fn requested_all(b: BackendView, outcomes: Seq<bool>) -> BackendView
    decreases outcomes.len(),
{
    if outcomes.len() == 0 {
        b
    } else {
        requested_all(b, outcomes.drop_last()).requested(outcomes.last())
    }
}

/// How many of some requests failed.
pub open spec fn failures_in(outcomes: Seq<bool>) -> nat {
    outcomes.filter(|success: bool| !success).len()
}

/// Requests are counted: each one, those that failed, and how many failed in a row, which a
/// success ends. They change neither the health nor the connections.
pub proof fn requests_are_counted(b: BackendView, outcomes: Seq<bool>)
    requires
        b.total_requests + outcomes.len() <= u64::MAX,
        b.failed_requests + outcomes.len() <= u64::MAX,
        b.consecutive_failures + outcomes.len() <= u32::MAX,
    ensures
        ({
            let after = requested_all(b, outcomes);
            &&& after.total_requests == b.total_requests + outcomes.len()
            &&& after.failed_requests == b.failed_requests + failures_in(outcomes)
            &&& failures_in(outcomes) <= outcomes.len()
            &&& outcomes.len() > 0 && outcomes.last() ==> after.consecutive_failures == 0
            &&& (forall|i: int| 0 <= i < outcomes.len() ==> !(#[trigger] outcomes[i]))
                ==> after.consecutive_failures == b.consecutive_failures + outcomes.len()
            &&& after.consecutive_failures <= b.consecutive_failures + outcomes.len()
            &&& after == (BackendView {
                total_requests: after.total_requests,
                failed_requests: after.failed_requests,
                consecutive_failures: after.consecutive_failures,
                ..b
            })
        }),
    decreases outcomes.len(),
{
    reveal(Seq::filter);
    if outcomes.len() > 0 {
        let rest = outcomes.drop_last();
        requests_are_counted(b, rest);
        if forall|i: int| 0 <= i < outcomes.len() ==> !(#[trigger] outcomes[i]) {
            assert forall|i: int| 0 <= i < rest.len() implies !(#[trigger] rest[i]) by {
                assert(rest[i] == outcomes[i]);
            }
            assert(!outcomes[outcomes.len() - 1]);
        }
    }
}

/// A request is counted for its backend, and for no other.
pub proof fn request_counts_for_its_backend(b: BalancerView, id: u64, success: bool, i: int)
    requires
        0 <= i < b.backends.len(),
    ensures
        b.recorded(id, success).backends.len() == b.backends.len(),
        b.backends[i].id != id ==> b.recorded(id, success).backends[i] == b.backends[i],
        b.backends[i].id == id ==> b.recorded(id, success).backends[i]
            == b.backends[i].requested(success),
        b.recorded(id, success) == (BalancerView { backends: b.recorded(id, success).backends, ..b }),
{
}

/// A health check changes the health of a backend only at the thresholds: a success keeps a
/// healthy backend healthy and makes an unhealthy one healthy when it makes up the successes
/// in a row that are needed, a failure ends that row and never makes a backend healthy.
/// What was counted of requests and connections stays, but that a healthy backend has no
/// failures in a row.
pub proof fn check_changes_health_at_thresholds(
    b: BackendView,
    config: HealthCheckConfig,
    success: bool,
    now: nat,
)
    requires
        b.consecutive_successes < u32::MAX,
    ensures
        ({
            let after = b.checked(config, success, now);
            &&& after.last_check == now
            &&& after.id == b.id && after.address == b.address && after.weight == b.weight
            &&& after.active_connections == b.active_connections
            &&& after.total_requests == b.total_requests
            &&& after.failed_requests == b.failed_requests
            &&& success && b.healthy ==> after.healthy && after.consecutive_failures == 0
            &&& success && !b.healthy ==> (after.healthy <==> b.consecutive_successes + 1
                >= config.healthy_threshold)
            &&& success && after.healthy ==> after.consecutive_failures == 0
            &&& success && !after.healthy ==> after.consecutive_successes
                == b.consecutive_successes + 1 && after.consecutive_failures
                == b.consecutive_failures
            &&& !success ==> after.consecutive_successes == 0 && after.consecutive_failures
                == b.consecutive_failures
            &&& !success ==> (after.healthy <==> b.healthy && b.consecutive_failures
                < config.unhealthy_threshold)
        }),
{
}

/// A health check concerns its backend, and no other. Without a configuration for health
/// checks nothing changes.
pub proof fn check_concerns_its_backend(b: BalancerView, id: u64, success: bool, now: nat, i: int)
    requires
        0 <= i < b.backends.len(),
    ensures
        b.config.health_check is None ==> b.health_checked(id, success, now) == b,
        b.health_checked(id, success, now).backends.len() == b.backends.len(),
        b.backends[i].id != id ==> b.health_checked(id, success, now).backends[i] == b.backends[i],
        b.config.health_check matches Some(check) ==> (b.backends[i].id == id ==> b.health_checked(
            id,
            success,
            now,
        ).backends[i] == b.backends[i].checked(check, success, now)),
{
}

/// Marking a backend by its address sets the health of the first one with it, and of no
/// other. One that is marked healthy starts with no failures in a row.
pub proof fn marking_sets_health(
    before: Seq<BackendView>,
    after: Seq<BackendView>,
    address: Seq<char>,
    healthy: bool,
    now: nat,
    i: int,
)
    requires
        first_marked(before, after, address, healthy, now),
        0 <= i < before.len(),
    ensures
        after.len() == before.len(),
        before[i].address != address ==> after[i] == before[i],
        before[i].address == address && (forall|j: int|
            0 <= j < i ==> (#[trigger] before[j]).address != address) ==> {
            &&& after[i].healthy == healthy
            &&& after[i].last_check == now
            &&& after[i].consecutive_failures == if healthy {
                0
            } else {
                before[i].consecutive_failures
            }
            &&& after[i].consecutive_successes == 0
            &&& after[i].active_connections == before[i].active_connections
            &&& after[i].total_requests == before[i].total_requests
            &&& after[i].failed_requests == before[i].failed_requests
            &&& after[i].id == before[i].id && after[i].address == before[i].address
                && after[i].weight == before[i].weight
        },
        (exists|j: int| 0 <= j < i && (#[trigger] before[j]).address == address) ==> after[i]
            == before[i],
{
    if exists|k: int|
        #[trigger] is_first(before, address, k) && after == before.update(
            k,
            marked(before[k], healthy, now),
        ) {
        let k = choose|k: int|
            #[trigger] is_first(before, address, k) && after == before.update(
                k,
                marked(before[k], healthy, now),
            );
        if before[i].address == address && (forall|j: int|
            0 <= j < i ==> (#[trigger] before[j]).address != address) {
            if k < i {
                assert(before[k].address != address);
            } else if i < k {
                assert(before[i].address != address);
            }
        }
    }
}

/// A backend that is new is healthy, with no connection and no request counted, and has the
/// address and the weight that it was given. It comes behind the others, which stay as they
/// are.
pub proof fn new_backend_is_ready(
    b: BalancerView,
    address: Seq<char>,
    weight: u32,
    now: nat,
    i: int,
)
    requires
        b.next_id < u64::MAX,
        0 <= i < b.backends.len(),
    ensures
        ({
            let after = b.with_backend(address, weight, now);
            let x = after.backends.last();
            &&& after.backends.len() == b.backends.len() + 1
            &&& after.backends[i] == b.backends[i]
            &&& after.config == b.config && after.turn == b.turn
            &&& after.next_id == b.next_id + 1
            &&& x.id == b.next_id && x.address == address && x.weight == weight
            &&& x.healthy && x.active_connections == 0
            &&& x.total_requests == 0 && x.failed_requests == 0
            &&& x.consecutive_failures == 0 && x.consecutive_successes == 0
            &&& x.last_check == now
        }),
{
}

/// The backends that a balancer starts with are ready, in their order.
pub proof fn first_backends_are_ready(backends: Seq<Backend>, now: nat, i: int)
    requires
        0 <= i < backends.len() <= u64::MAX,
    ensures
        numbered(backends, now).len() == backends.len(),
        ({
            let x = numbered(backends, now)[i];
            &&& x.id == i && x.address == backends[i].address@ && x.weight == backends[i].weight
            &&& x.healthy && x.active_connections == 0
            &&& x.total_requests == 0 && x.failed_requests == 0
            &&& x.consecutive_failures == 0 && x.consecutive_successes == 0
        }),
{
}

/// Removing an address removes every backend with it, and no other.
pub proof fn removal_is_by_address(b: BalancerView, address: Seq<char>, i: int)
    requires
        0 <= i < b.backends.len(),
    ensures
        b.without_address(address) == (BalancerView {
            backends: b.without_address(address).backends,
            ..b
        }),
        b.without_address(address).backends.contains(b.backends[i]) <==> b.backends[i].address
            != address,
        (forall|j: int| 0 <= j < b.backends.len() ==> (#[trigger] b.backends[j]).address != address)
            ==> b.without_address(address).backends == b.backends,
        b.without_address(address).backends.len() <= b.backends.len(),
{
    let keep = |x: BackendView| x.address != address;
    let after = b.backends.filter(keep);
    b.backends.lemma_filter_len(keep);
    if b.backends[i].address != address {
        assert(keep(b.backends[i]));
        b.backends.lemma_filter_contains(keep, i);
    }
    if after.contains(b.backends[i]) {
        let k = choose|k: int| 0 <= k < after.len() && after[k] == b.backends[i];
        b.backends.lemma_filter_pred(keep, k);
    }
    if forall|j: int| 0 <= j < b.backends.len() ==> (#[trigger] b.backends[j]).address != address {
        lemma_kept_all(b.backends, keep);
    }
}

/// Where every backend is kept, all of them are.
proof fn lemma_kept_all(all: Seq<BackendView>, keep: spec_fn(BackendView) -> bool)
    requires
        forall|i: int| 0 <= i < all.len() ==> keep(#[trigger] all[i]),
    ensures
        all.filter(keep) == all,
    decreases all.len(),
{
    reveal(Seq::filter);
    if all.len() > 0 {
        let rest = all.drop_last();
        assert forall|i: int| 0 <= i < rest.len() implies keep(#[trigger] rest[i]) by {
            assert(rest[i] == all[i]);
        }
        lemma_kept_all(rest, keep);
        assert(keep(all[all.len() - 1]));
        assert(rest.push(all.last()) =~= all);
    } else {
        assert(all.filter(keep) =~= all);
    }
}

/// A selection is possible unless it goes by weights that do not add up: without weights it
/// always is.
pub proof fn selection_is_possible(b: BalancerView)
    ensures
        b.config.strategy != Strategy::WeightedRoundRobin ==> b.selectable(),
        b.healthy().len() == 0 ==> b.selectable(),
        0 < weights(b.healthy()) <= u32::MAX ==> b.selectable(),
{
}

/// Only selections in turn count turns.
pub proof fn turns_are_counted(b: BalancerView, draw: usize)
    requires
        b.healthy().len() > 0,
    ensures
        b.config.strategy == Strategy::RoundRobin || b.config.strategy
            == Strategy::WeightedRoundRobin ==> b.selected(draw).turn == b.turn.wrapping_add(1),
        b.config.strategy == Strategy::LeastConnections || b.config.strategy == Strategy::Random
            ==> b.selected(draw).turn == b.turn,
{
}

/// The status of a backend shows its health and what was counted of its requests.
pub proof fn status_shows_backend(s: HealthStatus, b: BackendView)
    requires
        is_status(s, b),
    ensures
        s.healthy == b.healthy,
        s.last_check@ == b.last_check,
        s.consecutive_failures == b.consecutive_failures,
        s.total_requests == b.total_requests,
        s.failed_requests == b.failed_requests,
{
}

/// By default health is checked every 10 s with 2 s to answer, three failures make a backend
/// unhealthy and two successes healthy again.
pub proof fn default_health_check(c: HealthCheckConfig)
    requires
        is_default_check(c),
    ensures
        c.interval@ == 10_000_000_000,
        c.timeout@ == 2_000_000_000,
        c.unhealthy_threshold == 3,
        c.healthy_threshold == 2,
{
}

} // verus!
