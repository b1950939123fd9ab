use rust_network_system::stability::{
    CircuitBreaker, CircuitBreakerConfig, CircuitBreakerError, CircuitState, GracefulShutdown,
    KeyedRateLimiter, RateLimiter, RateLimiterConfig, RateLimiterError, ShutdownCoordinator,
    ShutdownSignal,
};
use rust_network_system::time::{Clock, Duration, Instant};

fn at(millis: u64) -> Instant {
    Instant::after_start(Duration::from_millis(millis))
}

#[test]
fn test_initial_state() {
    let mut cb = CircuitBreaker::new();
    assert_eq!(cb.state(), CircuitState::Closed);
    assert!(cb.is_request_allowed());
}

#[test]
fn test_open_on_failures() {
    let config = CircuitBreakerConfig::new().with_failure_threshold(3);
    let mut cb = CircuitBreaker::with_config(config);

    for _ in 0..3 {
        cb.record_failure();
    }

    assert_eq!(cb.state(), CircuitState::Open);
    assert!(!cb.is_request_allowed());
    assert_eq!(cb.failure_count(), 3);
}

#[test]
fn test_half_open_after_timeout() {
    let config = CircuitBreakerConfig::new()
        .with_failure_threshold(2)
        .with_timeout(Duration::from_millis(100));
    let mut cb = CircuitBreaker::with_config(config);

    cb.record_failure_at(at(0));
    cb.record_failure_at(at(0));
    assert_eq!(cb.state(), CircuitState::Open);
    assert!(!cb.is_request_allowed_at(at(99)));

    assert!(cb.is_request_allowed_at(at(150)));
    assert_eq!(cb.state(), CircuitState::HalfOpen);
}

#[test]
fn test_close_from_half_open() {
    let config = CircuitBreakerConfig::new()
        .with_failure_threshold(2)
        .with_success_threshold(2)
        .with_timeout(Duration::from_millis(100));
    let mut cb = CircuitBreaker::with_config(config);

    cb.record_failure_at(at(0));
    cb.record_failure_at(at(0));
    cb.is_request_allowed_at(at(150));

    cb.record_success();
    assert_eq!(cb.success_count(), 1);
    cb.record_success();

    assert_eq!(cb.state(), CircuitState::Closed);
}

#[test]
fn test_reopen_on_half_open_failure() {
    let config = CircuitBreakerConfig::new()
        .with_failure_threshold(2)
        .with_timeout(Duration::from_millis(100));
    let mut cb = CircuitBreaker::with_config(config);

    cb.record_failure_at(at(0));
    cb.record_failure_at(at(0));
    cb.is_request_allowed_at(at(150));
    assert_eq!(cb.state(), CircuitState::HalfOpen);

    cb.record_failure_at(at(160));
    assert_eq!(cb.state(), CircuitState::Open);
    assert!(!cb.is_request_allowed_at(at(259)));
    assert!(cb.is_request_allowed_at(at(260)));
}

#[test]
fn test_window_reset() {
    let config = CircuitBreakerConfig::new()
        .with_failure_threshold(3)
        .with_window_size(Duration::from_millis(100));
    let mut cb = CircuitBreaker::with_config(config);

    cb.record_failure_at(at(0));
    cb.record_failure_at(at(0));
    cb.record_failure_at(at(150));

    assert_eq!(cb.state(), CircuitState::Closed);
    assert_eq!(cb.failure_count(), 1);
}

#[test]
fn success_and_reset_forget_failures() {
    let mut cb = CircuitBreaker::default();
    for _ in 0..4 {
        cb.record_failure();
    }
    cb.record_success();
    assert_eq!(cb.failure_count(), 0);
    for _ in 0..5 {
        cb.record_failure();
    }
    assert_eq!(cb.state(), CircuitState::Open);
    cb.reset();
    assert_eq!(cb.state(), CircuitState::Closed);
    assert_eq!(cb.failure_count(), 0);
}

#[test]
fn test_call_success() {
    let mut cb = CircuitBreaker::new();
    let result = cb.call(|| Ok::<i32, &str>(42));
    assert!(result.is_ok());
    assert_eq!(result.unwrap(), 42);
}

#[test]
fn test_call_failure() {
    let config = CircuitBreakerConfig::new().with_failure_threshold(1);
    let mut cb = CircuitBreaker::with_config(config);
    let result = cb.call(|| Err::<i32, &str>("error"));
    assert!(result.is_err());
    assert_eq!(cb.state(), CircuitState::Open);
}

#[test]
fn test_call_circuit_open() {
    let config = CircuitBreakerConfig::new().with_failure_threshold(1);
    let mut cb = CircuitBreaker::with_config(config);
    cb.record_failure();
    let result = cb.call(|| Ok::<i32, &str>(42));
    assert!(matches!(result, Err(CircuitBreakerError::CircuitOpen)));

    let open: CircuitBreakerError<String> = CircuitBreakerError::CircuitOpen;
    assert_eq!(open.to_string(), "Circuit breaker is open");
    let inner = CircuitBreakerError::InnerError("x".to_string());
    assert_eq!(inner.to_string(), "Operation failed: x");
}

#[test]
fn test_circuit_breaker_opens_on_failures() {
    let config = CircuitBreakerConfig::new()
        .with_failure_threshold(3)
        .with_timeout(Duration::from_secs(1));
    let mut circuit_breaker = CircuitBreaker::with_config(config);

    for _ in 0..3 {
        assert!(circuit_breaker.is_request_allowed());
        circuit_breaker.record_failure();
    }

    assert_eq!(circuit_breaker.state(), CircuitState::Open);
    assert!(!circuit_breaker.is_request_allowed());
}

#[test]
fn test_circuit_breaker_recovery() {
    let config = CircuitBreakerConfig::new()
        .with_failure_threshold(2)
        .with_success_threshold(2)
        .with_timeout(Duration::from_millis(200));
    let mut circuit_breaker = CircuitBreaker::with_config(config);

    circuit_breaker.record_failure_at(at(0));
    circuit_breaker.record_failure_at(at(0));
    assert_eq!(circuit_breaker.state(), CircuitState::Open);

    assert!(circuit_breaker.is_request_allowed_at(at(250)));
    assert_eq!(circuit_breaker.state(), CircuitState::HalfOpen);

    circuit_breaker.record_success();
    let settled = circuit_breaker.settle_at(Ok::<u8, String>(1), at(260));
    assert_eq!(settled.unwrap(), 1);

    assert_eq!(circuit_breaker.state(), CircuitState::Closed);
    assert!(circuit_breaker.is_request_allowed());
}

#[test]
fn test_shutdown_signal() {
    let mut signal = ShutdownSignal::new();
    assert!(!signal.is_triggered());
    signal.trigger();
    assert!(signal.is_triggered());
}

#[test]
fn test_shutdown_wait() {
    let mut coordinator = ShutdownCoordinator::new(Duration::from_secs(1));
    let signal = coordinator.create_signal();
    let signal_clone = signal.clone();
    let other = coordinator.create_signal();
    assert_eq!(coordinator.signal(signal).wait(), Some(Duration::from_millis(100)));

    coordinator.trigger(signal_clone);

    assert_eq!(coordinator.signal(signal).wait(), None);
    assert!(coordinator.signal(signal).is_triggered());
    assert!(coordinator.signal(signal_clone).is_triggered());
    assert!(!coordinator.signal(other).is_triggered());
    coordinator.trigger(signal);
    assert!(coordinator.signal(signal).is_triggered());
    assert!(!coordinator.graceful().is_shutdown_requested());

    let mut alone = ShutdownSignal::default();
    assert_eq!(alone.wait(), Some(Duration::from_millis(100)));
    alone.trigger();
    assert_eq!(alone.wait(), None);
}

#[test]
fn test_graceful_shutdown_tracking() {
    let mut shutdown = GracefulShutdown::new(Duration::from_secs(1));
    assert_eq!(shutdown.active_request_count(), 0);

    let guard1 = shutdown.enter().unwrap();
    assert_eq!(shutdown.active_request_count(), 1);

    let guard2 = shutdown.enter().unwrap();
    assert_eq!(shutdown.active_request_count(), 2);

    assert!(!shutdown.leave(guard1));
    assert_eq!(shutdown.active_request_count(), 1);

    assert!(shutdown.leave(guard2));
    assert_eq!(shutdown.active_request_count(), 0);
}

#[test]
fn test_reject_after_shutdown() {
    let mut shutdown = GracefulShutdown::new(Duration::from_secs(1));
    shutdown.shutdown();
    assert!(shutdown.enter().is_none());
}

#[test]
fn test_wait_for_completion() {
    let mut shutdown = GracefulShutdown::new(Duration::from_secs(2));
    let guard = shutdown.enter().unwrap();
    assert_eq!(shutdown.wait_for_completion(Duration::from_millis(100)), None);
    shutdown.leave(guard);
    assert_eq!(shutdown.wait_for_completion(Duration::from_millis(100)), Some(true));
}

#[test]
fn test_timeout() {
    let mut shutdown = GracefulShutdown::new(Duration::from_millis(100));
    let _guard = shutdown.enter().unwrap();
    assert_eq!(shutdown.timeout(), Duration::from_millis(100));
    let completed = shutdown.wait_for_completion(Duration::from_millis(100));
    assert_eq!(completed, Some(false));
}

#[test]
fn test_shutdown_and_wait() {
    let mut shutdown = GracefulShutdown::default();
    assert_eq!(shutdown.timeout(), Duration::from_secs(30));
    let guard = shutdown.enter().unwrap();
    assert_eq!(shutdown.shutdown_and_wait(Duration::from_millis(0)), None);
    shutdown.leave(guard);
    assert_eq!(shutdown.wait_for_completion(Duration::from_millis(50)), Some(true));
    assert!(shutdown.is_shutdown_requested());
}

#[test]
fn test_coordinator() {
    let mut coordinator = ShutdownCoordinator::new(Duration::from_secs(1));

    let signal1 = coordinator.create_signal();
    let signal2 = coordinator.create_signal();

    assert!(!coordinator.signal(signal1).is_triggered());
    assert!(!coordinator.signal(signal2).is_triggered());

    let guard = coordinator.graceful_mut().enter().unwrap();
    assert_eq!(coordinator.shutdown_all(Duration::from_millis(0)), None);
    coordinator.graceful_mut().leave(guard);
    assert_eq!(coordinator.shutdown_all(Duration::from_millis(10)), Some(true));
    assert!(coordinator.graceful().is_shutdown_requested());

    assert!(coordinator.signal(signal1).is_triggered());
    assert!(coordinator.signal(signal2).is_triggered());
}

#[test]
fn test_initial_capacity() {
    let mut limiter = RateLimiter::per_second(10);
    assert_eq!(limiter.available_tokens(), 10);
}

#[test]
fn test_acquire_tokens() {
    let config = RateLimiterConfig::per_second(10);
    let mut limiter = RateLimiter::with_config_at(config, Clock::start(), at(0));

    assert!(limiter.try_acquire_at(5, at(0)));
    assert_eq!(limiter.available_tokens_at(at(0)), 5);

    assert!(limiter.try_acquire_at(5, at(0)));
    assert_eq!(limiter.available_tokens_at(at(0)), 0);

    assert!(!limiter.try_acquire_at(1, at(0)));
}

#[test]
fn test_refill() {
    let config = RateLimiterConfig::new()
        .with_capacity(10)
        .with_refill_amount(10)
        .with_refill_interval(Duration::from_millis(100));
    let mut limiter = RateLimiter::with_config_at(config, Clock::start(), at(0));

    assert!(limiter.try_acquire_at(10, at(0)));
    assert_eq!(limiter.available_tokens_at(at(0)), 0);

    assert_eq!(limiter.available_tokens_at(at(9)), 0);
    assert_eq!(limiter.available_tokens_at(at(10)), 1);
    assert_eq!(limiter.available_tokens_at(at(35)), 3);
    assert_eq!(limiter.available_tokens_at(at(40)), 4);
    assert!(limiter.available_tokens_at(at(150)) > 0);
    assert_eq!(limiter.available_tokens_at(at(1500)), 10);
}

#[test]
fn extreme_rates_do_not_overflow() {
    let config = RateLimiterConfig::new()
        .with_capacity(u64::MAX)
        .with_refill_amount(u64::MAX)
        .with_refill_interval(Duration::from_secs(u64::MAX));
    let mut limiter = RateLimiter::with_config_at(config, Clock::start(), at(0));
    assert!(limiter.try_acquire_at(u64::MAX, at(0)));
    assert_eq!(limiter.available_tokens_at(at(7000)), 7);
    let late = Instant::after_start(Duration::from_secs(u64::MAX));
    assert_eq!(limiter.available_tokens_at(late), u64::MAX);

    let always = RateLimiterConfig::new().with_refill_interval(Duration::from_secs(0));
    let mut limiter = RateLimiter::with_config(always);
    assert!(limiter.try_acquire(100));
    assert!(limiter.try_acquire(100));
}

#[test]
fn test_per_second() {
    let mut limiter = RateLimiter::per_second(100);
    assert_eq!(limiter.available_tokens(), 100);
}

#[test]
fn test_per_minute() {
    let mut limiter = RateLimiter::per_minute(60);
    assert_eq!(limiter.available_tokens(), 60);
}

#[test]
fn test_async_acquire() {
    let config = RateLimiterConfig::new()
        .with_capacity(2)
        .with_refill_amount(2)
        .with_refill_interval(Duration::from_millis(100));
    let mut limiter = RateLimiter::with_config_at(config, Clock::start(), at(0));

    assert!(limiter.try_acquire_at(2, at(0)));

    let deadline = at(5000);
    assert_eq!(limiter.acquire_at(1, deadline, at(0)), Ok(Some(Duration::from_millis(50))));
    assert_eq!(limiter.acquire_at(1, deadline, at(50)), Ok(None));
}

#[test]
fn test_async_acquire_timeout() {
    let config = RateLimiterConfig::new()
        .with_capacity(1)
        .with_refill_amount(1)
        .with_refill_interval(Duration::from_secs(60));
    let mut limiter = RateLimiter::with_config_at(config, Clock::start(), at(0));

    assert!(limiter.try_acquire_at(1, at(0)));

    assert_eq!(limiter.acquire_at(1, at(100), at(0)), Ok(Some(Duration::from_millis(100))));
    let result = limiter.acquire_at(1, at(100), at(100));
    assert!(matches!(result, Err(RateLimiterError::Timeout)));
    assert_eq!(result.unwrap_err().to_string(), "Timeout waiting for tokens");
}

#[test]
fn test_keyed_limiter() {
    let config = RateLimiterConfig::per_second(5);
    let mut limiter = KeyedRateLimiter::new(config);

    assert!(limiter.try_acquire_at(&"user1", 5, at(0)));
    assert!(limiter.try_acquire_at(&"user2", 5, at(0)));

    assert!(!limiter.try_acquire_at(&"user1", 1, at(0)));
    assert!(!limiter.try_acquire_at(&"user2", 1, at(0)));

    assert_eq!(limiter.key_count(), 2);
    let (waiter, pause) = limiter.acquire_at(&"user1", 1, at(1000), at(100)).unwrap().unwrap();
    assert_eq!(pause, Duration::from_millis(200));
    assert!(matches!(limiter.acquire_again_at(waiter, 1, at(1000), at(200)), Ok(None)));
    limiter.clear();
    assert_eq!(limiter.key_count(), 0);
}

#[test]
fn a_waiter_keeps_its_bucket() {
    let mut limiter = KeyedRateLimiter::new(RateLimiterConfig::per_second(2));
    assert!(limiter.try_acquire_at(&"a", 2, at(0)));
    let (waiter, pause) = limiter.acquire_at(&"a", 1, at(2000), at(100)).unwrap().unwrap();
    assert_eq!(pause, Duration::from_millis(500));
    limiter.remove_key(&"a");
    assert_eq!(limiter.key_count(), 0);
    let (waiter, _) = limiter.acquire_again_at(waiter, 1, at(2000), at(200)).unwrap().unwrap();
    assert_eq!(limiter.key_count(), 0);
    assert!(limiter.try_acquire_at(&"a", 2, at(200)));
    assert!(!limiter.try_acquire_at(&"a", 1, at(200)));
    assert_eq!(limiter.key_count(), 1);
    let (waiter, _) = limiter.acquire_again_at(waiter, 1, at(2000), at(499)).unwrap().unwrap();
    assert!(matches!(limiter.acquire_again_at(waiter, 1, at(2000), at(500)), Ok(None)));
    assert!(!limiter.try_acquire_at(&"a", 1, at(500)));

    let (waiter, _) = limiter.acquire_at(&"a", 2, at(600), at(500)).unwrap().unwrap();
    limiter.clear();
    assert_eq!(limiter.key_count(), 0);
    let late = limiter.acquire_again_at(waiter, 2, at(600), at(600));
    assert!(matches!(late, Err(RateLimiterError::Timeout)));

    assert!(limiter.try_acquire_at(&"b", 2, at(600)));
    let (waiter, _) = limiter.acquire_at(&"b", 1, at(9000), at(600)).unwrap().unwrap();
    assert!(limiter.try_acquire_at(&"b", 1, at(1100)));
    let (waiter, _) = limiter.acquire_again_at(waiter, 1, at(9000), at(1100)).unwrap().unwrap();
    limiter.give_up(waiter);
    assert_eq!(limiter.key_count(), 1);
    let deadline = limiter.now();
    let (waiter, _) = limiter.acquire_at(&"b", 1, at(9000), at(1100)).unwrap().unwrap();
    assert!(!matches!(limiter.acquire_again(waiter, 3, deadline), Ok(None)));
}

#[test]
fn test_keyed_limiter_remove() {
    let config = RateLimiterConfig::per_second(5);
    let mut limiter = KeyedRateLimiter::new(config);

    limiter.try_acquire(&"user1", 1);
    limiter.try_acquire_one(&"user2");
    assert_eq!(limiter.key_count(), 2);

    limiter.remove_key(&"user1");
    assert_eq!(limiter.key_count(), 1);
    limiter.remove_key(&"user1");
    assert_eq!(limiter.key_count(), 1);
}

#[test]
fn test_reset() {
    let config = RateLimiterConfig::per_second(10);
    let mut limiter = RateLimiter::with_config_at(config, Clock::start(), at(0));

    limiter.try_acquire_at(10, at(0));
    assert_eq!(limiter.available_tokens_at(at(0)), 0);

    limiter.reset_at(at(0));
    assert_eq!(limiter.available_tokens_at(at(0)), 10);
    limiter.reset();
}

#[test]
fn rate_is_limited_over_time() {
    let config = RateLimiterConfig::new()
        .with_capacity(5)
        .with_refill_amount(3)
        .with_refill_interval(Duration::from_millis(10));
    let mut limiter = RateLimiter::with_config_at(config, Clock::start(), at(0));
    let mut granted = 0;
    for ms in 0..1000 {
        for _ in 0..4 {
            if limiter.try_acquire_at(1, at(ms)) {
                granted += 1;
            }
        }
    }
    assert_eq!(granted, 5 + 999 * 3 / 10);
}

#[test]
fn held_tokens_need_no_refill() {
    let config = RateLimiterConfig::new().with_capacity(5).with_refill_amount(0);
    let mut limiter = RateLimiter::with_config(config);
    let deadline = limiter.now().plus(Duration::from_secs(1));
    assert_eq!(limiter.acquire(4, deadline), Ok(None));
    assert_eq!(limiter.acquire_one(deadline), Ok(None));
    assert!(!limiter.try_acquire_one());
    let mut keyed = KeyedRateLimiter::new(config);
    let deadline = keyed.now().plus(Duration::from_secs(1));
    assert!(matches!(keyed.acquire(&"a", 4, deadline), Ok(None)));
    assert!(matches!(keyed.acquire_one(&"a", deadline), Ok(None)));
    assert!(!keyed.try_acquire_one(&"a"));
}

#[test]
fn limiter_of_real_time() {
    let mut limiter = RateLimiter::default();
    let deadline = limiter.now().plus(Duration::from_secs(1));
    assert_eq!(limiter.acquire(100, deadline), Ok(None));
    assert!(matches!(limiter.acquire_one(deadline), Ok(_)));
    let mut keyed = KeyedRateLimiter::new(RateLimiterConfig::per_minute(1));
    let deadline = keyed.now();
    assert!(matches!(keyed.acquire(&7u64, 1, deadline), Ok(None)));
    let late = keyed.acquire_one(&7u64, deadline);
    assert!(matches!(late, Err(RateLimiterError::Timeout)));
    let mut one = RateLimiter::new();
    assert!(one.try_acquire_one());
}
