use rust_network_system::pooling::connection_pool::PooledGuard;
use rust_network_system::pooling::{
    Backend, Cache, CacheConfig, ConnectionPool, HealthCheckConfig, LoadBalancer,
    LoadBalancerConfig, PoolConfig, PoolError, Strategy, TieredCache,
};
use rust_network_system::time::{Clock, Duration, Instant};

fn at(millis: u64) -> Instant {
    Instant::after_start(Duration::from_millis(millis))
}

fn key(s: &str) -> String {
    s.to_string()
}

#[test]
fn test_cache_insert_get() {
    let mut cache = Cache::<String, i32>::with_default_config();

    cache.insert("key1".to_string(), 42);
    assert_eq!(cache.get(&"key1".to_string()), Some(42));
    assert_eq!(cache.get(&"key2".to_string()), None);
}

#[test]
fn test_cache_capacity() {
    let config = CacheConfig::new().with_capacity(2);
    let mut cache = Cache::<String, i32>::new(config);

    cache.insert("key1".to_string(), 1);
    cache.insert("key2".to_string(), 2);
    cache.insert("key3".to_string(), 3);

    assert_eq!(cache.get(&"key1".to_string()), None);
    assert_eq!(cache.get(&"key2".to_string()), Some(2));
    assert_eq!(cache.get(&"key3".to_string()), Some(3));
}

#[test]
fn test_lru_order() {
    let config = CacheConfig::new().with_capacity(2);
    let mut cache = Cache::<String, i32>::new(config);

    cache.insert("key1".to_string(), 1);
    cache.insert("key2".to_string(), 2);
    cache.get(&"key1".to_string());
    cache.insert("key3".to_string(), 3);

    assert_eq!(cache.get(&"key1".to_string()), Some(1));
    assert_eq!(cache.get(&"key2".to_string()), None);
    assert_eq!(cache.get(&"key3".to_string()), Some(3));
}

#[test]
fn without_lru_the_oldest_goes() {
    let config = CacheConfig::new().with_capacity(2).with_lru(false);
    let mut cache = Cache::<u64, i32>::new(config);
    cache.insert(1, 10);
    cache.insert(2, 20);
    assert_eq!(cache.get(&1), Some(10));
    cache.insert(3, 30);
    assert_eq!(cache.get(&1), None);
    assert_eq!(cache.get(&2), Some(20));
}

#[test]
fn inserting_again_replaces_and_refreshes() {
    let config = CacheConfig::new().with_capacity(2);
    let mut cache = Cache::<&str, i32>::new(config);
    cache.insert("a", 1);
    cache.insert("b", 2);
    cache.insert("a", 3);
    assert_eq!(cache.stats().size, 2);
    cache.insert("c", 4);
    assert_eq!(cache.get(&"a"), Some(3));
    assert_eq!(cache.get(&"b"), None);
}

#[test]
fn test_ttl_expiration() {
    let config = CacheConfig::new().with_ttl(Some(Duration::from_millis(50)));
    let mut cache = Cache::<String, i32>::new(config);

    cache.insert_at("key1".to_string(), 42, at(0));
    assert_eq!(cache.get_at(&"key1".to_string(), at(50)), Some(42));
    assert_eq!(cache.get_at(&"key1".to_string(), at(100)), None);
    assert_eq!(cache.stats().size, 0);
}

#[test]
fn test_prune_expired() {
    let config = CacheConfig::new().with_ttl(Some(Duration::from_millis(50)));
    let mut cache = Cache::<String, i32>::new(config);

    cache.insert_at("key1".to_string(), 1, at(0));
    cache.insert_at("key2".to_string(), 2, at(0));

    let pruned = cache.prune_expired_at(at(100));
    assert_eq!(pruned, 2);
    assert_eq!(cache.stats().size, 0);
}

#[test]
fn pruning_keeps_what_is_fresh() {
    let config = CacheConfig::new().with_ttl(Some(Duration::from_millis(50)));
    let mut cache = Cache::<String, i32>::new(config);
    cache.insert_at("key1".to_string(), 1, at(0));
    cache.insert_at("key2".to_string(), 2, at(10));
    cache.insert_at("key3".to_string(), 3, at(90));
    assert_eq!(cache.prune_expired_at(at(100)), 2);
    assert_eq!(cache.stats().size, 1);
    assert_eq!(cache.get_at(&"key3".to_string(), at(100)), Some(3));

    let mut forever = Cache::<u32, u8>::new(CacheConfig::new().with_ttl(None));
    forever.insert(1, 1);
    assert_eq!(forever.prune_expired(), 0);
}

#[test]
fn test_get_or_insert_with() {
    let mut cache = Cache::<String, i32>::with_default_config();

    let value1 = cache.get_or_insert_with("key1".to_string(), || 42);
    assert_eq!(value1, 42);

    let value2 = cache.get_or_insert_with("key1".to_string(), || 100);
    assert_eq!(value2, 42);
}

#[test]
fn a_computed_value_is_as_old_as_its_insertion() {
    let config = CacheConfig::new().with_ttl(Some(Duration::from_millis(50)));
    let mut cache = Cache::<u64, i32>::new(config);
    assert_eq!(cache.get_or_insert_with_at(1, || 7, at(0), at(40)), 7);
    assert_eq!(cache.get_or_insert_with_at(1, || 8, at(90), at(90)), 7);
    assert_eq!(cache.get_or_insert_with_at(1, || 9, at(91), at(95)), 9);
}

#[test]
fn test_cache_stats() {
    let mut cache = Cache::<String, i32>::with_default_config();

    cache.insert("key1".to_string(), 1);
    cache.insert("key2".to_string(), 2);

    cache.get(&"key1".to_string());
    cache.get(&"key1".to_string());
    cache.get(&"key2".to_string());

    let stats = cache.stats();
    assert_eq!(stats.size, 2);
    assert_eq!(stats.total_accesses, 3);
    assert_eq!(stats.capacity, 1000);
}

#[test]
fn test_tiered_cache() {
    let mut cache = TieredCache::<String, i32>::new(10, Some(Duration::from_secs(60)));

    cache.insert("key1".to_string(), 42);
    assert_eq!(cache.get(&"key1".to_string()), Some(42));

    let stats = cache.stats();
    assert_eq!(stats.size, 1);
    assert_eq!(stats.capacity, 10);

    cache.insert_at(key("k"), 1, at(0));
    assert_eq!(cache.get_at(&key("k"), at(60_001)), None);
    cache.clear();
    assert_eq!(cache.stats().size, 0);
}

#[test]
fn test_remove() {
    let mut cache = Cache::<String, i32>::with_default_config();

    cache.insert("key1".to_string(), 42);
    assert_eq!(cache.get(&"key1".to_string()), Some(42));

    let removed = cache.remove(&"key1".to_string());
    assert_eq!(removed, Some(42));
    assert_eq!(cache.get(&"key1".to_string()), None);
    assert_eq!(cache.remove(&"key1".to_string()), None);
}

#[test]
fn test_clear() {
    let mut cache = Cache::<String, i32>::with_default_config();

    cache.insert("key1".to_string(), 1);
    cache.insert("key2".to_string(), 2);

    cache.clear();

    let stats = cache.stats();
    assert_eq!(stats.size, 0);
}

#[test]
fn cache_without_capacity_keeps_the_last() {
    let mut cache = Cache::<i64, i32>::new(CacheConfig::new().with_capacity(0));
    cache.insert(1, 1);
    cache.insert(2, 2);
    assert_eq!(cache.stats().size, 1);
    assert_eq!(cache.get(&2), Some(2));
}

#[test]
fn recently_used_entries_survive() {
    let mut cache = Cache::<i32, i32>::new(CacheConfig::new().with_capacity(4));
    for k in 0..4 {
        cache.insert(k, k);
    }
    assert_eq!(cache.get(&0), Some(0));
    for k in 10..13 {
        cache.insert(k, k);
    }
    assert_eq!(cache.get(&0), Some(0));
    assert_eq!(cache.get(&3), None);
    assert_eq!(cache.stats().size, 4);
}

struct Connections {
    next: u32,
}

impl Connections {
    fn create(&mut self) -> Result<u32, String> {
        self.next += 1;
        Ok(self.next)
    }
}

fn take(
    pool: &mut ConnectionPool<u32>,
    made: &mut Connections,
    now: Instant,
) -> Result<PooledGuard<u32>, PoolError<String>> {
    if !pool.acquire() {
        return Err(pool.acquire_timed_out());
    }
    match pool.checkout_at(now).0 {
        Some(guard) => Ok(guard),
        None => {
            let outcome = made.create();
            pool.create_connection_at(outcome, now)
        }
    }
}

#[test]
fn test_pool_creation() {
    let config = PoolConfig::new().with_max_size(5);
    let pool = ConnectionPool::<u32>::new(config);

    let stats = pool.stats();
    assert_eq!(stats.available, 0);
    assert_eq!(stats.total, 0);
    assert_eq!(stats.max_size, 5);
}

#[test]
fn test_acquire_connection() {
    let mut pool = ConnectionPool::<u32>::with_default_config();
    let mut made = Connections { next: 0 };
    let conn = take(&mut pool, &mut made, at(0)).unwrap();
    assert!(*conn.as_ref() >= 1);
    assert_eq!(pool.stats().total, 1);
}

#[test]
fn test_connection_reuse() {
    let mut pool = ConnectionPool::<u32>::with_default_config();
    let mut made = Connections { next: 0 };
    let conn = take(&mut pool, &mut made, at(0)).unwrap();
    let conn1_id = *conn.as_ref();
    pool.release_at(conn, at(10));
    assert_eq!(pool.stats().available, 1);

    let conn2 = take(&mut pool, &mut made, at(20)).unwrap();
    assert_eq!(*conn2.as_ref(), conn1_id);
}

#[test]
fn test_max_connections() {
    let config = PoolConfig::new()
        .with_max_size(2)
        .with_acquire_timeout(Duration::from_millis(100));
    let mut pool = ConnectionPool::<u32>::new(config);
    let mut made = Connections { next: 0 };
    let _c1 = take(&mut pool, &mut made, at(0)).unwrap();
    let _c2 = take(&mut pool, &mut made, at(0)).unwrap();
    assert_eq!(pool.stats().total, 2);
    assert_eq!(pool.acquire_timeout(), Duration::from_millis(100));

    let result = take(&mut pool, &mut made, at(0));
    assert!(matches!(result, Err(PoolError::Timeout)));
}

#[test]
fn test_concurrent_access() {
    let mut pool = ConnectionPool::<u32>::with_default_config();
    let mut made = Connections { next: 0 };
    let guards: Vec<PooledGuard<u32>> =
        (0..10).map(|_| take(&mut pool, &mut made, at(0)).unwrap()).collect();
    for guard in guards {
        pool.release_at(guard, at(5));
    }
    assert!(pool.stats().total <= 10);
}

#[test]
fn test_pool_timeout_under_load() {
    let mut pool = ConnectionPool::<u32>::new(PoolConfig::new().with_max_size(5));
    let mut made = Connections { next: 0 };
    let mut guards = Vec::new();
    for _ in 0..5 {
        guards.push(take(&mut pool, &mut made, at(0)).expect("Should acquire connection"));
    }
    assert!(matches!(take(&mut pool, &mut made, at(0)), Err(PoolError::Timeout)));
    pool.release_at(guards.pop().unwrap(), at(1));
    assert!(take(&mut pool, &mut made, at(2)).is_ok());
}

#[test]
fn test_pool_connection_lifecycle() {
    let config = PoolConfig::new()
        .with_min_size(1)
        .with_max_size(10)
        .with_idle_timeout(Duration::from_millis(100))
        .with_max_lifetime(Some(Duration::from_millis(200)));
    let mut pool = ConnectionPool::<u32>::new(config);
    let mut made = Connections { next: 0 };
    let conn = take(&mut pool, &mut made, at(0)).unwrap();
    let conn_id = *conn.as_ref();
    pool.release_at(conn, at(0));
    assert_eq!(pool.stats().available, 1);

    let (needed, expired) = pool.prune_idle_at(at(250));
    assert_eq!(expired, vec![conn_id]);
    assert_eq!(needed, 1);
    let fresh = made.create().unwrap();
    assert!(pool.add_idle_at(fresh, at(250)).is_none());

    let new_conn = take(&mut pool, &mut made, at(260)).unwrap();
    assert_ne!(conn_id, *new_conn.as_ref());
}

#[test]
fn lifetime_counts_from_creation() {
    let config = PoolConfig::new().with_max_lifetime(Some(Duration::from_millis(200)));
    let mut pool = ConnectionPool::<u32>::new(config);
    let mut made = Connections { next: 0 };
    let conn = take(&mut pool, &mut made, at(0)).unwrap();
    pool.release_at(conn, at(150));
    let conn = take(&mut pool, &mut made, at(199)).unwrap();
    assert_eq!(*conn.as_ref(), 1);
    pool.release_at(conn, at(199));
    let conn = take(&mut pool, &mut made, at(201)).unwrap();
    assert_eq!(*conn.as_ref(), 2);
    assert_eq!(pool.stats().total, 1);
}

#[test]
fn test_pool_maintenance_task() {
    let mut pool = ConnectionPool::<u32>::new(PoolConfig::new().with_min_size(3).with_max_size(10));
    let mut made = Connections { next: 0 };
    let (needed, _) = pool.prune_idle();
    for _ in 0..needed {
        let now = pool.now();
        assert!(pool.add_idle_at(made.create().unwrap(), now).is_none());
    }
    assert!(pool.stats().available >= 3);
    assert_eq!(pool.prune_idle().0, 0);
}

#[test]
fn pool_never_grows_beyond_its_limit() {
    let mut pool = ConnectionPool::<u32>::new(PoolConfig::new().with_min_size(9).with_max_size(2));
    let (needed, _) = pool.prune_idle_at(at(0));
    assert_eq!(needed, 2);
    assert!(pool.acquire());
    assert!(pool.checkout_at(at(0)).0.is_none());
    assert!(pool.add_idle_at(1, at(0)).is_none());
    assert_eq!(pool.add_idle_at(2, at(0)), Some(2));
    let outcome: Result<u32, String> = Ok(3);
    assert!(pool.create_connection_at(outcome, at(0)).is_ok());
    assert_eq!(pool.stats().total, 2);
}

#[test]
fn invalid_connection_is_replaced() {
    let mut pool = ConnectionPool::<u32>::new(PoolConfig::new().with_max_size(1));
    let mut made = Connections { next: 0 };
    let conn = take(&mut pool, &mut made, at(0)).unwrap();
    pool.release_at(conn, at(0));
    assert!(pool.acquire());
    let mut guard = pool.checkout().0.unwrap();
    *guard.as_mut() = 77;
    let guard = pool.validated(guard, true).ok().unwrap();
    assert_eq!(pool.stats().total, 1);
    assert_eq!(pool.validated(guard, false).err(), Some(77));
    assert_eq!(pool.stats().total, 0);
    let failed: Result<u32, String> = Err("refused".to_string());
    let told = pool.create_connection_at(failed, at(0)).err().unwrap();
    assert_eq!(told.to_string(), "Failed to create connection: refused");
    assert!(take(&mut pool, &mut made, at(0)).is_ok());
    assert_eq!(PoolError::<String>::Timeout.to_string(), "Timeout waiting for connection");
    assert_eq!(PoolError::<String>::Closed.to_string(), "Pool is closed");
}

#[test]
fn test_pool_mixed_workload() {
    let mut pool = ConnectionPool::<u32>::new(PoolConfig::new().with_max_size(30));
    let mut made = Connections { next: 0 };
    let long: Vec<PooledGuard<u32>> =
        (0..10).map(|_| take(&mut pool, &mut made, at(0)).unwrap()).collect();
    for i in 10..60 {
        let short = take(&mut pool, &mut made, at(i)).unwrap();
        pool.release(short);
    }
    for guard in long {
        pool.release_at(guard, at(100));
    }
    assert!(pool.stats().total <= 30);
    let closed = pool.shutdown();
    assert_eq!(closed.len(), 11);
    assert_eq!(pool.stats().total, 0);
}

#[test]
fn test_backend_creation() {
    let backend = Backend::new("localhost:8080");
    assert_eq!(backend.address, "localhost:8080");
    assert_eq!(backend.weight, 1);

    let weighted = Backend::with_weight("localhost:8081", 5);
    assert_eq!(weighted.weight, 5);
}

fn servers(n: usize) -> Vec<Backend> {
    (1..=n).map(|i| Backend::new(format!("server{}:8080", i))).collect()
}

#[test]
fn test_round_robin() {
    let mut lb = LoadBalancer::round_robin(servers(3));

    let b1 = lb.select().unwrap();
    let b2 = lb.select().unwrap();
    let b3 = lb.select().unwrap();
    let b4 = lb.select().unwrap();

    assert_eq!(b1.address(), "server1:8080");
    assert_eq!(b2.address(), "server2:8080");
    assert_eq!(b3.address(), "server3:8080");
    assert_eq!(b4.address(), "server1:8080");
}

#[test]
fn test_least_connections() {
    let config = LoadBalancerConfig::new(Strategy::LeastConnections);
    let mut lb = LoadBalancer::new(config, servers(2));

    let g1 = lb.select().unwrap();
    let g2 = lb.select().unwrap();
    assert_eq!(g1.address(), "server1:8080");
    assert_eq!(g2.address(), "server2:8080");
    lb.release(g2);
    assert_eq!(lb.select().unwrap().address(), "server2:8080");

    let mut other = LoadBalancer::least_connections(servers(1));
    assert_eq!(other.select().unwrap().address(), "server1:8080");
}

#[test]
fn test_health_filtering() {
    let mut lb = LoadBalancer::round_robin(servers(2));
    lb.set_backend_health("server1:8080", false);

    let b1 = lb.select().unwrap();
    let b2 = lb.select().unwrap();

    assert_eq!(b1.address(), "server2:8080");
    assert_eq!(b2.address(), "server2:8080");
    lb.set_backend_health("server2:8080", false);
    assert!(lb.select().is_none());
}

#[test]
fn test_add_remove_backend() {
    let mut lb = LoadBalancer::round_robin(servers(1));
    assert_eq!(lb.backend_count(), 1);

    lb.add_backend(Backend::new("server2:8080"));
    assert_eq!(lb.backend_count(), 2);

    lb.remove_backend("server1:8080");
    assert_eq!(lb.backend_count(), 1);
    assert_eq!(lb.select().unwrap().address(), "server2:8080");
}

#[test]
fn test_backend_guard() {
    let mut lb = LoadBalancer::round_robin(servers(1));
    let guard = lb.select().unwrap();
    guard.record_success(&mut lb);
    lb.release(guard);

    let statuses = lb.health_statuses();
    assert_eq!(statuses[0].1.total_requests, 1);
    assert_eq!(statuses[0].1.failed_requests, 0);
}

#[test]
fn test_error_tracking() {
    let mut lb = LoadBalancer::round_robin(servers(1));
    let guard = lb.select().unwrap();
    guard.record_failure(&mut lb);
    guard.record_failure(&mut lb);

    let statuses = lb.health_statuses();
    assert_eq!(statuses[0].1.total_requests, 2);
    assert_eq!(statuses[0].1.failed_requests, 2);
    let rate = statuses[0].1.failed_requests as f64 / statuses[0].1.total_requests as f64;
    assert_eq!(rate, 1.0);
}

#[test]
fn test_healthy_backend_count() {
    let mut lb = LoadBalancer::round_robin(servers(3));
    assert_eq!(lb.healthy_backend_count(), 3);

    lb.set_backend_health("server1:8080", false);
    assert_eq!(lb.healthy_backend_count(), 2);

    lb.set_backend_health("server2:8080", false);
    assert_eq!(lb.healthy_backend_count(), 1);
    lb.set_backend_health("server1:8080", true);
    assert_eq!(lb.healthy_backend_count(), 2);
}

#[test]
fn weights_are_shares() {
    let backends = vec![
        Backend::with_weight("a", 3),
        Backend::with_weight("b", 0),
        Backend::with_weight("c", 2),
    ];
    let config = LoadBalancerConfig::new(Strategy::WeightedRoundRobin).without_health_checks();
    let mut lb = LoadBalancer::new(config, backends);
    let mut order = String::new();
    for _ in 0..10 {
        order.push_str(lb.select().unwrap().address());
    }
    assert_eq!(order, "aaaccaaacc");
    assert!(lb.health_check().is_none());
}

#[test]
fn every_round_honours_the_weights() {
    let weights = [3u32, 0, 2, 1];
    let backends = (0..4).map(|i| Backend::with_weight(format!("{}", i), weights[i])).collect();
    let config = LoadBalancerConfig::new(Strategy::WeightedRoundRobin);
    let mut lb = LoadBalancer::new(config, backends);
    let turns: Vec<usize> =
        (0..30).map(|_| lb.select().unwrap().address().parse().unwrap()).collect();
    for round in turns.windows(6) {
        for (i, weight) in weights.iter().enumerate() {
            assert_eq!(round.iter().filter(|t| **t == i).count(), *weight as usize);
        }
    }
}

#[test]
fn random_selection_follows_the_draw() {
    let config = LoadBalancerConfig::new(Strategy::Random);
    let mut lb = LoadBalancer::new(config, servers(3));
    assert_eq!(lb.select_with(2).unwrap().address(), "server3:8080");
    assert_eq!(lb.select_with(0).unwrap().address(), "server1:8080");
    let mut seen = [false; 3];
    for _ in 0..300 {
        match lb.select().unwrap().address() {
            "server1:8080" => seen[0] = true,
            "server2:8080" => seen[1] = true,
            _ => seen[2] = true,
        }
    }
    assert_eq!(seen, [true, true, true]);
}

#[test]
fn selection_needs_weights_that_add_up() {
    let weighted = |weights: &[u32]| {
        let backends =
            weights.iter().map(|w| Backend::with_weight(format!("server{}:1", w), *w)).collect();
        LoadBalancer::new(LoadBalancerConfig::new(Strategy::WeightedRoundRobin), backends)
    };
    assert!(weighted(&[]).can_select());
    assert!(!weighted(&[0, 0]).can_select());
    assert!(weighted(&[u32::MAX - 1, 1]).can_select());
    assert!(!weighted(&[u32::MAX, 0, 1]).can_select());
    let mut one_down = weighted(&[u32::MAX, 1]);
    assert!(!one_down.can_select());
    one_down.set_backend_health("server1:1", false);
    assert!(one_down.can_select());
    assert!(one_down.select().is_some());
    let turns = LoadBalancer::round_robin(vec![Backend::with_weight("a:1", 0)]);
    assert!(turns.can_select());
}

#[test]
fn keys_of_many_types() {
    let mut flags = Cache::<(bool, char), u8>::with_default_config();
    flags.insert((true, 'x'), 1);
    flags.insert((false, 'x'), 2);
    assert_eq!(flags.get(&(true, 'x')), Some(1));
    assert_eq!(flags.get(&(true, 'y')), None);
    let mut places = Cache::<(u8, i128, String), u8>::with_default_config();
    places.insert((1, -2, key("three")), 6);
    assert_eq!(places.get(&(1, -2, key("three"))), Some(6));
    assert_eq!(places.get(&(1, -2, key("four"))), None);
    assert_eq!(places.get(&(1, 2, key("three"))), None);
    let mut numbers = Cache::<(usize, isize), u8>::with_default_config();
    numbers.insert((3, -3), 9);
    assert_eq!(numbers.get(&(3, -3)), Some(9));
    let mut wide = Cache::<(u16, i16, (u128, i8)), u8>::with_default_config();
    wide.insert((1, 2, (3, 4)), 10);
    assert_eq!(wide.get(&(1, 2, (3, 4))), Some(10));
    assert_eq!(wide.get(&(1, 2, (3, 5))), None);
}

#[test]
fn health_checks_count() {
    let check = HealthCheckConfig::default();
    assert_eq!(check.interval, Duration::from_secs(10));
    let config = LoadBalancerConfig::default();
    assert_eq!(config.strategy, Strategy::RoundRobin);
    let mut lb = LoadBalancer::new_at(config, servers(1), Clock::start(), at(0));
    let targets = lb.health_targets();
    let id = targets[0].0;
    assert_eq!(targets[0].1.address, "server1:8080");

    lb.health_checked_at(id, false, at(1));
    assert_eq!(lb.healthy_backend_count(), 1);
    let guard = lb.select().unwrap();
    for _ in 0..3 {
        guard.record_failure(&mut lb);
    }
    lb.health_checked_at(id, false, at(2));
    assert_eq!(lb.healthy_backend_count(), 0);

    lb.health_checked_at(id, true, at(3));
    assert_eq!(lb.healthy_backend_count(), 0);
    lb.health_checked_at(id, true, at(4));
    assert_eq!(lb.healthy_backend_count(), 1);
    let status = lb.health_statuses()[0].1;
    assert_eq!(status.consecutive_failures, 0);
    assert_eq!(status.last_check, at(4));
}

#[test]
fn test_pool_high_concurrency() {
    let config = PoolConfig::new()
        .with_min_size(5)
        .with_max_size(50)
        .with_acquire_timeout(Duration::from_secs(5));
    let mut pool = ConnectionPool::<u32>::new(config);
    let mut made = Connections { next: 0 };

    let mut waiting = 200;
    let mut success_count = 0;
    let mut unique_connections = std::collections::HashSet::new();
    while waiting > 0 {
        let mut held = Vec::new();
        while waiting > 0 {
            match take(&mut pool, &mut made, at(0)) {
                Ok(conn) => held.push(conn),
                Err(e) => {
                    assert!(matches!(e, PoolError::Timeout));
                    break;
                }
            }
            waiting -= 1;
        }
        for conn in held {
            success_count += 1;
            unique_connections.insert(*conn.as_ref());
            pool.release_at(conn, at(5));
        }
    }

    assert_eq!(success_count, 200, "All tasks should acquire connections");
    assert!(unique_connections.len() <= 50);
    pool.shutdown();
}

#[test]
fn test_pool_stress_with_rapid_acquire_release() {
    let config = PoolConfig::new()
        .with_min_size(2)
        .with_max_size(20)
        .with_acquire_timeout(Duration::from_secs(10));
    let mut pool = ConnectionPool::<u32>::new(config);
    let mut made = Connections { next: 0 };
    for i in 0..100 {
        for _ in 0..10 {
            let conn = take(&mut pool, &mut made, at(i)).expect("Should acquire");
            pool.release_at(conn, at(i));
        }
    }
    let stats = pool.stats();
    assert!(stats.available > 0, "Should have available connections after stress test");
    assert!(stats.total <= 20, "Should not exceed max pool size");
    pool.shutdown();
}

#[test]
fn backends_can_be_added() {
    let mut lb = LoadBalancer::round_robin(Vec::new());
    assert!(lb.select().is_none());
    assert!(lb.can_add_backend());
    lb.add_backend(Backend::new("a"));
    assert_eq!(lb.select().unwrap().address(), "a");
}
