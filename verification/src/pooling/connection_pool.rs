//! Generic connection pooling.
//!
//! Connections are made, checked and closed elsewhere. The pool hands out places,
//! keeps the connections that wait to be used again, and counts.

use crate::error::concatenated;
use crate::network::permits;
use crate::time;
use crate::time::{Clock, Duration, Instant};
use tokio::sync::Semaphore;
use vstd::prelude::*;
use vstd::string::*;

verus! {

/// Connection pool configuration.
#[derive(Debug, Clone, Copy)]
pub struct PoolConfig {
    /// Minimum number of connections to maintain.
    pub min_size: usize,
    /// Maximum number of connections allowed.
    pub max_size: usize,
    /// Maximum time to wait for a connection.
    pub acquire_timeout: Duration,
    /// Connection idle timeout (after which it is closed).
    pub idle_timeout: Duration,
    /// Maximum lifetime of a connection.
    pub max_lifetime: Option<Duration>,
}

/// Whether a configuration is the default one.
pub open spec fn is_default_config(c: PoolConfig) -> bool {
    &&& c.min_size == 2
    &&& c.max_size == 10
    &&& c.acquire_timeout@ == time::secs(5)
    &&& c.idle_timeout@ == time::secs(600)
    &&& c.max_lifetime matches Some(d) && d@ == time::secs(3600)
}

impl Default for PoolConfig {
    fn default() -> (c: PoolConfig)
        ensures
            is_default_config(c),
    {
        PoolConfig {
            min_size: 2,
            max_size: 10,
            acquire_timeout: Duration::from_secs(5),
            idle_timeout: Duration::from_secs(600),
            max_lifetime: Some(Duration::from_secs(3600)),
        }
    }
}

impl PoolConfig {
    /// Creates a new pool configuration.
    pub fn new() -> (c: PoolConfig)
        ensures
            is_default_config(c),
    {
        PoolConfig::default()
    }

    /// Sets the minimum pool size.
    pub fn with_min_size(self, size: usize) -> (c: PoolConfig)
        ensures
            c == (PoolConfig { min_size: size, ..self }),
    {
        PoolConfig { min_size: size, ..self }
    }

    /// Sets the maximum pool size.
    pub fn with_max_size(self, size: usize) -> (c: PoolConfig)
        ensures
            c == (PoolConfig { max_size: size, ..self }),
    {
        PoolConfig { max_size: size, ..self }
    }

    /// Sets the acquire timeout.
    pub fn with_acquire_timeout(self, timeout: Duration) -> (c: PoolConfig)
        ensures
            c == (PoolConfig { acquire_timeout: timeout, ..self }),
    {
        PoolConfig { acquire_timeout: timeout, ..self }
    }

    /// Sets the idle timeout.
    pub fn with_idle_timeout(self, timeout: Duration) -> (c: PoolConfig)
        ensures
            c == (PoolConfig { idle_timeout: timeout, ..self }),
    {
        PoolConfig { idle_timeout: timeout, ..self }
    }

    /// Sets the maximum connection lifetime.
    pub fn with_max_lifetime(self, lifetime: Option<Duration>) -> (c: PoolConfig)
        ensures
            c == (PoolConfig { max_lifetime: lifetime, ..self }),
    {
        PoolConfig { max_lifetime: lifetime, ..self }
    }
}

/// Pool statistics.
#[derive(Debug, Clone, Copy)]
pub struct PoolStats {
    /// Number of available connections.
    pub available: usize,
    /// Total number of connections.
    pub total: usize,
    /// Maximum pool size.
    pub max_size: usize,
}

/// Pool errors.
#[derive(Debug)]
pub enum PoolError<E> {
    /// Failed to create connection.
    Create(E),
    /// Timeout waiting for connection.
    Timeout,
    /// Pool is closed.
    Closed,
}

impl PoolError<String> {
    /// The text shown to people.
    pub fn to_string(&self) -> (s: String)
        ensures
            s@ == match self {
                PoolError::Create(e) => "Failed to create connection: "@ + e@,
                PoolError::Timeout => "Timeout waiting for connection"@,
                PoolError::Closed => "Pool is closed"@,
            },
    {
        match self {
            PoolError::Create(e) => concatenated("Failed to create connection: ", e),
            PoolError::Timeout => "Timeout waiting for connection".to_owned(),
            PoolError::Closed => "Pool is closed".to_owned(),
        }
    }
}

/// What is kept of a connection that waits to be used again. Times are in nanoseconds
/// of the pool's clock.
pub struct PooledView<T> {
    pub connection: T,
    pub created_at: nat,
    pub last_used: nat,
}

impl<T> PooledView<T> {
    /// Whether the connection has been idle, or has lived, for too long.
    pub open spec fn expired(self, config: PoolConfig, now: nat) -> bool {
        time::passed(self.last_used, now) > config.idle_timeout@ || (config.max_lifetime matches Some(
            limit,
        ) && time::passed(self.created_at, now) > limit@)
    }
}

/// What a connection is taken out with.
pub struct GuardView<T> {
    pub connection: T,
    pub created_at: nat,
}

/// What a [`ConnectionPool`] holds.
pub struct PoolView<T> {
    pub config: PoolConfig,
    /// The connections that wait to be used again, those to be used next first.
    pub available: Seq<PooledView<T>>,
    /// How many connections are in use.
    pub leased: nat,
    /// How many places are taken for which there is no connection yet.
    pub admitted: nat,
    /// For how many of those places a connection is being made.
    pub creating: nat,
}

impl<T> PoolView<T> {
    /// The pool that was just made.
    pub open spec fn fresh(config: PoolConfig) -> PoolView<T> {
        PoolView { config, available: Seq::empty(), leased: 0, admitted: 0, creating: 0 }
    }

    /// What every pool keeps: no more places taken than there are, and no more
    /// connections, made or being made, than allowed.
    pub open spec fn wf(self) -> bool {
        &&& self.config.max_size <= permits::most_permits()
        &&& self.leased + self.admitted <= self.config.max_size
        &&& self.creating <= self.admitted
        &&& self.available.len() + self.leased + self.creating <= self.config.max_size
    }

    /// The number of connections.
    pub open spec fn total(self) -> nat {
        self.available.len() + self.leased
    }

    /// Whether all places are taken.
    pub open spec fn full(self) -> bool {
        self.leased + self.admitted >= self.config.max_size
    }

    /// The connections that are still good.
    pub open spec fn good(self, now: nat) -> Seq<PooledView<T>> {
        self.available.filter(|c: PooledView<T>| !c.expired(self.config, now))
    }

    /// The connections to close because they have expired, the last first.
    pub open spec fn expired(self, now: nat) -> Seq<T> {
        self.available.filter(|c: PooledView<T>| c.expired(self.config, now)).reverse().map_values(
            |c: PooledView<T>| c.connection,
        )
    }

    /// The pool after the expired connections were removed.
    pub open spec fn swept(self, now: nat) -> PoolView<T> {
        PoolView { available: self.good(now), ..self }
    }

    /// What a place is given: the connection that waited longest, or none where none waits.
    pub open spec fn handed_out(self, now: nat) -> Option<GuardView<T>> {
        if self.good(now).len() > 0 {
            Some(
                GuardView {
                    connection: self.good(now)[0].connection,
                    created_at: self.good(now)[0].created_at,
                },
            )
        } else {
            None
        }
    }

    /// The pool after a place was given the connection that waited longest, or none
    /// where none waits.
    pub open spec fn checked_out(self, now: nat) -> PoolView<T> {
        let p = self.swept(now);
        if p.available.len() > 0 {
            PoolView {
                available: p.available.drop_first(),
                leased: p.leased + 1,
                admitted: (p.admitted - 1) as nat,
                ..p
            }
        } else {
            PoolView { creating: p.creating + 1, ..p }
        }
    }

    /// The pool after a connection in use was discarded: another is to be made in its
    /// place.
    pub open spec fn discarded(self) -> PoolView<T> {
        PoolView {
            leased: (self.leased - 1) as nat,
            admitted: self.admitted + 1,
            creating: self.creating + 1,
            ..self
        }
    }

    /// The pool after a place was taken.
    pub open spec fn placed(self) -> PoolView<T> {
        PoolView { admitted: self.admitted + 1, ..self }
    }

    /// The pool after a connection was made for a place.
    pub open spec fn created(self) -> PoolView<T> {
        PoolView {
            leased: self.leased + 1,
            admitted: (self.admitted - 1) as nat,
            creating: (self.creating - 1) as nat,
            ..self
        }
    }

    /// The pool after no connection could be made for a place.
    pub open spec fn creation_failed(self) -> PoolView<T> {
        PoolView {
            admitted: (self.admitted - 1) as nat,
            creating: (self.creating - 1) as nat,
            ..self
        }
    }

    /// Whether there is room for a connection that is made ahead of use.
    pub open spec fn has_room(self) -> bool {
        self.total() + self.creating < self.config.max_size
    }

    /// The pool after a connection was made ahead of use.
    pub open spec fn idle_added(self, connection: T, now: nat) -> PoolView<T> {
        PoolView {
            available: self.available.push(
                PooledView { connection, created_at: now, last_used: now },
            ),
            ..self
        }
    }

    /// The pool after all connections that wait were removed.
    pub open spec fn drained(self) -> PoolView<T> {
        PoolView { available: Seq::empty(), ..self }
    }

    /// The pool after a connection came back.
    pub open spec fn released(self, guard: GuardView<T>, now: nat) -> PoolView<T> {
        PoolView {
            available: self.available.push(
                PooledView {
                    connection: guard.connection,
                    created_at: guard.created_at,
                    last_used: now,
                },
            ),
            leased: (self.leased - 1) as nat,
            ..self
        }
    }
}

/// A connection that waits to be used again.
struct PooledConnection<T> {
    connection: T,
    created_at: Instant,
    last_used: Instant,
}

impl<T> View for PooledConnection<T> {
    type V = PooledView<T>;

    closed spec fn view(&self) -> PooledView<T> {
        PooledView {
            connection: self.connection,
            created_at: self.created_at@,
            last_used: self.last_used@,
        }
    }
}

impl<T> PooledConnection<T> {
    /// Whether the connection has been idle, or has lived, for too long.
    fn is_expired(&self, config: &PoolConfig, now: Instant) -> (b: bool)
        ensures
            b == self@.expired(*config, now@),
    {
        if now.duration_since(self.last_used).exceeds(config.idle_timeout) {
            return true;
        }
        match config.max_lifetime {
            Some(limit) => now.duration_since(self.created_at).exceeds(limit),
            None => false,
        }
    }
}

/// A connection in use.
pub struct PooledGuard<T> {
    connection: T,
    created_at: Instant,
}

impl<T> View for PooledGuard<T> {
    type V = GuardView<T>;

    closed spec fn view(&self) -> GuardView<T> {
        GuardView { connection: self.connection, created_at: self.created_at@ }
    }
}

impl<T> PooledGuard<T> {
    /// The connection.
    pub fn as_ref(&self) -> (c: &T)
        ensures
            *c == self@.connection,
    {
        &self.connection
    }

    /// The connection, to be changed.
    pub fn as_mut(&mut self) -> (c: &mut T)
        ensures
            *c == old(self)@.connection,
            final(self)@ == (GuardView { connection: *final(c), ..old(self)@ }),
    {
        &mut self.connection
    }
}

/// Generic connection pool.
pub struct ConnectionPool<T> {
    config: PoolConfig,
    clock: Clock,
    semaphore: Semaphore,
    available: Vec<PooledConnection<T>>,
    leased: usize,
    admitted: usize,
    creating: usize,
}

impl<T> View for ConnectionPool<T> {
    type V = PoolView<T>;

    closed spec fn view(&self) -> PoolView<T> {
        PoolView {
            config: self.config,
            available: self.available@.map_values(|c: PooledConnection<T>| c@),
            leased: self.leased as nat,
            admitted: self.admitted as nat,
            creating: self.creating as nat,
        }
    }
}

impl<T> ConnectionPool<T> {
    /// Whether the pool is in order: what holds of its view, and as many permits left
    /// as places are free.
    pub closed spec fn wf(&self) -> bool {
        &&& self@.wf()
        &&& !permits::permits_closed(self.semaphore)
        &&& permits::permits_free(self.semaphore) + self.leased + self.admitted
            == self.config.max_size
    }

    /// A pool that is in order is one whose view is.
    pub proof fn wf_view(&self)
        requires
            self.wf(),
        ensures
            self@.wf(),
    {
    }

    /// Creates a new connection pool.
    pub fn new(config: PoolConfig) -> (p: ConnectionPool<T>)
        requires
            config.max_size <= permits::most_permits(),
        ensures
            p.wf(),
            p@ == PoolView::<T>::fresh(config),
    {
        let p = ConnectionPool {
            config,
            clock: Clock::start(),
            semaphore: permits::permits_new(config.max_size),
            available: Vec::new(),
            leased: 0,
            admitted: 0,
            creating: 0,
        };
        assert(p@.available =~= Seq::empty());
        p
    }

    /// Creates a pool with the default configuration.
    pub fn with_default_config() -> (p: ConnectionPool<T>)
        ensures
            p.wf(),
            is_default_config(p@.config),
            p@ == PoolView::<T>::fresh(p@.config),
    {
        ConnectionPool::new(PoolConfig::default())
    }

    /// What the pool's clock shows. Any time may come.
    pub fn now(&self) -> Instant {
        self.clock.now()
    }

    /// Current pool statistics.
    pub fn stats(&self) -> (s: PoolStats)
        requires
            self.wf(),
        ensures
            s.available == self@.available.len(),
            s.total == self@.total(),
            s.max_size == self@.config.max_size,
    {
        PoolStats {
            available: self.available.len(),
            total: self.available.len() + self.leased,
            max_size: self.config.max_size,
        }
    }

    /// Takes a place, and says whether one was free. Where none is, the caller asks
    /// again when a connection comes back, and within the acquire timeout.
    pub fn acquire(&mut self) -> (taken: bool)
        requires
            old(self).wf(),
        ensures
            final(self).wf(),
            taken == !old(self)@.full(),
            final(self)@ == if taken {
                old(self)@.placed()
            } else {
                old(self)@
            },
    {
        if !permits::permits_take(&mut self.semaphore) {
            return false;
        }
        self.admitted = self.admitted + 1;
        true
    }

    /// How long to wait for a place.
    pub fn acquire_timeout(&self) -> (d: Duration)
        ensures
            d == self@.config.acquire_timeout,
    {
        self.config.acquire_timeout
    }

    /// What is told where no place was free in time.
    pub fn acquire_timed_out<E>(&self) -> (e: PoolError<E>)
        ensures
            e == PoolError::<E>::Timeout,
    {
        PoolError::Timeout
    }

    /// Removes the expired connections and returns them for cleanup.
    fn remove_expired(&mut self, now: Instant) -> (expired: Vec<T>)
        requires
            old(self).wf(),
        ensures
            final(self).wf(),
            final(self)@ == old(self)@.swept(now@),
            expired@ == old(self)@.expired(now@),
    {
        let ghost before = self@;
        let ghost all = before.available;
        let ghost good = |c: PooledView<T>| !c.expired(before.config, now@);
        let ghost bad = |c: PooledView<T>| c.expired(before.config, now@);
        let ghost taken = |c: PooledView<T>| c.connection;
        let mut expired: Vec<T> = Vec::new();
        let mut i: usize = self.available.len();
        proof {
            reveal(Seq::filter);
            assert(all.skip(all.len() as int) =~= Seq::empty());
            assert(all.take(all.len() as int) + all.skip(all.len() as int).filter(good) =~= all);
            assert(all.skip(all.len() as int).filter(bad).reverse().map_values(taken) =~= Seq::empty());
        }
        while i > 0
            invariant
                i <= all.len(),
                good == (|c: PooledView<T>| !c.expired(before.config, now@)),
                bad == (|c: PooledView<T>| c.expired(before.config, now@)),
                taken == (|c: PooledView<T>| c.connection),
                all == before.available,
                self@ == (PoolView { available: self@.available, ..before }),
                self@.available == all.take(i as int) + all.skip(i as int).filter(good),
                expired@ == all.skip(i as int).filter(bad).reverse().map_values(taken),
                self.semaphore == old(self).semaphore,
            decreases i,
        {
            i = i - 1;
            let ghost held = self@.available;
            let ghost out = expired@;
            proof {
                let head = seq![all[i as int]];
                let rest = all.skip(i + 1);
                assert(all.skip(i as int) =~= head + rest);
                Seq::filter_distributes_over_add(head, rest, good);
                Seq::filter_distributes_over_add(head, rest, bad);
                reveal(Seq::filter);
                assert(head.drop_last() =~= Seq::empty());
                assert(head.drop_last().filter(good) =~= Seq::empty());
                assert(head.drop_last().filter(bad) =~= Seq::empty());
                assert(held.len() == self.available@.len());
                assert(head.last() == all[i as int]);
                assert(held[i as int] == all[i as int]);
                assert(held[i as int] == self.available@[i as int]@);
                if bad(all[i as int]) {
                    assert(head.filter(good) =~= Seq::empty());
                    assert(head.filter(bad) =~= head);
                    assert((head + rest.filter(bad)).reverse() =~= rest.filter(bad).reverse().push(
                        all[i as int],
                    ));
                    assert(rest.filter(bad).reverse().push(all[i as int]).map_values(taken)
                        =~= out.push(all[i as int].connection));
                    assert(held.remove(i as int) =~= all.take(i as int) + rest.filter(good));
                } else {
                    assert(head.filter(good) =~= head);
                    assert(head.filter(bad) =~= Seq::empty());
                    assert(head.filter(bad) + rest.filter(bad) =~= rest.filter(bad));
                    assert(held =~= all.take(i as int) + (head + rest.filter(good)));
                }
            }
            if self.available[i].is_expired(&self.config, now) {
                let pooled = self.available.remove(i);
                assert(self@.available =~= held.remove(i as int));
                expired.push(pooled.connection);
            }
        }
        proof {
            assert(all.skip(0) =~= all);
            assert(all.take(0) + all.filter(good) =~= all.filter(good));
            all.lemma_filter_len(good);
        }
        expired
    }

    /// Gives a place, at a given time, the connection that waited longest, or none
    /// where none waits: then one is to be made. Expired connections are removed first
    /// and come back, to be closed.
    pub fn checkout_at(&mut self, now: Instant) -> (r: (Option<PooledGuard<T>>, Vec<T>))
        requires
            old(self).wf(),
            old(self)@.creating < old(self)@.admitted,
        ensures
            final(self).wf(),
            final(self)@ == old(self)@.checked_out(now@),
            r.1@ == old(self)@.expired(now@),
            match r.0 {
                Some(guard) => old(self)@.handed_out(now@) == Some(guard@),
                None => old(self)@.handed_out(now@) is None,
            },
    {
        let expired = self.remove_expired(now);
        let ghost held = self@.available;
        if self.available.len() == 0 {
            self.creating = self.creating + 1;
            return (None, expired);
        }
        assert(held[0] == self.available@[0]@);
        let pooled = self.available.remove(0);
        assert(self@.available =~= held.drop_first());
        self.admitted = self.admitted - 1;
        self.leased = self.leased + 1;
        (
            Some(PooledGuard { connection: pooled.connection, created_at: pooled.created_at }),
            expired,
        )
    }

    /// Gives a place the connection that waited longest, or none where none waits.
    pub fn checkout(&mut self) -> (r: (Option<PooledGuard<T>>, Vec<T>))
        requires
            old(self).wf(),
            old(self)@.creating < old(self)@.admitted,
        ensures
            final(self).wf(),
            exists|now: nat|
                {
                    &&& final(self)@ == #[trigger] old(self)@.checked_out(now)
                    &&& r.1@ == old(self)@.expired(now)
                    &&& match r.0 {
                        Some(guard) => old(self)@.handed_out(now) == Some(guard@),
                        None => old(self)@.handed_out(now) is None,
                    }
                },
    {
        let now = self.clock.now();
        self.checkout_at(now)
    }

    /// Discards a connection that turned out to be invalid: another is to be made in
    /// its place.
    pub fn discard(&mut self, guard: PooledGuard<T>) -> (connection: T)
        requires
            old(self).wf(),
            old(self)@.leased > 0,
        ensures
            final(self).wf(),
            connection == guard@.connection,
            final(self)@ == old(self)@.discarded(),
    {
        self.leased = self.leased - 1;
        self.admitted = self.admitted + 1;
        self.creating = self.creating + 1;
        guard.connection
    }

    /// What follows from whether a connection that was checked out is still valid: it is
    /// used, or it is discarded and another is to be made in its place.
    pub fn validated(&mut self, guard: PooledGuard<T>, valid: bool) -> (r: Result<
        PooledGuard<T>,
        T,
    >)
        requires
            old(self).wf(),
            old(self)@.leased > 0,
        ensures
            final(self).wf(),
            match r {
                Ok(kept) => valid && kept@ == guard@ && final(self)@ == old(self)@,
                Err(connection) => !valid && connection == guard@.connection && final(self)@
                    == old(self)@.discarded(),
            },
    {
        if valid {
            Ok(guard)
        } else {
            Err(self.discard(guard))
        }
    }

    /// What came of making a connection, at a given time: it is in use and counts, or
    /// its place is free again.
    pub fn create_connection_at<E>(&mut self, outcome: Result<T, E>, now: Instant) -> (r: Result<
        PooledGuard<T>,
        PoolError<E>,
    >)
        requires
            old(self).wf(),
            old(self)@.creating > 0,
        ensures
            final(self).wf(),
            match (outcome, r) {
                (Ok(c), Ok(guard)) => guard@ == (GuardView { connection: c, created_at: now@ })
                    && final(self)@ == old(self)@.created(),
                (Err(e), Err(told)) => told == PoolError::<E>::Create(e) && final(self)@ == old(
                    self,
                )@.creation_failed(),
                _ => false,
            },
    {
        self.creating = self.creating - 1;
        self.admitted = self.admitted - 1;
        match outcome {
            Ok(connection) => {
                self.leased = self.leased + 1;
                Ok(PooledGuard { connection, created_at: now })
            },
            Err(e) => {
                permits::permits_give(&mut self.semaphore, 1);
                Err(PoolError::Create(e))
            },
        }
    }

    /// Takes a connection back, at a given time: it waits to be used again, and its
    /// place is free.
    pub fn release_at(&mut self, guard: PooledGuard<T>, now: Instant)
        requires
            old(self).wf(),
            old(self)@.leased > 0,
        ensures
            final(self).wf(),
            final(self)@ == old(self)@.released(guard@, now@),
    {
        let ghost held = self@.available;
        let pooled = PooledConnection {
            connection: guard.connection,
            created_at: guard.created_at,
            last_used: now,
        };
        let ghost p = pooled@;
        self.available.push(pooled);
        assert(self@.available =~= held.push(p));
        self.leased = self.leased - 1;
        permits::permits_give(&mut self.semaphore, 1);
    }

    /// Takes a connection back.
    pub fn release(&mut self, guard: PooledGuard<T>)
        requires
            old(self).wf(),
            old(self)@.leased > 0,
        ensures
            final(self).wf(),
            exists|now: nat| final(self)@ == #[trigger] old(self)@.released(guard@, now),
    {
        let now = self.clock.now();
        self.release_at(guard, now)
    }

    /// Removes the expired connections at a given time, which come back to be closed,
    /// and says how many connections are missing to the minimum. No more are missing
    /// than the maximum allows.
    pub fn prune_idle_at(&mut self, now: Instant) -> (r: (usize, Vec<T>))
        requires
            old(self).wf(),
        ensures
            final(self).wf(),
            final(self)@ == old(self)@.swept(now@),
            r.0 == missing(final(self)@),
            r.1@ == old(self)@.expired(now@),
    {
        let expired = self.remove_expired(now);
        let wanted: usize = if self.config.min_size <= self.config.max_size {
            self.config.min_size
        } else {
            self.config.max_size
        };
        (wanted.saturating_sub(self.available.len() + self.leased), expired)
    }

    /// Removes the expired connections and says how many are missing to the minimum.
    pub fn prune_idle(&mut self) -> (r: (usize, Vec<T>))
        requires
            old(self).wf(),
        ensures
            final(self).wf(),
            exists|now: nat|
                final(self)@ == #[trigger] old(self)@.swept(now) && r.1@ == old(self)@.expired(now),
            r.0 == missing(final(self)@),
    {
        let now = self.clock.now();
        self.prune_idle_at(now)
    }

    /// Adds a connection that was made ahead of use, at a given time. Where there is
    /// no room for it, it comes back, to be closed.
    pub fn add_idle_at(&mut self, connection: T, now: Instant) -> (r: Option<T>)
        requires
            old(self).wf(),
        ensures
            final(self).wf(),
            if old(self)@.has_room() {
                r is None && final(self)@ == old(self)@.idle_added(connection, now@)
            } else {
                r == Some(connection) && final(self)@ == old(self)@
            },
    {
        if self.available.len() + self.leased + self.creating >= self.config.max_size {
            return Some(connection);
        }
        let ghost held = self@.available;
        let pooled = PooledConnection { connection, created_at: now, last_used: now };
        let ghost p = pooled@;
        self.available.push(pooled);
        assert(self@.available =~= held.push(p));
        None
    }

    /// Removes all connections that wait to be used again, in order, to be closed.
    pub fn shutdown(&mut self) -> (to_close: Vec<T>)
        requires
            old(self).wf(),
        ensures
            final(self).wf(),
            to_close@ == old(self)@.available.map_values(|c: PooledView<T>| c.connection),
            final(self)@ == old(self)@.drained(),
    {
        let ghost all = self@.available;
        let ghost taken = |c: PooledView<T>| c.connection;
        let mut to_close: Vec<T> = Vec::new();
        let ghost mut i: int = 0;
        proof {
            assert(all.skip(0) =~= all);
            assert(all.take(0).map_values(taken) =~= Seq::empty());
        }
        while self.available.len() > 0
            invariant
                0 <= i <= all.len(),
                all == old(self)@.available,
                taken == (|c: PooledView<T>| c.connection),
                self@ == (PoolView { available: self@.available, ..old(self)@ }),
                self.semaphore == old(self).semaphore,
                self@.available == all.skip(i),
                to_close@ == all.take(i).map_values(taken),
            decreases self.available@.len(),
        {
            let ghost held = self@.available;
            assert(held[0] == self.available@[0]@);
            let pooled = self.available.remove(0);
            to_close.push(pooled.connection);
            proof {
                assert(self@.available =~= held.drop_first());
                assert(all.skip(i).drop_first() =~= all.skip(i + 1));
                assert(all.take(i + 1).map_values(taken) =~= all.take(i).map_values(taken).push(
                    all[i].connection,
                ));
                i = i + 1;
            }
        }
        proof {
            assert(self@.available.len() == self.available@.len());
            assert(all.take(all.len() as int) =~= all);
            assert(self@.available =~= Seq::empty());
        }
        to_close
    }
}

/// How many connections are missing to the minimum, or to the maximum where that is
/// less.
pub open spec fn missing<T>(p: PoolView<T>) -> nat {
    let wanted = if p.config.min_size <= p.config.max_size {
        p.config.min_size
    } else {
        p.config.max_size
    };
    if p.total() >= wanted {
        0
    } else {
        (wanted - p.total()) as nat
    }
}

/// There are never more connections than allowed, nor are more in use.
pub proof fn total_is_bounded<T>(p: PoolView<T>)
    requires
        p.wf(),
    ensures
        p.total() <= p.config.max_size,
        p.leased <= p.config.max_size,
{
}

/// A connection that came back is used again: from a pool in which nothing else waits,
/// the next one to ask gets it, unless it has expired.
pub proof fn released_is_reused<T>(p: PoolView<T>, guard: GuardView<T>, then: nat, now: nat)
    requires
        p.wf(),
        p.leased > 0,
        p.available.len() == 0,
        !(PooledView {
            connection: guard.connection,
            created_at: guard.created_at,
            last_used: then,
        }).expired(p.config, now),
    ensures
        p.released(guard, then).good(now).len() == 1,
        p.released(guard, then).good(now)[0].connection == guard.connection,
        p.released(guard, then).good(now)[0].created_at == guard.created_at,
        p.released(guard, then).wf(),
{
    let after = p.released(guard, then);
    reveal(Seq::filter);
    assert(after.available.drop_last() =~= Seq::empty());
    assert(after.available.drop_last().filter(
        |c: PooledView<T>| !c.expired(after.config, now),
    ) =~= Seq::empty());
}

/// A connection that has outlived its time is not used again, however often it was in
/// use: its age counts from when it was made.
pub proof fn lifetime_counts_from_creation<T>(
    p: PoolView<T>,
    guard: GuardView<T>,
    then: nat,
    now: nat,
    i: int,
)
    requires
        p.config.max_lifetime matches Some(limit) && time::passed(guard.created_at, now) > limit@,
        0 <= i < p.released(guard, then).good(now).len(),
    ensures
        p.released(guard, then).good(now)[i] != (PooledView {
            connection: guard.connection,
            created_at: guard.created_at,
            last_used: then,
        }),
{
    let after = p.released(guard, then);
    after.available.lemma_filter_pred(|c: PooledView<T>| !c.expired(after.config, now), i);
}

/// A place for which no connection could be made is free again.
pub proof fn failed_creation_frees_place<T>(p: PoolView<T>, now: nat)
    requires
        p.wf(),
        !p.full(),
        p.good(now).len() == 0,
    ensures
        ({
            let asked = PoolView { admitted: p.admitted + 1, ..p };
            let making = asked.checked_out(now);
            let failed = PoolView {
                admitted: (making.admitted - 1) as nat,
                creating: (making.creating - 1) as nat,
                ..making
            };
            failed == p.swept(now) && !failed.full()
        }),
{
}

/// Whether a connection may still be used: it has not been idle for longer than the idle
/// timeout, nor lived for longer than its lifetime, where that is limited.
pub open spec fn within_limits(config: PoolConfig, created: nat, used: nat, now: nat) -> bool {
    &&& time::passed(used, now) <= config.idle_timeout@
    &&& match config.max_lifetime {
        Some(limit) => time::passed(created, now) <= limit@,
        None => true,
    }
}

/// The idle timeout and the lifetime decide about each connection that waits, and nothing
/// else does: within both it can be used again, beyond either it is to be closed.
pub proof fn limits_decide<T>(p: PoolView<T>, now: nat, i: int)
    requires
        0 <= i < p.available.len(),
    ensures
        ({
            let c = p.available[i];
            let within = within_limits(p.config, c.created_at, c.last_used, now);
            &&& within ==> p.good(now).contains(c)
            &&& !within ==> !p.good(now).contains(c) && p.expired(now).contains(c.connection)
        }),
{
    let c = p.available[i];
    let good = |x: PooledView<T>| !x.expired(p.config, now);
    let bad = |x: PooledView<T>| x.expired(p.config, now);
    if within_limits(p.config, c.created_at, c.last_used, now) {
        assert(good(c));
        p.available.lemma_filter_contains(good, i);
    } else {
        assert(bad(c));
        p.available.lemma_filter_contains(bad, i);
        if p.good(now).contains(c) {
            let j = choose|j: int| 0 <= j < p.good(now).len() && p.good(now)[j] == c;
            p.available.lemma_filter_pred(good, j);
        }
        let gone = p.available.filter(bad);
        let k = choose|k: int| 0 <= k < gone.len() && gone[k] == c;
        assert(p.expired(now)[gone.len() - 1 - k] == c.connection);
    }
}

/// A connection that came back waits from then on: it is used again only within the idle
/// timeout since, and only within its lifetime since it was made, and is closed otherwise.
pub proof fn released_waits<T>(p: PoolView<T>, guard: GuardView<T>, then: nat, now: nat)
    ensures
        ({
            let after = p.released(guard, then);
            let c = PooledView {
                connection: guard.connection,
                created_at: guard.created_at,
                last_used: then,
            };
            let within = within_limits(p.config, guard.created_at, then, now);
            &&& after.config == p.config
            &&& after.available == p.available.push(c)
            &&& within ==> after.good(now).contains(c)
            &&& !within ==> !after.good(now).contains(c) && after.expired(now).contains(
                guard.connection,
            )
        }),
{
    let after = p.released(guard, then);
    limits_decide(after, now, after.available.len() - 1);
}

/// What two complementary choices keep is all there is.
proof fn lemma_split<T>(
    all: Seq<PooledView<T>>,
    keep: spec_fn(PooledView<T>) -> bool,
    drop: spec_fn(PooledView<T>) -> bool,
)
    requires
        forall|c: PooledView<T>| #[trigger] keep(c) == !drop(c),
    ensures
        all.filter(keep).len() + all.filter(drop).len() == all.len(),
    decreases all.len(),
{
    reveal(Seq::filter);
    if all.len() > 0 {
        lemma_split(all.drop_last(), keep, drop);
        assert(keep(all.last()) == !drop(all.last()));
    }
}

/// Each connection that waits is either kept or closed, and none is added.
pub proof fn sweeping_loses_none<T>(p: PoolView<T>, now: nat)
    ensures
        p.good(now).len() + p.expired(now).len() == p.available.len(),
        p.swept(now).available == p.good(now),
        p.swept(now) == (PoolView { available: p.good(now), ..p }),
{
    lemma_split(
        p.available,
        |c: PooledView<T>| !c.expired(p.config, now),
        |c: PooledView<T>| c.expired(p.config, now),
    );
}

/// Where every connection is kept, all of them are.
proof fn lemma_keep_all<T>(all: Seq<PooledView<T>>, keep: spec_fn(PooledView<T>) -> bool)
    requires
        forall|i: int| 0 <= i < all.len() ==> keep(#[trigger] all[i]),
    ensures
        all.filter(keep) == all,
    decreases all.len(),
{
    reveal(Seq::filter);
    if all.len() > 0 {
        let rest = all.drop_last();
        assert forall|i: int| 0 <= i < rest.len() implies keep(#[trigger] rest[i]) by {
            assert(rest[i] == all[i]);
        }
        lemma_keep_all(rest, keep);
        assert(keep(all[all.len() - 1]));
        assert(rest.push(all.last()) =~= all);
    } else {
        assert(all.filter(keep) =~= all);
    }
}

/// A connection that is left out anyway can be removed before.
proof fn lemma_skip_one<T>(all: Seq<PooledView<T>>, keep: spec_fn(PooledView<T>) -> bool, i: int)
    requires
        0 <= i < all.len(),
        !keep(all[i]),
    ensures
        all.remove(i).filter(keep) == all.filter(keep),
    decreases all.len(),
{
    reveal(Seq::filter);
    let rest = all.drop_last();
    if i == all.len() - 1 {
        assert(all.remove(i) =~= rest);
    } else {
        lemma_skip_one(rest, keep, i);
        assert(all.remove(i).drop_last() =~= rest.remove(i));
        assert(all.remove(i).last() == all.last());
    }
}

/// Those that can be used again stay in their order: one that cannot be is passed over, and
/// where all can be, all are there.
pub proof fn waiting_order_is_kept<T>(p: PoolView<T>, now: nat, i: int)
    requires
        0 <= i < p.available.len(),
    ensures
        !within_limits(p.config, p.available[i].created_at, p.available[i].last_used, now)
            ==> p.good(now) == (PoolView { available: p.available.remove(i), ..p }).good(now),
        (forall|k: int|
            0 <= k < p.available.len() ==> within_limits(
                p.config,
                (#[trigger] p.available[k]).created_at,
                p.available[k].last_used,
                now,
            )) ==> p.good(now) == p.available,
{
    let good = |x: PooledView<T>| !x.expired(p.config, now);
    if !within_limits(p.config, p.available[i].created_at, p.available[i].last_used, now) {
        lemma_skip_one(p.available, good, i);
    }
    if forall|k: int|
        0 <= k < p.available.len() ==> within_limits(
            p.config,
            (#[trigger] p.available[k]).created_at,
            p.available[k].last_used,
            now,
        ) {
        lemma_keep_all(p.available, good);
    }
}

/// A place gets the connection that has waited longest of those that can be used, and the
/// others go on waiting. Where there is none, one is to be made, and the place stays taken.
pub proof fn checkout_takes_longest_waiting<T>(p: PoolView<T>, now: nat)
    requires
        p.wf(),
        p.creating < p.admitted,
    ensures
        p.checked_out(now).config == p.config,
        p.checked_out(now).leased + p.checked_out(now).admitted == p.leased + p.admitted,
        p.good(now).len() > 0 ==> {
            &&& p.checked_out(now).available == p.good(now).skip(1)
            &&& p.checked_out(now).leased == p.leased + 1
            &&& p.checked_out(now).creating == p.creating
            &&& p.checked_out(now).total() == p.leased + p.good(now).len()
        },
        p.good(now).len() == 0 ==> {
            &&& p.checked_out(now).available.len() == 0
            &&& p.checked_out(now).leased == p.leased
            &&& p.checked_out(now).creating == p.creating + 1
        },
{
    if p.good(now).len() > 0 {
        assert(p.good(now).drop_first() =~= p.good(now).skip(1));
    }
}

/// A connection in use keeps its place until it comes back: making one for a place, or
/// discarding one to make another, leaves the places that are taken as they are, while one
/// that comes back, or could not be made, frees a place.
pub proof fn places_are_accounted<T>(p: PoolView<T>, guard: GuardView<T>, now: nat)
    ensures
        p.placed().leased + p.placed().admitted == p.leased + p.admitted + 1,
        p.placed().total() == p.total(),
        p.leased > 0 ==> {
            &&& p.released(guard, now).leased + p.released(guard, now).admitted + 1 == p.leased
                + p.admitted
            &&& p.released(guard, now).total() == p.total()
            &&& p.released(guard, now).creating == p.creating
            &&& p.discarded().leased + p.discarded().admitted == p.leased + p.admitted
            &&& p.discarded().total() + 1 == p.total()
            &&& p.discarded().creating == p.creating + 1
            &&& p.discarded().available == p.available
        },
        p.admitted > 0 && p.creating > 0 ==> {
            &&& p.created().leased + p.created().admitted == p.leased + p.admitted
            &&& p.created().total() == p.total() + 1
            &&& p.created().creating + 1 == p.creating
            &&& p.created().available == p.available
            &&& p.creation_failed().leased + p.creation_failed().admitted + 1 == p.leased
                + p.admitted
            &&& p.creation_failed().total() == p.total()
            &&& p.creation_failed().creating + 1 == p.creating
            &&& p.creation_failed().available == p.available
        },
{
}

/// As many places can be taken as connections are allowed, and no more.
pub proof fn places_are_limited<T>(p: PoolView<T>)
    requires
        p.wf(),
    ensures
        p.full() <==> p.leased + p.admitted == p.config.max_size,
        !p.full() ==> p.placed().wf(),
        PoolView::<T>::fresh(p.config).wf(),
        PoolView::<T>::fresh(p.config).total() == 0,
        PoolView::<T>::fresh(p.config).full() <==> p.config.max_size == 0,
{
}

/// As many connections are missing as bring the pool to its minimum, or to its maximum where
/// that is less, and none where it has as many.
pub proof fn missing_reaches_minimum<T>(p: PoolView<T>)
    ensures
        missing(p) == 0 || p.total() + missing(p) == p.config.min_size || p.total() + missing(p)
            == p.config.max_size,
        p.total() + missing(p) >= p.config.min_size || p.total() + missing(p)
            >= p.config.max_size,
        p.total() <= p.config.max_size ==> p.total() + missing(p) <= p.config.max_size,
        missing(p) > 0 ==> p.total() + missing(p) <= p.config.min_size,
{
}

/// A connection made ahead of use waits behind the others, as old as it is idle, wherever
/// there is room beside those that there are and those being made.
pub proof fn idle_connection_waits<T>(p: PoolView<T>, connection: T, now: nat, later: nat)
    requires
        p.wf(),
    ensures
        p.has_room() <==> p.available.len() + p.leased + p.creating < p.config.max_size,
        p.has_room() ==> p.idle_added(connection, now).wf(),
        p.idle_added(connection, now).total() == p.total() + 1,
        p.idle_added(connection, now).leased == p.leased,
        p.idle_added(connection, now).admitted == p.admitted,
        ({
            let c = PooledView { connection, created_at: now, last_used: now };
            &&& p.idle_added(connection, now).available == p.available.push(c)
            &&& p.idle_added(connection, now).good(later).contains(c) <==> within_limits(
                p.config,
                now,
                now,
                later,
            )
        }),
{
    let after = p.idle_added(connection, now);
    limits_decide(after, later, after.available.len() - 1);
}

/// A pool that was drained has no connection left that waits, while those in use are not
/// touched.
pub proof fn drained_keeps_those_in_use<T>(p: PoolView<T>)
    ensures
        p.drained().available.len() == 0,
        p.drained().total() == p.leased,
        p.drained().leased == p.leased,
        p.drained().admitted == p.admitted,
        p.drained().creating == p.creating,
        p.drained().config == p.config,
{
}

/// By default a pool keeps 2 to 10 connections, waits 5 s for one, and closes those idle for
/// longer than 10 min or older than an hour.
pub proof fn default_limits(c: PoolConfig)
    requires
        is_default_config(c),
    ensures
        c.min_size == 2,
        c.max_size == 10,
        c.acquire_timeout@ == 5_000_000_000,
        c.idle_timeout@ == 600_000_000_000,
        c.max_lifetime matches Some(d) && d@ == 3_600_000_000_000,
{
}

/// A connection is handed out as it waited, with its age, and those that wait behind it are
/// left: what is handed out and what is left is what could be used.
pub proof fn handed_out_is_longest_waiting<T>(p: PoolView<T>, now: nat)
    requires
        p.wf(),
        p.creating < p.admitted,
    ensures
        p.handed_out(now) is Some <==> p.good(now).len() > 0,
        p.handed_out(now) matches Some(guard) ==> {
            &&& p.good(now).first().connection == guard.connection
            &&& p.good(now).first().created_at == guard.created_at
            &&& p.checked_out(now).available == p.good(now).skip(1)
        },
{
    if p.good(now).len() > 0 {
        checkout_takes_longest_waiting(p, now);
    }
}

/// A connection that came back to a pool in which nothing waits is handed out next, with the
/// age that it has, within its limits and not beyond.
pub proof fn released_is_handed_out<T>(p: PoolView<T>, guard: GuardView<T>, then: nat, now: nat)
    requires
        p.wf(),
        p.leased > 0,
        p.available.len() == 0,
    ensures
        p.released(guard, then).handed_out(now) == if within_limits(
            p.config,
            guard.created_at,
            then,
            now,
        ) {
            Some(guard)
        } else {
            None
        },
{
    let after = p.released(guard, then);
    released_waits(p, guard, then, now);
    if within_limits(p.config, guard.created_at, then, now) {
        released_is_reused(p, guard, then, now);
    } else if after.good(now).len() > 0 {
        let good = |c: PooledView<T>| !c.expired(after.config, now);
        after.available.lemma_filter_pred(good, 0);
        sweeping_loses_none(after, now);
        lemma_skip_one(after.available, good, 0);
        assert(after.available.remove(0) =~= Seq::empty());
        assert(Seq::<PooledView<T>>::empty().filter(good) =~= Seq::empty()) by {
            reveal(Seq::filter);
        }
    }
}

} // verus!
