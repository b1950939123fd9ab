//! TCP server: its configuration, its connections, and what it does next.
//!
//! Listening, accepting and closing happen elsewhere. The server decides which
//! connections are let in, keeps the list of sessions, and counts.

use crate::error::{concatenated, ErrorView, NetworkError};
use crate::network::permits;
use crate::text::IntoText;
use crate::time;
use crate::time::Duration;
use tokio::sync::Semaphore;
use vstd::prelude::*;
use vstd::string::*;

verus! {

/// Server configuration.
#[derive(Debug)]
pub struct ServerConfig {
    /// Bind address.
    pub bind_address: String,
    /// Maximum concurrent connections.
    pub max_connections: usize,
    /// Read timeout.
    pub read_timeout: Duration,
    /// Write timeout.
    pub write_timeout: Duration,
    /// Idle timeout (a session is closed if there is no activity for longer).
    pub idle_timeout: Duration,
    /// Keep-alive interval.
    pub keep_alive: Option<Duration>,
}

/// Whether a configuration is the default one for a bind address.
pub open spec fn is_default_config(c: ServerConfig, bind_address: Seq<char>) -> bool {
    &&& c.bind_address@ == bind_address
    &&& c.max_connections == 1000
    &&& c.read_timeout@ == time::secs(30)
    &&& c.write_timeout@ == time::secs(10)
    &&& c.idle_timeout@ == time::secs(300)
    &&& c.keep_alive matches Some(d) && d@ == time::secs(60)
}

impl Clone for ServerConfig {
    fn clone(&self) -> (c: ServerConfig)
        ensures
            c == *self,
    {
        ServerConfig {
            bind_address: self.bind_address.clone(),
            max_connections: self.max_connections,
            read_timeout: self.read_timeout,
            write_timeout: self.write_timeout,
            idle_timeout: self.idle_timeout,
            keep_alive: self.keep_alive,
        }
    }
}

impl Default for ServerConfig {
    fn default() -> (c: ServerConfig)
        ensures
            is_default_config(c, "127.0.0.1:8080"@),
    {
        ServerConfig {
            bind_address: "127.0.0.1:8080".to_owned(),
            max_connections: 1000,
            read_timeout: Duration::from_secs(30),
            write_timeout: Duration::from_secs(10),
            idle_timeout: Duration::from_secs(300),
            keep_alive: Some(Duration::from_secs(60)),
        }
    }
}

impl ServerConfig {
    /// Creates a new configuration.
    pub fn new<S: IntoText>(bind_address: S) -> (c: ServerConfig)
        ensures
            is_default_config(c, bind_address.text()),
    {
        ServerConfig { bind_address: bind_address.into_text(), ..ServerConfig::default() }
    }

    /// Sets the maximum number of connections.
    pub fn with_max_connections(self, max: usize) -> (c: ServerConfig)
        ensures
            c == (ServerConfig { max_connections: max, ..self }),
    {
        ServerConfig { max_connections: max, ..self }
    }

    /// Sets the read timeout.
    pub fn with_read_timeout(self, timeout: Duration) -> (c: ServerConfig)
        ensures
            c == (ServerConfig { read_timeout: timeout, ..self }),
    {
        ServerConfig { read_timeout: timeout, ..self }
    }

    /// Sets the write timeout.
    pub fn with_write_timeout(self, timeout: Duration) -> (c: ServerConfig)
        ensures
            c == (ServerConfig { write_timeout: timeout, ..self }),
    {
        ServerConfig { write_timeout: timeout, ..self }
    }

    /// Sets the idle timeout.
    pub fn with_idle_timeout(self, timeout: Duration) -> (c: ServerConfig)
        ensures
            c == (ServerConfig { idle_timeout: timeout, ..self }),
    {
        ServerConfig { idle_timeout: timeout, ..self }
    }

    /// Sets the keep-alive interval.
    pub fn with_keep_alive(self, interval: Option<Duration>) -> (c: ServerConfig)
        ensures
            c == (ServerConfig { keep_alive: interval, ..self }),
    {
        ServerConfig { keep_alive: interval, ..self }
    }
}

/// What came of binding the listening socket.
#[derive(Debug)]
pub enum BindOutcome {
    /// The address cannot be read, and why.
    InvalidAddress(String),
    /// Binding failed, and why.
    Failed(String),
    /// The socket listens.
    Bound,
}

/// What a [`TcpServer`] holds.
#[verifier::ext_equal]
pub struct ServerView {
    pub config: ServerConfig,
    pub running: bool,
    /// The connections that were let in and have not ended, the oldest first.
    pub connections: Seq<u64>,
    /// Those of them that have a session.
    pub sessions: Seq<u64>,
    /// The number that the next connection gets.
    pub next: u64,
}

/// A list without an entry.
pub open spec fn without(list: Seq<u64>, entry: u64) -> Seq<u64> {
    list.filter(|x: u64| x != entry)
}

impl ServerView {
    /// The server that was just made.
    pub open spec fn fresh(config: ServerConfig) -> ServerView {
        ServerView {
            config,
            running: false,
            connections: Seq::empty(),
            sessions: Seq::empty(),
            next: 0,
        }
    }

    /// What every server keeps: no more connections than allowed, each of them once,
    /// and every session one of them.
    pub open spec fn wf(self) -> bool {
        &&& self.connections.len() <= self.config.max_connections <= permits::most_permits()
        &&& self.connections.no_duplicates()
        &&& self.sessions.no_duplicates()
        &&& forall|x: u64|
            #![trigger self.sessions.contains(x)]
            self.sessions.contains(x) ==> self.connections.contains(x)
        &&& forall|x: u64|
            #![trigger self.connections.contains(x)]
            self.connections.contains(x) ==> x < self.next
    }

    /// Whether no further connection is let in.
    pub open spec fn full(self) -> bool {
        self.connections.len() >= self.config.max_connections
    }

    /// The server with one more connection.
    pub open spec fn admitted(self) -> ServerView {
        ServerView {
            connections: self.connections.push(self.next),
            next: (self.next + 1) as u64,
            ..self
        }
    }

    /// Whether a session can be listed for a connection.
    pub open spec fn can_list(self, connection: u64) -> bool {
        self.connections.contains(connection) && !self.sessions.contains(connection)
    }

    /// The server with the session of a connection on its list.
    pub open spec fn listed(self, connection: u64) -> ServerView {
        ServerView { sessions: self.sessions.push(connection), ..self }
    }

    /// The server that runs.
    pub open spec fn launched(self) -> ServerView {
        ServerView { running: true, ..self }
    }

    /// The server that has begun to stop.
    pub open spec fn halted(self) -> ServerView {
        ServerView { running: false, ..self }
    }

    /// The server without a connection and its session.
    pub open spec fn ended(self, connection: u64) -> ServerView {
        ServerView {
            connections: without(self.connections, connection),
            sessions: without(self.sessions, connection),
            ..self
        }
    }

    /// The server without any connection, which runs no more.
    pub open spec fn stopped(self) -> ServerView {
        ServerView {
            running: false,
            connections: Seq::empty(),
            sessions: Seq::empty(),
            ..self
        }
    }
}

/// How often idle sessions are looked for.
pub open spec fn sweep_interval(config: ServerConfig) -> nat {
    config.idle_timeout@ / 2
}

/// What leaving an entry out does to a list that holds each entry once.
pub proof fn without_facts(list: Seq<u64>, entry: u64)
    requires
        list.no_duplicates(),
    ensures
        without(list, entry).no_duplicates(),
        forall|x: u64| #[trigger]
            without(list, entry).contains(x) <==> list.contains(x) && x != entry,
        without(list, entry).len() == list.len() - if list.contains(entry) {
            1int
        } else {
            0
        },
    decreases list.len(),
{
    reveal(Seq::filter);
    if list.len() > 0 {
        let rest = list.drop_last();
        let last = list.last();
        assert(rest.no_duplicates());
        without_facts(rest, entry);
        assert(list =~= rest.push(last));
        assert(!rest.contains(last)) by {
            if rest.contains(last) {
                let i = choose|i: int| 0 <= i < rest.len() && rest[i] == last;
                assert(list[i] == list[list.len() - 1]);
            }
        }
        assert(forall|x: u64| #[trigger] list.contains(x) <==> rest.contains(x) || x == last) by {
            assert forall|x: u64| #[trigger] list.contains(x) implies rest.contains(x) || x
                == last by {
                let i = choose|i: int| 0 <= i < list.len() && list[i] == x;
                if i < rest.len() {
                    assert(rest[i] == x);
                }
            }
            assert forall|x: u64| rest.contains(x) || x == last implies #[trigger] list.contains(
                x,
            ) by {
                if rest.contains(x) {
                    let i = choose|i: int| 0 <= i < rest.len() && rest[i] == x;
                    assert(list[i] == x);
                } else {
                    assert(list[list.len() - 1] == x);
                }
            }
        }
        let kept = without(rest, entry);
        if last != entry {
            let all = without(list, entry);
            assert(all == kept.push(last));
            assert forall|x: u64| #[trigger] all.contains(x) <==> list.contains(x) && x
                != entry by {
                if all.contains(x) {
                    let i = choose|i: int| 0 <= i < all.len() && all[i] == x;
                    if i < kept.len() {
                        assert(kept[i] == x);
                        assert(kept.contains(x));
                    }
                }
                if list.contains(x) && x != entry {
                    if x == last {
                        assert(all[all.len() - 1] == x);
                    } else {
                        assert(kept.contains(x));
                        let i = choose|i: int| 0 <= i < kept.len() && kept[i] == x;
                        assert(all[i] == x);
                    }
                }
            }
            assert(all.no_duplicates()) by {
                assert forall|i: int, j: int|
                    0 <= i < all.len() && 0 <= j < all.len() && i != j implies all[i]
                    != all[j] by {
                    if i == kept.len() {
                        assert(kept.contains(kept[j]));
                    } else if j == kept.len() {
                        assert(kept.contains(kept[i]));
                    }
                }
            }
        } else {
            assert(without(list, entry) == kept);
        }
    }
}

/// A list without an entry.
fn left_out(list: &Vec<u64>, entry: u64) -> (r: Vec<u64>)
    ensures
        r@ == without(list@, entry),
{
    let mut r: Vec<u64> = Vec::new();
    let mut i: usize = 0;
    proof {
        reveal(Seq::filter);
        assert(list@.take(0) =~= Seq::<u64>::empty());
    }
    while i < list.len()
        invariant
            i <= list@.len(),
            r@ == without(list@.take(i as int), entry),
        decreases list@.len() - i,
    {
        let x: u64 = list[i];
        proof {
            reveal(Seq::filter);
            assert(list@.take(i + 1).drop_last() =~= list@.take(i as int));
        }
        if x != entry {
            r.push(x);
        }
        i = i + 1;
    }
    proof {
        assert(list@.take(list@.len() as int) =~= list@);
    }
    r
}

/// Whether a list holds an entry.
fn holds(list: &Vec<u64>, entry: u64) -> (b: bool)
    ensures
        b == list@.contains(entry),
{
    let mut i: usize = 0;
    while i < list.len()
        invariant
            i <= list@.len(),
            forall|j: int| 0 <= j < i ==> list@[j] != entry,
        decreases list@.len() - i,
    {
        if list[i] == entry {
            assert(list@[i as int] == entry);
            return true;
        }
        i = i + 1;
    }
    false
}

/// TCP server.
pub struct TcpServer {
    config: ServerConfig,
    running: bool,
    connection_semaphore: Semaphore,
    connections: Vec<u64>,
    sessions: Vec<u64>,
    next: u64,
}

impl View for TcpServer {
    type V = ServerView;

    closed spec fn view(&self) -> ServerView {
        ServerView {
            config: self.config,
            running: self.running,
            connections: self.connections@,
            sessions: self.sessions@,
            next: self.next,
        }
    }
}

impl TcpServer {
    /// Whether the server is in order: what holds of its view, and as many permits
    /// left as connections may still come.
    pub closed spec fn wf(&self) -> bool {
        &&& self@.wf()
        &&& !permits::permits_closed(self.connection_semaphore)
        &&& permits::permits_free(self.connection_semaphore) + self.connections@.len()
            == self.config.max_connections
    }

    /// A server that is in order is one whose view is.
    pub proof fn wf_view(&self)
        requires
            self.wf(),
        ensures
            self@.wf(),
    {
    }

    /// Creates a new TCP server.
    pub fn new<S: IntoText>(bind_address: S) -> (s: TcpServer)
        ensures
            s.wf(),
            is_default_config(s@.config, bind_address.text()),
            s@ == ServerView::fresh(s@.config),
    {
        TcpServer::with_config(ServerConfig::new(bind_address))
    }

    /// Creates a new TCP server with custom configuration.
    pub fn with_config(config: ServerConfig) -> (s: TcpServer)
        requires
            config.max_connections <= permits::most_permits(),
        ensures
            s.wf(),
            s@ == ServerView::fresh(config),
    {
        let connection_semaphore = permits::permits_new(config.max_connections);
        TcpServer {
            config,
            running: false,
            connection_semaphore,
            connections: Vec::new(),
            sessions: Vec::new(),
            next: 0,
        }
    }

    /// Whether the server may start: it then binds its address.
    pub fn start(&self) -> (r: Result<(), NetworkError>)
        ensures
            match r {
                Ok(_) => !self@.running,
                Err(e) => self@.running && e@ == ErrorView::InvalidState(
                    "Server is already running"@,
                ),
            },
    {
        if self.running {
            return Err(NetworkError::invalid_state("Server is already running"));
        }
        Ok(())
    }

    /// What came of binding the address. The server that listens runs; how often it
    /// looks for idle sessions comes back, which is half the idle timeout.
    pub fn bound(&mut self, outcome: BindOutcome) -> (r: Result<Duration, NetworkError>)
        requires
            old(self).wf(),
        ensures
            final(self).wf(),
            match outcome {
                BindOutcome::InvalidAddress(t) => r matches Err(e) && e@
                    == ErrorView::InvalidAddress("Invalid address: "@ + t@) && final(self)@ == old(
                    self,
                )@,
                BindOutcome::Failed(t) => r matches Err(e) && e@ == ErrorView::Connection(
                    "Failed to bind: "@ + t@,
                ) && final(self)@ == old(self)@,
                BindOutcome::Bound => r matches Ok(d) && d@ == sweep_interval(old(self)@.config)
                    && final(self)@ == old(self)@.launched(),
            },
    {
        match outcome {
            BindOutcome::InvalidAddress(t) => Err(
                NetworkError::invalid_address(concatenated("Invalid address: ", &t)),
            ),
            BindOutcome::Failed(t) => Err(
                NetworkError::connection(concatenated("Failed to bind: ", &t)),
            ),
            BindOutcome::Bound => {
                self.running = true;
                Ok(self.config.idle_timeout.divided_by(2))
            },
        }
    }

    /// Whether there is a number left for one more connection.
    pub fn can_accept(&self) -> (b: bool)
        ensures
            b == (self@.next < u64::MAX),
    {
        self.next < u64::MAX
    }

    /// Lets a connection in and numbers it, unless the connection limit is reached.
    pub fn accept(&mut self) -> (r: Option<u64>)
        requires
            old(self).wf(),
            old(self)@.next < u64::MAX,
        ensures
            final(self).wf(),
            match r {
                Some(connection) => !old(self)@.full() && connection == old(self)@.next
                    && final(self)@ == old(self)@.admitted(),
                None => old(self)@.full() && final(self)@ == old(self)@,
            },
    {
        if !permits::permits_take(&mut self.connection_semaphore) {
            return None;
        }
        let connection: u64 = self.next;
        self.connections.push(connection);
        self.next = connection + 1;
        proof {
            let before = old(self)@;
            let after = self@;
            assert(!before.connections.contains(before.next));
            assert forall|x: u64| #[trigger] after.connections.contains(x) implies x
                < after.next by {
                let i = choose|i: int|
                    0 <= i < after.connections.len() && after.connections[i] == x;
                if i < before.connections.len() {
                    assert(before.connections[i] == x);
                    assert(before.connections.contains(x));
                }
            }
            assert forall|x: u64| #[trigger] after.sessions.contains(x) implies
                after.connections.contains(x) by {
                assert(before.sessions.contains(x));
                assert(before.connections.contains(x));
                let i = choose|i: int|
                    0 <= i < before.connections.len() && before.connections[i] == x;
                assert(after.connections[i] == x);
            }
            assert forall|i: int, j: int|
                0 <= i < after.connections.len() && 0 <= j < after.connections.len() && i
                    != j implies after.connections[i] != after.connections[j] by {
                if i == before.connections.len() {
                    assert(before.connections.contains(before.connections[j]));
                } else if j == before.connections.len() {
                    assert(before.connections.contains(before.connections[i]));
                }
            }
        }
        Some(connection)
    }

    /// Lists the session of a connection. Nothing is listed for a connection that has
    /// ended or has a session already.
    pub fn open_session(&mut self, connection: u64) -> (listed: bool)
        requires
            old(self).wf(),
        ensures
            final(self).wf(),
            listed == old(self)@.can_list(connection),
            final(self)@ == if listed {
                old(self)@.listed(connection)
            } else {
                old(self)@
            },
    {
        if !holds(&self.connections, connection) || holds(&self.sessions, connection) {
            return false;
        }
        self.sessions.push(connection);
        proof {
            let before = old(self)@;
            let after = self@;
            assert forall|x: u64| #[trigger] after.sessions.contains(x) implies
                after.connections.contains(x) by {
                let i = choose|i: int| 0 <= i < after.sessions.len() && after.sessions[i] == x;
                if i < before.sessions.len() {
                    assert(before.sessions[i] == x);
                    assert(before.sessions.contains(x));
                }
            }
            assert forall|i: int, j: int|
                0 <= i < after.sessions.len() && 0 <= j < after.sessions.len() && i
                    != j implies after.sessions[i] != after.sessions[j] by {
                if i == before.sessions.len() {
                    assert(before.sessions.contains(before.sessions[j]));
                } else if j == before.sessions.len() {
                    assert(before.sessions.contains(before.sessions[i]));
                }
            }
        }
        true
    }

    /// Ends a connection: its session is taken off the list and its place is free
    /// again. A connection that has ended already changes nothing.
    pub fn end_connection(&mut self, connection: u64)
        requires
            old(self).wf(),
        ensures
            final(self).wf(),
            final(self)@ == old(self)@.ended(connection),
    {
        proof {
            without_facts(self.connections@, connection);
            without_facts(self.sessions@, connection);
        }
        if holds(&self.connections, connection) {
            permits::permits_give(&mut self.connection_semaphore, 1);
        }
        self.connections = left_out(&self.connections, connection);
        self.sessions = left_out(&self.sessions, connection);
    }

    /// Begins to stop the server and says whether it was running. Its listening
    /// socket is then to be closed, before the sessions are.
    pub fn stop(&mut self) -> (was_running: bool)
        requires
            old(self).wf(),
        ensures
            final(self).wf(),
            was_running == old(self)@.running,
            final(self)@ == old(self)@.halted(),
    {
        let was_running: bool = self.running;
        self.running = false;
        was_running
    }

    /// Ends stopping the server: all connections end and all places are free again.
    /// The sessions that were listed come back, to be closed.
    pub fn finish_stop(&mut self) -> (to_close: Vec<u64>)
        requires
            old(self).wf(),
        ensures
            final(self).wf(),
            to_close@ == old(self)@.sessions,
            final(self)@ == old(self)@.stopped(),
    {
        let to_close = self.sessions.clone();
        permits::permits_give(&mut self.connection_semaphore, self.connections.len());
        self.connections = Vec::new();
        self.sessions = Vec::new();
        self.running = false;
        proof {
            assert(to_close@ =~= old(self)@.sessions);
            assert(self@.connections =~= Seq::empty());
            assert(self@.sessions =~= Seq::empty());
        }
        to_close
    }

    /// Stops a server that is discarded while it runs: all connections end at once.
    /// The sessions that were listed come back, to be marked inactive. A server that
    /// does not run is left alone.
    pub fn emergency_stop(&mut self) -> (abandoned: Option<Vec<u64>>)
        requires
            old(self).wf(),
        ensures
            final(self).wf(),
            match abandoned {
                Some(sessions) => old(self)@.running && sessions@ == old(self)@.sessions
                    && final(self)@ == old(self)@.stopped(),
                None => !old(self)@.running && final(self)@ == old(self)@,
            },
    {
        if self.running {
            Some(self.finish_stop())
        } else {
            None
        }
    }

    /// Whether the server is running.
    pub fn is_running(&self) -> (b: bool)
        ensures
            b == self@.running,
    {
        self.running
    }

    /// The number of active connections.
    pub fn connection_count(&self) -> (n: u64)
        ensures
            n == self@.connections.len(),
    {
        self.connections.len() as u64
    }

    /// The active sessions, by the numbers of their connections.
    pub fn sessions(&self) -> (list: Vec<u64>)
        ensures
            list@ == self@.sessions,
    {
        let list = self.sessions.clone();
        assert(list@ =~= self.sessions@);
        list
    }

    /// The sessions that a message for all goes to: every active one, once.
    pub fn broadcast(&self) -> (recipients: Vec<u64>)
        requires
            self.wf(),
        ensures
            recipients@ == self@.sessions,
            recipients@.no_duplicates(),
    {
        self.sessions()
    }

    /// The configuration.
    pub fn config(&self) -> (c: &ServerConfig)
        ensures
            *c == self@.config,
    {
        &self.config
    }

    /// The sessions to close as idle, given how long each active session has been
    /// without activity, in the order of the list.
    pub fn idle_sessions(&self, idle_times: &Vec<Duration>) -> (idle: Vec<u64>)
        requires
            idle_times@.len() == self@.sessions.len(),
        ensures
            idle@ == idle_among(self@.sessions, idle_times@, self@.config.idle_timeout@),
    {
        let mut idle: Vec<u64> = Vec::new();
        let mut i: usize = 0;
        assert(self.sessions@.take(0) =~= Seq::<u64>::empty());
        while i < self.sessions.len()
            invariant
                i <= self.sessions@.len(),
                idle_times@.len() == self.sessions@.len(),
                idle@ == idle_among(
                    self.sessions@.take(i as int),
                    idle_times@,
                    self.config.idle_timeout@,
                ),
            decreases self.sessions@.len() - i,
        {
            proof {
                assert(self.sessions@.take(i + 1).drop_last() =~= self.sessions@.take(i as int));
            }
            if idle_times[i].exceeds(self.config.idle_timeout) {
                idle.push(self.sessions[i]);
            }
            i = i + 1;
        }
        proof {
            assert(self.sessions@.take(self.sessions@.len() as int) =~= self.sessions@);
        }
        idle
    }
}

/// The sessions that have been without activity for longer than the idle timeout.
pub open spec fn idle_among(
    sessions: Seq<u64>,
    idle_times: Seq<Duration>,
    idle_timeout: nat,
) -> Seq<u64>
    decreases sessions.len(),
{
    if sessions.len() == 0 {
        Seq::empty()
    } else {
        let before = idle_among(sessions.drop_last(), idle_times, idle_timeout);
        if idle_times[sessions.len() - 1]@ > idle_timeout {
            before.push(sessions.last())
        } else {
            before
        }
    }
}

/// The connection limit holds: a server that is in order has at most as many
/// connections as allowed, and takes one more exactly when it has fewer.
pub proof fn limit_holds(s: ServerView)
    requires
        s.wf(),
    ensures
        s.connections.len() <= s.config.max_connections,
        s.full() <==> s.connections.len() == s.config.max_connections,
        s.sessions.len() <= s.connections.len(),
{
    s.connections.unique_seq_to_set();
    s.sessions.unique_seq_to_set();
    vstd::seq_lib::seq_to_set_is_finite(s.connections);
    assert(s.sessions.to_set().subset_of(s.connections.to_set())) by {
        assert forall|x: u64| s.sessions.to_set().contains(x) implies
            s.connections.to_set().contains(x) by {
            assert(s.sessions.contains(x));
            assert(s.connections.contains(x));
        }
    }
    vstd::set_lib::lemma_len_subset(s.sessions.to_set(), s.connections.to_set());
}

/// A place that is freed can be taken again: when one of its connections ends, a
/// server lets another in.
pub proof fn freed_place_can_be_taken(s: ServerView, connection: u64)
    requires
        s.wf(),
        s.connections.contains(connection),
    ensures
        !s.ended(connection).full(),
        s.ended(connection).connections.len() == s.connections.len() - 1,
{
    without_facts(s.connections, connection);
}

/// Stopping leaves nothing behind: no connection is counted, every place is free and
/// the server may start again.
pub proof fn stopping_frees_all_places(s: ServerView)
    requires
        s.wf(),
    ensures
        s.stopped().wf(),
        s.stopped().connections.len() == 0,
        !s.stopped().running,
{
}

/// A connection that is let in comes behind the others, under a number that none of them
/// has, and without a session. Nothing else changes.
pub proof fn admission_adds_one(s: ServerView)
    requires
        s.wf(),
        s.next < u64::MAX,
        s.connections.len() < s.config.max_connections,
    ensures
        !s.full(),
        s.admitted().connections.len() == s.connections.len() + 1,
        s.admitted().connections.drop_last() == s.connections,
        !s.connections.contains(s.admitted().connections.last()),
        !s.sessions.contains(s.admitted().connections.last()),
        s.admitted().connections.last() == s.next,
        s.admitted().sessions == s.sessions,
        s.admitted().running == s.running,
        s.admitted().config == s.config,
        s.admitted().next > s.next,
{
    assert(s.admitted().connections.drop_last() =~= s.connections);
    if s.sessions.contains(s.next) {
        assert(s.connections.contains(s.next));
    }
}

/// A connection that ends is gone, with its session, while every other connection and
/// session stays. One that was not there changes nothing.
pub proof fn ending_removes_one(s: ServerView, connection: u64, other: u64)
    requires
        s.wf(),
        other != connection,
    ensures
        !s.ended(connection).connections.contains(connection),
        !s.ended(connection).sessions.contains(connection),
        s.ended(connection).connections.contains(other) == s.connections.contains(other),
        s.ended(connection).sessions.contains(other) == s.sessions.contains(other),
        !s.connections.contains(connection) ==> s.ended(connection) == s,
        s.ended(connection).running == s.running,
        s.ended(connection).config == s.config,
        s.ended(connection).next == s.next,
{
    without_facts(s.connections, connection);
    without_facts(s.sessions, connection);
    if !s.connections.contains(connection) {
        if s.sessions.contains(connection) {
            assert(s.connections.contains(connection));
        }
        lemma_without_absent(s.connections, connection);
        lemma_without_absent(s.sessions, connection);
        assert(s.ended(connection) =~= s);
    }
}

/// Leaving out what is not there changes nothing.
proof fn lemma_without_absent(list: Seq<u64>, entry: u64)
    requires
        !list.contains(entry),
    ensures
        without(list, entry) == list,
    decreases list.len(),
{
    reveal(Seq::filter);
    if list.len() > 0 {
        let rest = list.drop_last();
        assert(!rest.contains(entry)) by {
            if rest.contains(entry) {
                let i = choose|i: int| 0 <= i < rest.len() && rest[i] == entry;
                assert(list[i] == entry);
            }
        }
        assert(list[list.len() - 1] == list.last());
        lemma_without_absent(rest, entry);
        assert(rest.push(list.last()) =~= list);
    } else {
        assert(without(list, entry) =~= list);
    }
}

/// A connection that was let in and has ended leaves the connections as they were.
pub proof fn ending_undoes_admission(s: ServerView)
    requires
        s.wf(),
        s.next < u64::MAX,
    ensures
        s.admitted().ended(s.next).connections == s.connections,
        s.admitted().ended(s.next).sessions == s.sessions,
{
    reveal(Seq::filter);
    let all = s.connections.push(s.next);
    assert(all.drop_last() =~= s.connections);
    assert(!s.connections.contains(s.next));
    if s.sessions.contains(s.next) {
        assert(s.connections.contains(s.next));
    }
    lemma_without_absent(s.connections, s.next);
    lemma_without_absent(s.sessions, s.next);
}

/// A session is listed once, and for a connection that is there. It comes behind the others,
/// and no connection is changed by it.
pub proof fn session_is_listed_once(s: ServerView, connection: u64)
    requires
        s.wf(),
    ensures
        s.can_list(connection) <==> s.connections.contains(connection) && !s.sessions.contains(
            connection,
        ),
        s.listed(connection).sessions == s.sessions.push(connection),
        !s.listed(connection).can_list(connection),
        s.listed(connection).connections == s.connections,
        s.listed(connection).running == s.running,
        s.listed(connection).next == s.next,
        s.listed(connection).config == s.config,
{
    assert(s.listed(connection).sessions[s.sessions.len() as int] == connection);
}

/// A server that begins to stop runs no more, but still has its connections; stopped, it has
/// none. Either way its configuration and its numbering stay.
pub proof fn stopping_goes_in_steps(s: ServerView)
    ensures
        !s.halted().running,
        s.halted().connections == s.connections,
        s.halted().sessions == s.sessions,
        s.halted().config == s.config,
        s.halted().next == s.next,
        s.launched().running,
        s.launched().connections == s.connections,
        s.launched().sessions == s.sessions,
        s.launched().config == s.config,
        s.launched().next == s.next,
        s.stopped().sessions.len() == 0,
        s.stopped().connections.len() == 0,
        s.stopped().config == s.config,
        s.stopped().next == s.next,
        !ServerView::fresh(s.config).running,
        ServerView::fresh(s.config).connections.len() == 0,
        ServerView::fresh(s.config).sessions.len() == 0,
        ServerView::fresh(s.config).config == s.config,
{
}

/// Idle sessions are looked for often enough that none is idle for much longer than allowed:
/// twice within the idle timeout.
pub proof fn idle_sessions_are_looked_for_in_time(config: ServerConfig)
    ensures
        2 * sweep_interval(config) <= config.idle_timeout@ <= 2 * sweep_interval(config) + 1,
{
}

/// A session is closed as idle exactly when it has been without activity for longer than the
/// idle timeout.
pub proof fn only_idle_sessions_are_closed(
    sessions: Seq<u64>,
    idle_times: Seq<Duration>,
    idle_timeout: nat,
    i: int,
)
    requires
        sessions.no_duplicates(),
        idle_times.len() == sessions.len(),
        0 <= i < sessions.len(),
    ensures
        idle_among(sessions, idle_times, idle_timeout).contains(sessions[i]) <==> idle_times[i]@
            > idle_timeout,
        forall|x: u64| #[trigger]
            idle_among(sessions, idle_times, idle_timeout).contains(x) ==> sessions.contains(x),
        idle_among(sessions, idle_times, idle_timeout).len() <= sessions.len(),
{
    lemma_idle(sessions, idle_times, idle_timeout, sessions.len());
    assert(sessions.take(sessions.len() as int) =~= sessions);
    let idle = idle_among(sessions, idle_times, idle_timeout);
    if idle.contains(sessions[i]) {
        let k = choose|k: int|
            0 <= k < sessions.len() && #[trigger] sessions[k] == sessions[i] && idle_times[k]@
                > idle_timeout;
        assert(k == i);
    }
}

/// What is idle among the first sessions.
proof fn lemma_idle(sessions: Seq<u64>, idle_times: Seq<Duration>, idle_timeout: nat, n: nat)
    requires
        n <= sessions.len() == idle_times.len(),
    ensures
        idle_among(sessions.take(n as int), idle_times, idle_timeout).len() <= n,
        forall|x: u64| #[trigger]
            idle_among(sessions.take(n as int), idle_times, idle_timeout).contains(x) ==> exists|
                k: int,
            |
                0 <= k < n && #[trigger] sessions[k] == x && idle_times[k]@ > idle_timeout,
        forall|k: int|
            0 <= k < n && idle_times[k]@ > idle_timeout ==> idle_among(
                sessions.take(n as int),
                idle_times,
                idle_timeout,
            ).contains(#[trigger] sessions[k]),
    decreases n,
{
    let all = sessions.take(n as int);
    if n > 0 {
        let rest = sessions.take(n - 1);
        assert(all.drop_last() =~= rest);
        lemma_idle(sessions, idle_times, idle_timeout, (n - 1) as nat);
        let before = idle_among(rest, idle_times, idle_timeout);
        let after = idle_among(all, idle_times, idle_timeout);
        assert(all.last() == sessions[n - 1]);
        assert forall|x: u64| #[trigger] after.contains(x) implies exists|k: int|
            0 <= k < n && #[trigger] sessions[k] == x && idle_times[k]@ > idle_timeout by {
            let j = choose|j: int| 0 <= j < after.len() && after[j] == x;
            if j < before.len() {
                assert(before[j] == x);
                assert(before.contains(x));
            } else {
                assert(sessions[n - 1] == x);
            }
        }
        assert forall|k: int| 0 <= k < n && idle_times[k]@ > idle_timeout implies after.contains(
            #[trigger] sessions[k],
        ) by {
            if k < n - 1 {
                assert(before.contains(sessions[k]));
                let j = choose|j: int| 0 <= j < before.len() && before[j] == sessions[k];
                assert(after[j] == sessions[k]);
            } else {
                assert(after[after.len() - 1] == sessions[k]);
            }
        }
    }
}

/// By default a server lets in 1000 connections, takes 30 s to read and 10 s to write, and
/// closes sessions that are idle for longer than 5 min.
pub proof fn default_limits(c: ServerConfig, bind_address: Seq<char>)
    requires
        is_default_config(c, bind_address),
    ensures
        c.bind_address@ == bind_address,
        c.max_connections == 1000,
        c.read_timeout@ == 30_000_000_000,
        c.write_timeout@ == 10_000_000_000,
        c.idle_timeout@ == 300_000_000_000,
        c.keep_alive matches Some(d) && d@ == 60_000_000_000,
{
}

} // verus!
