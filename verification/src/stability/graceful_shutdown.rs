//! Graceful shutdown coordination.
//!
//! Waiting happens elsewhere: whoever waits asks again when a request has completed or
//! time has passed.

use crate::time;
use crate::time::Duration;
use vstd::prelude::*;

verus! {

/// What a [`GracefulShutdown`] holds.
pub struct ShutdownView {
    pub requested: bool,
    pub active: usize,
    pub timeout: nat,
}

impl ShutdownView {
    /// After someone asked to begin a request, which is let in unless shutdown was
    /// requested.
    pub open spec fn entered(self) -> ShutdownView {
        if self.requested {
            self
        } else {
            ShutdownView { active: self.active.wrapping_add(1), ..self }
        }
    }

    /// After a request ended.
    pub open spec fn left(self) -> ShutdownView {
        ShutdownView { active: self.active.wrapping_sub(1), ..self }
    }

    /// Whether the request that ends is the last one.
    pub open spec fn ends_last(self) -> bool {
        self.active == 1
    }

    /// After shutdown was requested.
    pub open spec fn shut(self) -> ShutdownView {
        ShutdownView { requested: true, ..self }
    }
}

/// Graceful shutdown coordinator.
pub struct GracefulShutdown {
    shutdown_requested: bool,
    active_requests: usize,
    timeout: Duration,
}

impl View for GracefulShutdown {
    type V = ShutdownView;

    closed spec fn view(&self) -> ShutdownView {
        ShutdownView {
            requested: self.shutdown_requested,
            active: self.active_requests,
            timeout: self.timeout@,
        }
    }
}

/// An active request. It ends by being handed back to its coordinator.
#[derive(Debug)]
pub struct ShutdownGuard {
    entered: (),
}

/// What waiting for completion has come to: whether all requests completed, once that
/// is known or the time is up.
pub open spec fn completion(s: ShutdownView, waited: nat) -> Option<bool> {
    if s.active == 0 {
        Some(true)
    } else if waited >= s.timeout {
        Some(false)
    } else {
        None
    }
}

impl GracefulShutdown {
    /// Creates a new graceful shutdown coordinator.
    pub fn new(timeout: Duration) -> (s: GracefulShutdown)
        ensures
            s@ == (ShutdownView { requested: false, active: 0, timeout: timeout@ }),
    {
        GracefulShutdown { shutdown_requested: false, active_requests: 0, timeout }
    }

    /// Creates a coordinator with the default timeout (30 seconds).
    pub fn with_default_timeout() -> (s: GracefulShutdown)
        ensures
            s@ == (ShutdownView { requested: false, active: 0, timeout: time::secs(30) }),
    {
        GracefulShutdown::new(Duration::from_secs(30))
    }

    /// Whether shutdown has been requested.
    pub fn is_shutdown_requested(&self) -> (b: bool)
        ensures
            b == self@.requested,
    {
        self.shutdown_requested
    }

    /// The number of active requests.
    pub fn active_request_count(&self) -> (n: usize)
        ensures
            n == self@.active,
    {
        self.active_requests
    }

    /// How long to wait for active requests.
    pub fn timeout(&self) -> (d: Duration)
        ensures
            d@ == self@.timeout,
    {
        self.timeout
    }

    /// Registers a new active request, unless shutdown has been requested.
    pub fn enter(&mut self) -> (r: Option<ShutdownGuard>)
        ensures
            r is Some <==> !old(self)@.requested,
            final(self)@ == old(self)@.entered(),
    {
        if self.shutdown_requested {
            return None;
        }
        self.active_requests = self.active_requests.wrapping_add(1);
        Some(ShutdownGuard { entered: () })
    }

    /// Ends an active request, and says whether it was the last: those who wait are
    /// then to be told.
    pub fn leave(&mut self, guard: ShutdownGuard) -> (last: bool)
        ensures
            final(self)@ == old(self)@.left(),
            last == old(self)@.ends_last(),
    {
        let before: usize = self.active_requests;
        self.active_requests = before.wrapping_sub(1);
        before == 1
    }

    /// Requests shutdown.
    pub fn shutdown(&mut self)
        ensures
            final(self)@ == old(self)@.shut(),
    {
        self.shutdown_requested = true;
    }

    /// Whether all active requests have completed, after waiting for some time; nothing
    /// comes as long as it is worth waiting on.
    pub fn wait_for_completion(&self, waited: Duration) -> (r: Option<bool>)
        ensures
            r == completion(self@, waited@),
    {
        if self.active_requests == 0 {
            Some(true)
        } else if waited.reaches(self.timeout) {
            Some(false)
        } else {
            None
        }
    }

    /// Requests shutdown and says whether all active requests have completed, after
    /// waiting for some time.
    pub fn shutdown_and_wait(&mut self, waited: Duration) -> (r: Option<bool>)
        ensures
            final(self)@ == old(self)@.shut(),
            r == completion(old(self)@, waited@),
    {
        self.shutdown();
        self.wait_for_completion(waited)
    }
}

impl Default for GracefulShutdown {
    fn default() -> (s: GracefulShutdown)
        ensures
            s@ == (ShutdownView { requested: false, active: 0, timeout: time::secs(30) }),
    {
        GracefulShutdown::with_default_timeout()
    }
}

/// Shutdown signal for graceful termination. Those who share a signal share its place in
/// a [`ShutdownCoordinator`]; a signal itself has one owner.
#[derive(Debug)]
pub struct ShutdownSignal {
    shutdown_requested: bool,
}

impl View for ShutdownSignal {
    type V = bool;

    closed spec fn view(&self) -> bool {
        self.shutdown_requested
    }
}

impl ShutdownSignal {
    /// Creates a new shutdown signal.
    pub fn new() -> (s: ShutdownSignal)
        ensures
            s@ == false,
    {
        ShutdownSignal { shutdown_requested: false }
    }

    /// Triggers shutdown.
    pub fn trigger(&mut self)
        ensures
            final(self)@ == true,
    {
        self.shutdown_requested = true;
    }

    /// Whether shutdown was triggered.
    pub fn is_triggered(&self) -> (b: bool)
        ensures
            b == self@,
    {
        self.shutdown_requested
    }

    /// How long to wait before asking for the signal again; nothing once it was
    /// triggered.
    pub fn wait(&self) -> (r: Option<Duration>)
        ensures
            match r {
                Some(d) => !self@ && d@ == time::millis(100),
                None => self@,
            },
    {
        if self.is_triggered() {
            None
        } else {
            Some(Duration::from_millis(100))
        }
    }
}

impl Default for ShutdownSignal {
    fn default() -> (s: ShutdownSignal)
        ensures
            s@ == false,
    {
        ShutdownSignal::new()
    }
}

/// What a [`ShutdownCoordinator`] holds.
pub struct CoordinatorView {
    /// Whether the signal of each component was triggered.
    pub signals: Seq<bool>,
    pub graceful: ShutdownView,
}

impl CoordinatorView {
    /// After a signal was created.
    pub open spec fn with_signal(self) -> CoordinatorView {
        CoordinatorView { signals: self.signals.push(false), ..self }
    }

    /// After the signal in a place was triggered.
    pub open spec fn triggered(self, place: int) -> CoordinatorView {
        CoordinatorView { signals: self.signals.update(place, true), ..self }
    }

    /// After all components were shut down.
    pub open spec fn shut(self) -> CoordinatorView {
        CoordinatorView {
            signals: Seq::new(self.signals.len(), |i: int| true),
            graceful: self.graceful.shut(),
        }
    }
}

/// Multi-component shutdown coordinator.
pub struct ShutdownCoordinator {
    signals: Vec<ShutdownSignal>,
    graceful: GracefulShutdown,
}

impl View for ShutdownCoordinator {
    type V = CoordinatorView;

    closed spec fn view(&self) -> CoordinatorView {
        CoordinatorView {
            signals: self.signals@.map_values(|s: ShutdownSignal| s@),
            graceful: self.graceful@,
        }
    }
}

impl ShutdownCoordinator {
    /// Creates a new shutdown coordinator.
    pub fn new(timeout: Duration) -> (c: ShutdownCoordinator)
        ensures
            c@ == (CoordinatorView {
                signals: Seq::empty(),
                graceful: ShutdownView { requested: false, active: 0, timeout: timeout@ },
            }),
    {
        let c = ShutdownCoordinator {
            signals: Vec::new(),
            graceful: GracefulShutdown::new(timeout),
        };
        assert(c@.signals =~= Seq::empty());
        c
    }

    /// Creates a shutdown signal for a component, and says its place.
    pub fn create_signal(&mut self) -> (place: usize)
        ensures
            place == old(self)@.signals.len(),
            final(self)@ == old(self)@.with_signal(),
    {
        let place: usize = self.signals.len();
        let ghost held = self@.signals;
        self.signals.push(ShutdownSignal::new());
        assert(self@.signals =~= held.push(false));
        place
    }

    /// The shutdown signal of a component.
    pub fn signal(&self, place: usize) -> (s: &ShutdownSignal)
        requires
            place < self@.signals.len(),
        ensures
            s@ == self@.signals[place as int],
    {
        &self.signals[place]
    }

    /// Triggers the shutdown signal of one component.
    pub fn trigger(&mut self, place: usize)
        requires
            place < old(self)@.signals.len(),
        ensures
            final(self)@ == old(self)@.triggered(place as int),
    {
        let ghost held = self@.signals;
        self.signals[place].trigger();
        assert(self@.signals =~= held.update(place as int, true));
    }

    /// The graceful shutdown handler.
    pub fn graceful(&self) -> (g: &GracefulShutdown)
        ensures
            g@ == self@.graceful,
    {
        &self.graceful
    }

    /// The graceful shutdown handler, to enter and leave.
    pub fn graceful_mut(&mut self) -> (g: &mut GracefulShutdown)
        ensures
            g@ == old(self)@.graceful,
            final(self)@ == (CoordinatorView { graceful: final(g)@, ..old(self)@ }),
    {
        &mut self.graceful
    }

    /// Shuts all components down, and says whether all active requests have completed,
    /// after waiting for some time.
    pub fn shutdown_all(&mut self, waited: Duration) -> (r: Option<bool>)
        ensures
            final(self)@ == old(self)@.shut(),
            r == completion(old(self)@.graceful, waited@),
    {
        let ghost count = self@.signals.len();
        let mut i: usize = 0;
        while i < self.signals.len()
            invariant
                i <= self.signals@.len(),
                self.signals@.len() == count,
                count == old(self)@.signals.len(),
                self.graceful == old(self).graceful,
                forall|j: int| 0 <= j < i ==> (#[trigger] self.signals@[j])@,
            decreases self.signals@.len() - i,
        {
            self.signals[i].trigger();
            i = i + 1;
        }
        let r = self.graceful.shutdown_and_wait(waited);
        assert(self@.signals =~= Seq::new(count, |i: int| true));
        r
    }
}

/// After someone asked to begin a request, for each `true`, and a request ended, for each
/// `false`, in order.
pub open spec fn after(s: ShutdownView, steps: Seq<bool>) -> ShutdownView
    decreases steps.len(),
{
    if steps.len() == 0 {
        s
    } else if steps.last() {
        after(s, steps.drop_last()).entered()
    } else {
        after(s, steps.drop_last()).left()
    }
}

/// How many requests ended.
pub open spec fn ended(steps: Seq<bool>) -> nat
    decreases steps.len(),
{
    if steps.len() == 0 {
        0
    } else {
        ended(steps.drop_last()) + if steps.last() {
            0nat
        } else {
            1
        }
    }
}

/// After shutdown was requested no request is let in, whoever asks: the number of active
/// requests is what it was, less those that ended since.
pub proof fn shutdown_only_drains(s: ShutdownView, steps: Seq<bool>)
    requires
        ended(steps) <= s.active,
    ensures
        after(s.shut(), steps) == (ShutdownView {
            active: (s.active - ended(steps)) as usize,
            ..s.shut()
        }),
    decreases steps.len(),
{
    if steps.len() > 0 {
        shutdown_only_drains(s, steps.drop_last());
    }
}

/// A request that began and ended leaves nothing behind.
pub proof fn leaving_undoes_entering(s: ShutdownView)
    requires
        !s.requested,
    ensures
        s.entered().left() == s,
{
}

/// A shutdown is complete exactly when no request is active, however long it took.
pub proof fn complete_when_idle(s: ShutdownView, waited: nat)
    ensures
        completion(s, waited) == Some(true) <==> s.active == 0,
        waited >= s.timeout ==> completion(s, waited) is Some,
{
}

/// What can be done with a coordinator.
pub enum CoordinatorStep {
    /// A signal is created.
    Create,
    /// The signal in a place is triggered.
    Trigger(int),
    /// All components are shut down.
    ShutDown,
    /// Requests begin or end, or shutdown is requested of the handler alone.
    Graceful(ShutdownView),
}

/// The coordinator after some steps.
pub open spec fn coordinated(c: CoordinatorView, steps: Seq<CoordinatorStep>) -> CoordinatorView
    decreases steps.len(),
{
    if steps.len() == 0 {
        c
    } else {
        let before = coordinated(c, steps.drop_last());
        match steps.last() {
            CoordinatorStep::Create => before.with_signal(),
            CoordinatorStep::Trigger(place) => if 0 <= place < before.signals.len() {
                before.triggered(place)
            } else {
                before
            },
            CoordinatorStep::ShutDown => before.shut(),
            CoordinatorStep::Graceful(graceful) => CoordinatorView { graceful, ..before },
        }
    }
}

/// A signal that was triggered stays triggered, for everyone who asks at its place,
/// whatever happens afterwards.
pub proof fn triggered_stays_triggered(
    c: CoordinatorView,
    place: int,
    steps: Seq<CoordinatorStep>,
)
    requires
        0 <= place < c.signals.len(),
    ensures
        coordinated(c.triggered(place), steps).signals.len() >= c.signals.len(),
        coordinated(c.triggered(place), steps).signals[place],
    decreases steps.len(),
{
    if steps.len() > 0 {
        triggered_stays_triggered(c, place, steps.drop_last());
    }
}

/// Triggering a signal affects no other signal and no request, and a second time it
/// changes nothing.
pub proof fn trigger_affects_one_signal(c: CoordinatorView, place: int, other: int)
    requires
        0 <= place < c.signals.len(),
        0 <= other < c.signals.len(),
        other != place,
    ensures
        c.triggered(place).signals[other] == c.signals[other],
        c.triggered(place).graceful == c.graceful,
        c.triggered(place).triggered(place) == c.triggered(place),
{
    assert(c.triggered(place).triggered(place).signals =~= c.triggered(place).signals);
}

/// A request that is let in counts as active until it ends, and one that is not let in
/// changes nothing. Whether shutdown was requested is not changed by requests.
pub proof fn requests_are_counted(s: ShutdownView)
    ensures
        !s.requested && s.active < usize::MAX ==> s.entered().active == s.active + 1,
        s.requested ==> s.entered() == s,
        s.active > 0 ==> s.left().active == s.active - 1,
        s.entered().requested == s.requested && s.left().requested == s.requested,
        s.entered().timeout == s.timeout && s.left().timeout == s.timeout,
        s.shut().requested,
        s.shut().active == s.active && s.shut().timeout == s.timeout,
{
}

/// Waiting goes on as long as requests are active and the timeout has not passed, and it
/// fails when the timeout has passed with requests still active.
pub proof fn waiting_ends_at_timeout(s: ShutdownView, waited: nat)
    ensures
        completion(s, waited) is None <==> s.active > 0 && waited < s.timeout,
        completion(s, waited) == Some(false) <==> s.active > 0 && waited >= s.timeout,
{
}

/// Shutting down triggers the signal of every component and lets no further request in; the
/// requests that are active stay so.
pub proof fn shutdown_reaches_all(c: CoordinatorView, place: int)
    requires
        0 <= place < c.signals.len(),
    ensures
        c.shut().signals.len() == c.signals.len(),
        c.shut().signals[place],
        c.shut().graceful.requested,
        c.shut().graceful.active == c.graceful.active,
        c.shut().graceful.timeout == c.graceful.timeout,
        c.triggered(place).signals[place],
        c.triggered(place).signals.len() == c.signals.len(),
{
}

/// A new signal is not triggered, and leaves the others and the requests as they are.
pub proof fn new_signal_is_quiet(c: CoordinatorView, other: int)
    requires
        0 <= other < c.signals.len(),
    ensures
        c.with_signal().signals.len() == c.signals.len() + 1,
        !c.with_signal().signals[c.signals.len() as int],
        c.with_signal().signals[other] == c.signals[other],
        c.with_signal().graceful == c.graceful,
{
}

/// The request that ends is the last one exactly when none is active afterwards; then those
/// who wait for completion are done.
pub proof fn last_request_completes(s: ShutdownView, waited: nat)
    requires
        s.active > 0,
    ensures
        s.ends_last() <==> s.left().active == 0,
        s.ends_last() <==> completion(s.left(), waited) == Some(true),
{
}

} // verus!
