//! Session management: what a server keeps of one client connection.
//!
//! The bytes themselves are read and written elsewhere. A session decides whether
//! that may happen, holds what was read, and keeps track of its activity.

use crate::chance::random_u128;
use crate::error::{concatenated, ErrorView, NetworkError};
use crate::network::assembly;
use crate::network::assembly::{ReadOutcome, WriteOutcome};
use crate::network::buffer;
use crate::network::message;
use crate::network::message::{Message, MAX_MESSAGE_SIZE};
use crate::text::IntoText;
use crate::time;
use crate::time::{Clock, Duration, Instant, MAX_NANOS};
use bytes::BytesMut;
use vstd::prelude::*;
use vstd::string::*;

verus! {

/// Generates a session ID of 128 bits from the operating system's random source.
/// Any number may come.
pub fn generate_session_id() -> u128 {
    random_u128()
}

/// Session state.
#[derive(Debug, Clone, Copy, PartialEq, Eq, Structural)]
pub enum SessionState {
    Active,
    Closing,
    Closed,
}

/// What a [`Session`] holds. Times are in nanoseconds of the session's clock.
#[verifier::ext_equal]
pub struct SessionView {
    pub id: u128,
    pub peer_addr: Seq<char>,
    pub state: SessionState,
    pub read_timeout: nat,
    pub write_timeout: nat,
    pub idle_timeout: nat,
    pub created_at: nat,
    pub last_activity: nat,
    pub active: bool,
    /// Whether the half of the connection that is read from is open.
    pub read_open: bool,
    /// Whether the half of the connection that is written to is open.
    pub write_open: bool,
    /// The bytes that were read and not yet received as messages.
    pub buffered: Seq<u8>,
}

impl SessionView {
    /// The session of a connection that was just accepted.
    pub open spec fn opened(
        id: u128,
        peer_addr: Seq<char>,
        read_timeout: nat,
        write_timeout: nat,
        idle_timeout: nat,
        now: nat,
    ) -> SessionView {
        SessionView {
            id,
            peer_addr,
            state: SessionState::Active,
            read_timeout,
            write_timeout,
            idle_timeout,
            created_at: now,
            last_activity: now,
            active: true,
            read_open: true,
            write_open: true,
            buffered: Seq::empty(),
        }
    }

    /// Whether nothing was sent or received for longer than allowed.
    pub open spec fn idle(self, now: nat) -> bool {
        time::passed(self.last_activity, now) > self.idle_timeout
    }

    /// Why sending and receiving are refused from the outset, if they are.
    pub open spec fn refusal(self, now: nat) -> Option<ErrorView> {
        if !self.active {
            Some(ErrorView::InvalidState("Session is not active"@))
        } else if self.idle(now) {
            Some(ErrorView::Timeout("Session idle timeout exceeded"@))
        } else {
            None
        }
    }

    /// Why a message of a given size is not sent, if it is not.
    pub open spec fn send_refusal(self, now: nat, size: nat) -> Option<ErrorView> {
        if self.refusal(now) is Some {
            self.refusal(now)
        } else if size > MAX_MESSAGE_SIZE {
            Some(ErrorView::MessageTooLarge(size, MAX_MESSAGE_SIZE as nat))
        } else if !self.write_open {
            Some(ErrorView::InvalidState("Session write half is closed"@))
        } else {
            None
        }
    }

    /// Why nothing is received, if so.
    pub open spec fn receive_refusal(self, now: nat) -> Option<ErrorView> {
        if self.refusal(now) is Some {
            self.refusal(now)
        } else if !self.read_open {
            Some(ErrorView::InvalidState("Session read half is closed"@))
        } else {
            None
        }
    }

    /// The session after something was sent or received.
    pub open spec fn touched(self, now: nat) -> SessionView {
        SessionView { last_activity: now, ..self }
    }

    /// The session that was set inactive.
    pub open spec fn deactivated(self) -> SessionView {
        SessionView { active: false, ..self }
    }

    /// The session with other bytes that were read and not yet received.
    pub open spec fn holding(self, bytes: Seq<u8>) -> SessionView {
        SessionView { buffered: bytes, ..self }
    }

    /// The session after a message was looked for, of which `left` is what is left.
    pub open spec fn polled(self, left: Seq<u8>, found: bool, now: nat) -> SessionView {
        if found {
            self.holding(left).touched(now)
        } else {
            self.holding(left)
        }
    }

    /// How long receiving a message may take as a whole.
    pub open spec fn receive_limit(self) -> nat {
        self.read_timeout * 3
    }

    /// The session when closing has begun.
    pub open spec fn closing(self) -> SessionView {
        SessionView { state: SessionState::Closing, active: false, write_open: false, ..self }
    }

    /// The session when closing has ended.
    pub open spec fn closed(self) -> SessionView {
        SessionView { state: SessionState::Closed, read_open: false, ..self }
    }
}

/// The error that writing the bytes of a message ends with, if any.
pub open spec fn write_error(outcome: WriteOutcome) -> Option<ErrorView> {
    match outcome {
        WriteOutcome::Written => None,
        WriteOutcome::TimedOut => Some(ErrorView::Timeout("Write timed out"@)),
        WriteOutcome::Failed(t) => Some(ErrorView::Connection("Failed to write: "@ + t@)),
    }
}

/// Network session representing a client connection.
pub struct Session {
    id: u128,
    peer_addr: String,
    state: SessionState,
    read_timeout: Duration,
    write_timeout: Duration,
    idle_timeout: Duration,
    clock: Clock,
    created_at: Instant,
    last_activity: Instant,
    active: bool,
    read_open: bool,
    write_open: bool,
    read_buffer: BytesMut,
}

impl View for Session {
    type V = SessionView;

    closed spec fn view(&self) -> SessionView {
        SessionView {
            id: self.id,
            peer_addr: self.peer_addr@,
            state: self.state,
            read_timeout: self.read_timeout@,
            write_timeout: self.write_timeout@,
            idle_timeout: self.idle_timeout@,
            created_at: self.created_at@,
            last_activity: self.last_activity@,
            active: self.active,
            read_open: self.read_open,
            write_open: self.write_open,
            buffered: buffer::buffer_content(self.read_buffer),
        }
    }
}

impl Session {
    /// Creates the session of a connection that was just accepted, under a random
    /// ID and at the time that its clock shows.
    pub fn new<S: IntoText>(
        peer_addr: S,
        read_timeout: Duration,
        write_timeout: Duration,
        idle_timeout: Duration,
    ) -> (s: Session)
        ensures
            exists|id: u128, now: nat|
                s@ == #[trigger] SessionView::opened(
                    id,
                    peer_addr.text(),
                    read_timeout@,
                    write_timeout@,
                    idle_timeout@,
                    now,
                ),
    {
        let clock = Clock::start();
        let now = clock.now();
        Session::opened(
            generate_session_id(),
            peer_addr,
            read_timeout,
            write_timeout,
            idle_timeout,
            clock,
            now,
        )
    }

    /// Creates the session of a connection that was accepted at a given time, under
    /// a given ID.
    pub fn opened<S: IntoText>(
        id: u128,
        peer_addr: S,
        read_timeout: Duration,
        write_timeout: Duration,
        idle_timeout: Duration,
        clock: Clock,
        now: Instant,
    ) -> (s: Session)
        ensures
            s@ == SessionView::opened(
                id,
                peer_addr.text(),
                read_timeout@,
                write_timeout@,
                idle_timeout@,
                now@,
            ),
    {
        Session {
            id,
            peer_addr: peer_addr.into_text(),
            state: SessionState::Active,
            read_timeout,
            write_timeout,
            idle_timeout,
            clock,
            created_at: now,
            last_activity: now,
            active: true,
            read_open: true,
            write_open: true,
            read_buffer: buffer::buffer_with_capacity(4096),
        }
    }

    /// Session ID.
    pub fn id(&self) -> (id: u128)
        ensures
            id == self@.id,
    {
        self.id
    }

    /// What the session's clock shows. Any time may come.
    pub fn now(&self) -> Instant {
        self.clock.now()
    }

    /// Notes that something was sent or received.
    fn update_activity(&mut self, now: Instant)
        ensures
            final(self)@ == old(self)@.touched(now@),
    {
        self.last_activity = now;
    }

    /// Whether the session has exceeded its idle timeout at a given time.
    pub fn is_idle_at(&self, now: Instant) -> (b: bool)
        ensures
            b == self@.idle(now@),
    {
        now.duration_since(self.last_activity).exceeds(self.idle_timeout)
    }

    /// Whether the session has exceeded its idle timeout.
    pub fn is_idle(&self) -> (b: bool)
        ensures
            exists|now: nat| b == #[trigger] self@.idle(now),
    {
        let now = self.clock.now();
        self.is_idle_at(now)
    }

    /// Time since last activity at a given time.
    pub fn idle_time_at(&self, now: Instant) -> (d: Duration)
        ensures
            d@ == time::passed(self@.last_activity, now@),
    {
        now.duration_since(self.last_activity)
    }

    /// Time since last activity.
    pub fn idle_time(&self) -> (d: Duration)
        ensures
            exists|now: nat| d@ == #[trigger] time::passed(self@.last_activity, now),
    {
        let now = self.clock.now();
        self.idle_time_at(now)
    }

    /// Peer address.
    pub fn peer_addr(&self) -> (a: &str)
        ensures
            a@ == self@.peer_addr,
    {
        self.peer_addr.as_str()
    }

    /// Session state.
    pub fn state(&self) -> (s: SessionState)
        ensures
            s == self@.state,
    {
        self.state
    }

    /// Whether the session is active.
    pub fn is_active(&self) -> (b: bool)
        ensures
            b == self@.active,
    {
        self.active
    }

    /// Sets the session as inactive.
    pub fn set_inactive(&mut self)
        ensures
            final(self)@ == old(self)@.deactivated(),
    {
        self.active = false;
    }

    /// Time since the session was created, at a given time.
    pub fn uptime_at(&self, now: Instant) -> (d: Duration)
        ensures
            d@ == time::passed(self@.created_at, now@),
    {
        now.duration_since(self.created_at)
    }

    /// Time since the session was created.
    pub fn uptime(&self) -> (d: Duration)
        ensures
            exists|now: nat| d@ == #[trigger] time::passed(self@.created_at, now),
    {
        let now = self.clock.now();
        self.uptime_at(now)
    }

    /// How long a single read may take.
    pub fn read_timeout(&self) -> (d: Duration)
        ensures
            d@ == self@.read_timeout,
    {
        self.read_timeout
    }

    /// How long a single write may take.
    pub fn write_timeout(&self) -> (d: Duration)
        ensures
            d@ == self@.write_timeout,
    {
        self.write_timeout
    }

    /// Why sending and receiving are refused from the outset, if they are.
    fn check_usable(&self, now: Instant) -> (r: Result<(), NetworkError>)
        ensures
            match r {
                Ok(_) => self@.refusal(now@) is None,
                Err(e) => self@.refusal(now@) == Some(e@),
            },
    {
        if !self.is_active() {
            return Err(NetworkError::invalid_state("Session is not active"));
        }
        if self.is_idle_at(now) {
            return Err(NetworkError::timeout("Session idle timeout exceeded"));
        }
        Ok(())
    }

    /// The bytes to write for a message at a given time, or why it is not sent.
    pub fn send_at(&self, message: &Message, now: Instant) -> (r: Result<BytesMut, NetworkError>)
        ensures
            match r {
                Ok(data) => self@.send_refusal(now@, message@.len()) is None
                    && buffer::buffer_content(data) == message::frame(message@),
                Err(e) => self@.send_refusal(now@, message@.len()) == Some(e@),
            },
    {
        self.check_usable(now)?;
        let data = message.encode()?;
        if !self.write_open {
            return Err(NetworkError::invalid_state("Session write half is closed"));
        }
        Ok(data)
    }

    /// The bytes to write for a message, or why it is not sent.
    pub fn send(&self, message: &Message) -> (r: Result<BytesMut, NetworkError>)
        ensures
            exists|now: nat|
                match r {
                    Ok(data) => #[trigger] self@.send_refusal(now, message@.len()) is None
                        && buffer::buffer_content(data) == message::frame(message@),
                    Err(e) => self@.send_refusal(now, message@.len()) == Some(e@),
                },
    {
        let now = self.clock.now();
        self.send_at(message, now)
    }

    /// What came of writing the bytes of a message. Only a success counts as
    /// activity.
    pub fn sent_at(&mut self, outcome: WriteOutcome, now: Instant) -> (r: Result<(), NetworkError>)
        ensures
            match r {
                Ok(_) => write_error(outcome) is None && final(self)@ == old(self)@.touched(now@),
                Err(e) => write_error(outcome) == Some(e@) && final(self)@ == old(self)@,
            },
    {
        match outcome {
            WriteOutcome::Written => {
                self.update_activity(now);
                Ok(())
            },
            WriteOutcome::TimedOut => Err(NetworkError::timeout("Write timed out")),
            WriteOutcome::Failed(t) => Err(
                NetworkError::connection(concatenated("Failed to write: ", &t)),
            ),
        }
    }

    /// How long receiving a message may take as a whole, from a given time on, or why
    /// nothing is received. It is three times the time for a single read.
    pub fn receive_at(&self, now: Instant) -> (r: Result<Duration, NetworkError>)
        requires
            self@.receive_refusal(now@) is None ==> self@.read_timeout * 3 <= MAX_NANOS,
        ensures
            match r {
                Ok(limit) => self@.receive_refusal(now@) is None && limit@ == self@.receive_limit(),
                Err(e) => self@.receive_refusal(now@) == Some(e@),
            },
    {
        self.check_usable(now)?;
        if !self.read_open {
            return Err(NetworkError::invalid_state("Session read half is closed"));
        }
        Ok(self.read_timeout.times(3))
    }

    /// How long receiving a message may take as a whole, or why nothing is received.
    pub fn receive(&self) -> (r: Result<Duration, NetworkError>)
        requires
            self@.active && self@.read_open ==> self@.read_timeout * 3 <= MAX_NANOS,
        ensures
            exists|now: nat|
                match r {
                    Ok(limit) => #[trigger] self@.receive_refusal(now) is None && limit@
                        == self@.receive_limit(),
                    Err(e) => self@.receive_refusal(now) == Some(e@),
                },
    {
        let now = self.clock.now();
        self.receive_at(now)
    }

    /// Looks for a complete message in what was read, at a given time, when receiving
    /// has lasted `elapsed` of at most `limit`. `Ok(None)` asks for more bytes. A
    /// message counts as activity.
    pub fn poll_receive_at(&mut self, elapsed: Duration, limit: Duration, now: Instant) -> (r:
        Result<Option<Message>, NetworkError>)
        ensures
            assembly::polled(old(self)@.buffered, final(self)@.buffered, elapsed@, limit@, r),
            final(self)@ == old(self)@.polled(final(self)@.buffered, r matches Ok(Some(_)), now@),
    {
        let r = assembly::poll_message(&mut self.read_buffer, elapsed, limit);
        if let Ok(Some(_)) = &r {
            self.update_activity(now);
        }
        r
    }

    /// Takes in what came of a read: bytes are kept for the next message, anything
    /// else is told as an error.
    pub fn supply_read(&mut self, outcome: ReadOutcome) -> (r: Result<(), NetworkError>)
        requires
            outcome matches ReadOutcome::Data(bytes) ==> old(self)@.buffered.len() + bytes@.len()
                <= isize::MAX,
        ensures
            match (r, assembly::supplied(old(self)@.buffered, outcome)) {
                (Ok(_), Ok(held)) => final(self)@ == old(self)@.holding(held),
                (Err(e), Err(v)) => e@ == v && final(self)@ == old(self)@,
                _ => false,
            },
    {
        assembly::supply_read(&mut self.read_buffer, outcome)
    }

    /// Begins to close the session and says whether the half that is written to was
    /// open, and is to be shut down.
    pub fn close(&mut self) -> (shut_down: bool)
        ensures
            final(self)@ == old(self)@.closing(),
            shut_down == old(self)@.write_open,
    {
        self.state = SessionState::Closing;
        self.active = false;
        let shut_down: bool = self.write_open;
        self.write_open = false;
        shut_down
    }

    /// Ends closing the session.
    pub fn finish_close(&mut self)
        ensures
            final(self)@ == old(self)@.closed(),
    {
        self.read_open = false;
        self.state = SessionState::Closed;
    }
}

/// Once closing has begun, a session sends and receives nothing, at any time.
pub proof fn closed_session_refuses(s: SessionView, now: nat, size: nat)
    ensures
        s.closing().send_refusal(now, size) == Some(ErrorView::InvalidState("Session is not active"@)),
        s.closing().receive_refusal(now) == Some(ErrorView::InvalidState("Session is not active"@)),
        s.closing().closed().send_refusal(now, size) == Some(
            ErrorView::InvalidState("Session is not active"@),
        ),
        s.closing().closed().receive_refusal(now) == Some(
            ErrorView::InvalidState("Session is not active"@),
        ),
{
}

/// An active session is refused sending and receiving as idle exactly when its idle
/// timeout has passed since its last activity.
pub proof fn idle_session_refuses(s: SessionView, now: nat, size: nat)
    requires
        s.active,
    ensures
        (s.send_refusal(now, size) == Some(ErrorView::Timeout("Session idle timeout exceeded"@)))
            == (time::passed(s.last_activity, now) > s.idle_timeout),
        (s.receive_refusal(now) == Some(ErrorView::Timeout("Session idle timeout exceeded"@))) == (
        time::passed(s.last_activity, now) > s.idle_timeout),
{
}

/// A session that was just opened is active and holds nothing. It can be used until its idle
/// timeout has passed.
pub proof fn opened_session_is_active(
    id: u128,
    peer_addr: Seq<char>,
    read_timeout: nat,
    write_timeout: nat,
    idle_timeout: nat,
    then: nat,
    now: nat,
)
    ensures
        ({
            let s = SessionView::opened(
                id,
                peer_addr,
                read_timeout,
                write_timeout,
                idle_timeout,
                then,
            );
            &&& s.id == id && s.peer_addr == peer_addr
            &&& s.read_timeout == read_timeout && s.write_timeout == write_timeout
            &&& s.idle_timeout == idle_timeout && s.created_at == then
            &&& s.state == SessionState::Active && s.active
            &&& s.buffered.len() == 0
            &&& s.receive_refusal(now) is None <==> time::passed(then, now) <= idle_timeout
            &&& s.send_refusal(now, 0) is None <==> time::passed(then, now) <= idle_timeout
        }),
{
}

/// A session sends exactly when it is active and not idle, its connection can be written to,
/// and the message is not too large; it receives exactly when it is active and not idle and
/// its connection can be read from. The refusal says which of these is missing.
pub proof fn usable_sessions_are_used(s: SessionView, now: nat, size: nat)
    ensures
        s.send_refusal(now, size) is None <==> s.active && time::passed(s.last_activity, now)
            <= s.idle_timeout && s.write_open && size <= 16_777_216,
        s.receive_refusal(now) is None <==> s.active && time::passed(s.last_activity, now)
            <= s.idle_timeout && s.read_open,
        !s.active ==> s.send_refusal(now, size) == Some(
            ErrorView::InvalidState("Session is not active"@),
        ) && s.receive_refusal(now) == s.send_refusal(now, size),
        s.active && !s.idle(now) && size > 16_777_216 ==> s.send_refusal(now, size) == Some(
            ErrorView::MessageTooLarge(size, 16_777_216),
        ),
        s.active && !s.idle(now) && size <= 16_777_216 && !s.write_open ==> s.send_refusal(now, size)
            == Some(ErrorView::InvalidState("Session write half is closed"@)),
        s.active && !s.idle(now) && !s.read_open ==> s.receive_refusal(now) == Some(
            ErrorView::InvalidState("Session read half is closed"@),
        ),
{
}

/// Activity keeps a session from being idle: it is idle again when its idle timeout has
/// passed since then. A message that was received is activity, looking for one is not.
pub proof fn activity_keeps_alive(s: SessionView, left: Seq<u8>, found: bool, then: nat, now: nat)
    ensures
        s.touched(then).idle(now) <==> time::passed(then, now) > s.idle_timeout,
        s.touched(then) == (SessionView { last_activity: then, ..s }),
        s.polled(left, true, then).idle(now) <==> time::passed(then, now) > s.idle_timeout,
        s.polled(left, false, then).idle(now) == s.idle(now),
        s.polled(left, found, then).buffered == left,
        s.polled(left, found, then).active == s.active,
        s.polled(left, found, then).state == s.state,
        s.holding(left).buffered == left,
        s.holding(left).idle(now) == s.idle(now),
        s.holding(left).active == s.active,
{
}

/// Closing a session goes in steps: first nothing is written any more, then nothing read. One
/// that is set inactive refuses everything while its connection stays open.
pub proof fn closing_goes_in_steps(s: SessionView, now: nat, size: nat)
    ensures
        s.closing().state == SessionState::Closing && !s.closing().active,
        !s.closing().write_open && s.closing().read_open == s.read_open,
        s.closing().buffered == s.buffered && s.closing().last_activity == s.last_activity,
        s.closed().state == SessionState::Closed && !s.closed().read_open,
        s.closed().active == s.active && s.closed().write_open == s.write_open,
        !s.deactivated().active && s.deactivated().state == s.state,
        s.deactivated().read_open == s.read_open && s.deactivated().write_open == s.write_open,
        s.deactivated().send_refusal(now, size) is Some,
        s.deactivated().receive_refusal(now) is Some,
{
}

/// Writing succeeds exactly when everything was written; a slow peer is told as a timeout, a
/// broken connection as such.
pub proof fn writing_succeeds_when_written(outcome: WriteOutcome)
    ensures
        write_error(outcome) is None <==> outcome is Written,
        outcome is TimedOut ==> write_error(outcome) == Some(
            ErrorView::Timeout("Write timed out"@),
        ),
        outcome matches WriteOutcome::Failed(t) ==> write_error(outcome) == Some(
            ErrorView::Connection("Failed to write: "@ + t@),
        ),
{
}

/// A message may take three times as long to arrive as a single read.
pub proof fn receiving_takes_three_reads(s: SessionView)
    ensures
        s.receive_limit() == s.read_timeout + s.read_timeout + s.read_timeout,
{
}

} // verus!
