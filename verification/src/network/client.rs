//! TCP client: its configuration, its state, and what it does next.
//!
//! Connecting, reading and writing happen elsewhere. The client decides which of
//! them is due, is told what came of it, and says what that means.

use crate::chance::random_below;
use crate::error::{concatenated, ErrorView, NetworkError};
use crate::network::assembly;
use crate::network::assembly::{ReadOutcome, WriteOutcome};
use crate::network::buffer;
use crate::network::message;
use crate::network::message::{Message, MAX_MESSAGE_SIZE};
use crate::text;
use crate::text::{push_decimal, IntoText};
use crate::time;
use crate::time::{Duration, MAX_NANOS};
use bytes::BytesMut;
use vstd::prelude::*;
use vstd::string::*;

verus! {

/// Client configuration.
#[derive(Debug, Clone, Copy)]
pub struct ClientConfig {
    /// Connection timeout.
    pub connect_timeout: Duration,
    /// Read timeout.
    pub read_timeout: Duration,
    /// Write timeout.
    pub write_timeout: Duration,
    /// Keep-alive interval.
    pub keep_alive: Option<Duration>,
    /// Reconnect on disconnect.
    pub auto_reconnect: bool,
    /// Maximum reconnect attempts.
    pub max_reconnect_attempts: usize,
}

/// Whether a configuration is the default one.
pub open spec fn is_default_config(c: ClientConfig) -> bool {
    &&& c.connect_timeout@ == time::secs(10)
    &&& c.read_timeout@ == time::secs(30)
    &&& c.write_timeout@ == time::secs(10)
    &&& c.keep_alive matches Some(d) && d@ == time::secs(60)
    &&& c.auto_reconnect
    &&& c.max_reconnect_attempts == 3
}

impl Default for ClientConfig {
    fn default() -> (c: ClientConfig)
        ensures
            is_default_config(c),
    {
        ClientConfig {
            connect_timeout: Duration::from_secs(10),
            read_timeout: Duration::from_secs(30),
            write_timeout: Duration::from_secs(10),
            keep_alive: Some(Duration::from_secs(60)),
            auto_reconnect: true,
            max_reconnect_attempts: 3,
        }
    }
}

impl ClientConfig {
    /// Creates a new configuration.
    pub fn new() -> (c: ClientConfig)
        ensures
            is_default_config(c),
    {
        ClientConfig::default()
    }

    /// Sets the connection timeout.
    pub fn with_connect_timeout(self, timeout: Duration) -> (c: ClientConfig)
        ensures
            c == (ClientConfig { connect_timeout: timeout, ..self }),
    {
        ClientConfig { connect_timeout: timeout, ..self }
    }

    /// Sets the read timeout.
    pub fn with_read_timeout(self, timeout: Duration) -> (c: ClientConfig)
        ensures
            c == (ClientConfig { read_timeout: timeout, ..self }),
    {
        ClientConfig { read_timeout: timeout, ..self }
    }

    /// Sets the write timeout.
    pub fn with_write_timeout(self, timeout: Duration) -> (c: ClientConfig)
        ensures
            c == (ClientConfig { write_timeout: timeout, ..self }),
    {
        ClientConfig { write_timeout: timeout, ..self }
    }

    /// Sets the keep-alive interval.
    pub fn with_keep_alive(self, interval: Option<Duration>) -> (c: ClientConfig)
        ensures
            c == (ClientConfig { keep_alive: interval, ..self }),
    {
        ClientConfig { keep_alive: interval, ..self }
    }

    /// Sets auto-reconnect.
    pub fn with_auto_reconnect(self, enabled: bool) -> (c: ClientConfig)
        ensures
            c == (ClientConfig { auto_reconnect: enabled, ..self }),
    {
        ClientConfig { auto_reconnect: enabled, ..self }
    }
}

/// Client state.
#[derive(Debug, Clone, Copy, PartialEq, Eq, Structural)]
pub enum ClientState {
    Disconnected,
    Connecting,
    Connected,
    Reconnecting,
}

/// What came of opening a connection to the address.
#[derive(Debug)]
pub enum DialOutcome {
    /// The address cannot be read, and why.
    InvalidAddress(String),
    /// No connection was made in time.
    TimedOut,
    /// Connecting failed, and why.
    Failed(String),
    /// The connection is open.
    Opened,
}

/// What came of setting the keep-alive interval of an open connection.
#[derive(Debug)]
pub enum KeepAliveOutcome {
    /// The connection could not be taken out of the event loop, and why.
    NotDetached(String),
    /// The interval was refused, and why.
    NotSet(String),
    /// The connection could not be made nonblocking again, and why.
    NotNonblocking(String),
    /// The connection could not be put back into the event loop, and why.
    NotAttached(String),
    /// The interval is set.
    Applied,
}

/// What came of sending: waiting until the connection takes bytes, then writing them.
#[derive(Debug)]
pub enum SendOutcome {
    /// The connection did not become writable in time.
    NotReady,
    /// Whether it is writable could not be told, and why.
    ReadyFailed(String),
    /// It became writable, and this came of writing.
    Ready(WriteOutcome),
}

/// What came of writing without waiting.
#[derive(Debug)]
pub enum TryWriteOutcome {
    /// That many bytes were written.
    Wrote(usize),
    /// Nothing can be written without waiting.
    WouldBlock,
    /// Writing failed, and why.
    Failed(String),
}

/// What to do about an operation that may have found the connection lost.
#[derive(Debug)]
pub enum Recovery<T> {
    /// Nothing: it succeeded.
    Done(T),
    /// Reconnect, then do it once more.
    Reconnect,
    /// Tell this error.
    Fail(NetworkError),
}

/// What a [`TcpClient`] holds.
#[verifier::ext_equal]
pub struct ClientView {
    pub config: ClientConfig,
    pub address: Seq<char>,
    pub state: ClientState,
    /// Whether there is a connection.
    pub open: bool,
}

impl ClientView {
    /// What every client keeps: one that is connected has a connection.
    pub open spec fn wf(self) -> bool {
        self.state == ClientState::Connected ==> self.open
    }

    /// Why connecting is refused, if it is.
    pub open spec fn connect_refusal(self, is_reconnect: bool) -> Option<ErrorView> {
        if !is_reconnect && (self.state == ClientState::Connected || self.state
            == ClientState::Connecting) {
            Some(ErrorView::InvalidState("Client is already connected or connecting"@))
        } else {
            None
        }
    }

    /// The client that has begun to connect.
    pub open spec fn dialing(self, is_reconnect: bool) -> ClientView {
        ClientView {
            state: if is_reconnect {
                ClientState::Reconnecting
            } else {
                ClientState::Connecting
            },
            ..self
        }
    }

    /// The client that is connected.
    pub open spec fn connected(self) -> ClientView {
        ClientView { state: ClientState::Connected, open: true, ..self }
    }

    /// The client that gave up.
    pub open spec fn gave_up(self) -> ClientView {
        ClientView { state: ClientState::Disconnected, ..self }
    }

    /// The client that was disconnected.
    pub open spec fn disconnected(self) -> ClientView {
        ClientView { state: ClientState::Disconnected, open: false, ..self }
    }

    /// Why a message of a given size is not sent, if it is not.
    pub open spec fn send_refusal(self, size: nat) -> Option<ErrorView> {
        if self.state != ClientState::Connected {
            Some(ErrorView::InvalidState("Client is not connected"@))
        } else if size > MAX_MESSAGE_SIZE {
            Some(ErrorView::MessageTooLarge(size, MAX_MESSAGE_SIZE as nat))
        } else if !self.open {
            Some(ErrorView::InvalidState("No active connection"@))
        } else {
            None
        }
    }

    /// Why nothing is received, if so.
    pub open spec fn receive_refusal(self) -> Option<ErrorView> {
        if self.state != ClientState::Connected {
            Some(ErrorView::InvalidState("Client is not connected"@))
        } else if !self.open {
            Some(ErrorView::InvalidState("No active connection"@))
        } else {
            None
        }
    }
}

/// The error that a failed attempt to open a connection means.
pub open spec fn dial_error(outcome: DialOutcome) -> ErrorView
    recommends
        outcome !is Opened,
{
    match outcome {
        DialOutcome::InvalidAddress(t) => ErrorView::InvalidAddress("Invalid address: "@ + t@),
        DialOutcome::TimedOut => ErrorView::Timeout("Connection timed out"@),
        DialOutcome::Failed(t) => ErrorView::Connection("Failed to connect: "@ + t@),
        DialOutcome::Opened => arbitrary(),
    }
}

/// The error that a failed attempt to set the keep-alive interval means.
pub open spec fn keep_alive_error(outcome: KeepAliveOutcome) -> ErrorView
    recommends
        outcome !is Applied,
{
    match outcome {
        KeepAliveOutcome::NotDetached(t) => ErrorView::Other(
            "Failed to convert tokio stream to std: "@ + t@,
        ),
        KeepAliveOutcome::NotSet(t) => ErrorView::Other("Failed to set keep-alive: "@ + t@),
        KeepAliveOutcome::NotNonblocking(t) => ErrorView::Other(
            "Failed to restore nonblocking mode after keep-alive config: "@ + t@,
        ),
        KeepAliveOutcome::NotAttached(t) => ErrorView::Other(
            "Failed to convert std socket back to tokio: "@ + t@,
        ),
        KeepAliveOutcome::Applied => arbitrary(),
    }
}

/// The error that sending ends with, if any.
pub open spec fn send_error(outcome: SendOutcome) -> Option<ErrorView> {
    match outcome {
        SendOutcome::NotReady => Some(
            ErrorView::Timeout("Socket not ready for writing (backpressure)"@),
        ),
        SendOutcome::ReadyFailed(t) => Some(
            ErrorView::Connection("Failed to check writability: "@ + t@),
        ),
        SendOutcome::Ready(WriteOutcome::TimedOut) => Some(ErrorView::Timeout("Write timed out"@)),
        SendOutcome::Ready(WriteOutcome::Failed(t)) => Some(
            ErrorView::Connection("Failed to write: "@ + t@),
        ),
        SendOutcome::Ready(WriteOutcome::Written) => None,
    }
}

/// The error of a write that would block.
pub open spec fn would_block_error() -> ErrorView {
    ErrorView::Other("backpressure: send buffer full, cannot write without blocking"@)
}

/// What is left to write after writing without waiting: the bytes from a place on, or
/// nothing; or the error.
pub open spec fn after_try(total: usize, outcome: TryWriteOutcome) -> Result<
    Option<usize>,
    ErrorView,
> {
    match outcome {
        TryWriteOutcome::Wrote(n) => Ok(
            if n == total {
                None
            } else {
                Some(n)
            },
        ),
        TryWriteOutcome::WouldBlock => Err(would_block_error()),
        TryWriteOutcome::Failed(t) => Err(ErrorView::Connection("Failed to write: "@ + t@)),
    }
}

/// The error that writing the rest ends with, if any.
pub open spec fn rest_error(outcome: WriteOutcome) -> Option<ErrorView> {
    match outcome {
        WriteOutcome::Written => None,
        WriteOutcome::TimedOut => Some(ErrorView::Timeout("Write timed out after partial write"@)),
        WriteOutcome::Failed(t) => Some(
            ErrorView::Connection("Failed to complete write: "@ + t@),
        ),
    }
}

/// Whether an error indicates a lost connection.
pub open spec fn is_lost(e: ErrorView) -> bool {
    e is Connection || e is InvalidState
}

/// TCP client.
pub struct TcpClient {
    config: ClientConfig,
    address: String,
    state: ClientState,
    open: bool,
}

impl View for TcpClient {
    type V = ClientView;

    closed spec fn view(&self) -> ClientView {
        ClientView {
            config: self.config,
            address: self.address@,
            state: self.state,
            open: self.open,
        }
    }
}

impl TcpClient {
    /// Creates a new TCP client.
    pub fn new<S: IntoText>(address: S) -> (c: TcpClient)
        ensures
            is_default_config(c@.config),
            c@ == (ClientView {
                config: c@.config,
                address: address.text(),
                state: ClientState::Disconnected,
                open: false,
            }),
    {
        TcpClient::with_config(address, ClientConfig::default())
    }

    /// Creates a new TCP client with custom configuration.
    pub fn with_config<S: IntoText>(address: S, config: ClientConfig) -> (c: TcpClient)
        ensures
            c@ == (ClientView {
                config,
                address: address.text(),
                state: ClientState::Disconnected,
                open: false,
            }),
    {
        TcpClient {
            config,
            address: address.into_text(),
            state: ClientState::Disconnected,
            open: false,
        }
    }

    /// Begins to connect: the connection to the address is to be opened within the
    /// time that comes back.
    pub fn connect(&mut self) -> (r: Result<Duration, NetworkError>)
        ensures
            match r {
                Ok(limit) => old(self)@.connect_refusal(false) is None && limit
                    == old(self)@.config.connect_timeout && final(self)@ == old(self)@.dialing(
                    false,
                ),
                Err(e) => old(self)@.connect_refusal(false) == Some(e@) && final(self)@ == old(
                    self,
                )@,
            },
    {
        self.connect_internal(false)
    }

    /// Begins to connect, for the first time or again.
    fn connect_internal(&mut self, is_reconnect: bool) -> (r: Result<Duration, NetworkError>)
        ensures
            match r {
                Ok(limit) => old(self)@.connect_refusal(is_reconnect) is None && limit
                    == old(self)@.config.connect_timeout && final(self)@ == old(self)@.dialing(
                    is_reconnect,
                ),
                Err(e) => old(self)@.connect_refusal(is_reconnect) == Some(e@) && final(self)@
                    == old(self)@,
            },
    {
        if !is_reconnect && (self.state == ClientState::Connected || self.state
            == ClientState::Connecting) {
            return Err(NetworkError::invalid_state("Client is already connected or connecting"));
        }
        self.state = if is_reconnect {
            ClientState::Reconnecting
        } else {
            ClientState::Connecting
        };
        Ok(self.config.connect_timeout)
    }

    /// What came of opening the connection. Where a keep-alive interval is
    /// configured it comes back, to be set before the client is connected.
    pub fn dialed(&mut self, outcome: DialOutcome) -> (r: Result<Option<Duration>, NetworkError>)
        ensures
            if outcome is Opened {
                r == Ok::<Option<Duration>, NetworkError>(old(self)@.config.keep_alive)
                    && final(self)@ == if old(self)@.config.keep_alive is Some {
                    old(self)@
                } else {
                    old(self)@.connected()
                }
            } else {
                r matches Err(e) && e@ == dial_error(outcome) && final(self)@ == old(self)@
            },
    {
        match outcome {
            DialOutcome::InvalidAddress(t) => Err(
                NetworkError::invalid_address(concatenated("Invalid address: ", &t)),
            ),
            DialOutcome::TimedOut => Err(NetworkError::timeout("Connection timed out")),
            DialOutcome::Failed(t) => Err(
                NetworkError::connection(concatenated("Failed to connect: ", &t)),
            ),
            DialOutcome::Opened => {
                if self.config.keep_alive.is_none() {
                    self.install();
                }
                Ok(self.config.keep_alive)
            },
        }
    }

    /// What came of setting the keep-alive interval.
    pub fn keep_alive_set(&mut self, outcome: KeepAliveOutcome) -> (r: Result<(), NetworkError>)
        ensures
            if outcome is Applied {
                r is Ok && final(self)@ == old(self)@.connected()
            } else {
                r matches Err(e) && e@ == keep_alive_error(outcome) && final(self)@ == old(self)@
            },
    {
        match outcome {
            KeepAliveOutcome::NotDetached(t) => Err(
                NetworkError::other(concatenated("Failed to convert tokio stream to std: ", &t)),
            ),
            KeepAliveOutcome::NotSet(t) => Err(
                NetworkError::other(concatenated("Failed to set keep-alive: ", &t)),
            ),
            KeepAliveOutcome::NotNonblocking(t) => Err(
                NetworkError::other(
                    concatenated("Failed to restore nonblocking mode after keep-alive config: ", &t),
                ),
            ),
            KeepAliveOutcome::NotAttached(t) => Err(
                NetworkError::other(
                    concatenated("Failed to convert std socket back to tokio: ", &t),
                ),
            ),
            KeepAliveOutcome::Applied => {
                self.install();
                Ok(())
            },
        }
    }

    /// Puts a new connection in place.
    fn install(&mut self)
        ensures
            final(self)@ == old(self)@.connected(),
    {
        self.open = true;
        self.state = ClientState::Connected;
    }

    /// Disconnects from the server and says whether there was a connection, which is
    /// to be shut down.
    pub fn disconnect(&mut self) -> (shut_down: bool)
        ensures
            shut_down == old(self)@.open,
            final(self)@ == old(self)@.disconnected(),
    {
        let shut_down: bool = self.open;
        self.open = false;
        self.state = ClientState::Disconnected;
        shut_down
    }

    /// The bytes to write for a message, as soon as the connection takes bytes, or
    /// why it is not sent.
    pub fn send(&self, message: &Message) -> (r: Result<BytesMut, NetworkError>)
        ensures
            match r {
                Ok(data) => self@.send_refusal(message@.len()) is None && buffer::buffer_content(
                    data,
                ) == message::frame(message@),
                Err(e) => self@.send_refusal(message@.len()) == Some(e@),
            },
    {
        if self.state != ClientState::Connected {
            return Err(NetworkError::invalid_state("Client is not connected"));
        }
        let data = message.encode()?;
        if !self.open {
            return Err(NetworkError::invalid_state("No active connection"));
        }
        Ok(data)
    }

    /// What came of sending.
    pub fn sent(&self, outcome: SendOutcome) -> (r: Result<(), NetworkError>)
        ensures
            match r {
                Ok(_) => send_error(outcome) is None,
                Err(e) => send_error(outcome) == Some(e@),
            },
    {
        match outcome {
            SendOutcome::NotReady => Err(
                NetworkError::timeout("Socket not ready for writing (backpressure)"),
            ),
            SendOutcome::ReadyFailed(t) => Err(
                NetworkError::connection(concatenated("Failed to check writability: ", &t)),
            ),
            SendOutcome::Ready(written) => match written {
                WriteOutcome::Written => Ok(()),
                WriteOutcome::TimedOut => Err(NetworkError::timeout("Write timed out")),
                WriteOutcome::Failed(t) => Err(
                    NetworkError::connection(concatenated("Failed to write: ", &t)),
                ),
            },
        }
    }

    /// The bytes to write for a message without waiting, or why it is not sent.
    pub fn try_send(&self, message: &Message) -> (r: Result<BytesMut, NetworkError>)
        ensures
            match r {
                Ok(data) => self@.send_refusal(message@.len()) is None && buffer::buffer_content(
                    data,
                ) == message::frame(message@),
                Err(e) => self@.send_refusal(message@.len()) == Some(e@),
            },
    {
        self.send(message)
    }

    /// What came of writing `total` bytes without waiting. `Ok(Some(n))` asks to write
    /// the bytes from the `n`-th on, and to wait for that.
    pub fn tried(&self, total: usize, outcome: TryWriteOutcome) -> (r: Result<
        Option<usize>,
        NetworkError,
    >)
        requires
            outcome matches TryWriteOutcome::Wrote(n) ==> n <= total,
        ensures
            match (r, after_try(total, outcome)) {
                (Ok(left), Ok(v)) => left == v,
                (Err(e), Err(v)) => e@ == v,
                _ => false,
            },
    {
        match outcome {
            TryWriteOutcome::Wrote(n) => if n == total {
                Ok(None)
            } else {
                Ok(Some(n))
            },
            TryWriteOutcome::WouldBlock => Err(
                NetworkError::other("backpressure: send buffer full, cannot write without blocking"),
            ),
            TryWriteOutcome::Failed(t) => Err(
                NetworkError::connection(concatenated("Failed to write: ", &t)),
            ),
        }
    }

    /// What came of writing the bytes that were left after a partial write.
    pub fn rest_written(&self, outcome: WriteOutcome) -> (r: Result<(), NetworkError>)
        ensures
            match r {
                Ok(_) => rest_error(outcome) is None,
                Err(e) => rest_error(outcome) == Some(e@),
            },
    {
        match outcome {
            WriteOutcome::Written => Ok(()),
            WriteOutcome::TimedOut => Err(
                NetworkError::timeout("Write timed out after partial write"),
            ),
            WriteOutcome::Failed(t) => Err(
                NetworkError::connection(concatenated("Failed to complete write: ", &t)),
            ),
        }
    }

    /// Begins to receive a message, or says why nothing is received.
    pub fn receive(&self) -> (r: Result<Reception, NetworkError>)
        requires
            self@.receive_refusal() is None ==> self@.config.read_timeout@ * 3 <= MAX_NANOS,
        ensures
            match r {
                Ok(begun) => self@.receive_refusal() is None && begun@ == reception(self@.config),
                Err(e) => self@.receive_refusal() == Some(e@),
            },
    {
        if self.state != ClientState::Connected {
            return Err(NetworkError::invalid_state("Client is not connected"));
        }
        if !self.open {
            return Err(NetworkError::invalid_state("No active connection"));
        }
        Ok(
            Reception {
                buf: buffer::buffer_with_capacity(4096),
                read_timeout: self.config.read_timeout,
                limit: self.config.read_timeout.times(3),
            },
        )
    }

    /// Whether the client is connected.
    pub fn is_connected(&self) -> (b: bool)
        ensures
            b == (self@.state == ClientState::Connected),
    {
        self.state == ClientState::Connected
    }

    /// The current state.
    pub fn state(&self) -> (s: ClientState)
        ensures
            s == self@.state,
    {
        self.state
    }

    /// The remote address.
    pub fn address(&self) -> (a: &str)
        ensures
            a@ == self@.address,
    {
        self.address.as_str()
    }

    /// The configuration.
    pub fn config(&self) -> (c: &ClientConfig)
        ensures
            *c == self@.config,
    {
        &self.config
    }
}

/// What a [`Reception`] holds.
#[verifier::ext_equal]
pub struct ReceptionView {
    pub held: Seq<u8>,
    pub read_timeout: nat,
    pub limit: nat,
}

/// A message that begins to be received: nothing is held yet.
pub open spec fn reception(config: ClientConfig) -> ReceptionView {
    ReceptionView {
        held: Seq::empty(),
        read_timeout: config.read_timeout@,
        limit: config.read_timeout@ * 3,
    }
}

/// A message that a client is receiving.
pub struct Reception {
    buf: BytesMut,
    read_timeout: Duration,
    limit: Duration,
}

impl View for Reception {
    type V = ReceptionView;

    closed spec fn view(&self) -> ReceptionView {
        ReceptionView {
            held: buffer::buffer_content(self.buf),
            read_timeout: self.read_timeout@,
            limit: self.limit@,
        }
    }
}

impl Reception {
    /// Looks for a complete message in what was read, when receiving has lasted
    /// `elapsed`. `Ok(None)` asks for more bytes.
    pub fn poll(&mut self, elapsed: Duration) -> (r: Result<Option<Message>, NetworkError>)
        ensures
            assembly::polled(old(self)@.held, final(self)@.held, elapsed@, old(self)@.limit, r),
            final(self)@ == (ReceptionView { held: final(self)@.held, ..old(self)@ }),
    {
        assembly::poll_message(&mut self.buf, elapsed, self.limit)
    }

    /// How long a single read may take.
    pub fn read_timeout(&self) -> (d: Duration)
        ensures
            d@ == self@.read_timeout,
    {
        self.read_timeout
    }

    /// Takes in what came of a read.
    pub fn supply(&mut self, outcome: ReadOutcome) -> (r: Result<(), NetworkError>)
        requires
            outcome matches ReadOutcome::Data(bytes) ==> old(self)@.held.len() + bytes@.len()
                <= isize::MAX,
        ensures
            match (r, assembly::supplied(old(self)@.held, outcome)) {
                (Ok(_), Ok(held)) => final(self)@ == (ReceptionView { held, ..old(self)@ }),
                (Err(e), Err(v)) => e@ == v && final(self)@ == old(self)@,
                _ => false,
            },
    {
        assembly::supply_read(&mut self.buf, outcome)
    }
}

/// The first wait between two attempts to reconnect, in milliseconds.
pub const FIRST_DELAY_MS: u64 = 100;

/// The longest wait between two attempts to reconnect, in milliseconds.
pub const MAX_DELAY_MS: u64 = 30_000;

/// The bound below which the random part of a wait stays, in milliseconds.
pub const JITTER_MS: u64 = 100;

/// The wait after the `n`-th failed attempt in milliseconds, without its random
/// part: the first, then twice the one before, but no more than the longest.
pub open spec fn backoff(n: nat) -> nat
    decreases n,
{
    if n <= 1 {
        FIRST_DELAY_MS as nat
    } else if backoff((n - 1) as nat) * 2 <= MAX_DELAY_MS {
        backoff((n - 1) as nat) * 2
    } else {
        MAX_DELAY_MS as nat
    }
}

/// How far reconnecting has got.
#[derive(Debug, Clone, Copy, PartialEq, Eq, Structural)]
pub struct Reconnect {
    attempt: usize,
    max_attempts: usize,
    delay_ms: u64,
}

impl Reconnect {
    /// The attempt that is under way, the first being 1.
    pub closed spec fn attempt_no(self) -> nat {
        self.attempt as nat
    }

    /// How many attempts there are.
    pub closed spec fn attempts(self) -> nat {
        self.max_attempts as nat
    }

    /// Whether the attempt is one of those there are, and the next wait its own.
    pub closed spec fn wf(self) -> bool {
        1 <= self.attempt <= self.max_attempts && self.delay_ms == backoff(self.attempt as nat)
    }

    /// The attempt that is under way, the first being 1.
    pub fn attempt(&self) -> (n: usize)
        ensures
            n == self.attempt_no(),
    {
        self.attempt
    }

    /// How many attempts there are.
    pub fn max_attempts(&self) -> (n: usize)
        ensures
            n == self.attempts(),
    {
        self.max_attempts
    }
}

/// The attempt after `failures` failed ones, as long as there is one.
pub open spec fn attempt_after(max_attempts: nat, failures: nat) -> Option<nat>
    decreases failures,
{
    if failures == 0 {
        if max_attempts > 0 {
            Some(1)
        } else {
            None
        }
    } else {
        match attempt_after(max_attempts, (failures - 1) as nat) {
            Some(n) if n < max_attempts => Some(n + 1),
            _ => None,
        }
    }
}

/// The error of a client that gave up after a number of attempts.
pub open spec fn gave_up_error(attempts: nat) -> ErrorView {
    ErrorView::Connection("Failed to reconnect after "@ + text::decimal(attempts) + " attempts"@)
}

impl TcpClient {
    /// Begins to reconnect: the first attempt is due. Without any attempt the client
    /// gives up at once.
    pub fn reconnect(&mut self) -> (r: Result<Reconnect, NetworkError>)
        ensures
            match r {
                Ok(progress) => progress.wf() && progress.attempts()
                    == old(self)@.config.max_reconnect_attempts && attempt_after(
                    progress.attempts(),
                    0,
                ) == Some(progress.attempt_no()) && final(self)@ == old(self)@.dialing(true),
                Err(e) => attempt_after(old(self)@.config.max_reconnect_attempts as nat, 0) is None
                    && e@
                    == ErrorView::Connection("Max reconnection attempts reached"@) && final(self)@
                    == old(self)@.gave_up(),
            },
    {
        if self.config.max_reconnect_attempts == 0 {
            self.state = ClientState::Disconnected;
            return Err(NetworkError::connection("Max reconnection attempts reached"));
        }
        let _ = self.connect_internal(true);
        Ok(
            Reconnect {
                attempt: 1,
                max_attempts: self.config.max_reconnect_attempts,
                delay_ms: FIRST_DELAY_MS,
            },
        )
    }

    /// The attempt that was under way failed: how long to wait before the next one,
    /// given the random part in milliseconds, or that the client gave up.
    pub fn attempt_failed_with(&mut self, progress: &Reconnect, jitter: u64) -> (r: Result<
        Duration,
        NetworkError,
    >)
        requires
            progress.wf(),
            jitter < JITTER_MS,
        ensures
            match r {
                Ok(wait) => attempt_after(progress.attempts(), progress.attempt_no()) is Some
                    && progress.attempt_no() < progress.attempts() && wait@ == time::millis(
                    backoff(progress.attempt_no()) + jitter as nat,
                ) && final(self)@ == old(self)@,
                Err(e) => attempt_after(progress.attempts(), progress.attempt_no()) is None && e@
                    == gave_up_error(progress.attempts()) && final(self)@ == old(self)@.gave_up(),
            },
    {
        proof {
            backoff_is_bounded(progress.attempt as nat);
            attempts_are_limited(progress.attempts(), progress.attempt_no());
        }
        if progress.attempt >= progress.max_attempts {
            self.state = ClientState::Disconnected;
            let mut told = "Failed to reconnect after ".to_owned();
            push_decimal(&mut told, progress.max_attempts as u128);
            told.append(" attempts");
            return Err(NetworkError::connection(told));
        }
        Ok(Duration::from_millis(progress.delay_ms + jitter))
    }

    /// The attempt that was under way failed: how long to wait before the next one,
    /// with a random part, or that the client gave up.
    pub fn attempt_failed(&mut self, progress: &Reconnect) -> (r: Result<Duration, NetworkError>)
        requires
            progress.wf(),
        ensures
            match r {
                Ok(wait) => attempt_after(progress.attempts(), progress.attempt_no()) is Some
                    && progress.attempt_no() < progress.attempts() && time::millis(
                    backoff(progress.attempt_no()),
                ) <= wait@ < time::millis(backoff(progress.attempt_no()) + JITTER_MS as nat)
                    && final(self)@ == old(self)@,
                Err(e) => attempt_after(progress.attempts(), progress.attempt_no()) is None && e@
                    == gave_up_error(progress.attempts()) && final(self)@ == old(self)@.gave_up(),
            },
    {
        let jitter: u64 = random_below(JITTER_MS as usize) as u64;
        self.attempt_failed_with(progress, jitter)
    }

    /// The wait is over: the next attempt is due.
    pub fn next_attempt(&mut self, progress: &mut Reconnect)
        requires
            old(progress).wf(),
            old(progress).attempt_no() < old(progress).attempts(),
        ensures
            final(progress).wf(),
            final(progress).attempts() == old(progress).attempts(),
            attempt_after(old(progress).attempts(), old(progress).attempt_no()) == Some(
                final(progress).attempt_no(),
            ),
            final(self)@ == old(self)@.dialing(true),
    {
        proof {
            backoff_is_bounded(progress.attempt as nat);
            attempts_are_limited(progress.attempts(), progress.attempt_no());
        }
        let _ = self.connect_internal(true);
        progress.attempt = progress.attempt + 1;
        progress.delay_ms = if progress.delay_ms * 2 <= MAX_DELAY_MS {
            progress.delay_ms * 2
        } else {
            MAX_DELAY_MS
        };
    }

    /// Whether an error indicates a lost connection.
    fn is_connection_error(&self, error: &NetworkError) -> (b: bool)
        ensures
            b == is_lost(error@),
    {
        match error {
            NetworkError::Connection(_) => true,
            NetworkError::InvalidState(_) => true,
            _ => false,
        }
    }

    /// What to do about the outcome of an operation.
    fn recover<T>(&self, outcome: Result<T, NetworkError>) -> (r: Recovery<T>)
        ensures
            r == recovery(self@.config, outcome),
    {
        match outcome {
            Ok(v) => Recovery::Done(v),
            Err(e) => if self.config.auto_reconnect && self.is_connection_error(&e) {
                Recovery::Reconnect
            } else {
                Recovery::Fail(e)
            },
        }
    }

    /// What to do about the outcome of sending a message, so that it is sent once more
    /// after reconnecting where the connection was lost.
    pub fn send_with_reconnect(&self, sent: Result<(), NetworkError>) -> (r: Recovery<()>)
        ensures
            r == recovery(self@.config, sent),
    {
        self.recover(sent)
    }

    /// What to do about the outcome of receiving a message, so that it is awaited once
    /// more after reconnecting where the connection was lost.
    pub fn receive_with_reconnect(&self, received: Result<Message, NetworkError>) -> (r: Recovery<
        Message,
    >)
        ensures
            r == recovery(self@.config, received),
    {
        self.recover(received)
    }
}

/// What to do about the outcome of an operation: reconnect if and only if the error
/// indicates a lost connection and reconnecting is enabled.
pub open spec fn recovery<T>(config: ClientConfig, outcome: Result<T, NetworkError>) -> Recovery<
    T,
> {
    match outcome {
        Ok(v) => Recovery::Done(v),
        Err(e) => if config.auto_reconnect && is_lost(e@) {
            Recovery::Reconnect
        } else {
            Recovery::Fail(e)
        },
    }
}

/// Whether a text holds a word.
pub open spec fn mentions(text: Seq<char>, word: Seq<char>) -> bool {
    exists|i: int| 0 <= i <= text.len() && word.is_prefix_of(#[trigger] text.skip(i))
}

/// Backpressure can be told by its text: what is shown of a write that would block, or of
/// a connection that did not become writable in time, mentions it.
pub proof fn backpressure_is_mentioned()
    ensures
        mentions(would_block_error().display(), "backpressure"@),
        send_error(SendOutcome::NotReady) matches Some(e) && mentions(
            e.display(),
            "backpressure"@,
        ),
{
    reveal_strlit("backpressure");
    reveal_strlit("Network error: ");
    reveal_strlit("backpressure: send buffer full, cannot write without blocking");
    reveal_strlit("Operation timed out: ");
    reveal_strlit("Socket not ready for writing (backpressure)");
    let blocked = would_block_error().display();
    assert(blocked.skip(15).take(12) =~= "backpressure"@);
    assert("backpressure"@.is_prefix_of(blocked.skip(15)));
    let late = send_error(SendOutcome::NotReady)->0.display();
    assert(late.skip(51).take(12) =~= "backpressure"@);
    assert("backpressure"@.is_prefix_of(late.skip(51)));
}

/// Waits start at 100 ms and never exceed 30 s, before their random part.
pub proof fn backoff_is_bounded(n: nat)
    ensures
        FIRST_DELAY_MS <= backoff(n) <= MAX_DELAY_MS,
    decreases n,
{
    if n > 1 {
        backoff_is_bounded((n - 1) as nat);
    }
}

/// Each wait is twice the one before, until the longest is reached, which then stays.
pub proof fn backoff_doubles(n: nat)
    requires
        n >= 1,
    ensures
        backoff(n + 1) == if backoff(n) * 2 <= MAX_DELAY_MS {
            backoff(n) * 2
        } else {
            MAX_DELAY_MS as nat
        },
        backoff(n) <= backoff(n + 1),
{
    backoff_is_bounded(n);
}

/// A client stays in order whatever it does.
pub proof fn client_stays_in_order(c: ClientView, is_reconnect: bool)
    requires
        c.wf(),
    ensures
        c.dialing(is_reconnect).wf(),
        c.connected().wf(),
        c.gave_up().wf(),
        (ClientView { state: ClientState::Disconnected, open: false, ..c }).wf(),
{
}

/// A client that is connected or connecting is not connected a second time, and one
/// that is neither can always begin.
pub proof fn connects_once(c: ClientView)
    ensures
        c.connected().connect_refusal(false) is Some,
        c.dialing(false).connect_refusal(false) is Some,
        c.gave_up().connect_refusal(false) is None,
        c.connect_refusal(true) is None,
{
}

/// A client that reconnects makes exactly as many attempts as configured, if all of
/// them fail.
pub proof fn attempts_are_limited(max_attempts: nat, failures: nat)
    ensures
        attempt_after(max_attempts, failures) == if failures < max_attempts {
            Some(failures + 1)
        } else {
            None
        },
    decreases failures,
{
    if failures > 0 {
        attempts_are_limited(max_attempts, (failures - 1) as nat);
    }
}

/// Only a client that is connected sends, and no message that is too large; which of these
/// it is, the refusal says.
pub proof fn only_connected_clients_send(c: ClientView, size: nat)
    ensures
        c.send_refusal(size) is None <==> c.state == ClientState::Connected && c.open && size
            <= 16_777_216,
        c.state != ClientState::Connected ==> c.send_refusal(size) == Some(
            ErrorView::InvalidState("Client is not connected"@),
        ),
        c.state == ClientState::Connected && size > 16_777_216 ==> c.send_refusal(size) == Some(
            ErrorView::MessageTooLarge(size, 16_777_216),
        ),
        c.state == ClientState::Connected && c.open && c.send_refusal(size) is Some ==> c.send_refusal(
            size,
        )->0 is MessageTooLarge,
        c.receive_refusal() is None <==> c.state == ClientState::Connected && c.open,
        c.state != ClientState::Connected ==> c.receive_refusal() == Some(
            ErrorView::InvalidState("Client is not connected"@),
        ),
{
}

/// A client that has become connected sends and receives; one that has begun to connect, gave
/// up or was disconnected does not. None of these changes its address or configuration.
pub proof fn connection_makes_ready(c: ClientView, again: bool, size: nat)
    requires
        size <= 16_777_216,
    ensures
        c.connected().send_refusal(size) is None,
        c.connected().receive_refusal() is None,
        c.connected().state == ClientState::Connected,
        c.dialing(again).send_refusal(size) is Some,
        c.dialing(again).receive_refusal() is Some,
        c.dialing(again).open == c.open,
        c.dialing(true).state == ClientState::Reconnecting,
        c.dialing(false).state == ClientState::Connecting,
        c.gave_up().send_refusal(size) is Some,
        c.gave_up().state == ClientState::Disconnected,
        c.gave_up().open == c.open,
        c.disconnected().send_refusal(size) is Some,
        c.disconnected().receive_refusal() is Some,
        c.disconnected().connect_refusal(false) is None,
        c.disconnected().state == ClientState::Disconnected,
        !c.disconnected().open,
        c.connected().address == c.address && c.connected().config == c.config,
        c.dialing(again).address == c.address && c.dialing(again).config == c.config,
        c.gave_up().address == c.address && c.gave_up().config == c.config,
        c.disconnected().address == c.address && c.disconnected().config == c.config,
{
}

/// A connection that could not be opened is told by what went wrong.
pub proof fn failed_dial_is_told(t: String)
    ensures
        dial_error(DialOutcome::InvalidAddress(t)) == ErrorView::InvalidAddress(
            "Invalid address: "@ + t@,
        ),
        dial_error(DialOutcome::TimedOut) == ErrorView::Timeout("Connection timed out"@),
        dial_error(DialOutcome::Failed(t)) == ErrorView::Connection("Failed to connect: "@ + t@),
        is_lost(dial_error(DialOutcome::Failed(t))),
        !is_lost(dial_error(DialOutcome::TimedOut)),
        !is_lost(dial_error(DialOutcome::InvalidAddress(t))),
{
}

/// A keep-alive interval that could not be set is no lost connection, and the error says
/// what failed.
pub proof fn failed_keep_alive_is_told(outcome: KeepAliveOutcome)
    requires
        outcome !is Applied,
    ensures
        keep_alive_error(outcome) is Other,
        !is_lost(keep_alive_error(outcome)),
        outcome matches KeepAliveOutcome::NotSet(t) ==> keep_alive_error(outcome)
            == ErrorView::Other("Failed to set keep-alive: "@ + t@),
{
}

/// Sending succeeds exactly when all was written. A connection that is slow is told as a
/// timeout, one that is broken as a lost connection.
pub proof fn sending_succeeds_when_written(outcome: SendOutcome)
    ensures
        send_error(outcome) is None <==> outcome == SendOutcome::Ready(WriteOutcome::Written),
        outcome is NotReady || outcome == SendOutcome::Ready(WriteOutcome::TimedOut) ==> (
        send_error(outcome) matches Some(e) && e is Timeout && !is_lost(e)),
        outcome matches SendOutcome::ReadyFailed(t) ==> send_error(outcome) == Some(
            ErrorView::Connection("Failed to check writability: "@ + t@),
        ),
        outcome matches SendOutcome::Ready(WriteOutcome::Failed(t)) ==> send_error(outcome) == Some(
            ErrorView::Connection("Failed to write: "@ + t@),
        ),
{
}

/// A write without waiting that took all bytes is done; of one that took some, the others
/// are still to be written, and all bytes are written then, each once.
pub proof fn partial_write_leaves_the_rest(data: Seq<u8>, n: usize)
    requires
        n <= data.len() <= usize::MAX,
    ensures
        ({
            let left = after_try(data.len() as usize, TryWriteOutcome::Wrote(n));
            &&& left is Ok
            &&& left->Ok_0 is None <==> n == data.len()
            &&& left->Ok_0 matches Some(from) ==> from < data.len() && data.take(n as int)
                + data.skip(from as int) == data
        }),
{
    assert(data.take(n as int) + data.skip(n as int) =~= data);
}

/// A write without waiting that would have to wait, or fails, is told so.
pub proof fn blocked_write_is_told(total: usize, t: String)
    ensures
        after_try(total, TryWriteOutcome::WouldBlock) matches Err(e) && e is Other && !is_lost(e),
        after_try(total, TryWriteOutcome::Failed(t)) == Err::<Option<usize>, ErrorView>(
            ErrorView::Connection("Failed to write: "@ + t@),
        ),
        rest_error(WriteOutcome::Written) is None,
        rest_error(WriteOutcome::TimedOut) matches Some(e) && e is Timeout,
        rest_error(WriteOutcome::Failed(t)) == Some(
            ErrorView::Connection("Failed to complete write: "@ + t@),
        ),
{
}

/// A message may take three times as long to arrive as a single read.
pub proof fn receiving_takes_three_reads(config: ClientConfig)
    ensures
        reception(config).limit == config.read_timeout@ + config.read_timeout@
            + config.read_timeout@,
        reception(config).read_timeout == config.read_timeout@,
        reception(config).held.len() == 0,
{
}

/// A client reconnects only where it is told to, and only after an error that means a lost
/// connection: one of the connection itself, or of its state. Every other error is told, and
/// a success is handed on.
pub proof fn reconnects_when_lost<T>(config: ClientConfig, outcome: Result<T, NetworkError>)
    ensures
        outcome matches Ok(v) ==> recovery(config, outcome) == Recovery::Done(v),
        !config.auto_reconnect ==> recovery(config, outcome) !is Reconnect,
        outcome matches Err(e) ==> {
            &&& config.auto_reconnect && (e is Connection || e is InvalidState) ==> recovery(
                config,
                outcome,
            ) is Reconnect
            &&& !(config.auto_reconnect && (e is Connection || e is InvalidState)) ==> recovery(
                config,
                outcome,
            ) == Recovery::<T>::Fail(e)
        },
{
}

/// The wait after the first failure is 100 ms, each further one twice the one before, and
/// none is longer than 30 s; the random part stays below 100 ms.
pub proof fn waits_double(n: nat)
    ensures
        backoff(n + 1) == if 100 * vstd::arithmetic::power2::pow2(n) <= 30_000 {
            100 * vstd::arithmetic::power2::pow2(n)
        } else {
            30_000
        },
        JITTER_MS == 100,
    decreases n,
{
    if n == 0 {
        vstd::arithmetic::power2::lemma2_to64();
    } else {
        waits_double((n - 1) as nat);
        vstd::arithmetic::power2::lemma_pow2_unfold(n);
    }
}

/// By default a client takes 10 s to connect and to write, 30 s to read, and reconnects, up
/// to three times.
pub proof fn default_timeouts(c: ClientConfig)
    requires
        is_default_config(c),
    ensures
        c.connect_timeout@ == 10_000_000_000,
        c.read_timeout@ == 30_000_000_000,
        c.write_timeout@ == 10_000_000_000,
        c.keep_alive matches Some(d) && d@ == 60_000_000_000,
        c.auto_reconnect,
        c.max_reconnect_attempts == 3,
{
}

} // verus!
