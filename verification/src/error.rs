//! Errors of the network system.

use crate::text;
use crate::text::{push_decimal, IntoText};
use vstd::prelude::*;
use vstd::string::*;

verus! {

/// Network system errors.
#[derive(Debug)]
pub enum NetworkError {
    /// I/O error.
    Io(String),
    /// Connection error.
    Connection(String),
    /// Timeout error.
    Timeout(String),
    /// Serialization error.
    Serialization(String),
    /// Invalid state error.
    InvalidState(String),
    /// Address parse error.
    InvalidAddress(String),
    /// Message too large: its size and the largest size allowed.
    MessageTooLarge(usize, usize),
    /// Channel error.
    Channel(String),
    /// TLS error.
    Tls(String),
    /// Other errors.
    Other(String),
}

/// What a [`NetworkError`] says.
pub enum ErrorView {
    Io(Seq<char>),
    Connection(Seq<char>),
    Timeout(Seq<char>),
    Serialization(Seq<char>),
    InvalidState(Seq<char>),
    InvalidAddress(Seq<char>),
    MessageTooLarge(nat, nat),
    Channel(Seq<char>),
    Tls(Seq<char>),
    Other(Seq<char>),
}

impl View for NetworkError {
    type V = ErrorView;

    open spec fn view(&self) -> ErrorView {
        match self {
            NetworkError::Io(m) => ErrorView::Io(m@),
            NetworkError::Connection(m) => ErrorView::Connection(m@),
            NetworkError::Timeout(m) => ErrorView::Timeout(m@),
            NetworkError::Serialization(m) => ErrorView::Serialization(m@),
            NetworkError::InvalidState(m) => ErrorView::InvalidState(m@),
            NetworkError::InvalidAddress(m) => ErrorView::InvalidAddress(m@),
            NetworkError::MessageTooLarge(n, max) => ErrorView::MessageTooLarge(
                *n as nat,
                *max as nat,
            ),
            NetworkError::Channel(m) => ErrorView::Channel(m@),
            NetworkError::Tls(m) => ErrorView::Tls(m@),
            NetworkError::Other(m) => ErrorView::Other(m@),
        }
    }
}

impl ErrorView {
    /// The text shown to people.
    pub open spec fn display(self) -> Seq<char> {
        match self {
            ErrorView::Io(m) => "I/O error: "@ + m,
            ErrorView::Connection(m) => "Connection error: "@ + m,
            ErrorView::Timeout(m) => "Operation timed out: "@ + m,
            ErrorView::Serialization(m) => "Serialization error: "@ + m,
            ErrorView::InvalidState(m) => "Invalid state: "@ + m,
            ErrorView::InvalidAddress(m) => "Invalid address: "@ + m,
            ErrorView::MessageTooLarge(n, max) => "Message too large: "@ + text::decimal(n)
                + " bytes (max: "@ + text::decimal(max) + " bytes)"@,
            ErrorView::Channel(m) => "Channel error: "@ + m,
            ErrorView::Tls(m) => "TLS error: "@ + m,
            ErrorView::Other(m) => "Network error: "@ + m,
        }
    }
}

impl NetworkError {
    /// Creates a connection error.
    pub fn connection<S: IntoText>(msg: S) -> (e: NetworkError)
        ensures
            e@ == ErrorView::Connection(msg.text()),
    {
        NetworkError::Connection(msg.into_text())
    }

    /// Creates a timeout error.
    pub fn timeout<S: IntoText>(msg: S) -> (e: NetworkError)
        ensures
            e@ == ErrorView::Timeout(msg.text()),
    {
        NetworkError::Timeout(msg.into_text())
    }

    /// Creates a serialization error.
    pub fn serialization<S: IntoText>(msg: S) -> (e: NetworkError)
        ensures
            e@ == ErrorView::Serialization(msg.text()),
    {
        NetworkError::Serialization(msg.into_text())
    }

    /// Creates an invalid state error.
    pub fn invalid_state<S: IntoText>(msg: S) -> (e: NetworkError)
        ensures
            e@ == ErrorView::InvalidState(msg.text()),
    {
        NetworkError::InvalidState(msg.into_text())
    }

    /// Creates an invalid address error.
    pub fn invalid_address<S: IntoText>(msg: S) -> (e: NetworkError)
        ensures
            e@ == ErrorView::InvalidAddress(msg.text()),
    {
        NetworkError::InvalidAddress(msg.into_text())
    }

    /// Creates a channel error.
    pub fn channel<S: IntoText>(msg: S) -> (e: NetworkError)
        ensures
            e@ == ErrorView::Channel(msg.text()),
    {
        NetworkError::Channel(msg.into_text())
    }

    /// Creates a TLS error.
    pub fn tls<S: IntoText>(msg: S) -> (e: NetworkError)
        ensures
            e@ == ErrorView::Tls(msg.text()),
    {
        NetworkError::Tls(msg.into_text())
    }

    /// Creates an other error.
    pub fn other<S: IntoText>(msg: S) -> (e: NetworkError)
        ensures
            e@ == ErrorView::Other(msg.text()),
    {
        NetworkError::Other(msg.into_text())
    }

    /// The text shown to people.
    pub fn to_string(&self) -> (s: String)
        ensures
            s@ == self@.display(),
    {
        match self {
            NetworkError::Io(m) => concatenated("I/O error: ", m),
            NetworkError::Connection(m) => concatenated("Connection error: ", m),
            NetworkError::Timeout(m) => concatenated("Operation timed out: ", m),
            NetworkError::Serialization(m) => concatenated("Serialization error: ", m),
            NetworkError::InvalidState(m) => concatenated("Invalid state: ", m),
            NetworkError::InvalidAddress(m) => concatenated("Invalid address: ", m),
            NetworkError::MessageTooLarge(n, max) => {
                let mut s = "Message too large: ".to_owned();
                push_decimal(&mut s, *n as u128);
                s.append(" bytes (max: ");
                push_decimal(&mut s, *max as u128);
                s.append(" bytes)");
                s
            },
            NetworkError::Channel(m) => concatenated("Channel error: ", m),
            NetworkError::Tls(m) => concatenated("TLS error: ", m),
            NetworkError::Other(m) => concatenated("Network error: ", m),
        }
    }
}

/// A text made of a fixed beginning and a detail.
pub fn concatenated(prefix: &str, detail: &String) -> (s: String)
    ensures
        s@ == prefix@ + detail@,
{
    let mut s = prefix.to_owned();
    s.append(detail.as_str());
    s
}

/// What is shown of an error tells its kind and then what it says.
pub proof fn errors_tell_their_kind(m: Seq<char>, n: nat, max: nat)
    ensures
        ErrorView::Io(m).display() == "I/O error: "@ + m,
        ErrorView::Connection(m).display() == "Connection error: "@ + m,
        ErrorView::Timeout(m).display() == "Operation timed out: "@ + m,
        ErrorView::Serialization(m).display() == "Serialization error: "@ + m,
        ErrorView::InvalidState(m).display() == "Invalid state: "@ + m,
        ErrorView::InvalidAddress(m).display() == "Invalid address: "@ + m,
        ErrorView::Channel(m).display() == "Channel error: "@ + m,
        ErrorView::Tls(m).display() == "TLS error: "@ + m,
        ErrorView::Other(m).display() == "Network error: "@ + m,
        ErrorView::MessageTooLarge(n, max).display() == "Message too large: "@ + text::decimal(n)
            + " bytes (max: "@ + text::decimal(max) + " bytes)"@,
{
}

} // verus!
