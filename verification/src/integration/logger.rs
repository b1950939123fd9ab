//! What is logged of sessions.

use crate::network::message::Message;
use crate::session::Session;
use crate::text;
use crate::text::push_decimal;
use crate::time::{Duration, NANOS_PER_SEC};
use vstd::prelude::*;
use vstd::string::*;

verus! {

/// How `std::time::Duration` is written for people, given its whole seconds and the
/// nanoseconds beyond.
pub uninterp spec fn duration_text(secs: u64, nanos: u32) -> Seq<char>;

/// Formats a `std::time::Duration` with `{:?}`: the named text. A number of nanoseconds
/// that makes a second could make `Duration::new` panic, so it is left out.
#[verifier::external_body]
fn format_duration(secs: u64, nanos: u32) -> (t: String)
    requires
        nanos < NANOS_PER_SEC,
    ensures
        t@ == duration_text(secs, nanos),
{
    format!("{:?}", std::time::Duration::new(secs, nanos))
}

/// The line for a session that connected.
pub open spec fn connected_text(id: u128, peer_addr: Seq<char>) -> Seq<char> {
    "Session "@ + text::decimal(id as nat) + " connected from "@ + peer_addr
}

/// The line for a message that a session received.
pub open spec fn message_text(id: u128, size: nat) -> Seq<char> {
    "Session "@ + text::decimal(id as nat) + " received message: "@ + ("Message["@ + text::decimal(
        size,
    ) + " bytes]"@)
}

/// The line for a session that disconnected.
pub open spec fn disconnected_text(id: u128, uptime: nat) -> Seq<char> {
    "Session "@ + text::decimal(id as nat) + " disconnected (uptime: "@ + duration_text(
        (uptime / NANOS_PER_SEC as nat) as u64,
        (uptime % NANOS_PER_SEC as nat) as u32,
    ) + ")"@
}

/// The beginning of a line about a session.
fn begin_line(session: &Session) -> (line: String)
    ensures
        line@ == "Session "@ + text::decimal(session@.id as nat),
{
    let mut line = "Session ".to_owned();
    push_decimal(&mut line, session.id());
    line
}

/// The line to log when a session connected.
pub fn connected_line(session: &Session) -> (line: String)
    ensures
        line@ == connected_text(session@.id, session@.peer_addr),
{
    let mut line = begin_line(session);
    line.append(" connected from ");
    line.append(session.peer_addr());
    line
}

/// The line to log when a session received a message.
pub fn message_line(session: &Session, message: &Message) -> (line: String)
    ensures
        line@ == message_text(session@.id, message@.len()),
{
    let mut line = begin_line(session);
    line.append(" received message: ");
    line.append(message.to_string().as_str());
    line
}

/// The line to log when a session disconnected after some time.
pub fn disconnected_line(session: &Session, uptime: Duration) -> (line: String)
    ensures
        line@ == disconnected_text(session@.id, uptime@),
{
    let mut line = begin_line(session);
    line.append(" disconnected (uptime: ");
    line.append(format_duration(uptime.as_secs(), uptime.subsec_nanos()).as_str());
    line.append(")");
    line
}

/// Every line about a session begins with its ID, and ends with what it is about: the peer's
/// address, the size of the message, or the time that the session lasted.
pub proof fn lines_tell_their_session(id: u128, peer_addr: Seq<char>, size: nat, secs: u64, nanos: u32)
    requires
        nanos < 1_000_000_000,
    ensures
        ({
            let begin = "Session "@ + text::decimal(id as nat);
            &&& connected_text(id, peer_addr) == begin + (" connected from "@ + peer_addr)
            &&& message_text(id, size) == begin + (" received message: Message["@ + text::decimal(
                size,
            ) + " bytes]"@)
            &&& disconnected_text(id, (secs * 1_000_000_000 + nanos) as nat) == begin + (
            " disconnected (uptime: "@ + duration_text(secs, nanos) + ")"@)
        }),
{
    let begin = "Session "@ + text::decimal(id as nat);
    assert(connected_text(id, peer_addr) =~= begin + (" connected from "@ + peer_addr));
    assert(" received message: "@ + "Message["@ =~= " received message: Message["@) by {
        reveal_strlit(" received message: ");
        reveal_strlit("Message[");
        reveal_strlit(" received message: Message[");
    }
    assert(message_text(id, size) =~= begin + ((" received message: "@ + "Message["@)
        + text::decimal(size) + " bytes]"@));
    let uptime = (secs * 1_000_000_000 + nanos) as nat;
    assert(uptime / 1_000_000_000 == secs && uptime % 1_000_000_000 == nanos);
    assert(disconnected_text(id, uptime) =~= begin + (" disconnected (uptime: "@ + duration_text(
        secs,
        nanos,
    ) + ")"@));
}

} // verus!
