//! Putting a message together from the bytes that a connection delivers.

use crate::error::{concatenated, ErrorView, NetworkError};
use crate::network::buffer;
use crate::network::message;
use crate::network::message::{Decoded, Message, MAX_MESSAGE_SIZE};
use crate::time::Duration;
use bytes::BytesMut;
use vstd::prelude::*;
use vstd::string::*;

verus! {

/// A buffer that reaches this size without a complete message would be malformed.
pub const MAX_BUFFER_SIZE: usize = 16_778_240;

/// What came of reading from a connection.
#[derive(Debug)]
pub enum ReadOutcome {
    /// These bytes arrived. None means that the peer closed the connection.
    Data(Vec<u8>),
    /// Nothing arrived in time.
    TimedOut,
    /// Reading failed, and why.
    Failed(String),
}

/// What came of writing to a connection.
#[derive(Debug)]
pub enum WriteOutcome {
    /// Everything was written.
    Written,
    /// Not everything was written in time.
    TimedOut,
    /// Writing failed, and why.
    Failed(String),
}

/// The error of a message that took too long as a whole.
pub open spec fn assembly_timeout() -> ErrorView {
    ErrorView::Timeout("Message assembly timeout: took too long to receive complete message"@)
}

/// Whether `r` and the new content of a buffer are what looking for a message in the
/// old content gives, when the search has lasted `elapsed` of at most `limit`.
pub open spec fn polled(
    held: Seq<u8>,
    left: Seq<u8>,
    elapsed: nat,
    limit: nat,
    r: Result<Option<Message>, NetworkError>,
) -> bool {
    if elapsed >= limit {
        r matches Err(e) && e@ == assembly_timeout() && left == held
    } else {
        match message::decoded(held) {
            Decoded::Incomplete => r matches Ok(None) && left == held,
            Decoded::TooLarge(n) => r matches Err(e) && e@ == ErrorView::MessageTooLarge(
                n,
                MAX_MESSAGE_SIZE as nat,
            ) && left == held,
            Decoded::Frame(payload, rest) => r matches Ok(Some(m)) && m@ == payload && left == rest,
        }
    }
}

/// Looks for a complete message at the front of a buffer. `Ok(None)` asks for more
/// bytes.
pub fn poll_message(buf: &mut BytesMut, elapsed: Duration, limit: Duration) -> (r: Result<
    Option<Message>,
    NetworkError,
>)
    ensures
        polled(
            buffer::buffer_content(*old(buf)),
            buffer::buffer_content(*final(buf)),
            elapsed@,
            limit@,
            r,
        ),
{
    if elapsed.reaches(limit) {
        return Err(
            NetworkError::timeout(
                "Message assembly timeout: took too long to receive complete message",
            ),
        );
    }
    let found = Message::decode(buf)?;
    if found.is_some() {
        return Ok(found);
    }
    proof {
        waiting_buffer_stays_small(buffer::buffer_content(*buf));
    }
    if buffer::buffer_len(buf) >= MAX_BUFFER_SIZE {
        return Err(
            NetworkError::connection(
                "Malformed message: buffer exceeded maximum size without complete message",
            ),
        );
    }
    Ok(None)
}

/// What a read adds to a buffer, or the error it means.
pub open spec fn supplied(held: Seq<u8>, outcome: ReadOutcome) -> Result<Seq<u8>, ErrorView> {
    match outcome {
        ReadOutcome::Data(bytes) => if bytes@.len() == 0 {
            Err(ErrorView::Connection("Connection closed by peer"@))
        } else {
            Ok(held + bytes@)
        },
        ReadOutcome::TimedOut => Err(ErrorView::Timeout("Read timed out"@)),
        ReadOutcome::Failed(t) => Err(ErrorView::Connection("Failed to read: "@ + t@)),
    }
}

/// Takes in what came of a read: bytes are appended to the buffer, anything else
/// leaves it and is told as an error.
pub fn supply_read(buf: &mut BytesMut, outcome: ReadOutcome) -> (r: Result<(), NetworkError>)
    requires
        outcome matches ReadOutcome::Data(bytes) ==> buffer::buffer_content(*old(buf)).len()
            + bytes@.len() <= isize::MAX,
    ensures
        match (r, supplied(buffer::buffer_content(*old(buf)), outcome)) {
            (Ok(_), Ok(held)) => buffer::buffer_content(*final(buf)) == held,
            (Err(e), Err(v)) => e@ == v && buffer::buffer_content(*final(buf))
                == buffer::buffer_content(*old(buf)),
            _ => false,
        },
{
    match outcome {
        ReadOutcome::Data(bytes) => {
            if bytes.len() == 0 {
                return Err(NetworkError::connection("Connection closed by peer"));
            }
            buffer::buffer_put_slice(buf, bytes.as_slice());
            Ok(())
        },
        ReadOutcome::TimedOut => Err(NetworkError::timeout("Read timed out")),
        ReadOutcome::Failed(t) => Err(
            NetworkError::connection(concatenated("Failed to read: ", &t)),
        ),
    }
}

/// A buffer that waits for more bytes never reaches the size at which it would be
/// called malformed: a frame that announces too much is refused before.
pub proof fn waiting_buffer_stays_small(held: Seq<u8>)
    requires
        message::decoded(held) == Decoded::Incomplete,
    ensures
        held.len() < MAX_BUFFER_SIZE,
{
    message::incomplete_stream_is_short(held);
}

/// Pieces of a byte stream put together.
pub open spec fn joined(pieces: Seq<Seq<u8>>) -> Seq<u8>
    decreases pieces.len(),
{
    if pieces.len() == 0 {
        Seq::empty()
    } else {
        pieces.first() + joined(pieces.drop_first())
    }
}

/// What receiving ends with when the bytes arrive in pieces, and the pieces that were
/// not read: more is read for as long as the front of the buffer is incomplete.
pub open spec fn received(held: Seq<u8>, pieces: Seq<Seq<u8>>) -> (Decoded, Seq<Seq<u8>>)
    decreases pieces.len(),
{
    match message::decoded(held) {
        Decoded::Incomplete if pieces.len() > 0 => received(
            held + pieces.first(),
            pieces.drop_first(),
        ),
        d => (d, pieces),
    }
}

/// How a stream is cut into pieces does not matter: what is received is what the
/// front of the whole stream says, and nothing that follows it is lost.
pub proof fn pieces_do_not_matter(held: Seq<u8>, pieces: Seq<Seq<u8>>)
    ensures
        match (message::decoded(held + joined(pieces)), received(held, pieces)) {
            (Decoded::Frame(p, rest), (Decoded::Frame(q, left), unread)) => p == q && left
                + joined(unread) == rest,
            (Decoded::TooLarge(n), (Decoded::TooLarge(m), _)) => n == m,
            (Decoded::Incomplete, (Decoded::Incomplete, unread)) => unread.len() == 0,
            _ => false,
        },
    decreases pieces.len(),
{
    match message::decoded(held) {
        Decoded::Incomplete => {
            if pieces.len() > 0 {
                pieces_do_not_matter(held + pieces.first(), pieces.drop_first());
                assert(held + joined(pieces) =~= held + pieces.first() + joined(
                    pieces.drop_first(),
                ));
            } else {
                assert(held + joined(pieces) =~= held);
            }
        },
        _ => {
            message::later_bytes_do_not_change_front(held, joined(pieces));
        },
    }
}

/// What was sent is what is received: a message that was encoded and sent as a frame
/// comes out of the connection unchanged, however the frame was cut up on its way.
pub proof fn sent_message_is_received(payload: Seq<u8>, rest: Seq<u8>, pieces: Seq<Seq<u8>>)
    requires
        payload.len() <= MAX_MESSAGE_SIZE,
        joined(pieces) == message::frame(payload) + rest,
    ensures
        received(Seq::empty(), pieces).0 matches Decoded::Frame(p, left) && p == payload && left
            + joined(received(Seq::empty(), pieces).1) == rest,
{
    message::decode_inverts_encode(payload, rest);
    pieces_do_not_matter(Seq::empty(), pieces);
    assert(Seq::<u8>::empty() + joined(pieces) =~= joined(pieces));
}

/// Looking for a message in time finds the one at the front, whole and unchanged, and leaves
/// what follows it; as long as it has not arrived in full, nothing is lost and more bytes are
/// asked for.
pub proof fn polling_finds_the_front(
    payload: Seq<u8>,
    rest: Seq<u8>,
    arrived: int,
    left: Seq<u8>,
    elapsed: nat,
    limit: nat,
    r: Result<Option<Message>, NetworkError>,
)
    requires
        payload.len() <= MAX_MESSAGE_SIZE,
        elapsed < limit,
    ensures
        polled(message::frame(payload) + rest, left, elapsed, limit, r) ==> (r matches Ok(Some(m))
            && m@ == payload && left == rest),
        0 <= arrived < message::frame(payload).len() && polled(
            message::frame(payload).take(arrived),
            left,
            elapsed,
            limit,
            r,
        ) ==> (r matches Ok(None)) && left == message::frame(payload).take(arrived),
{
    message::decode_inverts_encode(payload, rest);
    if 0 <= arrived < message::frame(payload).len() {
        message::partial_frame_is_incomplete(payload, arrived);
    }
}

/// A message that takes too long as a whole is given up with a timeout, whatever has arrived,
/// and one that announces too much is refused; either way what was read stays.
pub proof fn polling_gives_up(
    held: Seq<u8>,
    left: Seq<u8>,
    elapsed: nat,
    limit: nat,
    r: Result<Option<Message>, NetworkError>,
)
    requires
        polled(held, left, elapsed, limit, r),
    ensures
        elapsed >= limit ==> (r matches Err(e) && e@ is Timeout) && left == held,
        elapsed < limit && held.len() >= 4 && message::announced(held) > 16_777_216 ==> (r matches Err(
            e,
        ) && e@ == ErrorView::MessageTooLarge(message::announced(held), 16_777_216)) && left == held,
        r is Err ==> left == held,
{
}

/// Bytes that were read come behind those that are held. Reading nothing means that the peer
/// has closed the connection; a slow peer is told as a timeout.
pub proof fn reads_append(held: Seq<u8>, outcome: ReadOutcome)
    ensures
        outcome matches ReadOutcome::Data(bytes) ==> {
            &&& bytes@.len() > 0 ==> supplied(held, outcome) == Ok::<Seq<u8>, ErrorView>(
                held + bytes@,
            )
            &&& bytes@.len() == 0 ==> supplied(held, outcome) == Err::<Seq<u8>, ErrorView>(
                ErrorView::Connection("Connection closed by peer"@),
            )
        },
        outcome is TimedOut ==> supplied(held, outcome) == Err::<Seq<u8>, ErrorView>(
            ErrorView::Timeout("Read timed out"@),
        ),
        outcome matches ReadOutcome::Failed(t) ==> supplied(held, outcome) == Err::<
            Seq<u8>,
            ErrorView,
        >(ErrorView::Connection("Failed to read: "@ + t@)),
{
}

} // verus!
