//! Network messages and their length-prefixed wire format.

use crate::error::{ErrorView, NetworkError};
use crate::network::buffer;
use crate::text::push_decimal;
use bytes::{Bytes, BytesMut};
use vstd::prelude::*;
use vstd::string::*;

verus! {

/// Maximum message size (16 MB).
pub const MAX_MESSAGE_SIZE: usize = 16_777_216;

/// Message header size (4 bytes length).
const HEADER_SIZE: usize = 4;

/// What can be handed over as the payload of a message.
pub trait IntoPayload: Sized {
    /// The bytes of the payload.
    spec fn payload(&self) -> Seq<u8>;

    /// The payload as shared bytes.
    fn into_payload(self) -> (b: Bytes)
        ensures
            buffer::bytes_content(b) == self.payload(),
    ;
}

impl IntoPayload for Bytes {
    open spec fn payload(&self) -> Seq<u8> {
        buffer::bytes_content(*self)
    }

    fn into_payload(self) -> (b: Bytes) {
        self
    }
}

impl IntoPayload for Vec<u8> {
    open spec fn payload(&self) -> Seq<u8> {
        self@
    }

    fn into_payload(self) -> (b: Bytes) {
        buffer::bytes_from_vec(self)
    }
}

impl IntoPayload for &'static [u8] {
    open spec fn payload(&self) -> Seq<u8> {
        self@
    }

    fn into_payload(self) -> (b: Bytes) {
        buffer::bytes_from_static(self)
    }
}

impl IntoPayload for Box<[u8]> {
    open spec fn payload(&self) -> Seq<u8> {
        self@
    }

    fn into_payload(self) -> (b: Bytes) {
        buffer::bytes_from_box(self)
    }
}

impl IntoPayload for BytesMut {
    open spec fn payload(&self) -> Seq<u8> {
        buffer::buffer_content(*self)
    }

    fn into_payload(self) -> (b: Bytes) {
        buffer::buffer_freeze(self)
    }
}

impl IntoPayload for String {
    open spec fn payload(&self) -> Seq<u8> {
        vstd::utf8::encode_utf8(self@)
    }

    fn into_payload(self) -> (b: Bytes) {
        buffer::bytes_from_string(self)
    }
}

impl IntoPayload for &str {
    open spec fn payload(&self) -> Seq<u8> {
        vstd::utf8::encode_utf8(self@)
    }

    fn into_payload(self) -> (b: Bytes) {
        buffer::bytes_from_string(self.to_owned())
    }
}

/// A network message. Its view is the payload.
#[derive(Debug)]
pub struct Message {
    data: Bytes,
}

impl View for Message {
    type V = Seq<u8>;

    closed spec fn view(&self) -> Seq<u8> {
        buffer::bytes_content(self.data)
    }
}

impl Clone for Message {
    fn clone(&self) -> (m: Message)
        ensures
            m@ == self@,
    {
        Message { data: buffer::bytes_clone(&self.data) }
    }
}

/// A payload on the wire: its length in four bytes, then the payload.
pub open spec fn frame(payload: Seq<u8>) -> Seq<u8> {
    buffer::be_bytes(payload.len() as u32) + payload
}

/// The length that the first four bytes announce.
pub open spec fn announced(wire: Seq<u8>) -> nat {
    (wire[0] * 0x1000000 + wire[1] * 0x10000 + wire[2] * 0x100 + wire[3]) as nat
}

/// What the front of a byte stream says.
pub enum Decoded {
    /// Not yet a whole frame.
    Incomplete,
    /// A frame that announces more bytes than a message may have.
    TooLarge(nat),
    /// A whole frame: its payload, and the bytes that follow it.
    Frame(Seq<u8>, Seq<u8>),
}

/// Reads the front of a byte stream.
pub open spec fn decoded(wire: Seq<u8>) -> Decoded {
    if wire.len() < 4 {
        Decoded::Incomplete
    } else if announced(wire) > MAX_MESSAGE_SIZE {
        Decoded::TooLarge(announced(wire))
    } else if wire.len() < 4 + announced(wire) {
        Decoded::Incomplete
    } else {
        let end = 4 + announced(wire) as int;
        Decoded::Frame(wire.subrange(4, end), wire.skip(end))
    }
}

impl Message {
    /// Creates a message from a payload.
    pub fn new<P: IntoPayload>(data: P) -> (m: Message)
        ensures
            m@ == data.payload(),
    {
        Message { data: data.into_payload() }
    }

    /// The payload.
    pub fn data(&self) -> (b: &Bytes)
        ensures
            buffer::bytes_content(*b) == self@,
    {
        &self.data
    }

    /// The payload as a slice.
    pub fn as_slice(&self) -> (s: &[u8])
        ensures
            s@ == self@,
    {
        buffer::bytes_slice(&self.data)
    }

    /// The size of the payload in bytes.
    pub fn size(&self) -> (n: usize)
        ensures
            n == self@.len(),
    {
        buffer::bytes_len(&self.data)
    }

    /// Whether the payload is empty.
    pub fn is_empty(&self) -> (e: bool)
        ensures
            e == (self@.len() == 0),
    {
        buffer::bytes_is_empty(&self.data)
    }

    /// The text shown to people.
    pub fn to_string(&self) -> (s: String)
        ensures
            s@ == "Message["@ + crate::text::decimal(self@.len()) + " bytes]"@,
    {
        let mut s = "Message[".to_owned();
        push_decimal(&mut s, self.size() as u128);
        s.append(" bytes]");
        s
    }

    /// Encodes the message into wire format: refused if and only if the payload is
    /// larger than a message may be.
    pub fn encode(&self) -> (r: Result<BytesMut, NetworkError>)
        ensures
            match r {
                Ok(buf) => self@.len() <= MAX_MESSAGE_SIZE && buffer::buffer_content(buf) == frame(
                    self@,
                ),
                Err(e) => self@.len() > MAX_MESSAGE_SIZE && e@ == ErrorView::MessageTooLarge(
                    self@.len(),
                    MAX_MESSAGE_SIZE as nat,
                ),
            },
    {
        let len: usize = self.size();
        if len > MAX_MESSAGE_SIZE {
            return Err(NetworkError::MessageTooLarge(len, MAX_MESSAGE_SIZE));
        }
        let mut buf = buffer::buffer_with_capacity(HEADER_SIZE + len);
        buffer::buffer_put_u32(&mut buf, len as u32);
        buffer::buffer_put_slice(&mut buf, buffer::bytes_slice(&self.data));
        proof {
            assert(buffer::buffer_content(buf) =~= frame(self@));
        }
        Ok(buf)
    }

    /// Decodes the message at the front of a buffer and consumes its frame. While
    /// the frame is incomplete, and where it announces too many bytes, the buffer
    /// keeps what it holds.
    pub fn decode(buf: &mut BytesMut) -> (r: Result<Option<Message>, NetworkError>)
        ensures
            match decoded(buffer::buffer_content(*old(buf))) {
                Decoded::Incomplete => r matches Ok(None) && buffer::buffer_content(*final(buf))
                    == buffer::buffer_content(*old(buf)),
                Decoded::TooLarge(n) => r matches Err(e) && e@ == ErrorView::MessageTooLarge(
                    n,
                    MAX_MESSAGE_SIZE as nat,
                ) && buffer::buffer_content(*final(buf)) == buffer::buffer_content(*old(buf)),
                Decoded::Frame(payload, rest) => r matches Ok(Some(m)) && m@ == payload
                    && buffer::buffer_content(*final(buf)) == rest,
            },
    {
        let ghost wire = buffer::buffer_content(*buf);
        let held: usize = buffer::buffer_len(buf);
        if held < HEADER_SIZE {
            return Ok(None);
        }
        let len: usize = {
            let head = buffer::buffer_slice(buf);
            (head[0] as u32 * 0x1000000 + head[1] as u32 * 0x10000 + head[2] as u32 * 0x100
                + head[3] as u32) as usize
        };
        if len > MAX_MESSAGE_SIZE {
            return Err(NetworkError::MessageTooLarge(len, MAX_MESSAGE_SIZE));
        }
        if held < HEADER_SIZE + len {
            return Ok(None);
        }
        buffer::buffer_advance(buf, HEADER_SIZE);
        let data = buffer::buffer_freeze(buffer::buffer_split_to(buf, len));
        proof {
            assert(wire.skip(4).take(len as int) =~= wire.subrange(4, 4 + len));
            assert(wire.skip(4).skip(len as int) =~= wire.skip(4 + len));
        }
        Ok(Some(Message { data }))
    }
}

impl From<String> for Message {
    /// A message that holds the UTF-8 encoding of a text.
    fn from(s: String) -> (m: Message)
        ensures
            m@ == vstd::utf8::encode_utf8(s@),
    {
        Message::new(s)
    }
}

impl From<&str> for Message {
    /// A message that holds the UTF-8 encoding of a text.
    fn from(s: &str) -> (m: Message)
        ensures
            m@ == vstd::utf8::encode_utf8(s@),
    {
        Message::new(s)
    }
}

impl From<Vec<u8>> for Message {
    /// A message that holds the given bytes.
    fn from(v: Vec<u8>) -> (m: Message)
        ensures
            m@ == v@,
    {
        Message::new(v)
    }
}

// Which `Bytes` value a conversion makes is not determined, only what it holds:
// that is what the contracts of the conversions say.
impl vstd::std_specs::convert::FromSpecImpl<String> for Message {
    open spec fn obeys_from_spec() -> bool {
        false
    }

    open spec fn from_spec(s: String) -> Message {
        arbitrary()
    }
}

impl vstd::std_specs::convert::FromSpecImpl<&str> for Message {
    open spec fn obeys_from_spec() -> bool {
        false
    }

    open spec fn from_spec(s: &str) -> Message {
        arbitrary()
    }
}

impl vstd::std_specs::convert::FromSpecImpl<Vec<u8>> for Message {
    open spec fn obeys_from_spec() -> bool {
        false
    }

    open spec fn from_spec(v: Vec<u8>) -> Message {
        arbitrary()
    }
}

/// The length that a frame announces is the length of its payload.
proof fn lemma_announced(payload: Seq<u8>, rest: Seq<u8>)
    requires
        payload.len() <= MAX_MESSAGE_SIZE,
    ensures
        announced(frame(payload) + rest) == payload.len(),
{
    let wire = frame(payload) + rest;
    let n = payload.len() as u32;
    assert(wire[0] == buffer::be_bytes(n)[0]);
    assert(wire[1] == buffer::be_bytes(n)[1]);
    assert(wire[2] == buffer::be_bytes(n)[2]);
    assert(wire[3] == buffer::be_bytes(n)[3]);
    assert(n / 0x1000000 < 0x100);
}

/// Decoding gives back what encoding wrote: the front of a stream that begins with
/// the frame of a payload is that payload, and what followed the frame is left.
pub proof fn decode_inverts_encode(payload: Seq<u8>, rest: Seq<u8>)
    requires
        payload.len() <= MAX_MESSAGE_SIZE,
    ensures
        decoded(frame(payload) + rest) == Decoded::Frame(payload, rest),
{
    lemma_announced(payload, rest);
    let wire = frame(payload) + rest;
    let end = 4 + payload.len() as int;
    assert(wire.subrange(4, end) =~= payload);
    assert(wire.skip(end) =~= rest);
}

/// A frame that has not arrived in full is waited for, however little of it is
/// missing.
pub proof fn partial_frame_is_incomplete(payload: Seq<u8>, arrived: int)
    requires
        payload.len() <= MAX_MESSAGE_SIZE,
        0 <= arrived < frame(payload).len(),
    ensures
        decoded(frame(payload).take(arrived)) == Decoded::Incomplete,
{
    if arrived >= 4 {
        lemma_announced(payload, Seq::empty());
        let part = frame(payload).take(arrived);
        assert(frame(payload) + Seq::<u8>::empty() =~= frame(payload));
        assert(part[0] == frame(payload)[0]);
        assert(part[1] == frame(payload)[1]);
        assert(part[2] == frame(payload)[2]);
        assert(part[3] == frame(payload)[3]);
    }
}

/// A frame that announces more than a message may hold is refused as soon as its header
/// has arrived, whatever follows.
pub proof fn oversized_frame_is_refused(wire: Seq<u8>, more: Seq<u8>)
    requires
        wire.len() >= 4,
        announced(wire) > MAX_MESSAGE_SIZE,
    ensures
        decoded(wire + more) == Decoded::TooLarge(announced(wire)),
{
    later_bytes_do_not_change_front(wire, more);
}

/// Once the front of a stream says a message, or that one is too large, bytes that
/// arrive later do not change what it says.
pub proof fn later_bytes_do_not_change_front(wire: Seq<u8>, more: Seq<u8>)
    ensures
        match decoded(wire) {
            Decoded::Incomplete => true,
            Decoded::TooLarge(n) => decoded(wire + more) == Decoded::TooLarge(n),
            Decoded::Frame(payload, rest) => decoded(wire + more) == Decoded::Frame(
                payload,
                rest + more,
            ),
        },
{
    if wire.len() >= 4 {
        let all = wire + more;
        assert(all[0] == wire[0] && all[1] == wire[1] && all[2] == wire[2] && all[3] == wire[3]);
        let end = 4 + announced(wire) as int;
        if announced(wire) <= MAX_MESSAGE_SIZE && wire.len() >= end {
            assert(all.subrange(4, end) =~= wire.subrange(4, end));
            assert(all.skip(end) =~= wire.skip(end) + more);
        }
    }
}

/// A stream whose front is incomplete holds less than a header and a largest message.
pub proof fn incomplete_stream_is_short(wire: Seq<u8>)
    requires
        decoded(wire) == Decoded::Incomplete,
    ensures
        wire.len() < 4 + MAX_MESSAGE_SIZE,
{
}

/// A text is kept: the payload that a text makes is UTF-8, and reads as that text.
pub proof fn text_is_kept(text: Seq<char>)
    ensures
        vstd::utf8::valid_utf8(vstd::utf8::encode_utf8(text)),
        vstd::utf8::decode_utf8(vstd::utf8::encode_utf8(text)) == text,
{
    vstd::utf8::encode_utf8_valid_utf8(text);
    vstd::utf8::encode_utf8_decode_utf8(text);
}

/// Payloads on the wire, one frame after another.
pub open spec fn frames(payloads: Seq<Seq<u8>>) -> Seq<u8>
    decreases payloads.len(),
{
    if payloads.len() == 0 {
        Seq::empty()
    } else {
        frame(payloads.first()) + frames(payloads.drop_first())
    }
}

/// The payloads that decoding a stream over and over gives, in order.
pub open spec fn payloads_of(wire: Seq<u8>) -> Seq<Seq<u8>>
    decreases wire.len(),
{
    match decoded(wire) {
        Decoded::Frame(payload, rest) => seq![payload] + payloads_of(rest),
        _ => Seq::empty(),
    }
}

/// Messages that were sent one after another come out one after another, each of
/// them once and unchanged, and what follows them is read from where they end.
pub proof fn stream_keeps_messages(payloads: Seq<Seq<u8>>, tail: Seq<u8>)
    requires
        forall|i: int| 0 <= i < payloads.len() ==> (#[trigger] payloads[i]).len() <= MAX_MESSAGE_SIZE,
    ensures
        payloads_of(frames(payloads) + tail) == payloads + payloads_of(tail),
    decreases payloads.len(),
{
    if payloads.len() == 0 {
        assert(frames(payloads) + tail =~= tail);
        assert(payloads + payloads_of(tail) =~= payloads_of(tail));
    } else {
        let rest = payloads.drop_first();
        let wire = frames(payloads) + tail;
        stream_keeps_messages(rest, tail);
        decode_inverts_encode(payloads.first(), frames(rest) + tail);
        assert(wire =~= frame(payloads.first()) + (frames(rest) + tail));
        assert(seq![payloads.first()] + (rest + payloads_of(tail)) =~= payloads + payloads_of(tail));
    }
}

/// On the wire a payload follows its length, which is written in four bytes, the most
/// significant first. No message is larger than 16 MiB.
pub proof fn length_goes_first(payload: Seq<u8>)
    requires
        payload.len() <= u32::MAX,
    ensures
        frame(payload).len() == 4 + payload.len(),
        frame(payload)[0] * 0x1000000 + frame(payload)[1] * 0x10000 + frame(payload)[2] * 0x100
            + frame(payload)[3] == payload.len(),
        frame(payload).skip(4) == payload,
        MAX_MESSAGE_SIZE == 16 * 1024 * 1024,
{
    let n = payload.len() as u32;
    let f = frame(payload);
    assert(f[0] == buffer::be_bytes(n)[0]);
    assert(f[1] == buffer::be_bytes(n)[1]);
    assert(f[2] == buffer::be_bytes(n)[2]);
    assert(f[3] == buffer::be_bytes(n)[3]);
    assert(n / 0x1000000 < 0x100);
    assert(f.skip(4) =~= payload);
}

/// Bytes are taken as they are, whichever form they are handed over in, and a text as its
/// UTF-8 encoding.
pub proof fn payloads_are_taken_as_they_are(
    bytes: Bytes,
    list: Vec<u8>,
    lasting: &'static [u8],
    boxed: Box<[u8]>,
    growing: BytesMut,
    owned: String,
    borrowed: &str,
)
    ensures
        bytes.payload() == buffer::bytes_content(bytes),
        list.payload() == list@,
        lasting.payload() == lasting@,
        boxed.payload() == boxed@,
        growing.payload() == buffer::buffer_content(growing),
        owned.payload() == vstd::utf8::encode_utf8(owned@),
        borrowed.payload() == vstd::utf8::encode_utf8(borrowed@),
{
}

} // verus!
