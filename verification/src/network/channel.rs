//! The bounded channel of the `tokio` crate, both of whose ends have one owner.
//!
//! [`channel_queued`] names what waits in a channel, [`channel_limit`] how much may
//! wait, and [`channel_feeds`] says that a sender and a receiver belong together.

use crate::network::buffer;
use bytes::Bytes;
use tokio::sync::mpsc::{Receiver, Sender};
use vstd::prelude::*;

verus! {

/// `tokio::sync::mpsc::Sender`, the end where items go in.
#[verifier::external_type_specification]
#[verifier::external_body]
#[verifier::reject_recursive_types(T)]
pub struct ExSender<T>(Sender<T>);

/// `tokio::sync::mpsc::Receiver`, the end where items come out.
#[verifier::external_type_specification]
#[verifier::external_body]
#[verifier::reject_recursive_types(T)]
pub struct ExReceiver<T>(Receiver<T>);

/// What waits in the channel, the item that comes out next first.
pub uninterp spec fn channel_queued(rx: Receiver<Bytes>) -> Seq<Seq<u8>>;

/// How many items may wait in the channel.
pub uninterp spec fn channel_limit(rx: Receiver<Bytes>) -> nat;

/// Whether items that go in at the sender come out at the receiver, which is open.
pub uninterp spec fn channel_feeds(tx: Sender<Bytes>, rx: Receiver<Bytes>) -> bool;

/// Calls `tokio::sync::mpsc::channel`: two ends of an empty channel. It panics on a
/// limit of zero or beyond what its semaphore counts, so those are left out.
#[verifier::external_body]
pub(crate) fn channel_new(limit: usize) -> (ends: (Sender<Bytes>, Receiver<Bytes>))
    requires
        0 < limit <= crate::network::permits::most_permits(),
    ensures
        channel_queued(ends.1) == Seq::<Seq<u8>>::empty(),
        channel_limit(ends.1) == limit,
        channel_feeds(ends.0, ends.1),
{
    tokio::sync::mpsc::channel(limit)
}

/// Calls `Sender::try_send` on the sender of an open channel: the item waits behind
/// the others, if and only if one more may wait.
#[verifier::external_body]
pub(crate) fn channel_try_send(tx: &Sender<Bytes>, rx: &mut Receiver<Bytes>, item: Bytes) -> (sent:
    bool)
    requires
        channel_feeds(*tx, *old(rx)),
    ensures
        channel_feeds(*tx, *final(rx)),
        channel_limit(*final(rx)) == channel_limit(*old(rx)),
        sent == (channel_queued(*old(rx)).len() < channel_limit(*old(rx))),
        channel_queued(*final(rx)) == if sent {
            channel_queued(*old(rx)).push(buffer::bytes_content(item))
        } else {
            channel_queued(*old(rx))
        },
{
    tx.try_send(item).is_ok()
}

/// Calls `Receiver::try_recv`: the item that has waited longest comes out, if any
/// waits.
#[verifier::external_body]
pub(crate) fn channel_try_recv(tx: &Sender<Bytes>, rx: &mut Receiver<Bytes>) -> (item: Option<
    Bytes,
>)
    requires
        channel_feeds(*tx, *old(rx)),
    ensures
        channel_feeds(*tx, *final(rx)),
        channel_limit(*final(rx)) == channel_limit(*old(rx)),
        match item {
            Some(b) => channel_queued(*old(rx)).len() > 0 && buffer::bytes_content(b)
                == channel_queued(*old(rx))[0] && channel_queued(*final(rx)) == channel_queued(
                *old(rx),
            ).drop_first(),
            None => channel_queued(*old(rx)).len() == 0 && channel_queued(*final(rx))
                == channel_queued(*old(rx)),
        },
{
    rx.try_recv().ok()
}

} // verus!
