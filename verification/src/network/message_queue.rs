//! Message queue for buffering outbound messages.
//!
//! The queue holds messages in the order in which they came, up to a limit, and
//! counts what went in, what came out and what was turned away.

use crate::error::{ErrorView, NetworkError};
use crate::network::buffer;
use crate::network::channel;
use crate::network::message::Message;
use crate::network::permits;
use crate::time::Duration;
use bytes::Bytes;
use tokio::sync::mpsc::{Receiver, Sender};
use tokio::sync::Semaphore;
use vstd::prelude::*;
use vstd::string::*;

verus! {

/// Configuration for a message queue.
#[derive(Debug, Clone, Copy)]
pub struct MessageQueueConfig {
    /// Maximum number of messages in the queue.
    pub max_size: usize,
    /// How long to wait for space when the queue is full.
    pub enqueue_timeout: Duration,
    /// Whether a message that finds the queue full is dropped at once.
    pub drop_on_full: bool,
}

impl Default for MessageQueueConfig {
    fn default() -> (c: MessageQueueConfig)
        ensures
            c.max_size == 1000,
            c.enqueue_timeout@ == crate::time::secs(5),
            c.drop_on_full == false,
    {
        MessageQueueConfig {
            max_size: 1000,
            enqueue_timeout: Duration::from_secs(5),
            drop_on_full: false,
        }
    }
}

impl MessageQueueConfig {
    /// Creates a new configuration.
    pub fn new() -> (c: MessageQueueConfig)
        ensures
            c.max_size == 1000,
            c.enqueue_timeout@ == crate::time::secs(5),
            c.drop_on_full == false,
    {
        MessageQueueConfig::default()
    }

    /// Sets the maximum queue size.
    pub fn with_max_size(self, size: usize) -> (c: MessageQueueConfig)
        ensures
            c == (MessageQueueConfig { max_size: size, ..self }),
    {
        MessageQueueConfig { max_size: size, ..self }
    }

    /// Sets the enqueue timeout.
    pub fn with_enqueue_timeout(self, timeout: Duration) -> (c: MessageQueueConfig)
        ensures
            c == (MessageQueueConfig { enqueue_timeout: timeout, ..self }),
    {
        MessageQueueConfig { enqueue_timeout: timeout, ..self }
    }

    /// Sets whether messages are dropped when the queue is full.
    pub fn with_drop_on_full(self, drop: bool) -> (c: MessageQueueConfig)
        ensures
            c == (MessageQueueConfig { drop_on_full: drop, ..self }),
    {
        MessageQueueConfig { drop_on_full: drop, ..self }
    }
}

/// Statistics for a message queue.
#[derive(Debug, Clone, Copy)]
pub struct MessageQueueStats {
    /// Current number of messages in the queue.
    pub depth: u64,
    /// Maximum queue size.
    pub max_size: u64,
    /// Total messages enqueued.
    pub enqueued: u64,
    /// Total messages dequeued.
    pub dequeued: u64,
    /// Total messages dropped when the queue was full.
    pub dropped: u64,
}

/// What a [`MessageQueue`] holds.
#[verifier::ext_equal]
pub struct QueueView {
    pub config: MessageQueueConfig,
    /// The payloads that wait, the oldest first.
    pub messages: Seq<Seq<u8>>,
    pub enqueued: u64,
    pub dequeued: u64,
    pub dropped: u64,
}

impl QueueView {
    /// The queue that was just made.
    pub open spec fn fresh(config: MessageQueueConfig) -> QueueView {
        QueueView { config, messages: Seq::empty(), enqueued: 0, dequeued: 0, dropped: 0 }
    }

    /// Whether no further message may wait.
    pub open spec fn full(self) -> bool {
        self.messages.len() >= self.config.max_size
    }

    /// The queue with one more message at its end.
    pub open spec fn pushed(self, payload: Seq<u8>) -> QueueView {
        QueueView {
            messages: self.messages.push(payload),
            enqueued: self.enqueued.wrapping_add(1),
            ..self
        }
    }

    /// The queue without its oldest message.
    pub open spec fn popped(self) -> QueueView {
        QueueView {
            messages: self.messages.drop_first(),
            dequeued: self.dequeued.wrapping_add(1),
            ..self
        }
    }

    /// The queue after one more message was turned away.
    pub open spec fn refused(self) -> QueueView {
        QueueView { dropped: self.dropped.wrapping_add(1), ..self }
    }

    /// The queue after `enqueue` of a payload.
    pub open spec fn enqueued(self, payload: Seq<u8>) -> QueueView {
        if !self.full() {
            self.pushed(payload)
        } else if self.config.drop_on_full {
            self.refused()
        } else {
            self
        }
    }

    /// What `enqueue` of a payload gives: nothing where it waits, the payload where it is to
    /// be offered again, or that it was dropped.
    pub open spec fn offer(self, payload: Seq<u8>) -> Result<Option<Seq<u8>>, ErrorView> {
        if !self.full() {
            Ok(None)
        } else if self.config.drop_on_full {
            Err(ErrorView::Other("Message queue full, message dropped"@))
        } else {
            Ok(Some(payload))
        }
    }

    /// What every queue keeps: no more messages than allowed, and counts that differ
    /// by the number of messages, up to the wrap-around of 64-bit counters.
    pub open spec fn wf(self) -> bool {
        &&& 0 < self.config.max_size <= permits::most_permits()
        &&& self.messages.len() <= self.config.max_size
        &&& (self.enqueued - self.dequeued - self.messages.len()) % 0x1_0000_0000_0000_0000 == 0
    }

    /// The number of messages, as the counts tell it.
    pub open spec fn depth(self) -> u64 {
        if self.enqueued >= self.dequeued {
            (self.enqueued - self.dequeued) as u64
        } else {
            0
        }
    }
}

/// A bounded queue of outbound messages.
pub struct MessageQueue {
    config: MessageQueueConfig,
    tx: Sender<Bytes>,
    rx: Receiver<Bytes>,
    semaphore: Semaphore,
    enqueued_count: u64,
    dequeued_count: u64,
    dropped_count: u64,
}

impl View for MessageQueue {
    type V = QueueView;

    closed spec fn view(&self) -> QueueView {
        QueueView {
            config: self.config,
            messages: channel::channel_queued(self.rx),
            enqueued: self.enqueued_count,
            dequeued: self.dequeued_count,
            dropped: self.dropped_count,
        }
    }
}

impl MessageQueue {
    /// Whether the queue is in order: what holds of its view, and as many permits
    /// left as messages may still come.
    pub closed spec fn wf(&self) -> bool {
        &&& self@.wf()
        &&& channel::channel_feeds(self.tx, self.rx)
        &&& channel::channel_limit(self.rx) == self.config.max_size
        &&& !permits::permits_closed(self.semaphore)
        &&& permits::permits_free(self.semaphore) + self@.messages.len() == self.config.max_size
    }

    /// A queue that is in order is one whose view is.
    pub proof fn wf_view(&self)
        requires
            self.wf(),
        ensures
            self@.wf(),
    {
    }

    /// Creates a new message queue.
    pub fn new(config: MessageQueueConfig) -> (q: MessageQueue)
        requires
            0 < config.max_size <= permits::most_permits(),
        ensures
            q.wf(),
            q@ == QueueView::fresh(config),
    {
        let (tx, rx) = channel::channel_new(config.max_size);
        let semaphore = permits::permits_new(config.max_size);
        MessageQueue {
            config,
            tx,
            rx,
            semaphore,
            enqueued_count: 0,
            dequeued_count: 0,
            dropped_count: 0,
        }
    }

    /// Creates a queue with the default configuration.
    pub fn with_default_config() -> (q: MessageQueue)
        ensures
            q.wf(),
            q@.config.max_size == 1000,
            q@.config.enqueue_timeout@ == crate::time::secs(5),
            q@.config.drop_on_full == false,
            q@ == QueueView::fresh(q@.config),
    {
        MessageQueue::new(MessageQueueConfig::default())
    }

    /// Puts a message at the end if a permit is left, and says whether it did.
    fn push_if_room(&mut self, message: &Message) -> (pushed: bool)
        requires
            old(self).wf(),
        ensures
            final(self).wf(),
            pushed == !old(self)@.full(),
            final(self)@ == if pushed {
                old(self)@.pushed(message@)
            } else {
                old(self)@
            },
    {
        if !permits::permits_take(&mut self.semaphore) {
            return false;
        }
        let item = buffer::bytes_clone(message.data());
        let sent = channel::channel_try_send(&self.tx, &mut self.rx, item);
        assert(sent);
        self.enqueued_count = self.enqueued_count.wrapping_add(1);
        proof {
            lemma_counts(
                old(self)@.enqueued as int,
                self@.enqueued as int,
                old(self)@.dequeued as int,
                old(self)@.messages.len() as int,
            );
        }
        true
    }

    /// Enqueues a message with backpressure handling. Where the queue is full, the
    /// message is dropped if so configured; otherwise it comes back, to be offered
    /// again when there is space and within the enqueue timeout.
    pub fn enqueue(&mut self, message: Message) -> (r: Result<Option<Message>, NetworkError>)
        requires
            old(self).wf(),
        ensures
            final(self).wf(),
            final(self)@ == old(self)@.enqueued(message@),
            match (r, old(self)@.offer(message@)) {
                (Ok(None), Ok(None)) => true,
                (Ok(Some(m)), Ok(Some(payload))) => m@ == payload,
                (Err(e), Err(v)) => e@ == v,
                _ => false,
            },
    {
        if self.push_if_room(&message) {
            Ok(None)
        } else if self.config.drop_on_full {
            self.dropped_count = self.dropped_count.wrapping_add(1);
            Err(NetworkError::other("Message queue full, message dropped"))
        } else {
            Ok(Some(message))
        }
    }

    /// How long to wait for space for a message that found the queue full.
    pub fn enqueue_timeout(&self) -> (d: Duration)
        ensures
            d == self@.config.enqueue_timeout,
    {
        self.config.enqueue_timeout
    }

    /// What is told of a message for which no space came in time.
    pub fn enqueue_timed_out(&self) -> (e: NetworkError)
        ensures
            e@ == ErrorView::Timeout("Enqueue timeout: queue full"@),
    {
        NetworkError::timeout("Enqueue timeout: queue full")
    }

    /// Enqueues a message if there is space, and drops it otherwise.
    pub fn try_enqueue(&mut self, message: Message) -> (r: Result<(), NetworkError>)
        requires
            old(self).wf(),
        ensures
            final(self).wf(),
            match r {
                Ok(_) => !old(self)@.full() && final(self)@ == old(self)@.pushed(message@),
                Err(e) => old(self)@.full() && final(self)@ == old(self)@.refused() && e@
                    == ErrorView::Other("Message queue full"@),
            },
    {
        if self.push_if_room(&message) {
            Ok(())
        } else {
            self.dropped_count = self.dropped_count.wrapping_add(1);
            Err(NetworkError::other("Message queue full"))
        }
    }

    /// Dequeues the oldest message. Nothing comes where nothing waits: the caller
    /// asks again once a message was enqueued.
    pub fn dequeue(&mut self) -> (r: Option<Message>)
        requires
            old(self).wf(),
        ensures
            final(self).wf(),
            match r {
                Some(m) => old(self)@.messages.len() > 0 && m@ == old(self)@.messages[0]
                    && final(self)@ == old(self)@.popped(),
                None => old(self)@.messages.len() == 0 && final(self)@ == old(self)@,
            },
    {
        self.try_dequeue()
    }

    /// Dequeues the oldest message, if any waits.
    pub fn try_dequeue(&mut self) -> (r: Option<Message>)
        requires
            old(self).wf(),
        ensures
            final(self).wf(),
            match r {
                Some(m) => old(self)@.messages.len() > 0 && m@ == old(self)@.messages[0]
                    && final(self)@ == old(self)@.popped(),
                None => old(self)@.messages.len() == 0 && final(self)@ == old(self)@,
            },
    {
        match channel::channel_try_recv(&self.tx, &mut self.rx) {
            Some(item) => {
                self.dequeued_count = self.dequeued_count.wrapping_add(1);
                permits::permits_give(&mut self.semaphore, 1);
                proof {
                    lemma_counts(
                        old(self)@.dequeued as int,
                        self@.dequeued as int,
                        old(self)@.enqueued as int,
                        -(old(self)@.messages.len() as int),
                    );
                    let a = old(self)@.enqueued - self@.dequeued - self@.messages.len();
                    let b = self@.dequeued - old(self)@.enqueued + self@.messages.len();
                    assert(a % 0x1_0000_0000_0000_0000 == 0) by (nonlinear_arith)
                        requires
                            a == -b,
                            b % 0x1_0000_0000_0000_0000 == 0,
                    ;
                }
                Some(Message::new(item))
            },
            None => None,
        }
    }

    /// Queue statistics.
    pub fn stats(&self) -> (s: MessageQueueStats)
        ensures
            s.depth == self@.depth(),
            s.max_size == self@.config.max_size,
            s.enqueued == self@.enqueued,
            s.dequeued == self@.dequeued,
            s.dropped == self@.dropped,
    {
        MessageQueueStats {
            depth: self.enqueued_count.saturating_sub(self.dequeued_count),
            max_size: self.config.max_size as u64,
            enqueued: self.enqueued_count,
            dequeued: self.dequeued_count,
            dropped: self.dropped_count,
        }
    }

    /// Whether the counts say that the queue is empty.
    pub fn is_empty(&self) -> (b: bool)
        ensures
            b == (self@.depth() == 0),
    {
        self.stats().depth == 0
    }

    /// Whether no further message may wait.
    pub fn is_full(&self) -> (b: bool)
        requires
            self.wf(),
        ensures
            b == self@.full(),
    {
        permits::permits_left(&self.semaphore) == 0
    }

    /// The number of messages, as the counts tell it.
    pub fn depth(&self) -> (n: u64)
        ensures
            n == self@.depth(),
    {
        self.stats().depth
    }
}

/// A 64-bit counter that steps on stays where a count that never wraps would be, up
/// to a multiple of the counter's range.
proof fn lemma_counts(before: int, after: int, other: int, len: int)
    requires
        (before - other - len) % 0x1_0000_0000_0000_0000 == 0,
        after == before + 1 || after == before + 1 - 0x1_0000_0000_0000_0000,
    ensures
        (after - other - (len + 1)) % 0x1_0000_0000_0000_0000 == 0,
{
}

/// The queue after enqueueing payloads one after another.
pub open spec fn enqueued_all(q: QueueView, payloads: Seq<Seq<u8>>) -> QueueView
    decreases payloads.len(),
{
    if payloads.len() == 0 {
        q
    } else {
        enqueued_all(q, payloads.drop_last()).enqueued(payloads.last())
    }
}

/// The queue after dequeueing `n` messages.
pub open spec fn dequeued_all(q: QueueView, n: nat) -> QueueView
    decreases n,
{
    if n == 0 {
        q
    } else {
        dequeued_all(q, (n - 1) as nat).popped()
    }
}

/// While there is room, every message is kept: the queue holds what it held and then
/// the new messages in the order in which they came, and none is counted as dropped.
pub proof fn messages_are_kept(q: QueueView, payloads: Seq<Seq<u8>>)
    requires
        q.wf(),
        q.messages.len() + payloads.len() <= q.config.max_size,
    ensures
        enqueued_all(q, payloads).messages == q.messages + payloads,
        enqueued_all(q, payloads).dropped == q.dropped,
        enqueued_all(q, payloads).config == q.config,
        enqueued_all(q, payloads).wf(),
    decreases payloads.len(),
{
    if payloads.len() == 0 {
        assert(q.messages + payloads =~= q.messages);
    } else {
        messages_are_kept(q, payloads.drop_last());
        let before = enqueued_all(q, payloads.drop_last());
        assert(before.messages.push(payloads.last()) =~= q.messages + payloads);
        lemma_counts(
            before.enqueued as int,
            before.pushed(payloads.last()).enqueued as int,
            before.dequeued as int,
            before.messages.len() as int,
        );
    }
}

/// Dequeueing takes messages from the front.
pub proof fn oldest_leave_first(q: QueueView, n: nat)
    requires
        n <= q.messages.len(),
    ensures
        dequeued_all(q, n).messages == q.messages.skip(n as int),
    decreases n,
{
    if n == 0 {
        assert(q.messages.skip(0) =~= q.messages);
    } else {
        oldest_leave_first(q, (n - 1) as nat);
        assert(q.messages.skip(n - 1).drop_first() =~= q.messages.skip(n as int));
    }
}

/// First in, first out: of the messages that were enqueued into an empty queue, the
/// one that came `i`-th leaves `i`-th.
pub proof fn first_in_first_out(config: MessageQueueConfig, payloads: Seq<Seq<u8>>, i: nat)
    requires
        0 < config.max_size <= permits::most_permits(),
        payloads.len() <= config.max_size,
        i < payloads.len(),
    ensures
        dequeued_all(enqueued_all(QueueView::fresh(config), payloads), i).messages.len() > 0,
        dequeued_all(enqueued_all(QueueView::fresh(config), payloads), i).messages[0]
            == payloads[i as int],
{
    let q = QueueView::fresh(config);
    messages_are_kept(q, payloads);
    oldest_leave_first(enqueued_all(q, payloads), i);
    assert(q.messages + payloads =~= payloads);
}

/// The depth that the counts tell is the number of messages, unless the count of
/// enqueued messages has wrapped round and that of dequeued ones has not.
pub proof fn depth_is_length(q: QueueView)
    requires
        q.wf(),
        q.enqueued >= q.dequeued,
    ensures
        q.depth() == q.messages.len(),
{
}

/// A full queue takes no message: what waits stays as it is, and the message is counted as
/// dropped where it is dropped, and otherwise not.
pub proof fn full_queue_turns_away(q: QueueView, payload: Seq<u8>)
    requires
        q.wf(),
        q.messages.len() == q.config.max_size,
    ensures
        q.full(),
        q.enqueued(payload).messages == q.messages,
        q.enqueued(payload).enqueued == q.enqueued,
        q.enqueued(payload).dequeued == q.dequeued,
        q.config.drop_on_full ==> q.enqueued(payload).dropped == q.dropped.wrapping_add(1),
        !q.config.drop_on_full ==> q.enqueued(payload) == q,
        q.refused().messages == q.messages,
        q.refused().dropped == q.dropped.wrapping_add(1),
        q.refused().enqueued == q.enqueued && q.refused().dequeued == q.dequeued,
        q.refused().config == q.config,
{
}

/// A message is taken as long as fewer wait than allowed. It waits behind the others, and is
/// counted once.
pub proof fn message_waits_behind_others(q: QueueView, payload: Seq<u8>)
    requires
        q.wf(),
        q.messages.len() < q.config.max_size,
    ensures
        !q.full(),
        q.enqueued(payload) == q.pushed(payload),
        q.pushed(payload).messages.len() == q.messages.len() + 1,
        q.pushed(payload).messages.last() == payload,
        q.pushed(payload).messages.drop_last() == q.messages,
        q.pushed(payload).enqueued == q.enqueued.wrapping_add(1),
        q.pushed(payload).dequeued == q.dequeued,
        q.pushed(payload).dropped == q.dropped,
        q.pushed(payload).config == q.config,
{
    assert(q.pushed(payload).messages.drop_last() =~= q.messages);
}

/// A message that leaves is counted once, and makes room for another.
pub proof fn leaving_makes_room(q: QueueView, payload: Seq<u8>)
    requires
        q.wf(),
        q.messages.len() > 0,
    ensures
        q.popped().messages == q.messages.skip(1),
        q.popped().dequeued == q.dequeued.wrapping_add(1),
        q.popped().enqueued == q.enqueued,
        q.popped().dropped == q.dropped,
        q.popped().config == q.config,
        !q.popped().full(),
{
    assert(q.messages.drop_first() =~= q.messages.skip(1));
}

/// A queue that was just made is empty and has counted nothing.
pub proof fn fresh_queue_is_empty(config: MessageQueueConfig)
    ensures
        QueueView::fresh(config).messages.len() == 0,
        QueueView::fresh(config).depth() == 0,
        QueueView::fresh(config).enqueued == 0,
        QueueView::fresh(config).dequeued == 0,
        QueueView::fresh(config).dropped == 0,
        QueueView::fresh(config).config == config,
{
}

/// No message is lost unnoticed: one that is offered waits in the queue, or comes back, or is
/// told to be dropped and counted as such.
pub proof fn no_message_is_lost(q: QueueView, payload: Seq<u8>)
    requires
        q.wf(),
        q.dropped < u64::MAX,
    ensures
        q.offer(payload) matches Ok(None) <==> q.messages.len() < q.config.max_size,
        q.offer(payload) matches Ok(None) ==> q.enqueued(payload).messages == q.messages.push(
            payload,
        ) && q.enqueued(payload).dropped == q.dropped,
        q.offer(payload) matches Ok(Some(back)) ==> back == payload && q.enqueued(payload) == q
            && !q.config.drop_on_full,
        q.offer(payload) is Err ==> q.config.drop_on_full && q.enqueued(payload).dropped == q.dropped
            + 1 && q.enqueued(payload).messages == q.messages,
{
}

} // verus!
