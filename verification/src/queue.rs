//! The outbound path of one connection: a bounded queue and a wake-up flag.
use std::sync::Arc;

use tokio::sync::mpsc;
use tokio::sync::Notify;
use vstd::prelude::*;

use crate::message::Message;
use crate::message::MessageView;

verus! {

broadcast use vstd::string::group_string_axioms;

/// `tokio::sync::mpsc::Sender`, the sending half of a bounded queue.
#[verifier::external_type_specification]
#[verifier::external_body]
#[verifier::reject_recursive_types(T)]
pub struct ExSender<T>(mpsc::Sender<T>);

/// `tokio::sync::mpsc::Receiver`, the receiving half of a bounded queue.
#[verifier::external_type_specification]
#[verifier::external_body]
#[verifier::reject_recursive_types(T)]
pub struct ExReceiver<T>(mpsc::Receiver<T>);

/// `tokio::sync::Notify`, a flag that wakes a waiting task.
#[verifier::external_type_specification]
#[verifier::external_body]
pub struct ExNotify(Notify);

/// One item queued toward a single connection's writer.
#[derive(Debug)]
pub enum Outbound {
    /// Deliver a message (`101 MSG` + body) to the subscriber.
    Deliver(Arc<Message>),
    /// An informational `190 NOTE` line (text after the code).
    Note(String),
}

/// The model of an [`Outbound`].
pub enum OutboundView {
    Deliver(MessageView),
    Note(Seq<char>),
}

impl View for Outbound {
    type V = OutboundView;

    open spec fn view(&self) -> OutboundView {
        match self {
            Outbound::Deliver(m) => OutboundView::Deliver(m@),
            Outbound::Note(s) => OutboundView::Note(s@),
        }
    }
}

/// What became of an item offered to a queue.
#[derive(Debug, Clone, Copy, PartialEq, Eq, Structural)]
pub enum SendOutcome {
    /// The item is in the queue.
    Sent,
    /// The queue was full; the item is dropped.
    Full,
    /// The receiver is gone; the item is dropped.
    Closed,
}

/// The offers that were made to the queue through this sending half, in order:
/// each item with what became of it.
pub uninterp spec fn offers(tx: mpsc::Sender<Outbound>) -> Seq<(OutboundView, SendOutcome)>;

/// The items among a run of offers that entered the queue, in order.
pub open spec fn entered(offers: Seq<(OutboundView, SendOutcome)>) -> Seq<OutboundView>
    decreases offers.len(),
{
    if offers.len() == 0 {
        Seq::empty()
    } else {
        let (item, outcome) = offers.last();
        if outcome == SendOutcome::Sent {
            entered(offers.drop_last()).push(item)
        } else {
            entered(offers.drop_last())
        }
    }
}

/// The queue that a sending half feeds: which one it is. Halves of one queue, as
/// `tokio::sync::mpsc::Sender::same_channel` tells them, have the same.
pub uninterp spec fn fed_queue(tx: mpsc::Sender<Outbound>) -> int;

/// The queue that a receiving half reads: which one it is.
pub uninterp spec fn read_queue(rx: mpsc::Receiver<Outbound>) -> int;

/// The most items that the queue of a sending half can hold, which it was made
/// with, as `tokio::sync::mpsc::Sender::max_capacity` tells it.
pub uninterp spec fn depth_of(tx: mpsc::Sender<Outbound>) -> nat;

/// Make a queue with `tokio::sync::mpsc::channel`: the receiving half reads what
/// the sending half feeds, and the queue holds `depth` items at most. Nothing was
/// offered to it yet.
///
/// The call panics on a depth of zero and on one above the semaphore's limit of
/// `usize::MAX >> 3`.
#[verifier::external_body]
pub(crate) fn channel(depth: usize) -> (halves: (mpsc::Sender<Outbound>, mpsc::Receiver<Outbound>))
    requires
        0 < depth <= usize::MAX / 8,
    ensures
        fed_queue(halves.0) == read_queue(halves.1),
        depth_of(halves.0) == depth,
        offers(halves.0) == Seq::<(OutboundView, SendOutcome)>::empty(),
{
    mpsc::channel(depth)
}

/// Another sending half of the same queue, with `tokio::sync::mpsc::Sender`'s
/// `clone`. Nothing was offered through the new half yet.
#[verifier::external_body]
pub(crate) fn another_sender(tx: &mpsc::Sender<Outbound>) -> (other: mpsc::Sender<Outbound>)
    ensures
        fed_queue(other) == fed_queue(*tx),
        depth_of(other) == depth_of(*tx),
        offers(other) == Seq::<(OutboundView, SendOutcome)>::empty(),
{
    tx.clone()
}

/// Offer an item to the queue with `tokio::sync::mpsc::Sender::try_send`, which
/// never waits: one more offer, of this item and with this outcome. The item
/// enters the queue exactly where the outcome is `Sent`.
///
/// Which outcome comes is not stated: it depends on how many items the receiver
/// has taken out, and on whether the receiver still exists.
#[verifier::external_body]
pub(crate) fn try_send(tx: &mut mpsc::Sender<Outbound>, item: Outbound) -> (outcome: SendOutcome)
    ensures
        fed_queue(*final(tx)) == fed_queue(*old(tx)),
        depth_of(*final(tx)) == depth_of(*old(tx)),
        offers(*final(tx)) == offers(*old(tx)).push((item@, outcome)),
{
    match tx.try_send(item) {
        Ok(()) => SendOutcome::Sent,
        Err(mpsc::error::TrySendError::Full(_)) => SendOutcome::Full,
        Err(mpsc::error::TrySendError::Closed(_)) => SendOutcome::Closed,
    }
}

/// The wake-up flag that a pointer leads to: which one it is.
pub uninterp spec fn flag_of(flag: Arc<Notify>) -> int;

/// How many wake-ups were made through this pointer to a flag.
pub uninterp spec fn wakes(flag: Arc<Notify>) -> nat;

/// Make a wake-up flag with `tokio::sync::Notify::new`. No wake-up was made yet.
#[verifier::external_body]
pub(crate) fn new_flag() -> (flag: Arc<Notify>)
    ensures
        wakes(flag) == 0,
{
    Arc::new(Notify::new())
}

/// Another pointer to the same flag, with `std::sync::Arc`'s `clone`. No wake-up
/// was made through the new one yet.
#[verifier::external_body]
pub(crate) fn another_pointer(flag: &Arc<Notify>) -> (other: Arc<Notify>)
    ensures
        flag_of(other) == flag_of(*flag),
        wakes(other) == 0,
{
    Arc::clone(flag)
}

/// Wake the task that waits on the flag with
/// `tokio::sync::Notify::notify_one`, or the next one to wait on it: one more
/// wake-up through this pointer. Which task is woken, and when, is not stated.
#[verifier::external_body]
pub(crate) fn notify_one(flag: &mut Arc<Notify>)
    ensures
        flag_of(*final(flag)) == flag_of(*old(flag)),
        wakes(*final(flag)) == wakes(*old(flag)) + 1,
{
    flag.notify_one();
}

/// Another pointer to the same message, with `std::sync::Arc`'s `clone`.
#[verifier::external_body]
pub(crate) fn share(pointer: &Arc<Message>) -> (other: Arc<Message>)
    ensures
        other == *pointer,
{
    Arc::clone(pointer)
}

/// A handle to a connection's outbound path, stored in the registry's
/// subscriber sets. All subscriptions of one connection share the same queue.
pub struct ConnHandle {
    /// Unique connection id.
    pub id: u64,
    /// Bounded outbound queue toward this connection's writer task.
    pub tx: mpsc::Sender<Outbound>,
    /// Woken whenever a drop is recorded so the writer emits `102 DROP`.
    pub drop_notify: Arc<Notify>,
}

/// The model of the way to a connection's writer.
#[verifier::ext_equal]
pub struct PathView {
    /// The outbound queue.
    pub queue: int,
    /// The most items that it can hold.
    pub depth: nat,
    /// The flag that is woken when messages were dropped.
    pub waker: int,
}

/// The model of a [`ConnHandle`]: whose it is, where it leads, what was offered to
/// the queue through it, and how often it woke the writer.
#[verifier::ext_equal]
pub struct HandleView {
    pub id: u64,
    pub path: PathView,
    pub offers: Seq<(OutboundView, SendOutcome)>,
    pub wakes: nat,
}

impl View for ConnHandle {
    type V = HandleView;

    open spec fn view(&self) -> HandleView {
        HandleView {
            id: self.id,
            path: PathView {
                queue: fed_queue(self.tx),
                depth: depth_of(self.tx),
                waker: flag_of(self.drop_notify),
            },
            offers: offers(self.tx),
            wakes: wakes(self.drop_notify),
        }
    }
}

impl HandleView {
    /// The handle after `item` was offered once more, with an outcome.
    pub open spec fn offered(self, item: OutboundView, outcome: SendOutcome) -> HandleView {
        HandleView { offers: self.offers.push((item, outcome)), ..self }
    }

    /// The handle after it woke the writer once more.
    pub open spec fn woken(self) -> HandleView {
        HandleView { wakes: self.wakes + 1, ..self }
    }

    /// The handle after a message was fanned out to it: it is offered the message,
    /// and wakes the writer where the message is dropped because the queue is full.
    pub open spec fn fanned(self, item: OutboundView, outcome: SendOutcome) -> HandleView {
        if outcome == SendOutcome::Full {
            self.offered(item, outcome).woken()
        } else {
            self.offered(item, outcome)
        }
    }
}

impl ConnHandle {
    /// Offer a message to the connection: the queue is offered this message, once.
    pub fn offer(&mut self, msg: &Arc<Message>) -> (outcome: SendOutcome)
        ensures
            final(self)@ == old(self)@.offered(OutboundView::Deliver(msg@), outcome),
    {
        try_send(&mut self.tx, Outbound::Deliver(share(msg)))
    }

    /// Wake the connection's writer.
    pub fn wake(&mut self)
        ensures
            final(self)@ == old(self)@.woken(),
    {
        notify_one(&mut self.drop_notify);
    }
}

} // verus!
