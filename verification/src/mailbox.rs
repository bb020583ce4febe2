//! Mailboxes: unbounded queues with many producers and one consumer.

use vstd::prelude::*;
use tokio::sync::mpsc::error::{SendError, TryRecvError};
use tokio::sync::mpsc::{UnboundedReceiver, UnboundedSender};

verus! {

/// `tokio::sync::mpsc::UnboundedSender`, carried as an opaque value.
#[verifier::external_type_specification]
#[verifier::external_body]
#[verifier::reject_recursive_types(T)]
pub struct ExUnboundedSender<T>(UnboundedSender<T>);

/// `tokio::sync::mpsc::UnboundedReceiver`, carried as an opaque value.
#[verifier::external_type_specification]
#[verifier::external_body]
#[verifier::reject_recursive_types(T)]
pub struct ExUnboundedReceiver<T>(UnboundedReceiver<T>);

/// `tokio::sync::mpsc::error::SendError`: the value that was not sent.
#[verifier::external_type_specification]
#[verifier::reject_recursive_types(T)]
pub struct ExSendError<T>(SendError<T>);

/// `tokio::sync::mpsc::error::TryRecvError`: `Empty` or `Disconnected`.
#[verifier::external_type_specification]
pub struct ExTryRecvError(TryRecvError);

/// `tokio::sync::mpsc::unbounded_channel` makes a channel and returns its two
/// ends. Nothing is claimed of them.
pub assume_specification<T>[ tokio::sync::mpsc::unbounded_channel::<T> ]() -> (pair: (
    UnboundedSender<T>,
    UnboundedReceiver<T>,
));

/// `UnboundedSender::send` queues a message without waiting, or fails when
/// the receiving end is closed or gone. Whether it fails depends on what
/// other holders of the channel have done, so nothing is claimed of that; the
/// one claim is that a failure hands back the message it was given.
pub assume_specification<T>[ UnboundedSender::<T>::send ](
    tx: &UnboundedSender<T>,
    message: T,
) -> (r: Result<(), SendError<T>>)
    ensures
        r matches Err(e) ==> e.0 == message,
;

/// `UnboundedSender::clone` returns another sender for the same channel.
/// Nothing is claimed of it.
pub assume_specification<T>[ <UnboundedSender<T> as Clone>::clone ](
    tx: &UnboundedSender<T>,
) -> (r: UnboundedSender<T>);

/// `UnboundedReceiver::try_recv` takes the message at the head of the queue
/// if there is one, and says otherwise whether senders are left. What it
/// finds depends on the senders, so nothing is claimed of the result.
pub assume_specification<T>[ UnboundedReceiver::<T>::try_recv ](
    rx: &mut UnboundedReceiver<T>,
) -> (r: Result<T, TryRecvError>);

/// `UnboundedReceiver::len` returns the number of messages queued at the
/// moment of the call. Nothing is claimed of it.
pub assume_specification<T>[ UnboundedReceiver::<T>::len ](rx: &UnboundedReceiver<T>) -> (n: usize);

/// Why a mailbox gave nothing or took nothing.
#[derive(Clone, Copy, Debug, PartialEq, Eq, Structural)]
pub enum MailboxError {
    /// The other side is gone.
    Closed,
    /// Nothing is waiting, and the producers are still there.
    Empty,
}

/// What a send comes to: a message that was not taken means that the
/// consumer is gone.
pub fn sent<T>(outcome: Result<(), SendError<T>>) -> (r: Result<(), MailboxError>)
    ensures
        r == match outcome {
            Ok(()) => Ok::<(), MailboxError>(()),
            Err(_) => Err(MailboxError::Closed),
        },
{
    match outcome {
        Ok(()) => Ok(()),
        Err(_) => Err(MailboxError::Closed),
    }
}

/// What an attempt to receive comes to: the value, or why there is none.
pub fn received<T>(outcome: Result<T, TryRecvError>) -> (r: Result<T, MailboxError>)
    ensures
        r == match outcome {
            Ok(v) => Ok::<T, MailboxError>(v),
            Err(TryRecvError::Empty) => Err(MailboxError::Empty),
            Err(TryRecvError::Disconnected) => Err(MailboxError::Closed),
        },
{
    match outcome {
        Ok(v) => Ok(v),
        Err(TryRecvError::Empty) => Err(MailboxError::Empty),
        Err(TryRecvError::Disconnected) => Err(MailboxError::Closed),
    }
}

/// How many of `outcomes` are failures.
pub open spec fn failed(outcomes: Seq<Result<(), MailboxError>>) -> nat
    decreases outcomes.len(),
{
    if outcomes.len() == 0 {
        0
    } else {
        failed(outcomes.drop_last()) + if outcomes.last() is Err {
            1nat
        } else {
            0nat
        }
    }
}

/// No more sends fail than were made.
pub proof fn lemma_failed_bound(outcomes: Seq<Result<(), MailboxError>>)
    ensures
        failed(outcomes) <= outcomes.len(),
    decreases outcomes.len(),
{
    if outcomes.len() > 0 {
        lemma_failed_bound(outcomes.drop_last());
    }
}

/// How many of `outcomes` are failures.
pub fn failures(outcomes: &Vec<Result<(), MailboxError>>) -> (n: usize)
    ensures
        n == failed(outcomes@),
{
    let mut n: usize = 0;
    let mut i: usize = 0;
    assert(outcomes@.take(0) =~= Seq::<Result<(), MailboxError>>::empty());
    while i < outcomes.len()
        invariant
            i <= outcomes.len(),
            n == failed(outcomes@.take(i as int)),
            n <= i,
        decreases outcomes.len() - i,
    {
        proof {
            let grown = outcomes@.take(i as int + 1);
            assert(grown.drop_last() =~= outcomes@.take(i as int));
            assert(grown.last() == outcomes@[i as int]);
        }
        if outcomes[i].is_err() {
            n += 1;
        }
        i += 1;
    }
    assert(outcomes@.take(outcomes.len() as int) =~= outcomes@);
    n
}

/// The producing side of a mailbox.
#[verifier::reject_recursive_types(T)]
pub struct Submitter<T> {
    pub tx: UnboundedSender<T>,
}

impl<T: 'static + Send + Sync> Submitter<T> {
    pub fn new(tx: UnboundedSender<T>) -> (r: Self)
        ensures
            r.tx == tx,
    {
        Submitter { tx }
    }

    /// Puts `v` in the mailbox. Fails, and never panics, once the consumer is
    /// gone.
    pub fn submit(&self, v: T) -> (r: Result<(), MailboxError>)
        ensures
            r matches Err(e) ==> e == MailboxError::Closed,
    {
        sent(self.tx.send(v))
    }

    /// Puts each of `items` in the mailbox, in order, and says of each what
    /// became of it.
    pub fn submit_each(&self, items: Vec<T>) -> (outcomes: Vec<Result<(), MailboxError>>)
        ensures
            outcomes@.len() == items@.len(),
    {
        let ghost count = items@.len();
        let mut rest = crate::list::reversed(items);
        let mut outcomes: Vec<Result<(), MailboxError>> = Vec::new();
        while rest.len() > 0
            invariant
                rest@.len() + outcomes@.len() == count,
            decreases rest.len(),
        {
            outcomes.push(self.submit(rest.pop().unwrap()));
        }
        outcomes
    }

    /// Puts each of `items` in the mailbox, in order. Returns how many the
    /// mailbox did not take.
    pub fn submit_all(&self, items: Vec<T>) -> (lost: usize)
        ensures
            lost <= items@.len(),
    {
        let outcomes = self.submit_each(items);
        proof {
            lemma_failed_bound(outcomes@);
        }
        failures(&outcomes)
    }

    /// Another producer for the same mailbox.
    pub fn clone(&self) -> (r: Self) {
        Submitter { tx: self.tx.clone() }
    }
}

/// The consuming side of a mailbox.
#[verifier::reject_recursive_types(T)]
pub struct Server<T> {
    pub rx: UnboundedReceiver<T>,
}

impl<T: 'static + Send + Sync> Server<T> {
    pub fn new(rx: UnboundedReceiver<T>) -> (r: Self)
        ensures
            r.rx == rx,
    {
        Server { rx }
    }

    /// How many values wait in the mailbox.
    pub fn len(&self) -> (n: usize) {
        self.rx.len()
    }

    /// Takes out what waits in the mailbox at the time of the call, in order,
    /// without waiting for more.
    pub fn drain(&mut self) -> (r: Vec<T>) {
        let waiting = self.len();
        self.take_up_to(waiting)
    }

    /// Takes out what waits at the head of the mailbox, value by value, until
    /// `limit` values are out or the mailbox gives no more.
    pub fn take_up_to(&mut self, limit: usize) -> (r: Vec<T>)
        ensures
            r@.len() <= limit,
    {
        let mut taken: Vec<T> = Vec::new();
        while taken.len() < limit
            invariant
                taken@.len() <= limit,
            decreases limit - taken@.len(),
        {
            match self.try_recv() {
                Ok(value) => {
                    taken.push(value);
                },
                Err(_) => {
                    break ;
                },
            }
        }
        taken
    }

    /// What waits at the head of the mailbox, without waiting for it.
    pub fn try_recv(&mut self) -> (r: Result<T, MailboxError>) {
        received(self.rx.try_recv())
    }
}

/// A new mailbox: its producing and its consuming side.
pub fn channel<T: 'static + Send + Sync>() -> (pair: (Submitter<T>, Server<T>)) {
    let (tx, rx) = tokio::sync::mpsc::unbounded_channel();
    (Submitter::new(tx), Server::new(rx))
}

} // verus!
