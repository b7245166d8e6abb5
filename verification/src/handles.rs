//! The handles of broadcast rings, and the calls on them.
//!
//! What a handle shows of its ring is written here and nowhere else: by the calls into tokio,
//! and by taking note of calls that are known of.

use vstd::prelude::*;

use std::pin::Pin;
use std::task::{Context, Poll};

use futures::Stream;
use tokio::sync::broadcast;
use tokio::sync::broadcast::Receiver as BroadcastReceiver;
use tokio_stream::wrappers::errors::BroadcastStreamRecvError;
use tokio_stream::wrappers::BroadcastStream;

use crate::broadcast::{
    counted, drew, new_cursor, sent, valid_capacity, yielded, Call, Cursor, Ring, TryRecvError,
};
use crate::gone::Gone;
use crate::lock::{Session, Shared};
use crate::table::{has_dropped, Table};

verus! {

/// The sending half of a broadcast ring, `tokio::sync::broadcast::Sender`. Opaque.
#[verifier::external_type_specification]
#[verifier::external_body]
#[verifier::reject_recursive_types(T)]
pub struct ExSender<T>(broadcast::Sender<T>);

/// The receiving half of a broadcast ring, `tokio::sync::broadcast::Receiver`. Opaque.
#[verifier::external_type_specification]
#[verifier::external_body]
#[verifier::reject_recursive_types(T)]
pub struct ExReceiver<T>(BroadcastReceiver<T>);

/// A receiver that can be polled as a stream, `tokio_stream::wrappers::BroadcastStream`.
/// Opaque.
#[verifier::external_type_specification]
#[verifier::external_body]
#[verifier::reject_recursive_types(T)]
pub struct ExBroadcastStream<T>(BroadcastStream<T>);

/// The task that polls, `std::task::Context`. Opaque.
#[verifier::external_type_specification]
#[verifier::external_body]
pub struct ExContext<'a>(Context<'a>);

/// The calls made so far on the rings that were opened under this trace.
#[verifier::reject_recursive_types(T)]
pub struct Trace<T> {
    id: Ghost<int>,
    calls: Ghost<Seq<Call<T>>>,
}

impl<T> View for Trace<T> {
    type V = Seq<Call<T>>;

    closed spec fn view(&self) -> Seq<Call<T>> {
        self.calls@
    }
}

impl<T> Trace<T> {
    /// The identity of this trace. Of a new trace nothing is known of it, so that no other
    /// trace can be shown to stand for the one that a ring was opened under.
    pub closed spec fn id(self) -> int {
        self.id@
    }

    /// A trace in which nothing was called.
    pub fn new() -> (trace: Self)
        ensures
            trace@ == Seq::<Call<T>>::empty(),
    {
        Trace { id: Ghost(arbitrary()), calls: Ghost(Seq::empty()) }
    }

    /// Evidence of the calls made so far.
    pub fn mark(&self) -> (mark: Mark<T>)
        ensures
            mark.id() == self.id(),
            mark@ == self@,
    {
        Mark { id: self.id, calls: self.calls }
    }

    /// Takes down that a receiver is gone.
    pub fn left(&mut self, gone: Gone)
        ensures
            final(self).id() == old(self).id(),
            final(self)@ == old(self)@.push(
                Call::Left { ring: gone.ring(), receiver: gone.receiver() },
            ),
    {
        self.calls = Ghost(
            self.calls@.push(Call::Left { ring: gone.ring(), receiver: gone.receiver() }),
        );
    }
}

/// Evidence that calls were made under a trace. Only [`Trace::mark`] makes one; it takes no
/// space at run time.
#[verifier::reject_recursive_types(T)]
pub struct Mark<T> {
    id: Ghost<int>,
    calls: Ghost<Seq<Call<T>>>,
}

impl<T> View for Mark<T> {
    type V = Seq<Call<T>>;

    closed spec fn view(&self) -> Seq<Call<T>> {
        self.calls@
    }
}

impl<T> Mark<T> {
    /// The identity of the trace.
    pub closed spec fn id(self) -> int {
        self.id@
    }

    /// The same evidence once more.
    pub fn again(&self) -> (mark: Self)
        ensures
            mark == *self,
    {
        Mark { id: self.id, calls: self.calls }
    }
}

/// The sending half of a ring.
#[verifier::reject_recursive_types(T)]
pub struct Topic<T> {
    tx: broadcast::Sender<T>,
    ring: Ghost<Ring>,
}

/// The receiving half of a ring. The receiver itself is not given out, so that there are no
/// receivers of a ring but those that its trace shows.
#[verifier::reject_recursive_types(T)]
pub struct Feed<T> {
    rx: BroadcastReceiver<T>,
    ring: Ghost<Ring>,
    cursor: Ghost<Cursor<T>>,
}

/// The receiving half of a ring, ready to be polled.
#[verifier::reject_recursive_types(T)]
pub struct FeedStream<T> {
    stream: BroadcastStream<T>,
    ring: Ghost<Ring>,
    cursor: Ghost<Cursor<T>>,
}

/// Opens a ring with `tokio::sync::broadcast::channel`, which panics when the capacity is
/// zero or exceeds half of `usize::MAX`. Claimed: both halves belong to one ring, which
/// this call opened, the receiving half sees what is sent from the next call on, and the
/// trace shows the call. (tokio allocates all of the ring's room at once, see [`room`], which
/// panics where memory does not suffice.)
#[verifier::external_body]
pub(crate) fn open<T: Clone>(capacity: usize, trace: &mut Trace<T>) -> (halves: (
    Topic<T>,
    Feed<T>,
))
    requires
        valid_capacity(capacity),
    ensures
        halves.0.ring() == (Ring { trace: old(trace).id(), number: old(trace)@.len() }),
        halves.1.ring() == halves.0.ring(),
        halves.1.cursor() == new_cursor(final(trace)@),
        final(trace).id() == old(trace).id(),
        final(trace)@ == old(trace)@.push(Call::Open { capacity }),
{
    let (tx, rx) = broadcast::channel(capacity);
    let ring = Ghost(Ring { trace: trace.id(), number: trace@.len() });
    (Topic { tx, ring }, Feed { rx, ring, cursor: Ghost(arbitrary()) })
}

impl<T> Topic<T> {
    /// The ring that this half belongs to.
    pub closed spec fn ring(self) -> Ring {
        self.ring@
    }

    /// Attaches a receiver with `tokio::sync::broadcast::Sender::subscribe`. Claimed: the
    /// receiver belongs to the ring of this sender, it sees what is sent from the next call
    /// on, and the trace shows the call. (The call panics when the ring has a quarter of
    /// `usize::MAX` receivers already, more than fit in memory.)
    #[verifier::external_body]
    pub(crate) fn subscribe(&self, trace: &mut Trace<T>) -> (feed: Feed<T>)
        requires
            self.ring().trace == old(trace).id(),
        ensures
            feed.ring() == self.ring(),
            feed.cursor() == new_cursor(final(trace)@),
            final(trace).id() == old(trace).id(),
            final(trace)@ == old(trace)@.push(Call::Attach { ring: self.ring() }),
    {
        Feed { rx: self.tx.subscribe(), ring: self.ring, cursor: Ghost(arbitrary()) }
    }

    /// Sends with `tokio::sync::broadcast::Sender::send`. Claimed: the call made is the one
    /// that the trace shows, with the receivers there were, and it reports how many these
    /// are. A receiver counts from the call that gave it out until it is dropped, so they are
    /// among those there can be. Receivers can be dropped at any time before a trace shows
    /// it, so which of these they are is not promised.
    #[verifier::external_body]
    pub(crate) fn send(&self, value: T, trace: &mut Trace<T>) -> (reached: Option<usize>)
        requires
            self.ring().trace == old(trace).id(),
        ensures
            final(trace).id() == old(trace).id(),
            sent(old(trace)@, self.ring(), value, reached, final(trace)@),
    {
        self.tx.send(value).ok()
    }

    /// Counts receivers with `tokio::sync::broadcast::Sender::receiver_count`. Claimed: the
    /// call made is the one that the trace shows, with the receivers there were, and it
    /// reports how many these are, as in [`Topic::send`].
    #[verifier::external_body]
    pub(crate) fn receiver_count(&self, trace: &mut Trace<T>) -> (receivers: usize)
        requires
            self.ring().trace == old(trace).id(),
        ensures
            final(trace).id() == old(trace).id(),
            counted(old(trace)@, self.ring(), receivers, final(trace)@),
    {
        self.tx.receiver_count()
    }
}

impl<T> Feed<T> {
    /// The ring that this half belongs to.
    pub closed spec fn ring(self) -> Ring {
        self.ring@
    }

    /// How far this half has come.
    pub closed spec fn cursor(self) -> Cursor<T> {
        self.cursor@
    }

    /// Takes note that the calls of `mark` were made.
    pub fn learn(&mut self, mark: &Mark<T>)
        requires
            mark.id() == old(self).ring().trace,
        ensures
            final(self).ring() == old(self).ring(),
            final(self).cursor() == (Cursor {
                known: old(self).cursor().known.insert(mark@),
                ..old(self).cursor()
            }),
    {
        self.cursor = Ghost(Cursor { known: self.cursor@.known.insert(mark@), ..self.cursor@ });
    }
}

impl<T: Clone> Feed<T> {
    /// Receives with `tokio::sync::broadcast::Receiver::try_recv`. Claimed: what comes out is
    /// a clone of the next value sent on the ring, in the order of the calls; it is empty or
    /// closed only where all that was sent was yielded; and where more was sent than the ring
    /// has room for, and only there, the values that there is no room for are lost, and it
    /// says so. Which calls there are by now rests on other tasks, but those known of are
    /// among them; and as this half was there all the time, all of them found it.
    #[verifier::external_body]
    pub(crate) fn receive(&mut self) -> (received: Result<T, TryRecvError>)
        ensures
            final(self).ring() == old(self).ring(),
            drew(old(self).ring(), old(self).cursor(), Some(received), final(self).cursor()),
            yielded(old(self).ring(), old(self).cursor(), Some(received), final(self).cursor()),
    {
        match self.rx.try_recv() {
            Ok(value) => Ok(value),
            Err(broadcast::error::TryRecvError::Empty) => Err(TryRecvError::Empty),
            Err(broadcast::error::TryRecvError::Closed) => Err(TryRecvError::Closed),
            Err(broadcast::error::TryRecvError::Lagged(lost)) => Err(TryRecvError::Lagged(lost)),
        }
    }
}

impl<T: 'static + Clone + Send> Feed<T> {
    /// Wraps the receiver with `tokio_stream::wrappers::BroadcastStream::new`. Claimed: the
    /// stream draws from the ring of the receiver, from where the receiver stood on.
    #[verifier::external_body]
    pub(crate) fn wrap(self) -> (stream: FeedStream<T>)
        ensures
            stream.ring() == self.ring(),
            stream.cursor() == self.cursor(),
    {
        FeedStream { stream: BroadcastStream::new(self.rx), ring: self.ring, cursor: self.cursor }
    }
}

impl<T> FeedStream<T> {
    /// The ring that the stream draws from.
    pub closed spec fn ring(self) -> Ring {
        self.ring@
    }

    /// How far the stream has come.
    pub closed spec fn cursor(self) -> Cursor<T> {
        self.cursor@
    }

    /// Takes note that the calls of `mark` were made.
    pub fn learn(&mut self, mark: &Mark<T>)
        requires
            mark.id() == old(self).ring().trace,
        ensures
            final(self).ring() == old(self).ring(),
            final(self).cursor() == (Cursor {
                known: old(self).cursor().known.insert(mark@),
                ..old(self).cursor()
            }),
    {
        self.cursor = Ghost(Cursor { known: self.cursor@.known.insert(mark@), ..self.cursor@ });
    }
}

impl<T: 'static + Clone + Send> FeedStream<T> {
    /// Polls with `poll_next` of `futures::Stream`, on a `BroadcastStream`. Claimed: the same
    /// as of [`Feed::try_recv`], but that the task is to wait, `None`, where the ring is empty,
    /// and it can be at any time: a task that has polled much is made to wait. Where the
    /// caller shows shared channels, with what it knows of them, the ring is closed only if
    /// these have come to hold no sending half of it: a ring is closed when its only sending
    /// half is dropped, and the channels are there for as long as the call lasts. All calls on
    /// the ring up to then found this half.
    #[verifier::external_body]
    pub(crate) fn poll_stream(
        &mut self,
        cx: &mut Context<'_>,
        channels: Option<(&Shared<Table<T>>, &Session<Table<T>>)>,
    ) -> (polled: Option<Result<T, TryRecvError>>)
        requires
            channels matches Some(shown) ==> shown.1.shared() == *shown.0,
        ensures
            final(self).ring() == old(self).ring(),
            drew(old(self).ring(), old(self).cursor(), polled, final(self).cursor()),
            yielded(old(self).ring(), old(self).cursor(), polled, final(self).cursor()),
            polled != Some(Err::<T, TryRecvError>(TryRecvError::Empty)),
            polled == Some(Err::<T, TryRecvError>(TryRecvError::Closed)) ==> (channels matches Some(
                shown,
            ) ==> has_dropped(*shown.1, old(self).ring(), old(self).cursor().receiver)),
    {
        match Pin::new(&mut self.stream).poll_next(cx) {
            Poll::Pending => None,
            Poll::Ready(None) => Some(Err(TryRecvError::Closed)),
            Poll::Ready(Some(Ok(value))) => Some(Ok(value)),
            Poll::Ready(Some(Err(BroadcastStreamRecvError::Lagged(lost)))) => {
                Some(Err(TryRecvError::Lagged(lost)))
            },
        }
    }
}

} // verus!
