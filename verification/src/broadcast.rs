//! Handles of tokio's broadcast rings, with a record of the calls made on them.
//!
//! A ring is the bounded buffer that one call of `tokio::sync::broadcast::channel` makes.
//! Its handles share state that changes behind `&self`, so nothing a handle reports can be
//! a function of the handle. What is fixed is which ring a handle belongs to, and which
//! calls were made in which order: the first is a [`Ring`], the second is a [`Trace`]. Both
//! exist in proofs only.

use vstd::prelude::*;

use vstd::arithmetic::power2::{lemma2_to64, lemma_pow2_unfold, pow2};

use std::task::Context;

pub use crate::gone::Gone;
use crate::gone::{dispose, Half};
pub(crate) use crate::handles::open;
pub use crate::handles::{Feed, FeedStream, Mark, Topic, Trace};
use crate::lock::{Session, Shared};
use crate::table::{has_dropped, Table};

verus! {

/// Why a receiver yields no value.
#[derive(PartialEq, Eq, Structural, Debug)]
pub enum TryRecvError {
    /// There is no value yet.
    Empty,
    /// There will be no value any more.
    Closed,
    /// So many values were lost, because the receiver was too slow.
    Lagged(u64),
}

/// Which ring a handle belongs to: the trace that it was opened under, and the position in
/// that trace of the call that opened it.
pub struct Ring {
    pub trace: int,
    pub number: nat,
}

/// One call on a broadcast ring, with what came back. A receiver goes by the position of the
/// call that gave it out.
pub enum Call<T> {
    /// A ring with room for `capacity` messages was opened, with one receiver.
    Open { capacity: usize },
    /// A further receiver was attached to `ring`.
    Attach { ring: Ring },
    /// `value` was sent on `ring`, and queued for the receivers `live`.
    Send { ring: Ring, value: T, live: Set<nat> },
    /// `ring` was asked how many receivers it has, and had the receivers `live`.
    Count { ring: Ring, live: Set<nat> },
    /// `receiver` of `ring` was found to be gone. It went at some time before.
    Left { ring: Ring, receiver: nat },
}

/// The call that sends `value` on `ring`.
pub open spec fn send_call<T>(ring: Ring, value: T, live: Set<nat>) -> Call<T> {
    Call::Send { ring, value, live }
}

/// The call that counts the receivers of `ring`.
pub open spec fn count_call<T>(ring: Ring, live: Set<nat>) -> Call<T> {
    Call::Count { ring, live }
}

/// The receivers that `ring` can have after `calls`, the calls of the trace that it was
/// opened under: those it was last seen to have, and those given out since, without those
/// that are known to be gone.
pub open spec fn candidates<T>(calls: Seq<Call<T>>, ring: Ring) -> Set<nat>
    decreases calls.len(),
{
    if calls.len() == 0 {
        Set::empty()
    } else {
        let earlier = candidates(calls.drop_last(), ring);
        let at = (calls.len() - 1) as nat;
        match calls.last() {
            Call::Open { .. } => if ring.number == at {
                earlier.insert(at)
            } else {
                earlier
            },
            Call::Attach { ring: used } => if used == ring {
                earlier.insert(at)
            } else {
                earlier
            },
            Call::Send { ring: used, live, .. } => if used == ring {
                live
            } else {
                earlier
            },
            Call::Count { ring: used, live } => if used == ring {
                live
            } else {
                earlier
            },
            Call::Left { ring: used, receiver } => if used == ring {
                earlier.remove(receiver)
            } else {
                earlier
            },
        }
    }
}

/// `ring` can have the receivers `live` after `calls`. (These can be fewer than there could
/// be, because a receiver can go at any time before a call shows it.)
pub open spec fn can_be_live<T>(calls: Seq<Call<T>>, ring: Ring, live: Set<nat>) -> bool {
    live.finite() && live.subset_of(candidates(calls, ring))
}

/// One call was made, which sent `value` on `ring`. `reached` is how many receivers there
/// were, or `None` where there was none.
pub open spec fn sent<T>(
    before: Seq<Call<T>>,
    ring: Ring,
    value: T,
    reached: Option<usize>,
    after: Seq<Call<T>>,
) -> bool {
    exists|live: Set<nat>|
        {
            &&& can_be_live(before, ring, live)
            &&& after == before.push(#[trigger] send_call(ring, value, live))
            &&& match reached {
                Some(receivers) => receivers > 0 && receivers == live.len(),
                None => live.len() == 0,
            }
        }
}

/// One call was made, which counted `receivers` receivers of `ring`.
pub open spec fn counted<T>(
    before: Seq<Call<T>>,
    ring: Ring,
    receivers: usize,
    after: Seq<Call<T>>,
) -> bool {
    exists|live: Set<nat>|
        {
            &&& can_be_live(before, ring, live)
            &&& after == before.push(#[trigger] count_call(ring, live))
            &&& receivers == live.len()
        }
}

/// The call sends a value on `ring`.
pub open spec fn is_send_on<T>(call: Call<T>, ring: Ring) -> bool {
    call matches Call::Send { ring: used, .. } && used == ring
}

/// How many values were sent on `ring` by those of `calls` that stand at `from` or later.
pub open spec fn sends<T>(calls: Seq<Call<T>>, ring: Ring, from: nat) -> nat
    decreases calls.len(),
{
    if calls.len() <= from {
        0
    } else {
        sends(calls.drop_last(), ring, from) + if is_send_on(calls.last(), ring) {
            1nat
        } else {
            0nat
        }
    }
}

/// Call `i` is the first at `from` or later that sends on `ring`.
pub open spec fn is_first_send<T>(calls: Seq<Call<T>>, ring: Ring, from: nat, i: nat) -> bool {
    &&& from <= i < calls.len()
    &&& is_send_on(calls[i as int], ring)
    &&& forall|j: int| from <= j < i ==> !is_send_on(#[trigger] calls[j], ring)
}

/// Whoever sent on `ring` or counted its receivers after `receiver` was given out, found
/// that receiver.
pub open spec fn is_heard<T>(calls: Seq<Call<T>>, ring: Ring, receiver: nat) -> bool {
    forall|i: int|
        receiver < i < calls.len() ==> match #[trigger] calls[i] {
            Call::Send { ring: used, live, .. } => used == ring ==> live.contains(receiver),
            Call::Count { ring: used, live } => used == ring ==> live.contains(receiver),
            _ => true,
        }
}

/// The first of `room`, twice as much, and so on, that is enough for `capacity`.
pub open spec fn doubled(capacity: nat, room: nat) -> nat
    decreases
            (if room < capacity {
                capacity - room
            } else {
                0
            }),
{
    if room == 0 || room >= capacity {
        room
    } else {
        doubled(capacity, 2 * room)
    }
}

/// For how many messages `ring` has room: the capacity it was opened with, rounded up to a
/// power of two.
pub open spec fn room<T>(calls: Seq<Call<T>>, ring: Ring) -> nat {
    doubled(calls[ring.number as int]->capacity as nat, 1)
}

/// The calls at `from` or later that send on `ring`, in their order.
pub open spec fn positions<T>(calls: Seq<Call<T>>, ring: Ring, from: nat) -> Seq<nat>
    decreases calls.len(),
{
    if calls.len() <= from {
        Seq::empty()
    } else {
        let earlier = positions(calls.drop_last(), ring, from);
        if is_send_on(calls.last(), ring) {
            earlier.push((calls.len() - 1) as nat)
        } else {
            earlier
        }
    }
}

/// The values among what was drawn.
pub open spec fn values<T>(draws: Seq<Option<Result<T, TryRecvError>>>) -> Seq<T>
    decreases draws.len(),
{
    if draws.len() == 0 {
        Seq::empty()
    } else {
        let earlier = values(draws.drop_last());
        match draws.last() {
            Some(Ok(value)) => earlier.push(value),
            _ => earlier,
        }
    }
}

/// How far a receiver has come with the calls of the trace of its ring.
#[verifier::reject_recursive_types(T)]
pub struct Cursor<T> {
    /// The call that gave it out. It sees what later ones send.
    pub receiver: nat,
    /// What was sent by earlier calls than this was yielded, or lost.
    pub read: nat,
    /// The calls there were when it was last drawn from.
    pub seen: Seq<Call<T>>,
    /// Calls that are known to be among the first ones of the trace.
    pub known: Set<Seq<Call<T>>>,
    /// The calls whose values it has yielded, in the order in which they came out.
    pub heard: Seq<nat>,
    /// How many values it has lost.
    pub lost: nat,
    /// What it was drawn: `None` where it was polled and there was nothing yet.
    pub draws: Seq<Option<Result<T, TryRecvError>>>,
}

/// A receiver that was given out by the last of `calls`.
pub open spec fn new_cursor<T>(calls: Seq<Call<T>>) -> Cursor<T> {
    Cursor {
        receiver: (calls.len() - 1) as nat,
        read: calls.len(),
        seen: calls,
        known: Set::empty(),
        heard: Seq::empty(),
        lost: 0,
        draws: Seq::empty(),
    }
}

/// A receiver of `ring` was drawn from once, with this outcome. Calls may have been made
/// since it was last drawn from, all that were known of among them, and each that sent on
/// the ring or counted its receivers found this one.
pub open spec fn drew<T>(
    ring: Ring,
    before: Cursor<T>,
    draw: Option<Result<T, TryRecvError>>,
    after: Cursor<T>,
) -> bool {
    &&& after.receiver == before.receiver
    &&& after.known == before.known
    &&& after.draws == before.draws.push(draw)
    &&& before.seen.is_prefix_of(after.seen)
    &&& forall|calls: Seq<Call<T>>| #[trigger]
        before.known.contains(calls) ==> calls.is_prefix_of(after.seen)
    &&& is_heard(after.seen, ring, before.receiver)
}

/// What came out of a draw: where no more was sent than the ring has room for, the next value
/// that was sent on it, or word that there is none; otherwise word that values were lost, all
/// but as many as there is room for.
pub open spec fn yielded<T: Clone>(
    ring: Ring,
    before: Cursor<T>,
    draw: Option<Result<T, TryRecvError>>,
    after: Cursor<T>,
) -> bool {
    match draw {
        Some(Ok(value)) => {
            &&& sends(after.seen, ring, before.read) <= room(after.seen, ring)
            &&& after.read > 0
            &&& is_first_send(after.seen, ring, before.read, (after.read - 1) as nat)
            &&& cloned::<T>(after.seen[after.read - 1]->value, value)
            &&& after.heard == before.heard.push((after.read - 1) as nat)
            &&& after.lost == before.lost
        },
        Some(Err(TryRecvError::Lagged(lost))) => {
            &&& lost > 0
            &&& before.read <= after.read <= after.seen.len()
            &&& sends(after.seen.take(after.read as int), ring, before.read) == lost
            &&& sends(after.seen, ring, after.read) == room(after.seen, ring)
            &&& after.heard == before.heard
            &&& after.lost == before.lost + lost
        },
        Some(Err(_)) => {
            &&& sends(after.seen, ring, before.read) == 0
            &&& after.read == before.read
            &&& after.heard == before.heard
            &&& after.lost == before.lost
        },
        None => {
            &&& after.read == before.read
            &&& after.heard == before.heard
            &&& after.lost == before.lost
        },
    }
}

/// What a receiver of `ring` has yielded are clones of values that were sent on the ring since
/// it was given out, in the order in which they were sent, each once. Where it has lost
/// nothing, these are all that was sent up to where it has read.
pub open spec fn in_step<T: Clone>(ring: Ring, cursor: Cursor<T>) -> bool {
    &&& cursor.receiver < cursor.read <= cursor.seen.len()
    &&& values(cursor.draws).len() == cursor.heard.len()
    &&& forall|i: int|
        0 <= i < cursor.heard.len() ==> {
            &&& cursor.receiver < #[trigger] cursor.heard[i] < cursor.read
            &&& is_send_on(cursor.seen[cursor.heard[i] as int], ring)
            &&& cloned::<T>(cursor.seen[cursor.heard[i] as int]->value, values(cursor.draws)[i])
        }
    &&& forall|i: int, j: int|
        0 <= i < j < cursor.heard.len() ==> #[trigger] cursor.heard[i] < #[trigger] cursor.heard[j]
    &&& cursor.lost == 0 ==> cursor.heard == positions(
        cursor.seen.take(cursor.read as int),
        ring,
        (cursor.receiver + 1) as nat,
    )
}

/// The capacities with which a ring can be opened.
pub open spec fn valid_capacity(capacity: usize) -> bool {
    0 < capacity <= usize::MAX / 2
}

impl<T> Feed<T> {
    /// Drops the receiver.
    pub(crate) fn discard(self) -> (gone: Gone)
        ensures
            gone.ring() == self.ring(),
            gone.receiver() == self.cursor().receiver,
    {
        dispose(Half::Feed(self))
    }
}

impl<T: Clone> Feed<T> {
    /// The next value, where there is one.
    pub fn try_recv(&mut self) -> (received: Result<T, TryRecvError>)
        ensures
            final(self).ring() == old(self).ring(),
            drew(old(self).ring(), old(self).cursor(), Some(received), final(self).cursor()),
            yielded(old(self).ring(), old(self).cursor(), Some(received), final(self).cursor()),
    {
        self.receive()
    }
}

impl<T: 'static + Clone + Send> Feed<T> {
    /// This half as a stream, to wait for values.
    pub fn into_stream(self) -> (stream: FeedStream<T>)
        ensures
            stream.ring() == self.ring(),
            stream.cursor() == self.cursor(),
    {
        self.wrap()
    }
}

impl<T> FeedStream<T> {
    /// Drops the stream, and with it the receiver.
    pub(crate) fn discard(self) -> (gone: Gone)
        ensures
            gone.ring() == self.ring(),
            gone.receiver() == self.cursor().receiver,
    {
        dispose(Half::Stream(self))
    }
}

impl<T: 'static + Clone + Send> FeedStream<T> {
    /// The next value, where there is one, or `None` where the task is to wait.
    pub fn poll_next(&mut self, cx: &mut Context<'_>) -> (polled: Option<Result<T, TryRecvError>>)
        ensures
            final(self).ring() == old(self).ring(),
            drew(old(self).ring(), old(self).cursor(), polled, final(self).cursor()),
            yielded(old(self).ring(), old(self).cursor(), polled, final(self).cursor()),
            polled != Some(Err::<T, TryRecvError>(TryRecvError::Empty)),
    {
        self.poll_stream(cx, None)
    }

    /// The next value, as in [`FeedStream::poll_next`], while `channels` are there.
    pub(crate) fn poll_beside(
        &mut self,
        cx: &mut Context<'_>,
        channels: &Shared<Table<T>>,
        session: &Session<Table<T>>,
    ) -> (polled: Option<Result<T, TryRecvError>>)
        requires
            session.shared() == *channels,
        ensures
            final(self).ring() == old(self).ring(),
            drew(old(self).ring(), old(self).cursor(), polled, final(self).cursor()),
            yielded(old(self).ring(), old(self).cursor(), polled, final(self).cursor()),
            polled != Some(Err::<T, TryRecvError>(TryRecvError::Empty)),
            polled == Some(Err::<T, TryRecvError>(TryRecvError::Closed)) ==> has_dropped(
                *session,
                old(self).ring(),
                old(self).cursor().receiver,
            ),
    {
        self.poll_stream(cx, Some((channels, session)))
    }
}

/// Where nothing was sent, no call sends.
proof fn lemma_no_send_in_between<T>(calls: Seq<Call<T>>, ring: Ring, from: nat, i: int)
    requires
        sends(calls, ring, from) == 0,
        from <= i < calls.len(),
    ensures
        !is_send_on(calls[i], ring),
    decreases calls.len(),
{
    if i < calls.len() - 1 {
        lemma_no_send_in_between(calls.drop_last(), ring, from, i);
    }
}

/// Doubling stops at the first power of two that is enough.
proof fn lemma_doubled(capacity: nat, room: nat, k: nat)
    requires
        room == pow2(k),
        room > 0,
    ensures
        doubled(capacity, room) >= capacity,
        exists|j: nat| doubled(capacity, room) == #[trigger] pow2(j),
        doubled(capacity, room) == room || doubled(capacity, room) < 2 * capacity,
    decreases
            (if room < capacity {
                capacity - room
            } else {
                0
            }),
{
    if room < capacity {
        lemma_pow2_unfold(k + 1);
        lemma_doubled(capacity, 2 * room, k + 1);
    }
}

/// A ring has room for as many messages as it was opened for, and for no more than rounding
/// up to a power of two takes: its room is the least power of two that is enough.
pub proof fn law_room_is_enough<T>(calls: Seq<Call<T>>, ring: Ring, capacity: usize)
    requires
        calls[ring.number as int] == (Call::<T>::Open { capacity }),
        capacity > 0,
    ensures
        room(calls, ring) >= capacity,
        room(calls, ring) < 2 * capacity,
        exists|k: nat| room(calls, ring) == #[trigger] pow2(k),
{
    lemma2_to64();
    lemma_doubled(capacity as nat, 1, 0);
}

/// A receiver that is behind by no more than its ring was opened for loses nothing: what it
/// draws is the oldest value that it has not yielded, and there is no lag.
pub proof fn law_receiver_within_capacity_loses_nothing<T: Clone>(
    ring: Ring,
    capacity: usize,
    before: Cursor<T>,
    received: Result<T, TryRecvError>,
    after: Cursor<T>,
)
    requires
        after.seen[ring.number as int] == (Call::<T>::Open { capacity }),
        capacity > 0,
        yielded(ring, before, Some(received), after),
        sends(after.seen, ring, before.read) <= capacity,
    ensures
        after.lost == before.lost,
        !(received matches Err(TryRecvError::Lagged(_))),
{
    law_room_is_enough(after.seen, ring, capacity);
    law_lag_is_told(ring, before, received, after);
}

/// A receiver that was just given out is in step.
pub proof fn law_new_receiver_is_in_step<T: Clone>(ring: Ring, calls: Seq<Call<T>>)
    requires
        calls.len() > 0,
    ensures
        in_step(ring, new_cursor(calls)),
{
}

/// Where no call sends in between, no position is added.
proof fn lemma_positions_stay<T>(
    calls: Seq<Call<T>>,
    ring: Ring,
    from: nat,
    read: nat,
    end: nat,
)
    requires
        from <= read <= end <= calls.len(),
        forall|j: int| read <= j < end ==> !is_send_on(#[trigger] calls[j], ring),
    ensures
        positions(calls.take(end as int), ring, from) == positions(
            calls.take(read as int),
            ring,
            from,
        ),
    decreases end,
{
    if read < end {
        let part = calls.take(end as int);
        assert(part.drop_last() =~= calls.take(end - 1));
        assert(part.last() == calls[end - 1]);
        lemma_positions_stay(calls, ring, from, read, (end - 1) as nat);
    }
}

/// Every draw keeps a receiver in step: it never yields anything but what was sent on its
/// ring since it was given out, nothing twice, nothing out of order; and it leaves nothing
/// out, unless it says so.
pub proof fn law_draws_keep_in_step<T: Clone>(
    ring: Ring,
    before: Cursor<T>,
    draw: Option<Result<T, TryRecvError>>,
    after: Cursor<T>,
)
    requires
        in_step(ring, before),
        drew(ring, before, draw, after),
        yielded(ring, before, draw, after),
    ensures
        in_step(ring, after),
{
    let from = (before.receiver + 1) as nat;
    assert(after.draws.drop_last() =~= before.draws);
    assert forall|i: int| 0 <= i < before.seen.len() implies #[trigger] after.seen[i]
        == before.seen[i] by {}
    assert forall|i: int| 0 <= i < after.heard.len() implies {
        &&& after.receiver < #[trigger] after.heard[i] < after.read
        &&& is_send_on(after.seen[after.heard[i] as int], ring)
        &&& cloned::<T>(after.seen[after.heard[i] as int]->value, values(after.draws)[i])
    } by {
        if i < before.heard.len() {
            assert(before.heard[i] == after.heard[i]);
            assert(values(before.draws)[i] == values(after.draws)[i]);
        }
    }
    assert forall|i: int, j: int| 0 <= i < j < after.heard.len() implies #[trigger] after.heard[i]
        < #[trigger] after.heard[j] by {
        assert(before.heard[i] == after.heard[i]);
        if j < before.heard.len() {
            assert(before.heard[j] == after.heard[j]);
        }
    }
    if after.lost == 0 {
        assert(before.seen.take(before.read as int) =~= after.seen.take(before.read as int));
        if draw matches Some(Ok(value)) {
            let i = (after.read - 1) as nat;
            lemma_positions_stay(after.seen, ring, from, before.read, i);
            assert(after.seen.take(after.read as int).drop_last() =~= after.seen.take(i as int));
            assert(after.seen.take(after.read as int).last() == after.seen[i as int]);
        }
    }
}

/// `draws` were drawn, one after the other, from a receiver of `ring` that came through
/// `cursors`. In between it may have come to know of more calls.
pub open spec fn drawn<T: Clone>(
    ring: Ring,
    cursors: Seq<Cursor<T>>,
    draws: Seq<Option<Result<T, TryRecvError>>>,
) -> bool {
    &&& cursors.len() == draws.len() + 1
    &&& forall|i: int|
        0 <= i < draws.len() ==> #[trigger] drawn_once(ring, cursors[i], draws[i], cursors[i + 1])
}

/// The receiver came to know of the calls that `after` knows of, and was then drawn from once.
pub open spec fn drawn_once<T: Clone>(
    ring: Ring,
    before: Cursor<T>,
    draw: Option<Result<T, TryRecvError>>,
    after: Cursor<T>,
) -> bool {
    let ready = Cursor { known: after.known, ..before };
    drew(ring, ready, draw, after) && yielded(ring, ready, draw, after)
}

/// All that a receiver ever yields are clones of the values sent on its ring since it was
/// given out, in their order; and as long as it has lost nothing, these are all of them, up
/// to where it has read.
pub proof fn law_receiver_stays_in_step<T: Clone>(
    ring: Ring,
    calls: Seq<Call<T>>,
    cursors: Seq<Cursor<T>>,
    draws: Seq<Option<Result<T, TryRecvError>>>,
    i: int,
)
    requires
        calls.len() > 0,
        drawn(ring, cursors, draws),
        cursors[0] == new_cursor(calls),
        0 <= i < cursors.len(),
    ensures
        in_step(ring, cursors[i]),
        cursors[i].draws == draws.take(i),
    decreases i,
{
    if i > 0 {
        law_receiver_stays_in_step(ring, calls, cursors, draws, i - 1);
        assert(drawn_once(ring, cursors[i - 1], draws[i - 1], cursors[i - 1 + 1]));
        let ready = Cursor { known: cursors[i].known, ..cursors[i - 1] };
        law_draws_keep_in_step(ring, ready, draws[i - 1], cursors[i]);
        assert(draws.take(i) =~= draws.take(i - 1).push(draws[i - 1]));
    }
}

/// A receiver loses values if and only if more was sent since it last yielded one than the
/// ring has room for, and then it says how many.
pub proof fn law_lag_is_told<T: Clone>(
    ring: Ring,
    before: Cursor<T>,
    received: Result<T, TryRecvError>,
    after: Cursor<T>,
)
    requires
        yielded(ring, before, Some(received), after),
    ensures
        sends(after.seen, ring, before.read) <= room(after.seen, ring) ==> after.lost == before.lost
            && !(received matches Err(TryRecvError::Lagged(_))),
        sends(after.seen, ring, before.read) > room(after.seen, ring) ==> (received matches Err(
            TryRecvError::Lagged(lost),
        ) && lost == sends(after.seen, ring, before.read) - room(after.seen, ring) && after.lost
            == before.lost + lost),
{
    if received matches Err(TryRecvError::Lagged(_)) {
        lemma_sends_in_parts(after.seen, ring, before.read, after.read);
    }
}

/// Where nothing was sent since a receiver last yielded a value, a draw yields none.
pub proof fn law_silent_ring_yields_nothing<T: Clone>(
    ring: Ring,
    before: Cursor<T>,
    draw: Option<Result<T, TryRecvError>>,
    after: Cursor<T>,
)
    requires
        before.read <= after.seen.len(),
        yielded(ring, before, draw, after),
        sends(after.seen, ring, before.read) == 0,
    ensures
        draw matches Some(received) ==> received == Err::<T, TryRecvError>(TryRecvError::Empty)
            || received == Err::<T, TryRecvError>(TryRecvError::Closed),
{
    match draw {
        Some(Ok(_)) => {
            lemma_no_send_in_between(after.seen, ring, before.read, after.read - 1);
        },
        Some(Err(TryRecvError::Lagged(_))) => {
            lemma_sends_in_parts(after.seen, ring, before.read, after.read);
        },
        _ => {},
    }
}

/// What was sent is counted in two parts.
proof fn lemma_sends_in_parts<T>(calls: Seq<Call<T>>, ring: Ring, from: nat, between: nat)
    requires
        from <= between <= calls.len(),
    ensures
        sends(calls, ring, from) == sends(calls.take(between as int), ring, from) + sends(
            calls,
            ring,
            between,
        ),
    decreases calls.len(),
{
    if between < calls.len() {
        lemma_sends_in_parts(calls.drop_last(), ring, from, between);
        assert(calls.drop_last().take(between as int) =~= calls.take(between as int));
    } else {
        assert(calls.take(between as int) =~= calls);
    }
}

/// A value that was sent since a receiver last yielded one is there to be received: a draw
/// does not find the ring empty or closed.
pub proof fn law_pending_value_is_there<T: Clone>(
    ring: Ring,
    before: Cursor<T>,
    received: Result<T, TryRecvError>,
    after: Cursor<T>,
    calls: Seq<Call<T>>,
    i: int,
)
    requires
        drew(ring, before, Some(received), after),
        yielded(ring, before, Some(received), after),
        before.known.contains(calls),
        before.read <= i < calls.len(),
        is_send_on(calls[i], ring),
    ensures
        received != Err::<T, TryRecvError>(TryRecvError::Empty),
        received != Err::<T, TryRecvError>(TryRecvError::Closed),
{
    assert(calls[i] == after.seen[i]);
    if sends(after.seen, ring, before.read) == 0 {
        lemma_no_send_in_between(after.seen, ring, before.read, i);
    }
}

/// What is sent is received. A receiver of `ring` has yielded all that was sent before call
/// `i` of `calls`, which sends `value`. The next value received, once the receiver knows of
/// the call, is a clone of `value`, unless more was sent in the meantime than the ring has
/// room for.
pub proof fn law_what_is_sent_is_received<T: Clone>(
    ring: Ring,
    calls: Seq<Call<T>>,
    i: nat,
    ready: Cursor<T>,
    received: Result<T, TryRecvError>,
    then: Cursor<T>,
)
    requires
        is_first_send(calls, ring, ready.read, i),
        ready.known.contains(calls),
        drew(ring, ready, Some(received), then),
        yielded(ring, ready, Some(received), then),
        sends(then.seen, ring, ready.read) <= room(then.seen, ring),
    ensures
        received matches Ok(message) && cloned::<T>(calls[i as int]->value, message),
        then.read == i + 1,
        then.lost == ready.lost,
{
    law_lag_is_told(ring, ready, received, then);
    law_pending_value_is_there(ring, ready, received, then, calls, i as int);
    let j = (then.read - 1) as nat;
    assert(is_first_send(then.seen, ring, ready.read, j));
    assert(calls[i as int] == then.seen[i as int]);
    if j < i {
        assert(calls[j as int] == then.seen[j as int]);
    }
    if i < j {
        assert(!is_send_on(then.seen[i as int], ring));
    }
}

} // verus!
