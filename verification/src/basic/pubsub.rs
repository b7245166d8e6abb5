//! Publishing to named channels.

use vstd::prelude::*;

use vstd::arithmetic::power2::pow2;

use std::ops::Deref;
use std::sync::Arc;

use crate::broadcast::{
    can_be_live, candidates, count_call, drew, is_first_send, is_heard, is_send_on,
    law_receiver_within_capacity_loses_nothing, law_room_is_enough, law_what_is_sent_is_received, new_cursor, room, send_call, sends, valid_capacity, yielded, Call,
    Cursor, Feed, FeedStream, Gone, Mark, Ring, TryRecvError,
};
use crate::channels::{
    lemma_rings_stay_own, lemma_unopened_is_unheard, next_ring, rings_are_own, Channels, ChannelsState,
};
use crate::lock::{share, Guarded, Session, Shared, Transition};

verus! {

/// No two channels share a ring.
pub open spec fn own_rings<T>(state: ChannelsState<T>) -> bool {
    rings_are_own(state.rings, state.trace, state.calls)
}

/// A receiver of ring `ring` was given out for channel `name`: that of the channel, or a
/// new one.
pub open spec fn subscribed<T>(
    before: ChannelsState<T>,
    name: Seq<char>,
    capacity: usize,
    after: ChannelsState<T>,
    ring: Ring,
) -> bool {
    if before.rings.contains_key(name) {
        &&& ring == before.rings[name]
        &&& after == (ChannelsState {
            calls: before.calls.push(Call::Attach { ring }),
            ..before
        })
    } else {
        &&& ring == next_ring(before.trace, before.calls)
        &&& after.rings == before.rings.insert(name, ring)
        &&& after.trace == before.trace
        &&& after.calls == before.calls.push(Call::Open { capacity })
    }
}

/// `value` was sent on the ring of channel `name`, where it has one. Where the ring had no
/// receiver, the channel was dropped.
pub open spec fn published<T>(
    before: ChannelsState<T>,
    name: Seq<char>,
    value: T,
    after: ChannelsState<T>,
) -> bool {
    if before.rings.contains_key(name) {
        exists|live: Set<nat>|
            {
                &&& can_be_live(before.calls, before.rings[name], live)
                &&& after.calls == before.calls.push(
                    #[trigger] send_call(before.rings[name], value, live),
                )
                &&& after.rings == if live.len() > 0 {
                    before.rings
                } else {
                    before.rings.remove(name)
                }
                &&& after.trace == before.trace
            }
    } else {
        after == before
    }
}

/// The receivers of channel `name` were counted: none for a channel that is not there.
pub open spec fn counted<T>(
    before: ChannelsState<T>,
    name: Seq<char>,
    after: ChannelsState<T>,
    receivers: usize,
) -> bool {
    if before.rings.contains_key(name) {
        exists|live: Set<nat>|
            {
                &&& can_be_live(before.calls, before.rings[name], live)
                &&& after == (ChannelsState {
                    calls: before.calls.push(#[trigger] count_call(before.rings[name], live)),
                    ..before
                })
                &&& receivers == live.len()
            }
    } else {
        receivers == 0 && after == before
    }
}

/// It was taken down that `receiver`, which drew from `ring`, is gone.
pub open spec fn ended<T>(
    before: ChannelsState<T>,
    ring: Ring,
    receiver: nat,
    after: ChannelsState<T>,
) -> bool {
    after == (ChannelsState {
        calls: before.calls.push(Call::Left { ring, receiver }),
        ..before
    })
}

/// What happens can lead from `before` to `after`: calls were added, and a channel that was
/// there has kept its ring, unless a message on it reached nobody.
pub open spec fn reaches<T>(before: ChannelsState<T>, after: ChannelsState<T>) -> bool {
    &&& after.trace == before.trace
    &&& before.calls.is_prefix_of(after.calls)
    &&& forall|name: Seq<char>| #[trigger]
        before.rings.contains_key(name) ==> {
            ||| after.rings.contains_key(name) && after.rings[name] == before.rings[name]
            ||| is_unheard(after.calls, before.rings[name], before.calls.len())
        }
}

/// A call at `from` or later sent on `ring`, and reached nobody.
pub open spec fn is_unheard<T>(calls: Seq<Call<T>>, ring: Ring, from: nat) -> bool {
    exists|i: int|
        from <= i < calls.len() && (#[trigger] calls[i] matches Call::Send {
            ring: used,
            live,
            ..
        } && used == ring && live == Set::<nat>::empty())
}

/// What leads to a state, and then on from it, leads on.
proof fn lemma_reaches_on<T>(
    before: ChannelsState<T>,
    between: ChannelsState<T>,
    after: ChannelsState<T>,
)
    requires
        reaches(before, between),
        reaches(between, after),
    ensures
        reaches(before, after),
{
    assert forall|name: Seq<char>| #[trigger] before.rings.contains_key(name) implies {
        ||| after.rings.contains_key(name) && after.rings[name] == before.rings[name]
        ||| is_unheard(after.calls, before.rings[name], before.calls.len())
    } by {
        let ring = before.rings[name];
        if is_unheard(between.calls, ring, before.calls.len()) {
            let i = choose|i: int|
                before.calls.len() <= i < between.calls.len() && (#[trigger] between.calls[i] matches Call::Send {
                    ring: used,
                    live,
                    ..
                } && used == ring && live == Set::<nat>::empty());
            assert(after.calls[i] == between.calls[i]);
        }
    }
}

/// The channels in use.
#[verifier::reject_recursive_types(T)]
pub struct Registry<T> {
    channels: Channels<T>,
}

impl<T> View for Registry<T> {
    type V = ChannelsState<T>;

    closed spec fn view(&self) -> ChannelsState<T> {
        self.channels@
    }
}

impl<T> Guarded for Registry<T> {
    open spec fn inv(self) -> bool {
        self.wf()
    }

    open spec fn key(self) -> (int, int) {
        (self@.trace, self@.trace)
    }

    open spec fn leads_to(self, later: Self) -> bool {
        reaches(self@, later@)
    }

    proof fn leads_to_itself(self) {
    }

    proof fn leads_on(self, between: Self, later: Self) {
        lemma_reaches_on(self@, between@, later@);
    }
}

impl<T> Registry<T> {
    /// The invariant of the channels.
    pub closed spec fn wf(self) -> bool {
        self.channels.wf()
    }

    /// What well-formed channels guarantee.
    pub proof fn lemma_rings_are_own(self)
        requires
            self.wf(),
        ensures
            own_rings(self@),
    {
        self.channels.lemma_rings_are_own();
    }

    /// No channels.
    pub fn new() -> (registry: Self)
        ensures
            registry.wf(),
            registry@.rings == Map::<Seq<char>, Ring>::empty(),
            registry@.calls == Seq::<Call<T>>::empty(),
    {
        Registry { channels: Channels::new() }
    }

    /// Sends `msg` to the receivers of `channel`. A channel without receivers is dropped.
    pub fn publish(&mut self, channel: &String, msg: T)
        requires
            old(self).wf(),
        ensures
            final(self).wf(),
            final(self).key() == old(self).key(),
            old(self).leads_to(*final(self)),
            published(old(self)@, channel@, msg, final(self)@),
    {
        let answer = self.channels.send(channel.as_str(), msg);
        if let Some(reached) = answer {
            if reached.is_none() {
                self.channels.remove(channel);
            }
        }
        proof {
            assert(published(old(self)@, channel@, msg, self@));
            if old(self)@.rings.contains_key(channel@) {
                let live = lemma_reached(old(self)@, channel@, msg, self@);
                let n = old(self)@.calls.len() as int;
                assert(self@.calls[n] == send_call(old(self)@.rings[channel@], msg, live));
                if live.len() == 0 {
                    live.lemma_len0_is_empty();
                }
            }
        }
    }

    /// Takes down that a receiver is gone.
    pub fn end(&mut self, gone: Gone)
        requires
            old(self).wf(),
        ensures
            final(self).wf(),
            final(self).key() == old(self).key(),
            old(self).leads_to(*final(self)),
            ended(old(self)@, gone.ring(), gone.receiver(), final(self)@),
    {
        self.channels.leave(gone);
    }

    /// Evidence of the calls made so far.
    pub fn mark(&self) -> (mark: Mark<T>)
        ensures
            mark.id() == self@.trace,
            mark@ == self@.calls,
    {
        self.channels.mark()
    }

    /// How many receivers `channel` has.
    pub fn subscriber_count(&mut self, channel: &String) -> (receivers: usize)
        requires
            old(self).wf(),
        ensures
            final(self).wf(),
            final(self).key() == old(self).key(),
            old(self).leads_to(*final(self)),
            counted(old(self)@, channel@, final(self)@, receivers),
    {
        let answer = self.channels.receiver_count(channel.as_str());
        answer.unwrap_or(0)
    }
}

impl<T: Clone> Registry<T> {
    /// A receiver of `channel`. Where the channel is not there yet, its ring is opened with
    /// room for `capacity` messages.
    pub fn subscribe(&mut self, channel: &String, capacity: usize) -> (feed: Feed<T>)
        requires
            old(self).wf(),
            valid_capacity(capacity),
        ensures
            final(self).wf(),
            final(self).key() == old(self).key(),
            old(self).leads_to(*final(self)),
            subscribed(old(self)@, channel@, capacity, final(self)@, feed.ring()),
            feed.cursor() == new_cursor(final(self)@.calls),
            final(self)@.rings == old(self)@.rings.insert(channel@, feed.ring()),
            !old(self)@.rings.contains_key(channel@) ==> room(final(self)@.calls, feed.ring())
                >= capacity,
    {
        let (feed, _) = self.channels.attach(channel, capacity);
        proof {
            assert(self@.rings =~= old(self)@.rings.insert(channel@, feed.ring()));
            if !old(self)@.rings.contains_key(channel@) {
                law_room_is_enough(self@.calls, feed.ring(), capacity);
            }
        }
        feed
    }
}

/// The receivers that were found by a message.
proof fn lemma_reached<T>(
    before: ChannelsState<T>,
    name: Seq<char>,
    value: T,
    after: ChannelsState<T>,
) -> (live: Set<nat>)
    requires
        published(before, name, value, after),
        before.rings.contains_key(name),
    ensures
        can_be_live(before.calls, before.rings[name], live),
        after.calls == before.calls.push(send_call(before.rings[name], value, live)),
        after.rings == if live.len() > 0 {
            before.rings
        } else {
            before.rings.remove(name)
        },
{
    choose|live: Set<nat>|
        {
            &&& can_be_live(before.calls, before.rings[name], live)
            &&& after.calls == before.calls.push(
                #[trigger] send_call(before.rings[name], value, live),
            )
            &&& after.rings == if live.len() > 0 {
                before.rings
            } else {
                before.rings.remove(name)
            }
            &&& after.trace == before.trace
        }
}

/// The receivers that were counted.
proof fn lemma_counted<T>(
    before: ChannelsState<T>,
    name: Seq<char>,
    after: ChannelsState<T>,
    receivers: usize,
) -> (live: Set<nat>)
    requires
        counted(before, name, after, receivers),
        before.rings.contains_key(name),
    ensures
        can_be_live(before.calls, before.rings[name], live),
        after == (ChannelsState {
            calls: before.calls.push(count_call(before.rings[name], live)),
            ..before
        }),
        receivers == live.len(),
{
    choose|live: Set<nat>|
        {
            &&& can_be_live(before.calls, before.rings[name], live)
            &&& after == (ChannelsState {
                calls: before.calls.push(#[trigger] count_call(before.rings[name], live)),
                ..before
            })
            &&& receivers == live.len()
        }
}

/// Subscribing leaves each channel with a ring of its own.
pub proof fn law_subscribing_keeps_rings_own<T>(
    before: ChannelsState<T>,
    name: Seq<char>,
    capacity: usize,
    after: ChannelsState<T>,
    ring: Ring,
)
    requires
        own_rings(before),
        subscribed(before, name, capacity, after, ring),
    ensures
        own_rings(after),
{
    lemma_rings_stay_own(before.rings, before.trace, before.calls, after.calls.last());
}

/// A subscription joins its channel: the channel is there after it, with the ring that the
/// subscription draws from, which is the one it had before where it was there; one receiver
/// was given out; and every other channel stays as it is, with the receivers it can have.
pub proof fn law_subscription_joins_its_channel<T>(
    before: ChannelsState<T>,
    name: Seq<char>,
    capacity: usize,
    after: ChannelsState<T>,
    ring: Ring,
    other: Seq<char>,
)
    requires
        own_rings(before),
        subscribed(before, name, capacity, after, ring),
    ensures
        after.rings.contains_key(name),
        after.rings[name] == ring,
        before.rings.contains_key(name) ==> before.rings[name] == ring,
        after.calls.len() == before.calls.len() + 1,
        before.calls.is_prefix_of(after.calls),
        candidates(after.calls, ring) == candidates(before.calls, ring).insert(before.calls.len()),
        !before.rings.contains_key(name) ==> candidates(before.calls, ring) == Set::<nat>::empty(),
        other != name ==> after.rings.contains_key(other) == before.rings.contains_key(other),
        other != name && before.rings.contains_key(other) ==> {
            &&& after.rings[other] == before.rings[other]
            &&& candidates(after.calls, before.rings[other]) == candidates(
                before.calls,
                before.rings[other],
            )
        },
{
    assert(after.calls.drop_last() =~= before.calls);
    if !before.rings.contains_key(name) {
        lemma_unopened_is_unheard(before.trace, before.calls, ring);
    }
}

/// A new channel has room for as many messages as was asked for, rounded up to a power of two
/// and no further, and keeps it whatever happens.
pub proof fn law_new_channel_has_room<T>(
    before: ChannelsState<T>,
    name: Seq<char>,
    capacity: usize,
    after: ChannelsState<T>,
    ring: Ring,
    now: ChannelsState<T>,
)
    requires
        subscribed(before, name, capacity, after, ring),
        !before.rings.contains_key(name),
        capacity > 0,
        reaches(after, now),
    ensures
        room(now.calls, ring) >= capacity,
        room(now.calls, ring) < 2 * capacity,
        exists|k: nat| room(now.calls, ring) == #[trigger] pow2(k),
{
    let n = ring.number as int;
    assert(after.calls[n] == (Call::<T>::Open { capacity }));
    assert(now.calls[n] == after.calls[n]);
    law_room_is_enough(now.calls, ring, capacity);
}

/// A subscriber that is behind by no more than its channel was opened for loses nothing. The
/// channel was new when it was opened, with room for `capacity` messages; then anything
/// happened, and a receiver of its ring was drawn from.
pub proof fn law_subscriber_within_capacity_loses_nothing<T: Clone>(
    before: ChannelsState<T>,
    name: Seq<char>,
    capacity: usize,
    after: ChannelsState<T>,
    ring: Ring,
    now: ChannelsState<T>,
    ready: Cursor<T>,
    received: Result<T, TryRecvError>,
    then: Cursor<T>,
)
    requires
        subscribed(before, name, capacity, after, ring),
        !before.rings.contains_key(name),
        capacity > 0,
        reaches(after, now),
        ready.known.contains(now.calls),
        drew(ring, ready, Some(received), then),
        yielded(ring, ready, Some(received), then),
        sends(then.seen, ring, ready.read) <= capacity,
    ensures
        then.lost == ready.lost,
        !(received matches Err(TryRecvError::Lagged(_))),
{
    let n = ring.number as int;
    assert(after.calls[n] == (Call::<T>::Open { capacity }));
    assert(now.calls[n] == after.calls[n]);
    assert(then.seen[n] == now.calls[n]);
    law_receiver_within_capacity_loses_nothing(ring, capacity, ready, received, then);
}

/// A message on a channel that is there is sent once, on the ring of the channel. Where it
/// found a receiver, the channels stay as they are; where it found none, the channel is gone.
/// A message on a channel that is not there does nothing.
pub proof fn law_message_is_sent_once<T>(
    before: ChannelsState<T>,
    name: Seq<char>,
    value: T,
    after: ChannelsState<T>,
)
    requires
        published(before, name, value, after),
    ensures
        !before.rings.contains_key(name) ==> after == before,
        before.rings.contains_key(name) ==> {
            &&& after.calls.len() == before.calls.len() + 1
            &&& before.calls.is_prefix_of(after.calls)
            &&& after.calls.last() matches Call::Send { ring, value: sent, live } && ring
                == before.rings[name] && sent == value && live.subset_of(
                candidates(before.calls, ring),
            ) && if live == Set::<nat>::empty() {
                !after.rings.contains_key(name)
            } else {
                after.rings == before.rings
            }
        },
{
    if before.rings.contains_key(name) {
        let live = lemma_reached(before, name, value, after);
        if live.len() == 0 {
            live.lemma_len0_is_empty();
        }
    }
}

/// The end of a subscription takes its receiver from those that its ring can have, and changes
/// nothing else.
pub proof fn law_end_changes_nothing_else<T>(
    before: ChannelsState<T>,
    ring: Ring,
    receiver: nat,
    after: ChannelsState<T>,
    other: Ring,
)
    requires
        ended(before, ring, receiver, after),
    ensures
        after.rings == before.rings,
        after.trace == before.trace,
        after.calls.len() == before.calls.len() + 1,
        before.calls.is_prefix_of(after.calls),
        candidates(after.calls, ring) == candidates(before.calls, ring).remove(receiver),
        other != ring ==> candidates(after.calls, other) == candidates(before.calls, other),
{
    assert(after.calls.drop_last() =~= before.calls);
}

/// Publishing leaves each channel with a ring of its own.
pub proof fn law_publishing_keeps_rings_own<T>(
    before: ChannelsState<T>,
    name: Seq<char>,
    value: T,
    after: ChannelsState<T>,
)
    requires
        own_rings(before),
        published(before, name, value, after),
    ensures
        own_rings(after),
{
    if before.rings.contains_key(name) {
        lemma_rings_stay_own(before.rings, before.trace, before.calls, after.calls.last());
    }
}

/// A message published after a subscription is sent on the ring that the subscription draws
/// from. Where it reached a receiver, the next subscriber draws from that ring too.
pub proof fn law_subscriber_is_served<T>(
    before: ChannelsState<T>,
    name: Seq<char>,
    capacity: usize,
    between: ChannelsState<T>,
    ring: Ring,
    value: T,
    after: ChannelsState<T>,
)
    requires
        subscribed(before, name, capacity, between, ring),
        published(between, name, value, after),
    ensures
        exists|live: Set<nat>|
            {
                &&& after.calls == between.calls.push(#[trigger] send_call(ring, value, live))
                &&& live.len() > 0 ==> after.rings == between.rings && after.rings[name] == ring
                &&& live.len() == 0 ==> !after.rings.contains_key(name)
            },
{
    let live = lemma_reached(between, name, value, after);
}

/// Counting changes no channel, and a channel that is not there has no receiver.
pub proof fn law_counting_changes_nothing<T>(
    before: ChannelsState<T>,
    name: Seq<char>,
    receivers: usize,
    after: ChannelsState<T>,
)
    requires
        own_rings(before),
        counted(before, name, after, receivers),
    ensures
        own_rings(after),
        after.rings == before.rings,
        !before.rings.contains_key(name) ==> receivers == 0,
{
    if before.rings.contains_key(name) {
        lemma_rings_stay_own(before.rings, before.trace, before.calls, after.calls.last());
    }
}

/// What is published on a channel goes to no other: the message is not sent on the ring of
/// another channel, and that channel stays as it is.
pub proof fn law_other_channels_are_spared<T>(
    before: ChannelsState<T>,
    name: Seq<char>,
    value: T,
    after: ChannelsState<T>,
    other: Seq<char>,
)
    requires
        own_rings(before),
        published(before, name, value, after),
        before.rings.contains_key(other),
        other != name,
    ensures
        after.rings.contains_key(other),
        after.rings[other] == before.rings[other],
        candidates(after.calls, before.rings[other]) == candidates(
            before.calls,
            before.rings[other],
        ),
        forall|i: int|
            before.calls.len() <= i < after.calls.len() ==> match #[trigger] after.calls[i] {
                Call::Send { ring, .. } => ring != before.rings[other],
                _ => true,
            },
{
    if before.rings.contains_key(name) {
        let live = lemma_reached(before, name, value, after);
        assert(after.calls.drop_last() =~= before.calls);
    }
}

/// Publishing drops a channel only on word that it has no receiver, and opens none.
pub proof fn law_only_the_unheard_are_dropped<T>(
    before: ChannelsState<T>,
    name: Seq<char>,
    value: T,
    after: ChannelsState<T>,
)
    requires
        published(before, name, value, after),
    ensures
        after.rings.dom().subset_of(before.rings.dom()),
        before.rings.contains_key(name) && !after.rings.contains_key(name) ==> after.calls
            == before.calls.push(send_call(before.rings[name], value, Set::empty())),
{
    if before.rings.contains_key(name) {
        let live = lemma_reached(before, name, value, after);
        if live.len() == 0 {
            live.lemma_len0_is_empty();
        }
    }
}

/// Where no receiver is counted, the next message reaches nobody, and the channel is not
/// there after it.
pub proof fn law_count_of_none_foretells_silence<T>(
    before: ChannelsState<T>,
    name: Seq<char>,
    between: ChannelsState<T>,
    value: T,
    after: ChannelsState<T>,
)
    requires
        counted(before, name, between, 0),
        published(between, name, value, after),
    ensures
        !after.rings.contains_key(name),
        before.rings.contains_key(name) ==> after.calls == between.calls.push(
            send_call(before.rings[name], value, Set::empty()),
        ),
        !before.rings.contains_key(name) ==> after == before,
{
    if before.rings.contains_key(name) {
        let none = lemma_counted(before, name, between, 0);
        none.lemma_len0_is_empty();
        let live = lemma_reached(between, name, value, after);
        assert(between.calls.drop_last() =~= before.calls);
        assert(live =~= Set::<nat>::empty());
    }
}

/// A receiver that all of `seen` found was found by the calls from before.
pub proof fn law_what_is_heard_was_heard<T>(
    calls: Seq<Call<T>>,
    seen: Seq<Call<T>>,
    ring: Ring,
    receiver: nat,
)
    requires
        calls.is_prefix_of(seen),
        is_heard(seen, ring, receiver),
    ensures
        is_heard(calls, ring, receiver),
{
    assert forall|i: int| receiver < i < calls.len() implies match #[trigger] calls[i] {
        Call::Send { ring: used, live, .. } => used == ring ==> live.contains(receiver),
        Call::Count { ring: used, live } => used == ring ==> live.contains(receiver),
        _ => true,
    } by {
        assert(calls[i] == seen[i]);
    }
}

/// A count is exact: where all receivers that the channel can have are found to be live, so
/// many are counted.
pub proof fn law_count_is_exact<T>(
    before: ChannelsState<T>,
    name: Seq<char>,
    receivers: usize,
    after: ChannelsState<T>,
)
    requires
        before.rings.contains_key(name),
        counted(before, name, after, receivers),
        forall|receiver: nat| #[trigger]
            candidates(before.calls, before.rings[name]).contains(receiver) ==> receiver
                < before.calls.len() && is_heard(after.calls, before.rings[name], receiver),
    ensures
        receivers == candidates(before.calls, before.rings[name]).len(),
{
    let live = lemma_counted(before, name, after, receivers);
    let n = before.calls.len() as int;
    assert(after.calls[n] == count_call::<T>(before.rings[name], live));
    assert(live =~= candidates(before.calls, before.rings[name]));
}

/// A receiver more is counted for each subscription, and one less once one has ended.
pub proof fn law_subscriptions_are_counted<T>(
    before: ChannelsState<T>,
    name: Seq<char>,
    capacity: usize,
    ring: Ring,
    between: ChannelsState<T>,
    receiver: nat,
    after: ChannelsState<T>,
)
    requires
        own_rings(before),
        subscribed(before, name, capacity, between, ring),
        ended(between, ring, receiver, after),
    ensures
        candidates(between.calls, ring) == if before.rings.contains_key(name) {
            candidates(before.calls, ring).insert(before.calls.len())
        } else {
            set![before.calls.len()]
        },
        candidates(after.calls, ring) == candidates(between.calls, ring).remove(receiver),
{
    assert(between.calls.drop_last() =~= before.calls);
    assert(after.calls.drop_last() =~= between.calls);
    if !before.rings.contains_key(name) {
        lemma_unopened_is_unheard(before.trace, before.calls, ring);
    }
}

/// A message reaches each of the receivers that were just counted, where these are found to be
/// live still, and no others, and it changes no count. (That each of them receives it is
/// [`law_subscriber_receives_what_is_published`].)
pub proof fn law_message_reaches_the_counted<T>(
    before: ChannelsState<T>,
    name: Seq<char>,
    receivers: usize,
    between: ChannelsState<T>,
    value: T,
    after: ChannelsState<T>,
)
    requires
        before.rings.contains_key(name),
        counted(before, name, between, receivers),
        published(between, name, value, after),
        forall|receiver: nat| #[trigger]
            candidates(between.calls, before.rings[name]).contains(receiver) ==> receiver
                < between.calls.len() && is_heard(after.calls, before.rings[name], receiver),
    ensures
        after.calls == between.calls.push(
            send_call(before.rings[name], value, candidates(between.calls, before.rings[name])),
        ),
        receivers == candidates(between.calls, before.rings[name]).len(),
        candidates(after.calls, before.rings[name]) == candidates(
            between.calls,
            before.rings[name],
        ),
        receivers > 0 ==> after.rings == before.rings,
        receivers == 0 ==> after.rings == before.rings.remove(name),
{
    let found = lemma_counted(before, name, between, receivers);
    let live = lemma_reached(between, name, value, after);
    let n = between.calls.len() as int;
    assert(between.calls.drop_last() =~= before.calls);
    assert(after.calls.drop_last() =~= between.calls);
    assert(candidates(between.calls, before.rings[name]) == found);
    assert(after.calls[n] == send_call(before.rings[name], value, live));
    assert(live =~= found);
}

/// A subscriber receives what is published. A subscription began with the channels `joined` or
/// before; then `value` was published on its channel, and the subscriber has received all
/// that was sent before that. The next value received, once the subscriber knows of the
/// message, is that message, unless more was sent in the meantime than the ring has room for.
pub proof fn law_subscriber_receives_what_is_published<T: Clone>(
    joined: ChannelsState<T>,
    name: Seq<char>,
    ring: Ring,
    before: ChannelsState<T>,
    value: T,
    after: ChannelsState<T>,
    ready: Cursor<T>,
    received: Result<T, TryRecvError>,
    then: Cursor<T>,
)
    requires
        joined.rings.contains_key(name),
        joined.rings[name] == ring,
        reaches(joined, before),
        published(before, name, value, after),
        ready.receiver < joined.calls.len(),
        ready.read <= before.calls.len(),
        forall|i: int|
            ready.read <= i < before.calls.len() ==> !is_send_on(#[trigger] before.calls[i], ring),
        ready.known.contains(after.calls),
        drew(ring, ready, Some(received), then),
        yielded(ring, ready, Some(received), then),
        sends(then.seen, ring, ready.read) <= room(then.seen, ring),
    ensures
        received matches Ok(message) && cloned::<T>(value, message),
        then.read == after.calls.len(),
        then.lost == ready.lost,
{
    let n = before.calls.len();
    if !before.rings.contains_key(name) {
        assert(after.calls == before.calls);
    }
    assert(before.calls.is_prefix_of(after.calls));
    assert(before.calls.is_prefix_of(then.seen));
    law_live_subscriber_keeps_the_channel(joined, name, ring, ready.receiver, before, then.seen);
    let live = lemma_reached(before, name, value, after);
    assert(after.calls[n as int] == send_call(ring, value, live));
    assert(is_first_send(after.calls, ring, ready.read, n)) by {
        assert forall|i: int| ready.read <= i < n implies !is_send_on(
            #[trigger] after.calls[i],
            ring,
        ) by {
            assert(before.calls[i] == after.calls[i]);
        }
    }
    law_what_is_sent_is_received(ring, after.calls, n, ready, received, then);
}

/// A channel with a live subscriber is there, a message on it reaches a receiver, and so
/// does a count. A subscription, of the receiver `receiver`, began with the channels `joined`
/// or before, and was drawn from when the calls `seen` had been made.
pub proof fn law_live_subscriber_keeps_the_channel<T>(
    joined: ChannelsState<T>,
    name: Seq<char>,
    ring: Ring,
    receiver: nat,
    now: ChannelsState<T>,
    seen: Seq<Call<T>>,
)
    requires
        joined.rings.contains_key(name),
        joined.rings[name] == ring,
        reaches(joined, now),
        now.calls.is_prefix_of(seen),
        receiver < joined.calls.len(),
        is_heard(seen, ring, receiver),
    ensures
        now.rings.contains_key(name),
        now.rings[name] == ring,
        forall|value: T, after: ChannelsState<T>|
            #[trigger] published(now, name, value, after) && after.calls.is_prefix_of(seen)
                ==> after.rings == now.rings,
        forall|receivers: usize, after: ChannelsState<T>|
            #[trigger] counted(now, name, after, receivers) && after.calls.is_prefix_of(seen)
                ==> receivers > 0,
{
    if is_unheard(now.calls, ring, joined.calls.len()) {
        let i = choose|i: int|
            joined.calls.len() <= i < now.calls.len() && (#[trigger] now.calls[i] matches Call::Send {
                ring: used,
                live,
                ..
            } && used == ring && live == Set::<nat>::empty());
        assert(now.calls[i] == seen[i]);
        assert(false);
    }
    let n = now.calls.len() as int;
    assert forall|value: T, after: ChannelsState<T>|
        #[trigger] published(now, name, value, after) && after.calls.is_prefix_of(seen) implies
        after.rings == now.rings by {
        let live = lemma_reached(now, name, value, after);
        assert(after.calls[n] == seen[n]);
        assert(live.contains(receiver));
    }
    assert forall|receivers: usize, after: ChannelsState<T>|
        #[trigger] counted(now, name, after, receivers) && after.calls.is_prefix_of(seen) implies
        receivers > 0 by {
        let live = lemma_counted(now, name, after, receivers);
        assert(after.calls[n] == seen[n]);
        assert(live.contains(receiver));
    }
}

/// What a handle of a hub may do, what it has done, and what it has evidence of.
#[verifier::reject_recursive_types(T)]
pub struct Ticket<T> {
    session: Session<Registry<T>>,
    mark: Mark<T>,
}

impl<T> Ticket<T> {
    /// The leave to make sections on the channels, with the record of them.
    pub closed spec fn session(self) -> Session<Registry<T>> {
        self.session
    }

    /// Evidence of the calls made.
    pub closed spec fn mark(self) -> Mark<T> {
        self.mark
    }

    /// The evidence is of calls made for the channels of this ticket.
    pub open spec fn wf(self) -> bool {
        self.mark().id() == self.session().shared().key().0
    }

    /// The section that was made last.
    pub open spec fn latest(self) -> Transition<Registry<T>> {
        self.session().latest()
    }

    /// There is no other ticket, nothing was done with it, and there are no channels.
    pub open spec fn is_first(self) -> bool {
        &&& self.session().made() == Seq::<Transition<Registry<T>>>::empty()
        &&& self.session().is_sole()
        &&& self.session().left()@.rings == Map::<Seq<char>, Ring>::empty()
        &&& self.session().left()@.calls == Seq::<Call<T>>::empty()
        &&& self.session().known() == Set::<Registry<T>>::empty().insert(self.session().left())
    }

    /// Exactly one section was made with ticket `self`, which became `later`, and none was
    /// split off.
    pub open spec fn advanced(self, later: Self) -> bool {
        &&& later.wf()
        &&& self.session().advanced(later.session())
        &&& later.session().splits() == self.session().splits()
        &&& later.mark()@ == later.latest().after@.calls
        &&& own_rings(later.latest().before@)
        &&& own_rings(later.latest().after@)
    }
}

/// The state behind a [`PubSub`].
#[verifier::reject_recursive_types(T)]
pub struct Inner<T> {
    capacity: usize,
    channels: Shared<Registry<T>>,
}

impl<T> Inner<T> {
    /// How many messages a receiver can be behind.
    pub closed spec fn capacity(self) -> usize {
        self.capacity
    }

    /// The channels, as threads share them.
    pub closed spec fn shared(self) -> Shared<Registry<T>> {
        self.channels
    }

    /// `ticket` is for these channels.
    pub open spec fn admits(self, ticket: Ticket<T>) -> bool {
        ticket.wf() && ticket.session().shared() == self.shared()
    }

    /// No channels.
    fn new(capacity: usize) -> (made: (Self, Ticket<T>))
        ensures
            made.0.capacity() == capacity,
            made.0.admits(made.1),
            made.1.is_first(),
    {
        let registry = Registry::new();
        let mark = registry.mark();
        let (channels, session) = Shared::new(registry);
        (Inner { capacity, channels }, Ticket { session, mark })
    }

    /// Sends `msg` to the receivers of `channel`. A channel that turns out to have no
    /// receiver is dropped. (Messages that give way to this one are dropped while the hub is
    /// locked, so dropping a message must not use the hub.)
    pub fn publish(&self, channel: &String, msg: T, ticket: &mut Ticket<T>)
        requires
            self.admits(*old(ticket)),
        ensures
            self.admits(*final(ticket)),
            old(ticket).advanced(*final(ticket)),
            published(
                final(ticket).latest().before@,
                channel@,
                msg,
                final(ticket).latest().after@,
            ),
    {
        ticket.mark = self.channels.transact(
            &mut ticket.session,
            |registry: &mut Registry<T>| -> (mark: Mark<T>)
                requires
                    old(registry).wf(),
                ensures
                    final(registry).wf(),
                    final(registry).key() == old(registry).key(),
                    old(registry).leads_to(*final(registry)),
                    published(old(registry)@, channel@, msg, final(registry)@),
                    mark.id() == final(registry)@.trace,
                    mark@ == final(registry)@.calls
            {
                registry.publish(channel, msg);
                registry.mark()
            },
        );
        proof {
            ticket.session.latest().before.lemma_rings_are_own();
            ticket.session.latest().after.lemma_rings_are_own();
        }
    }

    /// Ends a subscription: its receiver is dropped, and that is taken down.
    pub fn close(&self, subscription: Subscription<T>, ticket: &mut Ticket<T>)
        requires
            self.admits(*old(ticket)),
        ensures
            self.admits(*final(ticket)),
            old(ticket).advanced(*final(ticket)),
            ended(
                final(ticket).latest().before@,
                subscription.ring(),
                subscription.cursor().receiver,
                final(ticket).latest().after@,
            ),
    {
        let gone = subscription.feed.discard();
        ticket.mark = self.channels.transact(
            &mut ticket.session,
            |registry: &mut Registry<T>| -> (mark: Mark<T>)
                requires
                    old(registry).wf(),
                ensures
                    final(registry).wf(),
                    final(registry).key() == old(registry).key(),
                    old(registry).leads_to(*final(registry)),
                    ended(old(registry)@, gone.ring(), gone.receiver(), final(registry)@),
                    mark.id() == final(registry)@.trace,
                    mark@ == final(registry)@.calls
            {
                registry.end(gone);
                registry.mark()
            },
        );
        proof {
            ticket.session.latest().before.lemma_rings_are_own();
            ticket.session.latest().after.lemma_rings_are_own();
        }
    }

    /// How many receivers `channel` has.
    pub fn subscriber_count(&self, channel: &String, ticket: &mut Ticket<T>) -> (receivers: usize)
        requires
            self.admits(*old(ticket)),
        ensures
            self.admits(*final(ticket)),
            old(ticket).advanced(*final(ticket)),
            counted(
                final(ticket).latest().before@,
                channel@,
                final(ticket).latest().after@,
                receivers,
            ),
    {
        let (receivers, mark) = self.channels.transact(
            &mut ticket.session,
            |registry: &mut Registry<T>| -> (count: (usize, Mark<T>))
                requires
                    old(registry).wf(),
                ensures
                    final(registry).wf(),
                    final(registry).key() == old(registry).key(),
                    old(registry).leads_to(*final(registry)),
                    counted(old(registry)@, channel@, final(registry)@, count.0),
                    count.1.id() == final(registry)@.trace,
                    count.1@ == final(registry)@.calls
            {
                let receivers: usize = registry.subscriber_count(channel);
                (receivers, registry.mark())
            },
        );
        ticket.mark = mark;
        proof {
            ticket.session.latest().before.lemma_rings_are_own();
            ticket.session.latest().after.lemma_rings_are_own();
        }
        receivers
    }
}

impl<T: Clone> Inner<T> {
    /// A receiver of what is published on `channel` after this. Where the channel is not
    /// there yet, it is opened.
    pub fn subscribe(&self, channel: &String, ticket: &mut Ticket<T>) -> (subscription:
        Subscription<T>)
        requires
            self.admits(*old(ticket)),
            valid_capacity(self.capacity()),
        ensures
            self.admits(*final(ticket)),
            old(ticket).advanced(*final(ticket)),
            subscription.ring().trace == self.shared().key().0,
            subscription.cursor() == new_cursor(final(ticket).latest().after@.calls),
            subscribed(
                final(ticket).latest().before@,
                channel@,
                self.capacity(),
                final(ticket).latest().after@,
                subscription.ring(),
            ),
    {
        let capacity: usize = self.capacity;
        let (feed, mark) = self.channels.transact(
            &mut ticket.session,
            |registry: &mut Registry<T>| -> (heard: (Feed<T>, Mark<T>))
                requires
                    old(registry).wf(),
                ensures
                    final(registry).wf(),
                    final(registry).key() == old(registry).key(),
                    old(registry).leads_to(*final(registry)),
                    subscribed(old(registry)@, channel@, capacity, final(registry)@, heard.0.ring()),
                    heard.0.cursor() == new_cursor(final(registry)@.calls),
                    heard.0.ring().trace == final(registry)@.trace,
                    heard.1.id() == final(registry)@.trace,
                    heard.1@ == final(registry)@.calls
            {
                let feed = registry.subscribe(channel, capacity);
                proof {
                    registry.lemma_rings_are_own();
                }
                (feed, registry.mark())
            },
        );
        ticket.mark = mark;
        proof {
            ticket.session.latest().before.lemma_rings_are_own();
            ticket.session.latest().after.lemma_rings_are_own();
        }
        Subscription { feed }
    }
}

/// A subscription to a channel. It ends when it is dropped, or with [`PubSub::close`], which
/// takes down that it has ended.
#[verifier::reject_recursive_types(T)]
pub struct Subscription<T> {
    feed: Feed<T>,
}

impl<T> Subscription<T> {
    /// The ring that the messages come from.
    pub closed spec fn ring(self) -> Ring {
        self.feed.ring()
    }

    /// How far the subscription has come with the calls made on the rings of channels.
    pub closed spec fn cursor(self) -> Cursor<T> {
        self.feed.cursor()
    }

    /// Takes over what `other`, a ticket for the same hub, has evidence of.
    pub fn catch_up(&mut self, other: &Ticket<T>)
        requires
            other.mark().id() == old(self).ring().trace,
        ensures
            final(self).ring() == old(self).ring(),
            final(self).cursor() == (Cursor {
                known: old(self).cursor().known.insert(other.mark()@),
                ..old(self).cursor()
            }),
    {
        self.feed.learn(&other.mark);
    }
}

impl<T: Clone> Subscription<T> {
    /// The next message, where there is one.
    pub fn try_recv(&mut self) -> (received: Result<T, TryRecvError>)
        ensures
            final(self).ring() == old(self).ring(),
            drew(old(self).ring(), old(self).cursor(), Some(received), final(self).cursor()),
            yielded(old(self).ring(), old(self).cursor(), Some(received), final(self).cursor()),
    {
        self.feed.try_recv()
    }
}

impl<T: 'static + Clone + Send> Subscription<T> {
    /// The messages as a stream, to wait for them.
    pub fn into_stream(self) -> (stream: FeedStream<T>)
        ensures
            stream.ring() == self.ring(),
            stream.cursor() == self.cursor(),
    {
        self.feed.into_stream()
    }
}

/// A handle of a hub for messages on named channels.
#[verifier::reject_recursive_types(T)]
pub struct PubSub<T> {
    inner: Arc<Inner<T>>,
    ticket: Ticket<T>,
}

impl<T> PubSub<T> {
    /// The state that all handles share.
    pub closed spec fn inner(self) -> Arc<Inner<T>> {
        self.inner
    }

    /// What was done with this handle.
    pub closed spec fn ticket(self) -> Ticket<T> {
        self.ticket
    }

    /// The ticket is for the hub.
    pub open spec fn wf(self) -> bool {
        self.inner().admits(self.ticket())
    }

    /// Exactly one section was made on the hub with handle `self`, which became `later`.
    pub open spec fn acted(self, later: Self) -> bool {
        &&& later.wf()
        &&& later.inner() == self.inner()
        &&& self.ticket().advanced(later.ticket())
    }

    /// The hub's channels, before and after what was last done with this handle.
    pub open spec fn latest(self) -> Transition<Registry<T>> {
        self.ticket().latest()
    }

    /// A hub without channels, whose receivers can be `capacity` messages behind.
    pub fn new(capacity: usize) -> (pubsub: Self)
        ensures
            pubsub.wf(),
            pubsub.inner().capacity() == capacity,
            pubsub.ticket().is_first(),
    {
        let (inner, ticket) = Inner::new(capacity);
        PubSub { inner: Arc::new(inner), ticket }
    }

    /// Another handle of this hub, which knows what this one knows.
    pub fn clone(&mut self) -> (other: Self)
        requires
            old(self).wf(),
        ensures
            other.wf(),
            other.inner() == old(self).inner(),
            other.ticket().session().made() == Seq::<Transition<Registry<T>>>::empty(),
            other.ticket().session().splits() == 0,
            other.ticket().session().known() == old(self).ticket().session().known(),
            other.ticket().mark() == old(self).ticket().mark(),
            final(self).wf(),
            final(self).inner() == old(self).inner(),
            final(self).ticket().session().made() == old(self).ticket().session().made(),
            final(self).ticket().session().splits() == old(self).ticket().session().splits() + 1,
            final(self).ticket().session().known() == old(self).ticket().session().known(),
            final(self).ticket().mark() == old(self).ticket().mark(),
    {
        let ticket = Ticket { session: self.ticket.session.split(), mark: self.ticket.mark.again() };
        PubSub { inner: share(&self.inner), ticket }
    }

    /// The ticket, to learn from.
    pub fn as_ticket(&self) -> (ticket: &Ticket<T>)
        ensures
            *ticket == self.ticket(),
    {
        &self.ticket
    }

    /// Ends a subscription: see [`Inner::close`].
    pub fn close(&mut self, subscription: Subscription<T>)
        requires
            old(self).wf(),
        ensures
            old(self).acted(*final(self)),
            ended(
                final(self).latest().before@,
                subscription.ring(),
                subscription.cursor().receiver,
                final(self).latest().after@,
            ),
    {
        self.inner.close(subscription, &mut self.ticket)
    }

    /// Sends `msg` to the receivers of `channel`: see [`Inner::publish`].
    pub fn publish(&mut self, channel: &String, msg: T)
        requires
            old(self).wf(),
        ensures
            old(self).acted(*final(self)),
            published(final(self).latest().before@, channel@, msg, final(self).latest().after@),
    {
        self.inner.publish(channel, msg, &mut self.ticket)
    }

    /// How many receivers `channel` has.
    pub fn subscriber_count(&mut self, channel: &String) -> (receivers: usize)
        requires
            old(self).wf(),
        ensures
            old(self).acted(*final(self)),
            counted(
                final(self).latest().before@,
                channel@,
                final(self).latest().after@,
                receivers,
            ),
    {
        self.inner.subscriber_count(channel, &mut self.ticket)
    }
}

impl<T: Clone> PubSub<T> {
    /// A receiver of what is published on `channel` after this: see [`Inner::subscribe`].
    pub fn subscribe(&mut self, channel: &String) -> (subscription: Subscription<T>)
        requires
            old(self).wf(),
            valid_capacity(old(self).inner().capacity()),
        ensures
            old(self).acted(*final(self)),
            subscription.ring().trace == old(self).inner().shared().key().0,
            subscription.cursor() == new_cursor(final(self).latest().after@.calls),
            subscribed(
                final(self).latest().before@,
                channel@,
                old(self).inner().capacity(),
                final(self).latest().after@,
                subscription.ring(),
            ),
    {
        self.inner.subscribe(channel, &mut self.ticket)
    }
}

impl<T> Deref for PubSub<T> {
    type Target = Arc<Inner<T>>;

    fn deref(&self) -> (inner: &Arc<Inner<T>>)
        ensures
            *inner == self.inner(),
    {
        &self.inner
    }
}

} // verus!
