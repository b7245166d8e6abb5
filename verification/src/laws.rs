//! What holds of a hub as a whole, whatever its users and the tasks around them do.

use vstd::prelude::*;

use vstd::arithmetic::power2::pow2;

use crate::broadcast::{
    can_be_live, candidates, count_call, doubled, drew, is_first_send, is_heard, is_send_on,
    law_receiver_within_capacity_loses_nothing, law_room_is_enough, law_what_is_sent_is_received, room, send_call, sends, yielded, Call, Cursor, Ring, TryRecvError,
};
use crate::channels::{
    lemma_rings_stay_own, lemma_unopened_is_unheard, next_ring, ring_is_known, rings_are_own, texts,
};
use crate::table::{
    added_ring, belongs, consistent, departed, is_fresh, is_listing, is_notice, listened, none_is_deserted,
    notices_are_open, notified, published, reaches, removed_ring, replay, run, settled, step, subscribed,
    unsubscribed, without, Event, Leaver, TableState, NOTICE_CAPACITY,
};

verus! {

/// One more call leaves no channel deserted, unless it takes down that a receiver of that
/// channel's ring is gone, or shows that there is none.
proof fn lemma_none_becomes_deserted<T>(
    rings: Map<Seq<char>, Ring>,
    calls: Seq<Call<T>>,
    call: Call<T>,
)
    requires
        none_is_deserted(rings, calls),
        forall|name: Seq<char>| #[trigger]
            rings.contains_key(name) ==> match call {
                Call::Left { ring, .. } => ring != rings[name],
                Call::Send { ring, live, .. } => ring == rings[name] ==> live != Set::<nat>::empty(),
                Call::Count { ring, live } => ring == rings[name] ==> live != Set::<nat>::empty(),
                _ => true,
            },
    ensures
        none_is_deserted(rings, calls.push(call)),
{
    let after = calls.push(call);
    assert(after.drop_last() =~= calls);
    assert forall|name: Seq<char>| #[trigger] rings.contains_key(name) implies candidates(
        after,
        rings[name],
    ) != Set::<nat>::empty() by {
        let earlier = candidates(calls, rings[name]);
        assert(earlier.insert(calls.len()).contains(calls.len()));
    }
}

/// Dropping a channel keeps the channels consistent, also where it was deserted.
proof fn lemma_unsubscribed_consistent<T>(
    before: TableState<T>,
    name: Seq<char>,
    after: TableState<T>,
)
    requires
        rings_are_own(before.rings, before.trace, before.calls),
        notices_are_open(before.notices),
        replay(before.notice_trace, before.notices) == before.rings.dom(),
        none_is_deserted(before.rings.remove(name), before.calls),
        unsubscribed(before, name, after),
    ensures
        consistent(after),
{
    assert(after.rings.dom() =~= before.rings.dom().remove(name));
    lemma_notices_stay_open(before.notices, after.notices);
}

/// Notices that were added leave the rings of notices open.
proof fn lemma_notices_stay_open(before: Seq<Call<String>>, after: Seq<Call<String>>)
    requires
        notices_are_open(before),
        after.len() == before.len() + 1,
        after.drop_last() == before,
    ensures
        notices_are_open(after),
{
    assert(after[0] == before[0]);
    assert(after[1] == before[1]);
}

/// A call that gives out a receiver of a ring keeps the channels consistent.
proof fn lemma_called_consistent<T>(before: TableState<T>, call: Call<T>)
    requires
        consistent(before),
        call is Open || call is Attach,
        ring_is_known(before.trace, before.calls.push(call), before.calls.len() as int),
    ensures
        consistent(TableState { calls: before.calls.push(call), ..before }),
{
    lemma_rings_stay_own(before.rings, before.trace, before.calls, call);
    lemma_none_becomes_deserted(before.rings, before.calls, call);
}

/// The receivers that were found by a message.
proof fn lemma_reached<T>(
    before: TableState<T>,
    name: Seq<char>,
    value: T,
    after: TableState<T>,
) -> (live: Set<nat>)
    requires
        published(before, name, value, after),
        before.rings.contains_key(name),
    ensures
        can_be_live(before.calls, before.rings[name], live),
        after.calls == before.calls.push(send_call(before.rings[name], value, live)),
        live.len() > 0 ==> after == (TableState { calls: after.calls, ..before }),
        live.len() == 0 ==> unsubscribed(TableState { calls: after.calls, ..before }, name, after),
{
    choose|live: Set<nat>|
        {
            let sent = TableState {
                calls: before.calls.push(#[trigger] send_call(before.rings[name], value, live)),
                ..before
            };
            &&& can_be_live(before.calls, before.rings[name], live)
            &&& if live.len() > 0 {
                after == sent
            } else {
                unsubscribed(sent, name, after)
            }
        }
}

/// The receivers that were counted in a departure.
proof fn lemma_counted<T>(
    before: TableState<T>,
    name: Seq<char>,
    gone: Option<Leaver>,
    after: TableState<T>,
) -> (live: Set<nat>)
    requires
        departed(before, name, gone, after),
        before.rings.contains_key(name),
    ensures
        can_be_live(without(before, gone).calls, before.rings[name], live),
        after.calls == without(before, gone).calls.push(count_call(before.rings[name], live)),
        settled(TableState { calls: after.calls, ..before }, name, live.len(), after),
{
    let rest = without(before, gone);
    choose|live: Set<nat>|
        {
            &&& can_be_live(rest.calls, before.rings[name], live)
            &&& settled(
                TableState {
                    calls: rest.calls.push(#[trigger] count_call(before.rings[name], live)),
                    ..rest
                },
                name,
                live.len(),
                after,
            )
        }
}

/// Whatever happens to consistent channels leaves them consistent: no two share a ring, each
/// has a receiver that is not known to be gone, and whoever followed the notices knows
/// exactly the channels that are there.
pub proof fn law_step_keeps_consistent<T>(
    before: TableState<T>,
    event: Event<T>,
    after: TableState<T>,
)
    requires
        consistent(before),
        step(before, event, after),
    ensures
        consistent(after),
{
    match event {
        Event::Subscribe { name, capacity, ring: _ } => {
            if before.rings.contains_key(name) {
                lemma_called_consistent(before, Call::Attach { ring: before.rings[name] });
            } else {
                let ring = next_ring(before.trace, before.calls);
                let opened = TableState {
                    calls: before.calls.push(Call::Open { capacity }),
                    ..before
                };
                lemma_called_consistent(before, Call::Open { capacity });
                lemma_unopened_is_unheard(before.trace, before.calls, ring);
                assert(opened.calls.drop_last() =~= before.calls);
                assert(candidates(opened.calls, ring).contains(ring.number));
                assert(after.rings.dom() =~= before.rings.dom().insert(name));
                lemma_notices_stay_open(before.notices, after.notices);
                assert forall|other: Seq<char>| #[trigger]
                    after.rings.contains_key(other) implies candidates(
                    after.calls,
                    after.rings[other],
                ) != Set::<nat>::empty() by {
                    if other != name {
                        assert(before.rings.contains_key(other));
                        assert(candidates(opened.calls, before.rings[other]) != Set::<nat>::empty());
                    }
                }
            }
        },
        Event::Publish { name, value } => {
            if before.rings.contains_key(name) {
                let live = lemma_reached(before, name, value, after);
                let call = send_call(before.rings[name], value, live);
                let sent = TableState { calls: before.calls.push(call), ..before };
                lemma_rings_stay_own(before.rings, before.trace, before.calls, call);
                if live.len() > 0 {
                    lemma_none_becomes_deserted(before.rings, before.calls, call);
                } else {
                    lemma_none_becomes_deserted(before.rings.remove(name), before.calls, call);
                    lemma_unsubscribed_consistent(sent, name, after);
                }
            }
        },
        Event::Depart { name, gone } => {
            let rest = without(before, gone);
            let others = before.rings.remove(name);
            if let Some(leaver) = gone {
                let left = Call::Left { ring: leaver.ring, receiver: leaver.receiver };
                lemma_rings_stay_own(before.rings, before.trace, before.calls, left);
                lemma_none_becomes_deserted(others, before.calls, left);
            }
            assert(none_is_deserted(others, rest.calls));
            if before.rings.contains_key(name) {
                let live = lemma_counted(before, name, gone, after);
                let call = count_call(before.rings[name], live);
                let counted = TableState { calls: rest.calls.push(call), ..rest };
                lemma_rings_stay_own(before.rings, before.trace, rest.calls, call);
                lemma_none_becomes_deserted(others, rest.calls, call);
                if live.len() == 0 {
                    lemma_unsubscribed_consistent(counted, name, after);
                } else {
                    assert(counted.calls.drop_last() =~= rest.calls);
                    assert(candidates(counted.calls, before.rings[name]) == live);
                    assert forall|other: Seq<char>| #[trigger]
                        after.rings.contains_key(other) implies candidates(
                        after.calls,
                        after.rings[other],
                    ) != Set::<nat>::empty() by {
                        if other != name {
                            assert(others.contains_key(other));
                        }
                    }
                }
            } else {
                assert(others =~= before.rings);
                lemma_unsubscribed_consistent(rest, name, after);
            }
        },
        Event::Listen { ring } => {
            assert(after.notices.drop_last() =~= before.notices);
            lemma_notices_stay_open(before.notices, after.notices);
        },
    }
}

/// In every state that a hub comes to, no two channels share a ring, each has a receiver that
/// is not known to be gone, and the notices given name exactly the channels that are there.
pub proof fn law_every_state_is_consistent<T>(
    states: Seq<TableState<T>>,
    events: Seq<Event<T>>,
    i: int,
)
    requires
        run(states, events),
        is_fresh(states[0]),
        0 <= i < states.len(),
    ensures
        consistent(states[i]),
{
    reveal_with_fuel(replay, 3);
    lemma_run_keeps_consistent(states, events, i);
}

/// What follows from a consistent state is consistent.
pub proof fn law_what_follows_is_consistent<T>(before: TableState<T>, after: TableState<T>)
    requires
        consistent(before),
        reaches(before, after),
    ensures
        consistent(after),
{
    let (states, events) = choose|states: Seq<TableState<T>>, events: Seq<Event<T>>|
        #![trigger run(states, events)]
        run(states, events) && states[0] == before && states.last() == after;
    lemma_run_keeps_consistent(states, events, states.len() - 1);
}

/// All states of a run from a consistent one are consistent.
proof fn lemma_run_keeps_consistent<T>(states: Seq<TableState<T>>, events: Seq<Event<T>>, i: int)
    requires
        run(states, events),
        consistent(states[0]),
        0 <= i < states.len(),
    ensures
        consistent(states[i]),
    decreases i,
{
    if i > 0 {
        lemma_run_keeps_consistent(states, events, i - 1);
        assert(step(states[i - 1], events[i - 1], states[i - 1 + 1]));
        law_step_keeps_consistent(states[i - 1], events[i - 1], states[i]);
    }
}

/// A ring has one name: where it was that of a channel, it is never that of another.
proof fn lemma_ring_has_one_name<T>(
    states: Seq<TableState<T>>,
    events: Seq<Event<T>>,
    name: Seq<char>,
    ring: Ring,
    other: Seq<char>,
    i: int,
)
    requires
        run(states, events),
        consistent(states[0]),
        states[0].rings.contains_key(name),
        states[0].rings[name] == ring,
        0 <= i < states.len(),
        states[i].rings.contains_key(other),
        states[i].rings[other] == ring,
    ensures
        other == name,
    decreases i,
{
    if i > 0 {
        let before = states[i - 1];
        assert(step(before, events[i - 1], states[i - 1 + 1]));
        lemma_run_adds_calls(states, events, 0, i - 1);
        assert(ring.number < before.calls.len());
        assert(before.rings.contains_key(other) && before.rings[other] == ring);
        lemma_ring_has_one_name(states, events, name, ring, other, i - 1);
    }
}

/// The ring that a subscription draws from is that of its channel alone, for ever. The
/// subscription began with the channels `joined`.
pub proof fn law_ring_belongs_to_its_channel<T>(
    joined: TableState<T>,
    name: Seq<char>,
    ring: Ring,
    now: TableState<T>,
)
    requires
        consistent(joined),
        joined.rings.contains_key(name),
        joined.rings[name] == ring,
        reaches(joined, now),
    ensures
        belongs(now, name, ring),
{
    let (states, events) = choose|states: Seq<TableState<T>>, events: Seq<Event<T>>|
        #![trigger run(states, events)]
        run(states, events) && states[0] == joined && states.last() == now;
    assert forall|other: Seq<char>| #[trigger]
        now.rings.contains_key(other) && now.rings[other] == ring implies other == name by {
        lemma_ring_has_one_name(states, events, name, ring, other, states.len() - 1);
    }
}

/// A channel is listed if and only if it is there, and then it can have a receiver. (That a
/// live receiver's channel is listed is [`law_live_subscriber_keeps_the_channel`].)
pub proof fn law_listed_channel_is_not_deserted<T>(
    state: TableState<T>,
    names: Seq<String>,
    name: Seq<char>,
)
    requires
        consistent(state),
        is_listing(state, names),
    ensures
        texts(names).contains(name) == state.rings.contains_key(name),
        texts(names).contains(name) ==> candidates(state.calls, state.rings[name]) != Set::<
            nat,
        >::empty(),
{
    assert(texts(names).to_set().contains(name) == texts(names).contains(name));
}

/// While a channel is there, its ring stays the same.
pub proof fn law_ring_is_kept<T>(
    before: TableState<T>,
    event: Event<T>,
    after: TableState<T>,
    name: Seq<char>,
)
    requires
        step(before, event, after),
        before.rings.contains_key(name),
        after.rings.contains_key(name),
    ensures
        after.rings[name] == before.rings[name],
{
}

/// The ring of a channel that stays there is the same in all states of a run.
proof fn lemma_ring_is_kept_by_run<T>(
    states: Seq<TableState<T>>,
    events: Seq<Event<T>>,
    name: Seq<char>,
    i: int,
)
    requires
        run(states, events),
        forall|j: int| 0 <= j < states.len() ==> (#[trigger] states[j]).rings.contains_key(name),
        0 <= i < states.len(),
    ensures
        states[i].rings[name] == states[0].rings[name],
    decreases i,
{
    if i > 0 {
        lemma_ring_is_kept_by_run(states, events, name, i - 1);
        assert(step(states[i - 1], events[i - 1], states[i - 1 + 1]));
        law_ring_is_kept(states[i - 1], events[i - 1], states[i], name);
    }
}

/// What happens adds calls to those from before.
proof fn lemma_step_adds_calls<T>(before: TableState<T>, event: Event<T>, after: TableState<T>)
    requires
        step(before, event, after),
    ensures
        before.calls.is_prefix_of(after.calls),
{
    match event {
        Event::Depart { name, gone } => {
            assert(before.calls.is_prefix_of(without(before, gone).calls));
            if before.rings.contains_key(name) {
                let live = lemma_counted(before, name, gone, after);
            }
        },
        _ => {},
    }
}

/// The calls of a run are added to those from before.
proof fn lemma_run_adds_calls<T>(
    states: Seq<TableState<T>>,
    events: Seq<Event<T>>,
    i: int,
    j: int,
)
    requires
        run(states, events),
        0 <= i <= j < states.len(),
    ensures
        states[i].calls.is_prefix_of(states[j].calls),
    decreases j,
{
    if i < j {
        lemma_run_adds_calls(states, events, i, j - 1);
        assert(step(states[j - 1], events[j - 1], states[j - 1 + 1]));
        lemma_step_adds_calls(states[j - 1], events[j - 1], states[j]);
    }
}

/// What happens later adds calls to those from before.
pub proof fn law_calls_are_added<T>(before: TableState<T>, after: TableState<T>)
    requires
        reaches(before, after),
    ensures
        before.calls.is_prefix_of(after.calls),
{
    let (states, events) = choose|states: Seq<TableState<T>>, events: Seq<Event<T>>|
        #![trigger run(states, events)]
        run(states, events) && states[0] == before && states.last() == after;
    lemma_run_adds_calls(states, events, 0, states.len() - 1);
}

/// What is published on a channel goes to its subscribers: from a subscription on, for as
/// long as the channel is there, a message published on it is sent on the ring that the
/// subscription draws from, by a call that comes after the subscription began.
pub proof fn law_subscriber_is_served<T>(
    before: TableState<T>,
    name: Seq<char>,
    capacity: usize,
    ring: Ring,
    states: Seq<TableState<T>>,
    events: Seq<Event<T>>,
    value: T,
    after: TableState<T>,
)
    requires
        run(states, events),
        subscribed(before, name, capacity, states[0], ring),
        forall|j: int| 0 <= j < states.len() ==> (#[trigger] states[j]).rings.contains_key(name),
        published(states.last(), name, value, after),
    ensures
        states[0].calls.is_prefix_of(states.last().calls),
        exists|live: Set<nat>|
            after.calls == states.last().calls.push(#[trigger] send_call(ring, value, live)),
{
    lemma_run_adds_calls(states, events, 0, states.len() - 1);
    lemma_ring_is_kept_by_run(states, events, name, states.len() - 1);
}

/// While whoever uses the ring of a channel finds one of its receivers, the channel is there.
proof fn lemma_heard_channel_stays<T>(
    states: Seq<TableState<T>>,
    events: Seq<Event<T>>,
    name: Seq<char>,
    ring: Ring,
    receiver: nat,
    seen: Seq<Call<T>>,
    i: int,
)
    requires
        run(states, events),
        states[0].rings.contains_key(name),
        states[0].rings[name] == ring,
        states.last().calls.is_prefix_of(seen),
        receiver < states[0].calls.len(),
        is_heard(seen, ring, receiver),
        0 <= i < states.len(),
    ensures
        states[i].rings.contains_key(name),
        states[i].rings[name] == ring,
    decreases i,
{
    if i > 0 {
        lemma_heard_channel_stays(states, events, name, ring, receiver, seen, i - 1);
        let before = states[i - 1];
        let after = states[i];
        assert(step(before, events[i - 1], states[i - 1 + 1]));
        lemma_run_adds_calls(states, events, 0, i - 1);
        lemma_run_adds_calls(states, events, i, states.len() - 1);
        if !after.rings.contains_key(name) {
            law_only_the_unheard_are_dropped(before, events[i - 1], after, name);
            let last = after.calls.len() - 1;
            assert(after.calls[last] == seen[last]);
            assert(false);
        }
        law_ring_is_kept(before, events[i - 1], after, name);
    }
}

/// A channel with a live subscriber is there. A subscription, of the receiver `receiver`, began
/// with the channels `joined` or before, and was drawn from when the calls `seen` had been
/// made: whatever happened in between, every state `now` from that time has the channel, with
/// the ring that the subscription draws from.
pub proof fn law_live_subscriber_keeps_the_channel<T>(
    joined: TableState<T>,
    name: Seq<char>,
    ring: Ring,
    receiver: nat,
    now: TableState<T>,
    seen: Seq<Call<T>>,
)
    requires
        joined.rings.contains_key(name),
        joined.rings[name] == ring,
        reaches(joined, now),
        now.calls.is_prefix_of(seen),
        receiver < joined.calls.len(),
        is_heard(seen, ring, receiver),
    ensures
        now.rings.contains_key(name),
        now.rings[name] == ring,
{
    let (states, events) = choose|states: Seq<TableState<T>>, events: Seq<Event<T>>|
        #![trigger run(states, events)]
        run(states, events) && states[0] == joined && states.last() == now;
    lemma_heard_channel_stays(states, events, name, ring, receiver, seen, states.len() - 1);
}

/// A message on a channel with a live subscriber is queued for it, on the ring that the
/// subscription draws from, and neither the channels nor the notices change.
pub proof fn law_live_subscriber_is_served<T>(
    joined: TableState<T>,
    name: Seq<char>,
    ring: Ring,
    receiver: nat,
    before: TableState<T>,
    value: T,
    after: TableState<T>,
    seen: Seq<Call<T>>,
)
    requires
        joined.rings.contains_key(name),
        joined.rings[name] == ring,
        receiver < joined.calls.len(),
        reaches(joined, before),
        published(before, name, value, after),
        after.calls.is_prefix_of(seen),
        is_heard(seen, ring, receiver),
    ensures
        after.rings == before.rings,
        after.notices == before.notices,
        exists|live: Set<nat>|
            live.contains(receiver) && after.calls == before.calls.push(
                #[trigger] send_call(ring, value, live),
            ),
{
    law_calls_are_added(joined, before);
    lemma_step_adds_calls(before, Event::Publish { name, value }, after);
    law_live_subscriber_keeps_the_channel(joined, name, ring, receiver, before, seen);
    let live = lemma_reached(before, name, value, after);
    let n = before.calls.len() as int;
    assert(after.calls[n] == send_call(ring, value, live));
    assert(after.calls[n] == seen[n]);
}

/// A subscriber receives what is published. A subscription began with the channels `joined` or
/// before; then `value` was published on its channel, and the subscriber has yielded all that
/// was sent before that. The next value received, once the subscriber knows of the message, is
/// that message, unless more was sent in the meantime than the ring has room for.
pub proof fn law_subscriber_receives_what_is_published<T: Clone>(
    joined: TableState<T>,
    name: Seq<char>,
    ring: Ring,
    before: TableState<T>,
    value: T,
    after: TableState<T>,
    ready: Cursor<T>,
    received: Result<T, TryRecvError>,
    then: Cursor<T>,
)
    requires
        joined.rings.contains_key(name),
        joined.rings[name] == ring,
        reaches(joined, before),
        published(before, name, value, after),
        ready.receiver < joined.calls.len(),
        ready.read <= before.calls.len(),
        forall|i: int|
            ready.read <= i < before.calls.len() ==> !is_send_on(#[trigger] before.calls[i], ring),
        ready.known.contains(after.calls),
        drew(ring, ready, Some(received), then),
        yielded(ring, ready, Some(received), then),
        sends(then.seen, ring, ready.read) <= room(then.seen, ring),
    ensures
        received matches Ok(message) && cloned::<T>(value, message),
        then.read == after.calls.len(),
        then.lost == ready.lost,
{
    let n = before.calls.len();
    law_live_subscriber_is_served(
        joined,
        name,
        ring,
        ready.receiver,
        before,
        value,
        after,
        then.seen,
    );
    assert(is_first_send(after.calls, ring, ready.read, n)) by {
        assert forall|i: int| ready.read <= i < n implies !is_send_on(
            #[trigger] after.calls[i],
            ring,
        ) by {
            assert(before.calls[i] == after.calls[i]);
        }
    }
    law_what_is_sent_is_received(ring, after.calls, n, ready, received, then);
}

/// Each ring of notices has room for 32 names.
pub proof fn law_room_for_notices<T>(state: TableState<T>, ring: Ring)
    requires
        consistent(state),
        ring == added_ring(state.notice_trace) || ring == removed_ring(state.notice_trace),
    ensures
        room(state.notices, ring) == 32,
{
    reveal_with_fuel(doubled, 7);
}

/// A notice reaches a listener. `name` was sent on `ring` after the notices `before`, and a
/// receiver of that ring has yielded all that was sent on it before. The next notice received,
/// once the receiver knows of this one, is `name`, unless more were sent in the meantime than
/// the ring has room for.
proof fn lemma_notice_is_received(
    before: Seq<Call<String>>,
    ring: Ring,
    name: Seq<char>,
    after: Seq<Call<String>>,
    ready: Cursor<String>,
    received: Result<String, TryRecvError>,
    then: Cursor<String>,
)
    requires
        notices_are_open(before),
        ring.number < 2,
        notified(before, ring, name, after),
        ready.read <= before.len(),
        forall|i: int| ready.read <= i < before.len() ==> !is_send_on(#[trigger] before[i], ring),
        ready.known.contains(after),
        drew(ring, ready, Some(received), then),
        yielded(ring, ready, Some(received), then),
        sends(then.seen, ring, ready.read) <= NOTICE_CAPACITY,
    ensures
        received matches Ok(told) && told@ == name,
        then.read == after.len(),
        then.lost == ready.lost,
{
    let n = before.len();
    assert(after[ring.number as int] == before[ring.number as int]);
    assert(after[ring.number as int] == then.seen[ring.number as int]);
    reveal_with_fuel(doubled, 7);
    assert(is_first_send(after, ring, ready.read, n)) by {
        assert forall|i: int| ready.read <= i < n implies !is_send_on(#[trigger] after[i], ring) by {
            assert(before[i] == after[i]);
        }
    }
    law_what_is_sent_is_received(ring, after, n, ready, received, then);
}

/// A receiver of the ring of notices `ring` has yielded all notices that were sent on it.
pub open spec fn is_listening<T>(state: TableState<T>, ring: Ring, ready: Cursor<String>) -> bool {
    &&& ready.read <= state.notices.len()
    &&& forall|i: int|
        ready.read <= i < state.notices.len() ==> !is_send_on(#[trigger] state.notices[i], ring)
}

/// A listener is told of a channel that comes. A channel was subscribed to that was not there,
/// and a receiver of the names of new channels has yielded all names from before. The next
/// name received, once the receiver knows of this one, is that of the channel, unless more
/// were sent in the meantime than there is room for.
pub proof fn law_listener_is_told_what_comes<T>(
    before: TableState<T>,
    name: Seq<char>,
    capacity: usize,
    after: TableState<T>,
    ring: Ring,
    ready: Cursor<String>,
    received: Result<String, TryRecvError>,
    then: Cursor<String>,
)
    requires
        consistent(before),
        subscribed(before, name, capacity, after, ring),
        !before.rings.contains_key(name),
        is_listening(before, added_ring(before.notice_trace), ready),
        ready.known.contains(after.notices),
        drew(added_ring(before.notice_trace), ready, Some(received), then),
        yielded(added_ring(before.notice_trace), ready, Some(received), then),
        sends(then.seen, added_ring(before.notice_trace), ready.read) <= NOTICE_CAPACITY,
    ensures
        received matches Ok(told) && told@ == name,
        then.read == after.notices.len(),
        then.lost == ready.lost,
{
    lemma_notice_is_received(
        before.notices,
        added_ring(before.notice_trace),
        name,
        after.notices,
        ready,
        received,
        then,
    );
}

/// A listener is told of a channel that goes. What happened dropped the channel, and a
/// receiver of the names of channels that go has yielded all names from before. The next
/// name received, once the receiver knows of this one, is that of the channel, unless more
/// were sent in the meantime than there is room for.
pub proof fn law_listener_is_told_what_goes<T>(
    before: TableState<T>,
    event: Event<T>,
    after: TableState<T>,
    name: Seq<char>,
    ready: Cursor<String>,
    received: Result<String, TryRecvError>,
    then: Cursor<String>,
)
    requires
        consistent(before),
        step(before, event, after),
        before.rings.contains_key(name),
        !after.rings.contains_key(name),
        is_listening(before, removed_ring(before.notice_trace), ready),
        ready.known.contains(after.notices),
        drew(removed_ring(before.notice_trace), ready, Some(received), then),
        yielded(removed_ring(before.notice_trace), ready, Some(received), then),
        sends(then.seen, removed_ring(before.notice_trace), ready.read) <= NOTICE_CAPACITY,
    ensures
        received matches Ok(told) && told@ == name,
        then.read == after.notices.len(),
        then.lost == ready.lost,
{
    match event {
        Event::Publish { name: published, value } => {
            let live = lemma_reached(before, published, value, after);
        },
        Event::Depart { name: left, gone } => {
            if before.rings.contains_key(left) {
                let live = lemma_counted(before, left, gone, after);
            }
        },
        _ => {},
    }
    lemma_notice_is_received(
        before.notices,
        removed_ring(before.notice_trace),
        name,
        after.notices,
        ready,
        received,
        then,
    );
}

/// The notices of what comes and goes are given on rings that stay the same.
pub proof fn law_rings_of_notices_are_kept<T>(before: TableState<T>, after: TableState<T>)
    requires
        reaches(before, after),
    ensures
        after.notice_trace == before.notice_trace,
        before.notices.is_prefix_of(after.notices),
{
    let (states, events) = choose|states: Seq<TableState<T>>, events: Seq<Event<T>>|
        #![trigger run(states, events)]
        run(states, events) && states[0] == before && states.last() == after;
    lemma_run_keeps_notices(states, events, states.len() - 1);
}

/// The notices of a run are added to those from before.
proof fn lemma_run_keeps_notices<T>(states: Seq<TableState<T>>, events: Seq<Event<T>>, i: int)
    requires
        run(states, events),
        0 <= i < states.len(),
    ensures
        states[i].notice_trace == states[0].notice_trace,
        states[0].notices.is_prefix_of(states[i].notices),
    decreases i,
{
    if i > 0 {
        lemma_run_keeps_notices(states, events, i - 1);
        let before = states[i - 1];
        let after = states[i];
        assert(step(states[i - 1], events[i - 1], states[i - 1 + 1]));
        match events[i - 1] {
            Event::Publish { name, value } => {
                if before.rings.contains_key(name) {
                    let live = lemma_reached(before, name, value, after);
                }
            },
            Event::Depart { name, gone } => {
                if before.rings.contains_key(name) {
                    let live = lemma_counted(before, name, gone, after);
                }
            },
            _ => {},
        }
        assert(before.notices == after.notices || before.notices =~= after.notices.drop_last());
    }
}

/// What is published on a channel goes to no other: the message is not sent on the ring of
/// another channel, and that channel stays as it is.
pub proof fn law_other_channels_are_spared<T>(
    before: TableState<T>,
    name: Seq<char>,
    value: T,
    after: TableState<T>,
    other: Seq<char>,
)
    requires
        consistent(before),
        published(before, name, value, after),
        before.rings.contains_key(other),
        other != name,
    ensures
        after.rings.contains_key(other),
        after.rings[other] == before.rings[other],
        candidates(after.calls, before.rings[other]) == candidates(
            before.calls,
            before.rings[other],
        ),
        forall|i: int|
            before.calls.len() <= i < after.calls.len() ==> match #[trigger] after.calls[i] {
                Call::Send { ring, .. } => ring != before.rings[other],
                _ => true,
            },
{
    if before.rings.contains_key(name) {
        let live = lemma_reached(before, name, value, after);
        assert(after.calls.drop_last() =~= before.calls);
    }
}

/// A channel is dropped only on word that it has no receiver, and only by a message on it
/// or by a departure from it.
pub proof fn law_only_the_unheard_are_dropped<T>(
    before: TableState<T>,
    event: Event<T>,
    after: TableState<T>,
    name: Seq<char>,
)
    requires
        step(before, event, after),
        before.rings.contains_key(name),
        !after.rings.contains_key(name),
    ensures
        match event {
            Event::Subscribe { .. } => false,
            Event::Publish { name: published, value } => published == name && after.calls
                == before.calls.push(send_call(before.rings[name], value, Set::empty())),
            Event::Depart { name: left, gone } => left == name && after.calls == without(
                before,
                gone,
            ).calls.push(count_call(before.rings[name], Set::empty())),
            Event::Listen { .. } => false,
        },
{
    match event {
        Event::Publish { name: published, value } => {
            if before.rings.contains_key(published) {
                let live = lemma_reached(before, published, value, after);
                lemma_of_no_size(live);
            }
        },
        Event::Depart { name: left, gone } => {
            if before.rings.contains_key(left) {
                let live = lemma_counted(before, left, gone, after);
                lemma_of_no_size(live);
            }
        },
        _ => {},
    }
}

/// A finite set without size is empty.
proof fn lemma_of_no_size(receivers: Set<nat>)
    requires
        receivers.finite(),
    ensures
        receivers.len() == 0 ==> receivers == Set::<nat>::empty(),
{
    if receivers.len() == 0 {
        receivers.lemma_len0_is_empty();
    }
}

/// A subscription joins its channel: the channel is there after it, with the ring that the
/// subscription draws from, which is the one it had before where it was there; one receiver
/// was given out; the channel is announced where it is new, and only there; and every other
/// channel stays as it is.
pub proof fn law_subscription_joins_its_channel<T>(
    before: TableState<T>,
    name: Seq<char>,
    capacity: usize,
    after: TableState<T>,
    ring: Ring,
    other: Seq<char>,
)
    requires
        consistent(before),
        subscribed(before, name, capacity, after, ring),
    ensures
        after.rings.contains_key(name),
        after.rings[name] == ring,
        before.rings.contains_key(name) ==> before.rings[name] == ring,
        other != name ==> after.rings.contains_key(other) == before.rings.contains_key(other),
        other != name && before.rings.contains_key(other) ==> after.rings[other]
            == before.rings[other],
        after.calls.len() == before.calls.len() + 1,
        before.calls.is_prefix_of(after.calls),
        candidates(after.calls, ring).contains(before.calls.len()),
        before.rings.contains_key(name) ==> after.notices == before.notices,
        !before.rings.contains_key(name) ==> {
            &&& after.notices.len() == before.notices.len() + 1
            &&& before.notices.is_prefix_of(after.notices)
            &&& after.notices.last() matches Call::Send { ring: used, value, .. } && used
                == added_ring(before.notice_trace) && value@ == name
        },
{
    law_subscription_adds_a_receiver(before, name, capacity, after, ring, other);
    if !before.rings.contains_key(name) {
        assert(before.notices =~= after.notices.drop_last());
    }
}

/// A new channel has room for as many messages as was asked for, rounded up to a power of two
/// and no further, and keeps it whatever happens.
pub proof fn law_new_channel_has_room<T>(
    before: TableState<T>,
    name: Seq<char>,
    capacity: usize,
    after: TableState<T>,
    ring: Ring,
    now: TableState<T>,
)
    requires
        consistent(before),
        subscribed(before, name, capacity, after, ring),
        !before.rings.contains_key(name),
        capacity > 0,
        reaches(after, now),
    ensures
        room(now.calls, ring) >= capacity,
        room(now.calls, ring) < 2 * capacity,
        exists|k: nat| room(now.calls, ring) == #[trigger] pow2(k),
{
    law_calls_are_added(after, now);
    let n = ring.number as int;
    assert(after.calls[n] == (Call::<T>::Open { capacity }));
    assert(now.calls[n] == after.calls[n]);
    law_room_is_enough(now.calls, ring, capacity);
}

/// A subscriber that is behind by no more than its channel was opened for loses nothing. The
/// channel was new when it was opened, with room for `capacity` messages; then anything
/// happened, and a receiver of its ring was drawn from.
pub proof fn law_subscriber_within_capacity_loses_nothing<T: Clone>(
    before: TableState<T>,
    name: Seq<char>,
    capacity: usize,
    after: TableState<T>,
    ring: Ring,
    now: TableState<T>,
    ready: Cursor<T>,
    received: Result<T, TryRecvError>,
    then: Cursor<T>,
)
    requires
        consistent(before),
        subscribed(before, name, capacity, after, ring),
        !before.rings.contains_key(name),
        capacity > 0,
        reaches(after, now),
        ready.known.contains(now.calls),
        drew(ring, ready, Some(received), then),
        yielded(ring, ready, Some(received), then),
        sends(then.seen, ring, ready.read) <= capacity,
    ensures
        then.lost == ready.lost,
        !(received matches Err(TryRecvError::Lagged(_))),
{
    law_calls_are_added(after, now);
    let n = ring.number as int;
    assert(after.calls[n] == (Call::<T>::Open { capacity }));
    assert(now.calls[n] == after.calls[n]);
    assert(then.seen[n] == now.calls[n]);
    law_receiver_within_capacity_loses_nothing(ring, capacity, ready, received, then);
}

/// Every channel of a hub has room for as many messages as subscriptions ask for: where all
/// of them ask for `capacity` or more, so much room has every channel, in every state.
pub proof fn law_every_channel_has_room<T>(
    states: Seq<TableState<T>>,
    events: Seq<Event<T>>,
    capacity: usize,
    i: int,
    name: Seq<char>,
)
    requires
        run(states, events),
        is_fresh(states[0]),
        capacity > 0,
        forall|j: int|
            0 <= j < events.len() ==> (#[trigger] events[j] matches Event::Subscribe {
                capacity: asked,
                ..
            } ==> asked >= capacity),
        0 <= i < states.len(),
        states[i].rings.contains_key(name),
    ensures
        room(states[i].calls, states[i].rings[name]) >= capacity,
    decreases i,
{
    if i > 0 {
        let before = states[i - 1];
        let after = states[i];
        let ring = after.rings[name];
        law_every_state_is_consistent(states, events, i - 1);
        assert(step(states[i - 1], events[i - 1], states[i - 1 + 1]));
        lemma_step_adds_calls(before, events[i - 1], after);
        if before.rings.contains_key(name) {
            law_every_channel_has_room(states, events, capacity, i - 1, name);
            law_ring_is_kept(before, events[i - 1], after, name);
            assert(before.calls[ring.number as int] == after.calls[ring.number as int]);
        } else {
            match events[i - 1] {
                Event::Subscribe { name: joined, capacity: asked, ring: opened } => {
                    assert(joined == name && opened == ring);
                    assert(after.calls[ring.number as int] == (Call::<T>::Open {
                        capacity: asked,
                    }));
                    law_room_is_enough(after.calls, ring, asked);
                },
                _ => {
                    lemma_only_subscriptions_open(before, events[i - 1], after, name);
                },
            }
        }
    }
}

/// No event but a subscription opens a channel.
proof fn lemma_only_subscriptions_open<T>(
    before: TableState<T>,
    event: Event<T>,
    after: TableState<T>,
    name: Seq<char>,
)
    requires
        step(before, event, after),
        !(event is Subscribe),
        !before.rings.contains_key(name),
    ensures
        !after.rings.contains_key(name),
{
    match event {
        Event::Publish { name: published, value } => {
            if before.rings.contains_key(published) {
                let live = lemma_reached(before, published, value, after);
            }
        },
        Event::Depart { name: left, gone } => {
            if before.rings.contains_key(left) {
                let live = lemma_counted(before, left, gone, after);
            }
        },
        _ => {},
    }
}

/// A hub begins without channels: none is listed.
pub proof fn law_fresh_hub_lists_nothing<T>(state: TableState<T>, names: Seq<String>)
    requires
        is_fresh(state),
        is_listing(state, names),
    ensures
        names.len() == 0,
{
    if names.len() > 0 {
        law_listing_is_exact(state, names, names[0]@);
    }
}

/// A listing is exact: a name is in it if and only if there is a channel of that name, and it
/// is in it once.
pub proof fn law_listing_is_exact<T>(state: TableState<T>, names: Seq<String>, name: Seq<char>)
    requires
        is_listing(state, names),
    ensures
        (exists|i: int| 0 <= i < names.len() && (#[trigger] names[i])@ == name)
            == state.rings.contains_key(name),
        forall|i: int, j: int|
            0 <= i < j < names.len() ==> (#[trigger] names[i])@ != (#[trigger] names[j])@,
{
    let listed = texts(names);
    assert(listed.to_set().contains(name) == listed.contains(name));
    if listed.contains(name) {
        let i = listed.index_of(name);
        assert(names[i]@ == name);
    }
    assert forall|i: int, j: int| 0 <= i < j < names.len() implies (#[trigger] names[i])@ != (
    #[trigger] names[j])@ by {
        assert(listed[i] == names[i]@ && listed[j] == names[j]@);
    }
    if exists|i: int| 0 <= i < names.len() && (#[trigger] names[i])@ == name {
        let i = choose|i: int| 0 <= i < names.len() && (#[trigger] names[i])@ == name;
        assert(listed[i] == name);
    }
}

/// To listen changes no channel and sends no notice: one receiver of the ring is given out,
/// which sees what is sent from then on.
pub proof fn law_listening_changes_nothing<T>(
    before: TableState<T>,
    ring: Ring,
    after: TableState<T>,
)
    requires
        listened(before, ring, after),
    ensures
        after.rings == before.rings,
        after.calls == before.calls,
        after.notices.len() == before.notices.len() + 1,
        before.notices.is_prefix_of(after.notices),
        !is_send_on(after.notices.last(), added_ring(before.notice_trace)),
        !is_send_on(after.notices.last(), removed_ring(before.notice_trace)),
        candidates(after.notices, ring).contains(before.notices.len()),
{
    assert(after.notices.drop_last() =~= before.notices);
}

/// A message on a channel that is there is sent once, on the ring of the channel, and is all
/// that is sent. Where it found a receiver, the channels stay as they are and no notice is
/// given; where it found none, the channel is gone and one notice says so. A message on a
/// channel that is not there does nothing.
pub proof fn law_message_is_sent_once<T>(
    before: TableState<T>,
    name: Seq<char>,
    value: T,
    after: TableState<T>,
)
    requires
        published(before, name, value, after),
    ensures
        !before.rings.contains_key(name) ==> after == before,
        before.rings.contains_key(name) ==> {
            &&& after.calls.len() == before.calls.len() + 1
            &&& before.calls.is_prefix_of(after.calls)
            &&& after.calls.last() matches Call::Send { ring, value: sent, live } && ring
                == before.rings[name] && sent == value && if live == Set::<nat>::empty() {
                &&& !after.rings.contains_key(name)
                &&& after.notices.len() == before.notices.len() + 1
                &&& before.notices.is_prefix_of(after.notices)
                &&& after.notices.last() matches Call::Send { ring: used, value: told, .. } && used
                    == removed_ring(before.notice_trace) && told@ == name
            } else {
                after.rings == before.rings && after.notices == before.notices
            }
        },
{
    if before.rings.contains_key(name) {
        let live = lemma_reached(before, name, value, after);
        lemma_of_no_size(live);
        if live.len() == 0 {
            assert(before.notices =~= after.notices.drop_last());
        }
    }
}

/// A departure is settled by a count of the receivers that are left, without the one that is
/// gone: where there is none, the channel is gone and one notice says so; otherwise the
/// channels stay as they are and no notice is given.
pub proof fn law_departure_is_settled<T>(
    before: TableState<T>,
    name: Seq<char>,
    gone: Leaver,
    after: TableState<T>,
)
    requires
        departed(before, name, Some(gone), after),
        before.rings.contains_key(name),
        gone.ring == before.rings[name],
    ensures
        before.calls.is_prefix_of(after.calls),
        after.calls.last() matches Call::Count { ring, live } && ring == before.rings[name]
            && !live.contains(gone.receiver) && live.subset_of(candidates(before.calls, ring)) && if live
            == Set::<nat>::empty() {
            &&& !after.rings.contains_key(name)
            &&& after.notices.len() == before.notices.len() + 1
            &&& before.notices.is_prefix_of(after.notices)
            &&& after.notices.last() matches Call::Send { ring: used, value: told, .. } && used
                == removed_ring(before.notice_trace) && told@ == name
        } else {
            after.rings == before.rings && after.notices == before.notices
        },
{
    let live = lemma_counted(before, name, Some(gone), after);
    let rest = without(before, Some(gone));
    assert(rest.calls.drop_last() =~= before.calls);
    assert(before.calls.is_prefix_of(rest.calls));
    lemma_of_no_size(live);
    if live.len() == 0 {
        assert(before.notices =~= after.notices.drop_last());
    }
}

/// A subscription adds one receiver to those that its channel can have, and none to those of
/// another.
pub proof fn law_subscription_adds_a_receiver<T>(
    before: TableState<T>,
    name: Seq<char>,
    capacity: usize,
    after: TableState<T>,
    ring: Ring,
    other: Seq<char>,
)
    requires
        consistent(before),
        subscribed(before, name, capacity, after, ring),
    ensures
        candidates(after.calls, ring) == candidates(before.calls, ring).insert(before.calls.len()),
        !before.rings.contains_key(name) ==> candidates(before.calls, ring) == Set::<nat>::empty(),
        before.rings.contains_key(other) && other != name ==> candidates(
            after.calls,
            before.rings[other],
        ) == candidates(before.calls, before.rings[other]),
{
    assert(after.calls.drop_last() =~= before.calls);
    if !before.rings.contains_key(name) {
        lemma_unopened_is_unheard(before.trace, before.calls, ring);
    }
}

/// All subscribers of a channel draw from one ring, and only the first of them makes the
/// channel known.
pub proof fn law_second_subscriber_shares<T>(
    before: TableState<T>,
    name: Seq<char>,
    capacity: usize,
    between: TableState<T>,
    first: Ring,
    after: TableState<T>,
    second: Ring,
)
    requires
        subscribed(before, name, capacity, between, first),
        subscribed(between, name, capacity, after, second),
    ensures
        second == first,
        after.rings == between.rings,
        after.notices == between.notices,
{
}

/// A subscription to a new channel draws from a ring on which nothing was sent before.
pub proof fn law_new_channel_is_silent<T>(
    before: TableState<T>,
    name: Seq<char>,
    capacity: usize,
    after: TableState<T>,
    ring: Ring,
)
    requires
        consistent(before),
        subscribed(before, name, capacity, after, ring),
        !before.rings.contains_key(name),
    ensures
        forall|i: int|
            0 <= i < after.calls.len() ==> match #[trigger] after.calls[i] {
                Call::Send { ring: used, .. } => used != ring,
                _ => true,
            },
{
    assert forall|i: int| 0 <= i < after.calls.len() implies match #[trigger] after.calls[i] {
        Call::Send { ring: used, .. } => used != ring,
        _ => true,
    } by {
        if i < before.calls.len() {
            assert(ring_is_known(before.trace, before.calls, i));
        }
    }
}

/// A subscription that is closed at once leaves no trace among the channels. Where the
/// channel was new, the channel is gone again, and exactly two notices were given: that it
/// came, and that it went; who subscribes next makes it known anew. Where the channel was
/// there with another subscriber, of the receiver `other`, which was drawn from when the calls
/// `seen` had been made, no notice was given.
pub proof fn law_departure_undoes_subscription<T>(
    before: TableState<T>,
    name: Seq<char>,
    capacity: usize,
    between: TableState<T>,
    ring: Ring,
    after: TableState<T>,
    other: nat,
    seen: Seq<Call<T>>,
)
    requires
        consistent(before),
        subscribed(before, name, capacity, between, ring),
        departed(between, name, Some(Leaver { ring, receiver: before.calls.len() }), after),
    ensures
        !before.rings.contains_key(name) ==> {
            &&& after.rings == before.rings
            &&& after.notices.len() == before.notices.len() + 2
            &&& after.notices.take(before.notices.len() as int) == before.notices
            &&& is_notice(
                after.notices[before.notices.len() as int],
                added_ring(before.notice_trace),
                name,
            )
            &&& is_notice(after.notices.last(), removed_ring(before.notice_trace), name)
        },
        before.rings.contains_key(name) && other < before.calls.len() && after.calls.is_prefix_of(
            seen,
        ) && is_heard(seen, ring, other) ==> {
            &&& after.rings == before.rings
            &&& after.notices == before.notices
        },
{
    let gone = Some(Leaver { ring, receiver: before.calls.len() });
    let live = lemma_counted(between, name, gone, after);
    let rest = without(between, gone);
    if !before.rings.contains_key(name) {
        lemma_unopened_is_unheard(before.trace, before.calls, ring);
        assert(rest.calls.drop_last() =~= between.calls);
        assert(between.calls.drop_last() =~= before.calls);
        reveal_with_fuel(candidates, 3);
        assert(candidates(rest.calls, ring) =~= Set::<nat>::empty());
        assert(live =~= Set::<nat>::empty());
        assert(between.notices == after.notices.drop_last());
        assert(before.notices == between.notices.drop_last());
        assert(after.notices.take(before.notices.len() as int) =~= before.notices);
        assert(after.rings =~= before.rings);
    } else if other < before.calls.len() && after.calls.is_prefix_of(seen) && is_heard(
        seen,
        ring,
        other,
    ) {
        law_departure_from_a_live_channel(between, name, gone, after, other, seen);
    }
}

/// A departure from a channel that another subscriber still hears changes no channel and
/// gives no notice. The other is the receiver `other`, and was drawn from when the calls `seen`
/// had been made.
pub proof fn law_departure_from_a_live_channel<T>(
    before: TableState<T>,
    name: Seq<char>,
    gone: Option<Leaver>,
    after: TableState<T>,
    other: nat,
    seen: Seq<Call<T>>,
)
    requires
        departed(before, name, gone, after),
        before.rings.contains_key(name),
        other < before.calls.len(),
        after.calls.is_prefix_of(seen),
        is_heard(seen, before.rings[name], other),
    ensures
        after.rings == before.rings,
        after.notices == before.notices,
{
    let live = lemma_counted(before, name, gone, after);
    let last = after.calls.len() - 1;
    assert(after.calls[last] == count_call::<T>(before.rings[name], live));
    assert(after.calls[last] == seen[last]);
    assert(live.contains(other));
}

/// The last of the subscribers of a channel that leave takes the channel with it: where no
/// other receiver can be left, none is counted.
pub proof fn law_last_departure_drops_the_channel<T>(
    before: TableState<T>,
    name: Seq<char>,
    gone: Leaver,
    after: TableState<T>,
)
    requires
        departed(before, name, Some(gone), after),
        before.rings.contains_key(name),
        gone.ring == before.rings[name],
        candidates(before.calls, gone.ring).subset_of(set![gone.receiver]),
    ensures
        after.rings == before.rings.remove(name),
        after.notices.len() == before.notices.len() + 1,
        after.notices.drop_last() == before.notices,
        is_notice(after.notices.last(), removed_ring(before.notice_trace), name),
{
    let live = lemma_counted(before, name, Some(gone), after);
    assert(without(before, Some(gone)).calls.drop_last() =~= before.calls);
    assert(live =~= Set::<nat>::empty());
}

/// A departure that leaves receivers behind changes no channel and gives no notice.
pub proof fn law_channel_outlives_a_departure<T>(
    before: TableState<T>,
    name: Seq<char>,
    gone: Option<Leaver>,
    live: Set<nat>,
    after: TableState<T>,
)
    requires
        before.rings.contains_key(name),
        departed(before, name, gone, after),
        live.len() > 0,
        after.calls == without(before, gone).calls.push(count_call(before.rings[name], live)),
    ensures
        after.rings == before.rings,
        after.notices == before.notices,
{
    assert(after.calls.last() == count_call::<T>(before.rings[name], live));
    let counted = lemma_counted(before, name, gone, after);
    assert(after.calls.last() == count_call::<T>(before.rings[name], counted));
}

/// To settle a channel that is not there changes no channel, and gives notice that it is gone.
pub proof fn law_settling_an_absent_channel<T>(
    before: TableState<T>,
    name: Seq<char>,
    gone: Option<Leaver>,
    after: TableState<T>,
)
    requires
        departed(before, name, gone, after),
        !before.rings.contains_key(name),
    ensures
        after.rings == before.rings,
        after.notices.len() == before.notices.len() + 1,
        after.notices.drop_last() == before.notices,
        is_notice(after.notices.last(), removed_ring(before.notice_trace), name),
{
    assert(after.rings =~= before.rings);
}

/// A departure is settled for its channel alone: every other channel stays as it is, with the
/// receivers it can have.
pub proof fn law_departure_spares_other_channels<T>(
    before: TableState<T>,
    name: Seq<char>,
    gone: Option<Leaver>,
    after: TableState<T>,
    other: Seq<char>,
)
    requires
        consistent(before),
        gone matches Some(leaver) ==> belongs(before, name, leaver.ring),
        departed(before, name, gone, after),
        other != name,
    ensures
        after.rings.contains_key(other) == before.rings.contains_key(other),
        before.rings.contains_key(other) ==> {
            &&& after.rings[other] == before.rings[other]
            &&& candidates(after.calls, before.rings[other]) == candidates(
                before.calls,
                before.rings[other],
            )
        },
{
    let rest = without(before, gone);
    if before.rings.contains_key(other) {
        let spared = before.rings[other];
        assert(candidates(rest.calls, spared) == candidates(before.calls, spared)) by {
            if gone is Some {
                assert(rest.calls.drop_last() =~= before.calls);
            }
        }
        if before.rings.contains_key(name) {
            let live = lemma_counted(before, name, gone, after);
            assert(after.calls.drop_last() =~= rest.calls);
        }
    }
}

/// Publishing opens no channel, and on a channel that is not there it does nothing.
pub proof fn law_publishing_opens_nothing<T>(
    before: TableState<T>,
    name: Seq<char>,
    value: T,
    after: TableState<T>,
)
    requires
        published(before, name, value, after),
    ensures
        after.rings.dom().subset_of(before.rings.dom()),
        !before.rings.contains_key(name) ==> after == before,
{
}

/// A message on a channel that can have no receiver reaches nobody, and the
/// channel is dropped, with one notice.
pub proof fn law_unheard_message_drops_the_channel<T>(
    before: TableState<T>,
    name: Seq<char>,
    value: T,
    after: TableState<T>,
)
    requires
        published(before, name, value, after),
        before.rings.contains_key(name),
        candidates(before.calls, before.rings[name]) == Set::<nat>::empty(),
    ensures
        after.rings == before.rings.remove(name),
        after.calls == before.calls.push(send_call(before.rings[name], value, Set::empty())),
        after.notices.len() == before.notices.len() + 1,
        after.notices.drop_last() == before.notices,
        is_notice(after.notices.last(), removed_ring(before.notice_trace), name),
{
    let live = lemma_reached(before, name, value, after);
    assert(live =~= Set::<nat>::empty());
}

} // verus!
