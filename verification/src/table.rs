//! The channels in use, what can happen to them, and the notices given of them.

use vstd::prelude::*;

use crate::broadcast::{
    can_be_live, candidates, count_call, is_heard, law_room_is_enough, new_cursor, room, send_call,
    valid_capacity, Call, Feed, Gone, Mark, Ring, Topic, Trace,
};
use crate::channels::{next_ring, rings_are_own, texts, Channels};
use crate::laws::law_step_keeps_consistent;
use crate::lock::{Guarded, Session};

verus! {

/// How many notices a receiver of notices can be behind.
pub const NOTICE_CAPACITY: usize = 32;

/// The ring on which the names of new channels are sent, of the rings of notices that were
/// opened under `trace`.
pub open spec fn added_ring(trace: int) -> Ring {
    Ring { trace, number: 0 }
}

/// The ring on which the names of channels that are gone are sent.
pub open spec fn removed_ring(trace: int) -> Ring {
    Ring { trace, number: 1 }
}

/// What a [`Table`] holds: the ring of each channel, the trace of the calls made on these
/// rings, and the trace of the calls made on the two rings of notices.
#[verifier::ext_equal]
#[verifier::reject_recursive_types(T)]
pub struct TableState<T> {
    pub rings: Map<Seq<char>, Ring>,
    pub trace: int,
    pub calls: Seq<Call<T>>,
    pub notice_trace: int,
    pub notices: Seq<Call<String>>,
}

/// The call sends `name` on `ring`.
pub open spec fn is_notice(call: Call<String>, ring: Ring, name: Seq<char>) -> bool {
    call matches Call::Send { ring: used, value, .. } && used == ring && value@ == name
}

/// `after` is `before` and one more call, which sends `name` on `ring`.
pub open spec fn notified(
    before: Seq<Call<String>>,
    ring: Ring,
    name: Seq<char>,
    after: Seq<Call<String>>,
) -> bool {
    &&& after.len() == before.len() + 1
    &&& after.drop_last() == before
    &&& is_notice(after.last(), ring, name)
}

/// The channels that a listener of both rings of notices knows of.
pub open spec fn replay(trace: int, notices: Seq<Call<String>>) -> Set<Seq<char>>
    decreases notices.len(),
{
    if notices.len() == 0 {
        Set::empty()
    } else {
        let known = replay(trace, notices.drop_last());
        match notices.last() {
            Call::Send { ring, value, .. } => if ring == added_ring(trace) {
                known.insert(value@)
            } else if ring == removed_ring(trace) {
                known.remove(value@)
            } else {
                known
            },
            _ => known,
        }
    }
}

/// The two rings of notices were opened first, with room for [`NOTICE_CAPACITY`] names each.
pub open spec fn notices_are_open(notices: Seq<Call<String>>) -> bool {
    &&& notices.len() >= 2
    &&& notices[0] == Call::<String>::Open { capacity: NOTICE_CAPACITY }
    &&& notices[1] == Call::<String>::Open { capacity: NOTICE_CAPACITY }
}

/// The invariant: no two channels share a ring, the notices sent so far name exactly the
/// channels that are there, and each of these has a receiver that is not known to be gone.
pub open spec fn consistent<T>(state: TableState<T>) -> bool {
    &&& rings_are_own(state.rings, state.trace, state.calls)
    &&& notices_are_open(state.notices)
    &&& replay(state.notice_trace, state.notices) == state.rings.dom()
    &&& none_is_deserted(state.rings, state.calls)
}

/// Each channel can have a receiver.
pub open spec fn none_is_deserted<T>(
    rings: Map<Seq<char>, Ring>,
    calls: Seq<Call<T>>,
) -> bool {
    forall|name: Seq<char>| #[trigger]
        rings.contains_key(name) ==> candidates(calls, rings[name]) != Set::<nat>::empty()
}

/// `ring` is that of no channel but `name`.
pub open spec fn belongs<T>(state: TableState<T>, name: Seq<char>, ring: Ring) -> bool {
    forall|other: Seq<char>| #[trigger]
        state.rings.contains_key(other) && state.rings[other] == ring ==> other == name
}

/// There is no channel, nothing was sent, and the two rings of notices were opened with
/// room for [`NOTICE_CAPACITY`] names each.
pub open spec fn is_fresh<T>(state: TableState<T>) -> bool {
    &&& state.rings == Map::<Seq<char>, Ring>::empty()
    &&& state.calls == Seq::<Call<T>>::empty()
    &&& state.notices == seq![
        Call::<String>::Open { capacity: NOTICE_CAPACITY },
        Call::<String>::Open { capacity: NOTICE_CAPACITY },
    ]
}

/// A receiver of ring `ring` was given out for channel `name`: that of the channel, or a
/// new one, in which case the channel was announced.
pub open spec fn subscribed<T>(
    before: TableState<T>,
    name: Seq<char>,
    capacity: usize,
    after: TableState<T>,
    ring: Ring,
) -> bool {
    if before.rings.contains_key(name) {
        &&& ring == before.rings[name]
        &&& after == (TableState {
            calls: before.calls.push(Call::Attach { ring }),
            ..before
        })
    } else {
        &&& ring == next_ring(before.trace, before.calls)
        &&& after.rings == before.rings.insert(name, ring)
        &&& after.trace == before.trace
        &&& after.calls == before.calls.push(Call::Open { capacity })
        &&& after.notice_trace == before.notice_trace
        &&& notified(before.notices, added_ring(before.notice_trace), name, after.notices)
    }
}

/// Channel `name` was dropped from the table, and that was announced.
pub open spec fn unsubscribed<T>(
    before: TableState<T>,
    name: Seq<char>,
    after: TableState<T>,
) -> bool {
    &&& after.rings == before.rings.remove(name)
    &&& after.trace == before.trace
    &&& after.calls == before.calls
    &&& after.notice_trace == before.notice_trace
    &&& notified(before.notices, removed_ring(before.notice_trace), name, after.notices)
}

/// `value` was sent on the ring of channel `name`, where it has one. Where the ring had no
/// receiver, the channel was dropped.
pub open spec fn published<T>(
    before: TableState<T>,
    name: Seq<char>,
    value: T,
    after: TableState<T>,
) -> bool {
    if before.rings.contains_key(name) {
        exists|live: Set<nat>|
            {
                let sent = TableState {
                    calls: before.calls.push(#[trigger] send_call(before.rings[name], value, live)),
                    ..before
                };
                &&& can_be_live(before.calls, before.rings[name], live)
                &&& if live.len() > 0 {
                    after == sent
                } else {
                    unsubscribed(sent, name, after)
                }
            }
    } else {
        after == before
    }
}

/// A channel with no receiver left was dropped; any other stayed.
pub open spec fn settled<T>(
    before: TableState<T>,
    name: Seq<char>,
    receivers: nat,
    after: TableState<T>,
) -> bool {
    if receivers == 0 {
        unsubscribed(before, name, after)
    } else {
        after == before
    }
}

/// A receiver that is gone: the ring it drew from, and the call that gave it out.
pub struct Leaver {
    pub ring: Ring,
    pub receiver: nat,
}

/// The receiver that `gone` is evidence of.
pub open spec fn leaver(gone: Option<Gone>) -> Option<Leaver> {
    match gone {
        Some(gone) => Some(Leaver { ring: gone.ring(), receiver: gone.receiver() }),
        None => None,
    }
}

/// `before`, once it was taken down that `gone` is gone.
pub open spec fn without<T>(before: TableState<T>, gone: Option<Leaver>) -> TableState<T> {
    match gone {
        Some(leaver) => TableState {
            calls: before.calls.push(
                Call::Left { ring: leaver.ring, receiver: leaver.receiver },
            ),
            ..before
        },
        None => before,
    }
}

/// A receiver of channel `name` went away, `gone` where it is known which: when it was gone,
/// the receivers that are left were counted, none for a channel that is not there, and the
/// channel was settled accordingly.
pub open spec fn departed<T>(
    before: TableState<T>,
    name: Seq<char>,
    gone: Option<Leaver>,
    after: TableState<T>,
) -> bool {
    let rest = without(before, gone);
    if before.rings.contains_key(name) {
        exists|live: Set<nat>|
            {
                &&& can_be_live(rest.calls, before.rings[name], live)
                &&& settled(
                    TableState {
                        calls: rest.calls.push(#[trigger] count_call(before.rings[name], live)),
                        ..rest
                    },
                    name,
                    live.len(),
                    after,
                )
            }
    } else {
        settled(rest, name, 0, after)
    }
}

/// A receiver of a ring of notices was given out.
pub open spec fn listened<T>(before: TableState<T>, ring: Ring, after: TableState<T>) -> bool {
    after == (TableState { notices: before.notices.push(Call::Attach { ring }), ..before })
}

/// `names` are the channels of `state`, each once.
pub open spec fn is_listing<T>(state: TableState<T>, names: Seq<String>) -> bool {
    &&& texts(names).no_duplicates()
    &&& texts(names).to_set() == state.rings.dom()
}

/// What can happen to the channels of a hub.
pub enum Event<T> {
    Subscribe { name: Seq<char>, capacity: usize, ring: Ring },
    Publish { name: Seq<char>, value: T },
    Depart { name: Seq<char>, gone: Option<Leaver> },
    Listen { ring: Ring },
}

/// `event` can take the channels from `before` to `after`.
pub open spec fn step<T>(before: TableState<T>, event: Event<T>, after: TableState<T>) -> bool {
    match event {
        Event::Subscribe { name, capacity, ring } => subscribed(
            before,
            name,
            capacity,
            after,
            ring,
        ),
        Event::Publish { name, value } => published(before, name, value, after),
        Event::Depart { name, gone } => {
            &&& gone matches Some(leaver) ==> belongs(before, name, leaver.ring)
            &&& departed(before, name, gone, after)
        },
        Event::Listen { ring } => listened(before, ring, after),
    }
}

/// `events` can take the channels through `states`.
pub open spec fn run<T>(states: Seq<TableState<T>>, events: Seq<Event<T>>) -> bool {
    &&& states.len() == events.len() + 1
    &&& forall|i: int| 0 <= i < events.len() ==> #[trigger] step(states[i], events[i], states[i + 1])
}

/// Events can take the channels from `before` to `after`.
pub open spec fn reaches<T>(before: TableState<T>, after: TableState<T>) -> bool {
    exists|states: Seq<TableState<T>>, events: Seq<Event<T>>|
        #![trigger run(states, events)]
        run(states, events) && states[0] == before && states.last() == after
}

/// One event leads from one state to the next.
pub proof fn lemma_step_reaches<T>(before: TableState<T>, event: Event<T>, after: TableState<T>)
    requires
        step(before, event, after),
    ensures
        reaches(before, after),
{
    let states = seq![before, after];
    let events = seq![event];
    assert(run(states, events));
}

/// No event at all leads from a state to itself.
pub proof fn lemma_reaches_itself<T>(state: TableState<T>)
    ensures
        reaches(state, state),
{
    let states = seq![state];
    let events = Seq::<Event<T>>::empty();
    assert(run(states, events));
}

/// Events that lead to a state, and then on from it, lead on.
pub proof fn lemma_reaches_on<T>(
    before: TableState<T>,
    between: TableState<T>,
    after: TableState<T>,
)
    requires
        reaches(before, between),
        reaches(between, after),
    ensures
        reaches(before, after),
{
    let (first, first_events) = choose|states: Seq<TableState<T>>, events: Seq<Event<T>>|
        #![trigger run(states, events)]
        run(states, events) && states[0] == before && states.last() == between;
    let (second, second_events) = choose|states: Seq<TableState<T>>, events: Seq<Event<T>>|
        #![trigger run(states, events)]
        run(states, events) && states[0] == between && states.last() == after;
    let states = first + second.skip(1);
    let events = first_events + second_events;
    assert forall|i: int| 0 <= i < events.len() implies #[trigger] step(
        states[i],
        events[i],
        states[i + 1],
    ) by {
        if i < first_events.len() {
            assert(step(first[i], first_events[i], first[i + 1]));
        } else {
            let j = i - first_events.len();
            assert(step(second[j], second_events[j], second[j + 1]));
        }
    }
    assert(run(states, events));
}

/// The channels in use and the notices given of them.
#[verifier::reject_recursive_types(T)]
pub struct Table<T> {
    channels: Channels<T>,
    notices: Trace<String>,
}

impl<T> View for Table<T> {
    type V = TableState<T>;

    closed spec fn view(&self) -> TableState<T> {
        TableState {
            rings: self.channels@.rings,
            trace: self.channels@.trace,
            calls: self.channels@.calls,
            notice_trace: self.notices.id(),
            notices: self.notices@,
        }
    }
}

impl<T> Guarded for Table<T> {
    open spec fn inv(self) -> bool {
        self.wf()
    }

    open spec fn key(self) -> (int, int) {
        (self@.notice_trace, self@.trace)
    }

    open spec fn leads_to(self, later: Self) -> bool {
        reaches(self@, later@)
    }

    proof fn leads_to_itself(self) {
        lemma_reaches_itself(self@);
    }

    proof fn leads_on(self, between: Self, later: Self) {
        lemma_reaches_on(self@, between@, later@);
    }
}

/// The channels have come to hold no sending half of `ring`, while all calls on the ring found
/// `receiver`.
pub open spec fn has_dropped<T>(session: Session<Table<T>>, ring: Ring, receiver: nat) -> bool {
    exists|now: Table<T>| #[trigger]
        session.leads_to(now) && now.wf() && is_heard(now@.calls, ring, receiver)
            && !now@.rings.values().contains(ring)
}

/// Evidence of the calls that a [`Table`] shows.
#[verifier::reject_recursive_types(T)]
pub struct Marks<T> {
    calls: Mark<T>,
    notices: Mark<String>,
}

impl<T> Marks<T> {
    /// Evidence of the calls made on the rings of channels.
    pub closed spec fn calls(self) -> Mark<T> {
        self.calls
    }

    /// Evidence of the calls made on the rings of notices.
    pub closed spec fn notices(self) -> Mark<String> {
        self.notices
    }

    /// This is what `table` shows.
    pub open spec fn are_of(self, table: Table<T>) -> bool {
        &&& self.calls().id() == table@.trace
        &&& self.calls()@ == table@.calls
        &&& self.notices().id() == table@.notice_trace
        &&& self.notices()@ == table@.notices
    }

    /// The calls made on the rings of channels.
    pub fn of_channels(&self) -> (mark: &Mark<T>)
        ensures
            *mark == self.calls(),
    {
        &self.calls
    }

    /// The calls made on the rings of notices.
    pub fn of_notices(&self) -> (mark: &Mark<String>)
        ensures
            *mark == self.notices(),
    {
        &self.notices
    }

    /// The same evidence once more.
    pub fn again(&self) -> (marks: Self)
        ensures
            marks == *self,
    {
        Marks { calls: self.calls.again(), notices: self.notices.again() }
    }
}

impl<T> Table<T> {
    /// The invariant of the table.
    pub closed spec fn wf(self) -> bool {
        &&& self.channels.wf()
        &&& consistent(self@)
    }

    /// What holds of the table even while a channel is being settled.
    pub closed spec fn is_sound(self) -> bool {
        self.channels.wf()
    }

    /// `topic` is the ring on which new channels are announced.
    pub open spec fn announces_added(self, topic: Topic<String>) -> bool {
        topic.ring() == added_ring(self@.notice_trace)
    }

    /// `topic` is the ring on which it is announced that channels are gone.
    pub open spec fn announces_removed(self, topic: Topic<String>) -> bool {
        topic.ring() == removed_ring(self@.notice_trace)
    }

    /// What a well-formed table guarantees.
    pub proof fn lemma_consistent(self)
        requires
            self.wf(),
        ensures
            consistent(self@),
    {
    }

    /// The table without channels, under a trace of the rings of notices.
    pub fn new(notices: Trace<String>) -> (table: Self)
        requires
            notices_are_open(notices@),
            replay(notices.id(), notices@) == Set::<Seq<char>>::empty(),
        ensures
            table.wf(),
            table@.rings == Map::<Seq<char>, Ring>::empty(),
            table@.calls == Seq::<Call<T>>::empty(),
            table@.notices == notices@,
            table@.notice_trace == notices.id(),
    {
        Table { channels: Channels::new(), notices }
    }

    /// Drops `channel` and announces that on `removed`.
    fn unsubscribe(&mut self, channel: &String, removed: &Topic<String>)
        requires
            old(self).is_sound(),
            old(self).announces_removed(*removed),
        ensures
            final(self).is_sound(),
            final(self).key() == old(self).key(),
            unsubscribed(old(self)@, channel@, final(self)@),
    {
        self.channels.remove(channel);
        let _ = removed.send(channel.clone(), &mut self.notices);
        assert(self.notices@.drop_last() =~= old(self)@.notices);
    }

    /// Drops `channel` where it has no receiver left, and announces that on `removed`.
    fn settle(&mut self, channel: &String, receivers: usize, removed: &Topic<String>)
        requires
            old(self).is_sound(),
            old(self).announces_removed(*removed),
        ensures
            final(self).is_sound(),
            final(self).key() == old(self).key(),
            settled(old(self)@, channel@, receivers as nat, final(self)@),
    {
        if receivers == 0 {
            self.unsubscribe(channel, removed);
        }
    }

    /// Sends `msg` to the receivers of `channel`. A channel without receivers is dropped,
    /// and that is announced on `removed`.
    pub fn publish(&mut self, channel: &String, msg: T, removed: &Topic<String>)
        requires
            old(self).wf(),
            old(self).announces_removed(*removed),
        ensures
            final(self).wf(),
            final(self).key() == old(self).key(),
            old(self).leads_to(*final(self)),
            published(old(self)@, channel@, msg, final(self)@),
    {
        let answer = self.channels.send(channel.as_str(), msg);
        if let Some(reached) = answer {
            if reached.is_none() {
                self.unsubscribe(channel, removed);
            }
        }
        proof {
            let event = Event::Publish { name: channel@, value: msg };
            assert(published(old(self)@, channel@, msg, self@));
            lemma_step_reaches(old(self)@, event, self@);
            law_step_keeps_consistent(old(self)@, event, self@);
        }
    }

    /// Takes note that a receiver of `channel` is gone, `gone` where it is known which. Where
    /// it was the last, the channel is dropped, and that is announced on `removed`; so it is
    /// where there is no such channel.
    pub fn notify_unsubscribe(
        &mut self,
        channel: &String,
        gone: Option<Gone>,
        removed: &Topic<String>,
    )
        requires
            old(self).wf(),
            gone matches Some(gone) ==> belongs(old(self)@, channel@, gone.ring()),
            old(self).announces_removed(*removed),
        ensures
            final(self).wf(),
            final(self).key() == old(self).key(),
            old(self).leads_to(*final(self)),
            departed(old(self)@, channel@, leaver(gone), final(self)@),
    {
        if let Some(gone) = gone {
            self.channels.leave(gone);
        }
        match self.channels.receiver_count(channel.as_str()) {
            Some(receivers) => {
                self.settle(channel, receivers, removed);
            },
            None => {
                self.settle(channel, 0, removed);
            },
        }
        proof {
            let event = Event::Depart { name: channel@, gone: leaver(gone) };
            assert(departed(old(self)@, channel@, leaver(gone), self@));
            lemma_step_reaches(old(self)@, event, self@);
            law_step_keeps_consistent(old(self)@, event, self@);
        }
    }

    /// A receiver of the notices given on `topic`, one of the two rings of notices.
    pub fn listen(&mut self, topic: &Topic<String>) -> (feed: Feed<String>)
        requires
            old(self).wf(),
            old(self).announces_added(*topic) || old(self).announces_removed(*topic),
        ensures
            final(self).wf(),
            final(self).key() == old(self).key(),
            old(self).leads_to(*final(self)),
            feed.ring() == topic.ring(),
            feed.cursor() == new_cursor(final(self)@.notices),
            listened(old(self)@, feed.ring(), final(self)@),
    {
        let feed = topic.subscribe(&mut self.notices);
        assert(self.notices@.drop_last() =~= old(self)@.notices);
        proof {
            let event = Event::Listen { ring: topic.ring() };
            lemma_step_reaches(old(self)@, event, self@);
            law_step_keeps_consistent(old(self)@, event, self@);
        }
        feed
    }

    /// Evidence of the calls made so far.
    pub fn marks(&self) -> (marks: Marks<T>)
        ensures
            marks.are_of(*self),
    {
        Marks { calls: self.channels.mark(), notices: self.notices.mark() }
    }

    /// The channels that are there, each once.
    pub fn channels(&self) -> (names: Vec<String>)
        requires
            self.wf(),
        ensures
            is_listing(self@, names@),
    {
        self.channels.names()
    }
}

impl<T: Clone> Table<T> {
    /// A receiver of `channel`. Where the channel is not there yet, its ring is opened with
    /// room for `capacity` messages, and it is announced on `added`.
    pub fn subscribe(&mut self, channel: &String, capacity: usize, added: &Topic<String>) -> (feed:
        Feed<T>)
        requires
            old(self).wf(),
            valid_capacity(capacity),
            old(self).announces_added(*added),
        ensures
            final(self).wf(),
            final(self).key() == old(self).key(),
            old(self).leads_to(*final(self)),
            subscribed(old(self)@, channel@, capacity, final(self)@, feed.ring()),
            feed.cursor() == new_cursor(final(self)@.calls),
            final(self)@.rings == old(self)@.rings.insert(channel@, feed.ring()),
            !old(self)@.rings.contains_key(channel@) ==> room(final(self)@.calls, feed.ring())
                >= capacity,
    {
        let (feed, opened) = self.channels.attach(channel, capacity);
        if opened {
            let _ = added.send(channel.clone(), &mut self.notices);
            assert(self.notices@.drop_last() =~= old(self)@.notices);
        }
        proof {
            assert(self@.rings =~= old(self)@.rings.insert(channel@, feed.ring()));
            if opened {
                law_room_is_enough(self@.calls, feed.ring(), capacity);
            }
            let event = Event::Subscribe { name: channel@, capacity, ring: feed.ring() };
            assert(subscribed(old(self)@, channel@, capacity, self@, feed.ring()));
            lemma_step_reaches(old(self)@, event, self@);
            law_step_keeps_consistent(old(self)@, event, self@);
        }
        feed
    }
}

} // verus!
