//! Publishing to named channels, with notice of the channels that come and go.

use vstd::prelude::*;

use std::ops::Deref;
use std::sync::Arc;
use std::task::Context;

use crate::broadcast::{
    drew, is_heard, new_cursor, open, room, valid_capacity, yielded, Call, Cursor, Feed, FeedStream, Gone, Ring,
    Topic, Trace, TryRecvError,
};
use crate::laws::{
    law_listing_is_exact, law_live_subscriber_keeps_the_channel, law_ring_belongs_to_its_channel,
};
use crate::lock::{share, Guarded, Session, Shared, Transition};
use crate::table::{
    added_ring, belongs, consistent, departed, has_dropped, is_fresh, is_listing, leaver,
    lemma_reaches_on, listened, notices_are_open, published, removed_ring, replay, subscribed, Leaver,
    Marks, Table, TableState, NOTICE_CAPACITY,
};

verus! {

/// The table has channel `name`, with the ring `ring`, of which `receiver` was given out.
pub open spec fn is_joined<T>(
    table: Table<T>,
    name: Seq<char>,
    ring: Ring,
    receiver: nat,
) -> bool {
    &&& consistent(table@)
    &&& table@.rings.contains_key(name)
    &&& table@.rings[name] == ring
    &&& receiver < table@.calls.len()
}

/// What a handle of a hub may do, what it has done, and what it has evidence of.
#[verifier::reject_recursive_types(T)]
pub struct Ticket<T> {
    session: Session<Table<T>>,
    marks: Marks<T>,
}

impl<T> Ticket<T> {
    /// The leave to make sections on the channels, with the record of them.
    pub closed spec fn session(self) -> Session<Table<T>> {
        self.session
    }

    /// Evidence of the calls made.
    pub closed spec fn marks(self) -> Marks<T> {
        self.marks
    }

    /// The evidence is of calls made for the channels of this ticket.
    pub open spec fn wf(self) -> bool {
        &&& self.marks().notices().id() == self.session().shared().key().0
        &&& self.marks().calls().id() == self.session().shared().key().1
    }

    /// The section that was made last.
    pub open spec fn latest(self) -> Transition<Table<T>> {
        self.session().latest()
    }

    /// The channel `name` is known to have had the ring `ring`, of which `receiver` was given
    /// out.
    pub open spec fn has_joined(self, name: Seq<char>, ring: Ring, receiver: nat) -> bool {
        exists|joined: Table<T>| #[trigger]
            self.session().known().contains(joined) && is_joined(joined, name, ring, receiver)
    }

    /// Nothing was done with this ticket.
    pub open spec fn is_unused(self) -> bool {
        &&& self.session().made() == Seq::<Transition<Table<T>>>::empty()
        &&& self.session().splits() == 0
    }

    /// There is no other ticket, and the channels are fresh.
    pub open spec fn is_first(self) -> bool {
        &&& self.is_unused()
        &&& self.session().is_sole()
        &&& is_fresh(self.session().left()@)
        &&& self.session().known() == Set::<Table<T>>::empty().insert(self.session().left())
    }

    /// Exactly one section was made with ticket `self`, which became `later`.
    pub open spec fn advanced(self, later: Self) -> bool {
        &&& later.wf()
        &&& self.session().advanced(later.session())
        &&& later.marks().are_of(later.latest().after)
        &&& consistent(later.latest().before@)
        &&& consistent(later.latest().after@)
    }

    /// Hands the evidence of notices to a receiver of notices.
    pub fn inform(&self, feed: &mut Feed<String>)
        requires
            self.wf(),
            old(feed).ring().trace == self.session().shared().key().0,
        ensures
            final(feed).ring() == old(feed).ring(),
            final(feed).cursor() == (Cursor {
                known: old(feed).cursor().known.insert(self.marks().notices()@),
                ..old(feed).cursor()
            }),
    {
        feed.learn(self.marks.of_notices());
    }

    /// Hands the evidence of notices to a stream of notices.
    pub fn inform_stream(&self, stream: &mut FeedStream<String>)
        requires
            self.wf(),
            old(stream).ring().trace == self.session().shared().key().0,
        ensures
            final(stream).ring() == old(stream).ring(),
            final(stream).cursor() == (Cursor {
                known: old(stream).cursor().known.insert(self.marks().notices()@),
                ..old(stream).cursor()
            }),
    {
        stream.learn(self.marks.of_notices());
    }

    /// Another ticket, which knows what this one knows.
    pub fn split(&mut self) -> (other: Self)
        requires
            old(self).wf(),
        ensures
            other.wf(),
            other.is_unused(),
            other.session().shared() == old(self).session().shared(),
            other.session().known() == old(self).session().known(),
            other.marks() == old(self).marks(),
            final(self).wf(),
            final(self).marks() == old(self).marks(),
            final(self).session().shared() == old(self).session().shared(),
            final(self).session().made() == old(self).session().made(),
            final(self).session().splits() == old(self).session().splits() + 1,
            final(self).session().known() == old(self).session().known(),
            final(self).session().is_first() == old(self).session().is_first(),
            final(self).session().left() == old(self).session().left(),
    {
        Ticket { session: self.session.split(), marks: self.marks.again() }
    }
}

/// The state behind a [`PubSub`]: the channels and the two rings of notices.
#[verifier::reject_recursive_types(T)]
pub struct Inner<T> {
    buffer_size: usize,
    channels: Shared<Table<T>>,
    channel_added_broadcast: Topic<String>,
    channel_removed_broadcast: Topic<String>,
}

/// Receivers of both rings of notices, and the channels that were there when they were
/// given out.
pub struct Watch {
    /// Sees the names of channels that come.
    pub added: Feed<String>,
    /// Sees the names of channels that go.
    pub removed: Feed<String>,
    /// The channels.
    pub names: Vec<String>,
}

/// Receivers of the rings of notices `added` and `removed` were given out on the channels
/// `before`, and the channels `names` were listed in the same section.
pub open spec fn watched<T>(
    before: TableState<T>,
    added: Ring,
    added_cursor: Cursor<String>,
    removed: Ring,
    removed_cursor: Cursor<String>,
    names: Seq<String>,
    after: TableState<T>,
) -> bool {
    let between = TableState { notices: after.notices.drop_last(), ..after };
    &&& listened(before, added, between)
    &&& added_cursor == new_cursor(between.notices)
    &&& listened(between, removed, after)
    &&& removed_cursor == new_cursor(after.notices)
    &&& is_listing(after, names)
}

impl Watch {
    /// The receivers were given out, and the channels listed, in one section that found
    /// `before` and left `after`.
    pub open spec fn is_from<T>(self, before: TableState<T>, after: TableState<T>) -> bool {
        watched(
            before,
            self.added.ring(),
            self.added.cursor(),
            self.removed.ring(),
            self.removed.cursor(),
            self.names@,
            after,
        )
    }
}

impl<T> Inner<T> {
    #[verifier::type_invariant]
    spec fn inv(self) -> bool {
        &&& self.channel_added_broadcast.ring() == self.added()
        &&& self.channel_removed_broadcast.ring() == self.removed()
    }

    /// How many messages a receiver can be behind.
    pub closed spec fn buffer_size(self) -> usize {
        self.buffer_size
    }

    /// The channels, as threads share them.
    pub closed spec fn shared(self) -> Shared<Table<T>> {
        self.channels
    }

    /// The ring on which new channels are announced.
    pub open spec fn added(self) -> Ring {
        added_ring(self.shared().key().0)
    }

    /// The ring on which it is announced that channels are gone.
    pub open spec fn removed(self) -> Ring {
        removed_ring(self.shared().key().0)
    }

    /// `ticket` is for these channels.
    pub open spec fn admits(self, ticket: Ticket<T>) -> bool {
        ticket.wf() && ticket.session().shared() == self.shared()
    }

    /// No channels, and two rings of notices with room for [`NOTICE_CAPACITY`] names each.
    fn new(buffer_size: usize) -> (made: (Self, Ticket<T>))
        ensures
            made.0.buffer_size() == buffer_size,
            made.0.admits(made.1),
            made.1.is_unused(),
            made.1.is_first(),
    {
        let mut notices: Trace<String> = Trace::new();
        let (channel_added_broadcast, _) = open(NOTICE_CAPACITY, &mut notices);
        let (channel_removed_broadcast, _) = open(NOTICE_CAPACITY, &mut notices);
        proof {
            reveal_with_fuel(replay, 3);
            assert(notices@ =~= seq![
                Call::<String>::Open { capacity: NOTICE_CAPACITY },
                Call::<String>::Open { capacity: NOTICE_CAPACITY },
            ]);
        }
        let table = Table::new(notices);
        let marks = table.marks();
        let (channels, session) = Shared::new(table);
        let inner = Inner {
            buffer_size,
            channels,
            channel_added_broadcast,
            channel_removed_broadcast,
        };
        (inner, Ticket { session, marks })
    }

    /// Sends `msg` to the receivers of `channel`. A channel that turns out to have no
    /// receiver is dropped, and that is announced. (Messages that give way to this one are
    /// dropped while the hub is locked, so dropping a message must not use the hub.)
    pub fn publish(self: &Arc<Self>, channel: &String, msg: T, ticket: &mut Ticket<T>)
        requires
            self.admits(*old(ticket)),
        ensures
            self.admits(*final(ticket)),
            old(ticket).advanced(*final(ticket)),
            final(ticket).session().splits() == old(ticket).session().splits(),
            published(
                final(ticket).latest().before@,
                channel@,
                msg,
                final(ticket).latest().after@,
            ),
    {
        let inner: &Inner<T> = self;
        proof {
            use_type_invariant(inner);
        }
        let removed = &inner.channel_removed_broadcast;
        ticket.marks = inner.channels.transact(
            &mut ticket.session,
            |table: &mut Table<T>| -> (marks: Marks<T>)
                requires
                    old(table).wf(),
                    old(table).announces_removed(*removed),
                ensures
                    final(table).wf(),
                    final(table).key() == old(table).key(),
                    old(table).leads_to(*final(table)),
                    published(old(table)@, channel@, msg, final(table)@),
                    marks.are_of(*final(table))
            {
                table.publish(channel, msg, removed);
                table.marks()
            },
        );
        proof {
            ticket.session.latest().before.lemma_consistent();
            ticket.session.latest().after.lemma_consistent();
        }
    }

    /// The channels that are there, each once.
    pub fn channels(&self, ticket: &mut Ticket<T>) -> (names: Vec<String>)
        requires
            self.admits(*old(ticket)),
        ensures
            self.admits(*final(ticket)),
            old(ticket).advanced(*final(ticket)),
            final(ticket).session().splits() == old(ticket).session().splits(),
            final(ticket).latest().after == final(ticket).latest().before,
            is_listing(final(ticket).latest().after@, names@),
            forall|name: Seq<char>| #[trigger]
                final(ticket).latest().after@.rings.contains_key(name) == (exists|i: int|
                    0 <= i < names.len() && (#[trigger] names@[i])@ == name),
    {
        let (names, marks) = self.channels.inspect(
            &mut ticket.session,
            |table: &Table<T>| -> (found: (Vec<String>, Marks<T>))
                requires
                    table.wf(),
                ensures
                    is_listing(table@, found.0@),
                    found.1.are_of(*table)
            { (table.channels(), table.marks()) },
        );
        ticket.marks = marks;
        proof {
            ticket.session.latest().after.lemma_consistent();
            let there = ticket.session.latest().after@;
            assert forall|name: Seq<char>| #[trigger]
                there.rings.contains_key(name) == (exists|i: int|
                    0 <= i < names.len() && (#[trigger] names@[i])@ == name) by {
                law_listing_is_exact(there, names@, name);
            }
        }
        names
    }

    /// A receiver of the names of channels that come after this.
    pub fn subscribe_channel_added(&self, ticket: &mut Ticket<T>) -> (feed: Feed<String>)
        requires
            self.admits(*old(ticket)),
        ensures
            self.admits(*final(ticket)),
            old(ticket).advanced(*final(ticket)),
            final(ticket).session().splits() == old(ticket).session().splits(),
            feed.ring() == self.added(),
            feed.ring() == added_ring(final(ticket).latest().after@.notice_trace),
            feed.cursor() == new_cursor(final(ticket).latest().after@.notices),
            listened(final(ticket).latest().before@, feed.ring(), final(ticket).latest().after@),
    {
        proof {
            use_type_invariant(self);
        }
        self.listen(&self.channel_added_broadcast, ticket)
    }

    /// A receiver of the names of channels that go after this.
    pub fn subscribe_channel_removed(&self, ticket: &mut Ticket<T>) -> (feed: Feed<String>)
        requires
            self.admits(*old(ticket)),
        ensures
            self.admits(*final(ticket)),
            old(ticket).advanced(*final(ticket)),
            final(ticket).session().splits() == old(ticket).session().splits(),
            feed.ring() == self.removed(),
            feed.ring() == removed_ring(final(ticket).latest().after@.notice_trace),
            feed.cursor() == new_cursor(final(ticket).latest().after@.notices),
            listened(final(ticket).latest().before@, feed.ring(), final(ticket).latest().after@),
    {
        proof {
            use_type_invariant(self);
        }
        self.listen(&self.channel_removed_broadcast, ticket)
    }

    /// A receiver of the notices given on `topic`, one of the two rings of notices.
    fn listen(&self, topic: &Topic<String>, ticket: &mut Ticket<T>) -> (feed: Feed<String>)
        requires
            self.admits(*old(ticket)),
            topic.ring() == self.added() || topic.ring() == self.removed(),
        ensures
            self.admits(*final(ticket)),
            old(ticket).advanced(*final(ticket)),
            final(ticket).session().splits() == old(ticket).session().splits(),
            feed.ring() == topic.ring(),
            feed.cursor() == new_cursor(final(ticket).latest().after@.notices),
            listened(final(ticket).latest().before@, feed.ring(), final(ticket).latest().after@),
    {
        let (feed, marks) = self.channels.transact(
            &mut ticket.session,
            |table: &mut Table<T>| -> (heard: (Feed<String>, Marks<T>))
                requires
                    old(table).wf(),
                    old(table).announces_added(*topic) || old(table).announces_removed(*topic),
                ensures
                    final(table).wf(),
                    final(table).key() == old(table).key(),
                    old(table).leads_to(*final(table)),
                    heard.0.ring() == topic.ring(),
                    heard.0.cursor() == new_cursor(final(table)@.notices),
                    listened(old(table)@, heard.0.ring(), final(table)@),
                    heard.1.are_of(*final(table))
            {
                let feed = table.listen(topic);
                (feed, table.marks())
            },
        );
        ticket.marks = marks;
        proof {
            ticket.session.latest().before.lemma_consistent();
            ticket.session.latest().after.lemma_consistent();
        }
        feed
    }

    /// Listens to both rings of notices and lists the channels that are there, at one
    /// moment: what comes or goes after the listing is told, and nothing else is.
    pub fn watch(&self, ticket: &mut Ticket<T>) -> (watch: Watch)
        requires
            self.admits(*old(ticket)),
        ensures
            self.admits(*final(ticket)),
            old(ticket).advanced(*final(ticket)),
            final(ticket).session().splits() == old(ticket).session().splits(),
            watch.added.ring() == self.added(),
            watch.removed.ring() == self.removed(),
            watch.added.ring() == added_ring(final(ticket).latest().after@.notice_trace),
            watch.removed.ring() == removed_ring(final(ticket).latest().after@.notice_trace),
            watch.is_from(final(ticket).latest().before@, final(ticket).latest().after@),
    {
        proof {
            use_type_invariant(self);
        }
        let added = &self.channel_added_broadcast;
        let removed = &self.channel_removed_broadcast;
        let (watch, marks) = self.channels.transact(
            &mut ticket.session,
            |table: &mut Table<T>| -> (heard: (Watch, Marks<T>))
                requires
                    old(table).wf(),
                    old(table).announces_added(*added),
                    old(table).announces_removed(*removed),
                ensures
                    final(table).wf(),
                    final(table).key() == old(table).key(),
                    old(table).leads_to(*final(table)),
                    heard.0.added.ring() == added.ring(),
                    heard.0.removed.ring() == removed.ring(),
                    heard.0.is_from(old(table)@, final(table)@),
                    heard.1.are_of(*final(table))
            {
                let ghost before = table@;
                let added = table.listen(added);
                let ghost between = table@;
                let removed = table.listen(removed);
                proof {
                    lemma_reaches_on(before, between, table@);
                    assert(table@.notices.drop_last() =~= between.notices);
                }
                let watch = Watch { added, removed, names: table.channels() };
                (watch, table.marks())
            },
        );
        ticket.marks = marks;
        proof {
            ticket.session.latest().before.lemma_consistent();
            ticket.session.latest().after.lemma_consistent();
        }
        watch
    }

    /// Takes note that a receiver of `channel` is gone, `gone` where it is known which. Where
    /// it was the last, the channel is dropped, and that is announced; so it is where there
    /// is no such channel.
    fn notify_unsubscribe(&self, channel: &String, gone: Option<Gone>, ticket: &mut Ticket<T>)
        requires
            self.admits(*old(ticket)),
            leaver(gone) matches Some(gone) ==> old(ticket).has_joined(
                channel@,
                gone.ring,
                gone.receiver,
            ),
        ensures
            self.admits(*final(ticket)),
            old(ticket).advanced(*final(ticket)),
            final(ticket).session().splits() == old(ticket).session().splits(),
            departed(
                final(ticket).latest().before@,
                channel@,
                leaver(gone),
                final(ticket).latest().after@,
            ),
    {
        proof {
            use_type_invariant(self);
        }
        let removed = &self.channel_removed_broadcast;
        let ghost left = leaver(gone);
        proof {
            if let Some(gone) = left {
                let joined = choose|joined: Table<T>| #[trigger]
                    ticket.session().known().contains(joined) && is_joined(
                        joined,
                        channel@,
                        gone.ring,
                        gone.receiver,
                    );
                assert forall|table: Table<T>|
                    table.wf() && table.key() == self.channels.key()
                        && #[trigger] ticket.session.leads_to(table) implies belongs(
                    table@,
                    channel@,
                    gone.ring,
                ) by {
                    assert(joined.leads_to(table));
                    law_ring_belongs_to_its_channel(joined@, channel@, gone.ring, table@);
                }
            }
        }
        ticket.marks = self.channels.transact(
            &mut ticket.session,
            |table: &mut Table<T>| -> (marks: Marks<T>)
                requires
                    old(table).wf(),
                    old(table).announces_removed(*removed),
                    left matches Some(gone) ==> belongs(old(table)@, channel@, gone.ring),
                ensures
                    final(table).wf(),
                    final(table).key() == old(table).key(),
                    old(table).leads_to(*final(table)),
                    departed(old(table)@, channel@, left, final(table)@),
                    marks.are_of(*final(table))
            {
                table.notify_unsubscribe(channel, gone, removed);
                table.marks()
            },
        );
        proof {
            ticket.session.latest().before.lemma_consistent();
            ticket.session.latest().after.lemma_consistent();
        }
    }
}

impl<T: 'static + Clone + Send> Inner<T> {
    /// A receiver of what is published on `channel` after this. Where the channel is not
    /// there yet, it is opened and announced. The receiver has a ticket of its own, with
    /// which it is closed.
    pub fn subscribe(self: &Arc<Self>, channel: &String, ticket: &mut Ticket<T>) -> (receiver:
        Receiver<T>)
        requires
            self.admits(*old(ticket)),
            valid_capacity(self.buffer_size()),
        ensures
            self.admits(*final(ticket)),
            old(ticket).advanced(*final(ticket)),
            final(ticket).session().splits() == old(ticket).session().splits() + 1,
            receiver.is_new(*self, channel@, *final(ticket)),
            subscribed(
                final(ticket).latest().before@,
                channel@,
                self.buffer_size(),
                final(ticket).latest().after@,
                receiver.ring(),
            ),
            receiver.channel() == channel@,
            receiver.cursor().read == final(ticket).latest().after@.calls.len(),
            final(ticket).latest().after@.rings == final(ticket).latest().before@.rings.insert(
                channel@,
                receiver.ring(),
            ),
            !final(ticket).latest().before@.rings.contains_key(channel@) ==> room(
                final(ticket).latest().after@.calls,
                receiver.ring(),
            ) >= self.buffer_size(),
    {
        let inner: &Inner<T> = self;
        proof {
            use_type_invariant(inner);
        }
        let capacity: usize = inner.buffer_size;
        let added = &inner.channel_added_broadcast;
        let (feed, marks) = inner.channels.transact(
            &mut ticket.session,
            |table: &mut Table<T>| -> (heard: (Feed<T>, Marks<T>))
                requires
                    old(table).wf(),
                    old(table).announces_added(*added),
                ensures
                    final(table).wf(),
                    final(table).key() == old(table).key(),
                    old(table).leads_to(*final(table)),
                    subscribed(old(table)@, channel@, capacity, final(table)@, heard.0.ring()),
                    heard.0.cursor() == new_cursor(final(table)@.calls),
                    heard.0.ring().trace == final(table)@.trace,
                    final(table)@.rings == old(table)@.rings.insert(channel@, heard.0.ring()),
                    !old(table)@.rings.contains_key(channel@) ==> room(
                        final(table)@.calls,
                        heard.0.ring(),
                    ) >= capacity,
                    heard.1.are_of(*final(table))
            {
                let feed = table.subscribe(channel, capacity, added);
                proof {
                    table.lemma_consistent();
                }
                (feed, table.marks())
            },
        );
        ticket.marks = marks;
        proof {
            ticket.session.latest().before.lemma_consistent();
            ticket.session.latest().after.lemma_consistent();
        }
        let receiver = Receiver::new(share(self), feed, channel.clone(), ticket.split());
        proof {
            assert(receiver.ticket().session().known().contains(ticket.latest().after));
            assert(is_joined(
                ticket.latest().after,
                channel@,
                receiver.ring(),
                receiver.cursor().receiver,
            ));
        }
        receiver
    }
}

/// A subscription to a channel. It is ended with [`Receiver::close`]: where it is dropped
/// otherwise, the channel is not settled, and stays there until a message is published on
/// it or another subscription to it is closed.
#[verifier::reject_recursive_types(T)]
pub struct Receiver<T> {
    parent: Arc<Inner<T>>,
    inner: FeedStream<T>,
    channel: String,
    ticket: Ticket<T>,
}

impl<T> Receiver<T> {
    /// What was subscribed to.
    pub closed spec fn parent(self) -> Arc<Inner<T>> {
        self.parent
    }

    /// The name of the channel.
    pub closed spec fn channel(self) -> Seq<char> {
        self.channel@
    }

    /// The ring that the messages come from.
    pub closed spec fn ring(self) -> Ring {
        self.inner.ring()
    }

    /// How far the subscription has come with the calls made on the rings of channels.
    pub closed spec fn cursor(self) -> Cursor<T> {
        self.inner.cursor()
    }

    /// The ticket with which the subscription is ended.
    pub closed spec fn ticket(self) -> Ticket<T> {
        self.ticket
    }

    /// The ticket is for what was subscribed to, and the ring is known to have been that of
    /// the channel when the subscription began.
    pub open spec fn wf(self) -> bool {
        &&& self.parent().admits(self.ticket())
        &&& self.ring().trace == self.parent().shared().key().1
        &&& self.ticket().has_joined(self.channel(), self.ring(), self.cursor().receiver)
    }

    /// This is a subscription that just began, by the last section that `ticket` shows.
    pub open spec fn is_new(
        self,
        parent: Arc<Inner<T>>,
        channel: Seq<char>,
        ticket: Ticket<T>,
    ) -> bool {
        &&& self.wf()
        &&& self.parent() == parent
        &&& self.channel() == channel
        &&& self.cursor() == new_cursor(ticket.latest().after@.calls)
        &&& self.ticket().is_unused()
        &&& self.ticket().session().known() == ticket.session().known()
    }

    /// Takes over what `other`, a ticket for the same hub, knows.
    pub fn catch_up(&mut self, other: &Ticket<T>)
        requires
            old(self).wf(),
            old(self).parent().admits(*other),
        ensures
            final(self).wf(),
            final(self).parent() == old(self).parent(),
            final(self).channel() == old(self).channel(),
            final(self).ring() == old(self).ring(),
            final(self).cursor() == (Cursor {
                known: old(self).cursor().known.insert(other.marks().calls()@),
                ..old(self).cursor()
            }),
            final(self).ticket().marks() == old(self).ticket().marks(),
            final(self).ticket().session().made() == old(self).ticket().session().made(),
            final(self).ticket().session().splits() == old(self).ticket().session().splits(),
            final(self).ticket().session().known() == old(self).ticket().session().known().union(
                other.session().known(),
            ),
    {
        let ghost joined = choose|joined: Table<T>| #[trigger]
            self.ticket().session().known().contains(joined) && is_joined(
                joined,
                self.channel(),
                self.ring(),
                self.cursor().receiver,
            );
        self.inner.learn(other.marks.of_channels());
        self.ticket.session.learn(&other.session);
        assert(self.ticket().session().known().contains(joined));
    }

    /// Ends the subscription. The receiving half goes first, so that it is not counted
    /// when the channel is settled. The ticket shows how that went.
    pub fn close(self) -> (ticket: Ticket<T>)
        requires
            self.wf(),
        ensures
            self.parent().admits(ticket),
            self.ticket().advanced(ticket),
            ticket.session().splits() == self.ticket().session().splits(),
            departed(
                ticket.latest().before@,
                self.channel(),
                Some(Leaver { ring: self.ring(), receiver: self.cursor().receiver }),
                ticket.latest().after@,
            ),
    {
        let Receiver { parent, inner, channel, mut ticket } = self;
        let gone = inner.discard();
        parent.notify_unsubscribe(&channel, Some(gone), &mut ticket);
        ticket
    }
}

impl<T: 'static + Clone + Send> Receiver<T> {
    /// A subscription that draws from `inner`.
    fn new(parent: Arc<Inner<T>>, inner: Feed<T>, channel: String, ticket: Ticket<T>) -> (receiver:
        Self)
        ensures
            receiver.parent() == parent,
            receiver.channel() == channel@,
            receiver.ring() == inner.ring(),
            receiver.cursor() == inner.cursor(),
            receiver.ticket() == ticket,
    {
        Receiver { parent, inner: inner.into_stream(), channel, ticket }
    }

    /// The next message, where there is one, or `None` where the task is to wait. There is no
    /// end to the messages: while the subscription is there, so is the channel.
    pub fn poll_next(&mut self, cx: &mut Context<'_>) -> (polled: Option<Result<T, TryRecvError>>)
        requires
            old(self).wf(),
        ensures
            final(self).wf(),
            final(self).parent() == old(self).parent(),
            final(self).channel() == old(self).channel(),
            final(self).ring() == old(self).ring(),
            final(self).ticket() == old(self).ticket(),
            drew(old(self).ring(), old(self).cursor(), polled, final(self).cursor()),
            yielded(old(self).ring(), old(self).cursor(), polled, final(self).cursor()),
            polled != Some(Err::<T, TryRecvError>(TryRecvError::Empty)),
            polled != Some(Err::<T, TryRecvError>(TryRecvError::Closed)),
    {
        let parent: &Inner<T> = &self.parent;
        let ghost receiver = self.cursor().receiver;
        let ghost joined = choose|joined: Table<T>| #[trigger]
            self.ticket().session().known().contains(joined) && is_joined(
                joined,
                self.channel(),
                self.ring(),
                receiver,
            );
        let polled = self.inner.poll_beside(cx, &parent.channels, &self.ticket.session);
        proof {
            assert(self.ticket().session().known().contains(joined));
            if has_dropped(self.ticket().session(), self.ring(), receiver) {
                let now = choose|now: Table<T>| #[trigger]
                    self.ticket().session().leads_to(now) && now.wf() && is_heard(
                        now@.calls,
                        self.ring(),
                        receiver,
                    ) && !now@.rings.values().contains(self.ring());
                assert(joined.leads_to(now));
                law_live_subscriber_keeps_the_channel(
                    joined@,
                    self.channel(),
                    self.ring(),
                    receiver,
                    now@,
                    now@.calls,
                );
                assert(now@.rings.values().contains(self.ring()));
            }
        }
        polled
    }
}

/// A handle of a hub for messages on named channels.
#[verifier::reject_recursive_types(T)]
pub struct PubSub<T> {
    inner: Arc<Inner<T>>,
    ticket: Ticket<T>,
}

impl<T> PubSub<T> {
    /// The state that all handles share.
    pub closed spec fn inner(self) -> Arc<Inner<T>> {
        self.inner
    }

    /// What was done with this handle.
    pub closed spec fn ticket(self) -> Ticket<T> {
        self.ticket
    }

    /// The ticket is for the hub.
    pub open spec fn wf(self) -> bool {
        self.inner().admits(self.ticket())
    }

    /// Nothing was done with this handle.
    pub open spec fn is_unused(self) -> bool {
        self.wf() && self.ticket().is_unused()
    }

    /// Exactly one section was made on the hub with handle `self`, which became `later`, and
    /// no handle or receiver was split off.
    pub open spec fn acted(self, later: Self) -> bool {
        &&& later.wf()
        &&& later.inner() == self.inner()
        &&& self.ticket().advanced(later.ticket())
        &&& later.ticket().session().splits() == self.ticket().session().splits()
    }

    /// The hub's channels, before and after what was last done with this handle.
    pub open spec fn latest(self) -> Transition<Table<T>> {
        self.ticket().latest()
    }

    /// A hub without channels, whose receivers can be `buffer_size` messages behind.
    pub fn new(buffer_size: usize) -> (pubsub: Self)
        ensures
            pubsub.wf(),
            pubsub.inner().buffer_size() == buffer_size,
            pubsub.ticket().is_first(),
    {
        let (inner, ticket) = Inner::new(buffer_size);
        PubSub { inner: Arc::new(inner), ticket }
    }

    /// Another handle of this hub, which knows what this one knows.
    pub fn clone(&mut self) -> (other: Self)
        requires
            old(self).wf(),
        ensures
            other.is_unused(),
            other.inner() == old(self).inner(),
            other.ticket().session().known() == old(self).ticket().session().known(),
            other.ticket().marks() == old(self).ticket().marks(),
            final(self).wf(),
            final(self).inner() == old(self).inner(),
            final(self).ticket().session().made() == old(self).ticket().session().made(),
            final(self).ticket().session().splits() == old(self).ticket().session().splits() + 1,
            final(self).ticket().session().known() == old(self).ticket().session().known(),
            final(self).ticket().marks() == old(self).ticket().marks(),
    {
        PubSub { inner: share(&self.inner), ticket: self.ticket.split() }
    }

    /// The ticket, to learn from.
    pub fn as_ticket(&self) -> (ticket: &Ticket<T>)
        ensures
            *ticket == self.ticket(),
    {
        &self.ticket
    }

    /// Takes over what `other`, a ticket for the same hub, knows.
    pub fn catch_up(&mut self, other: &Ticket<T>)
        requires
            old(self).wf(),
            old(self).inner().admits(*other),
        ensures
            final(self).wf(),
            final(self).inner() == old(self).inner(),
            final(self).ticket().session().made() == old(self).ticket().session().made(),
            final(self).ticket().session().splits() == old(self).ticket().session().splits(),
            final(self).ticket().session().is_sole() == old(self).ticket().session().is_sole(),
            final(self).ticket().session().left() == old(self).ticket().session().left(),
            final(self).ticket().session().known() == old(self).ticket().session().known().union(
                other.session().known(),
            ),
            final(self).ticket().marks() == old(self).ticket().marks(),
    {
        self.ticket.session.learn(&other.session);
    }

    /// Hands the evidence of notices to a receiver of this hub's notices.
    pub fn inform(&self, feed: &mut Feed<String>)
        requires
            self.wf(),
            old(feed).ring().trace == self.inner().shared().key().0,
        ensures
            final(feed).ring() == old(feed).ring(),
            final(feed).cursor() == (Cursor {
                known: old(feed).cursor().known.insert(self.ticket().marks().notices()@),
                ..old(feed).cursor()
            }),
    {
        self.ticket.inform(feed);
    }

    /// Hands the evidence of notices to a stream of this hub's notices.
    pub fn inform_stream(&self, stream: &mut FeedStream<String>)
        requires
            self.wf(),
            old(stream).ring().trace == self.inner().shared().key().0,
        ensures
            final(stream).ring() == old(stream).ring(),
            final(stream).cursor() == (Cursor {
                known: old(stream).cursor().known.insert(self.ticket().marks().notices()@),
                ..old(stream).cursor()
            }),
    {
        self.ticket.inform_stream(stream);
    }

    /// Sends `msg` to the receivers of `channel`: see [`Inner::publish`].
    pub fn publish(&mut self, channel: &String, msg: T)
        requires
            old(self).wf(),
        ensures
            old(self).acted(*final(self)),
            published(final(self).latest().before@, channel@, msg, final(self).latest().after@),
    {
        self.inner.publish(channel, msg, &mut self.ticket)
    }

    /// The channels that are there, each once.
    pub fn channels(&mut self) -> (names: Vec<String>)
        requires
            old(self).wf(),
        ensures
            old(self).acted(*final(self)),
            final(self).latest().after == final(self).latest().before,
            is_listing(final(self).latest().after@, names@),
            forall|name: Seq<char>| #[trigger]
                final(self).latest().after@.rings.contains_key(name) == (exists|i: int|
                    0 <= i < names.len() && (#[trigger] names@[i])@ == name),
    {
        self.inner.channels(&mut self.ticket)
    }

    /// A receiver of the names of channels that come after this.
    pub fn subscribe_channel_added(&mut self) -> (feed: Feed<String>)
        requires
            old(self).wf(),
        ensures
            old(self).acted(*final(self)),
            feed.ring() == old(self).inner().added(),
            feed.ring() == added_ring(final(self).latest().after@.notice_trace),
            feed.cursor() == new_cursor(final(self).latest().after@.notices),
            listened(final(self).latest().before@, feed.ring(), final(self).latest().after@),
    {
        self.inner.subscribe_channel_added(&mut self.ticket)
    }

    /// A receiver of the names of channels that go after this.
    pub fn subscribe_channel_removed(&mut self) -> (feed: Feed<String>)
        requires
            old(self).wf(),
        ensures
            old(self).acted(*final(self)),
            feed.ring() == old(self).inner().removed(),
            feed.ring() == removed_ring(final(self).latest().after@.notice_trace),
            feed.cursor() == new_cursor(final(self).latest().after@.notices),
            listened(final(self).latest().before@, feed.ring(), final(self).latest().after@),
    {
        self.inner.subscribe_channel_removed(&mut self.ticket)
    }

    /// Listens to both rings of notices and lists the channels that are there: see
    /// [`Inner::watch`].
    pub fn watch(&mut self) -> (watch: Watch)
        requires
            old(self).wf(),
        ensures
            old(self).acted(*final(self)),
            watch.added.ring() == old(self).inner().added(),
            watch.removed.ring() == old(self).inner().removed(),
            watch.added.ring() == added_ring(final(self).latest().after@.notice_trace),
            watch.removed.ring() == removed_ring(final(self).latest().after@.notice_trace),
            watch.is_from(final(self).latest().before@, final(self).latest().after@),
    {
        self.inner.watch(&mut self.ticket)
    }
}

impl<T: 'static + Clone + Send> PubSub<T> {
    /// A receiver of what is published on `channel` after this: see [`Inner::subscribe`].
    pub fn subscribe(&mut self, channel: &String) -> (receiver: Receiver<T>)
        requires
            old(self).wf(),
            valid_capacity(old(self).inner().buffer_size()),
        ensures
            final(self).wf(),
            final(self).inner() == old(self).inner(),
            old(self).ticket().advanced(final(self).ticket()),
            final(self).ticket().session().splits() == old(self).ticket().session().splits() + 1,
            receiver.is_new(old(self).inner(), channel@, final(self).ticket()),
            subscribed(
                final(self).latest().before@,
                channel@,
                old(self).inner().buffer_size(),
                final(self).latest().after@,
                receiver.ring(),
            ),
            receiver.channel() == channel@,
            receiver.cursor().read == final(self).latest().after@.calls.len(),
            final(self).latest().after@.rings == final(self).latest().before@.rings.insert(
                channel@,
                receiver.ring(),
            ),
            !final(self).latest().before@.rings.contains_key(channel@) ==> room(
                final(self).latest().after@.calls,
                receiver.ring(),
            ) >= old(self).inner().buffer_size(),
    {
        self.inner.subscribe(channel, &mut self.ticket)
    }
}

/// What is done with a handle is one section on the hub, which the record shows after those
/// from before. Where there is no other handle, nothing happens between two such sections: the
/// second finds what the first left.
pub proof fn law_handle_acts_once<T>(first: PubSub<T>, between: PubSub<T>, last: PubSub<T>)
    requires
        first.acted(between),
        between.acted(last),
    ensures
        between.inner() == first.inner(),
        between.ticket().session().made().len() == first.ticket().session().made().len() + 1,
        between.ticket().session().made().drop_last() == first.ticket().session().made(),
        between.ticket().session().splits() == first.ticket().session().splits(),
        first.ticket().session().is_sole() ==> last.latest().before == between.latest().after,
        between.latest().after.leads_to(last.latest().before),
{
    assert(between.ticket().session().known().contains(between.latest().after));
}

/// A hub gives its notices on the rings that its listeners draw from: what is done with a
/// handle finds and leaves channels that are announced on these two rings.
pub proof fn law_notices_go_to_the_listeners<T>(first: PubSub<T>, after: PubSub<T>)
    requires
        first.acted(after),
    ensures
        first.inner().added() == added_ring(after.latest().before@.notice_trace),
        first.inner().removed() == removed_ring(after.latest().before@.notice_trace),
        after.latest().after@.notice_trace == after.latest().before@.notice_trace,
{
}

/// To watch is to listen and to list at one moment: the names are those of the channels that
/// were there, each once, no channel changed, and what is announced from then on is told.
pub proof fn law_watch_is_of_one_moment<T>(
    watch: Watch,
    before: TableState<T>,
    after: TableState<T>,
    name: Seq<char>,
)
    requires
        watch.is_from(before, after),
    ensures
        after.rings == before.rings,
        after.calls == before.calls,
        (exists|i: int| 0 <= i < watch.names@.len() && (#[trigger] watch.names@[i])@ == name)
            == before.rings.contains_key(name),
        before.notices.is_prefix_of(after.notices),
        after.notices.len() == before.notices.len() + 2,
        watch.added.cursor().read == before.notices.len() + 1,
        watch.removed.cursor().read == before.notices.len() + 2,
{
    law_listing_is_exact(after, watch.names@, name);
    let between = after.notices.drop_last();
    assert(before.notices =~= between.drop_last());
}

impl<T> Deref for PubSub<T> {
    type Target = Arc<Inner<T>>;

    fn deref(&self) -> (inner: &Arc<Inner<T>>)
        ensures
            *inner == self.inner(),
    {
        &self.inner
    }
}

} // verus!
