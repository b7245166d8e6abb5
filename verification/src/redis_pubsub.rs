//! Keeping the subscriptions at a Redis server in step with the channels of a hub.

use vstd::prelude::*;

use crate::broadcast::{
    drew, in_step, is_send_on, positions, room, sends, values, yielded, Call, Cursor, FeedStream, Ring,
    TryRecvError,
};
use crate::channels::texts;
use crate::json::read_object;
use crate::laws::{
    law_listing_is_exact, law_rings_of_notices_are_kept, law_subscriber_receives_what_is_published,
    law_what_follows_is_consistent,
};
use crate::pubsub::{watched, PubSub};
use crate::table::{
    added_ring, consistent, published, reaches, removed_ring, replay, TableState,
};
use crate::rest_api::{
    is_message_for, law_request_is_its_object, request_json, PublishRequest,
};

verus! {

/// What the bridge to Redis is to do next.
pub enum Command {
    Subscribe(String),
    Unsubscribe(String),
    Publish(String, String),
    Quit,
}

/// A [`Command`], by the text of its strings.
pub enum Order {
    Subscribe(Seq<char>),
    Unsubscribe(Seq<char>),
    Publish(Seq<char>, Seq<char>),
    Quit,
}

impl View for Command {
    type V = Order;

    open spec fn view(&self) -> Order {
        match self {
            Command::Subscribe(channel) => Order::Subscribe(channel@),
            Command::Unsubscribe(channel) => Order::Unsubscribe(channel@),
            Command::Publish(channel, payload) => Order::Publish(channel@, payload@),
            Command::Quit => Order::Quit,
        }
    }
}

/// A message from Redis. A part that is not text is `None`.
pub struct Message {
    pub channel: Option<String>,
    pub payload: Option<String>,
}

/// What the bridge was waiting for.
pub enum Event {
    /// The next command of the queue, or `None` when all who fill it are gone.
    Queue(Option<Command>),
    /// The next message from Redis, or `None` when there will be none.
    Message(Option<Message>),
}

/// What is left to be done for a command, or what was done.
pub enum Action {
    /// Subscribe to a channel at Redis.
    Subscribe(String),
    /// Unsubscribe from a channel at Redis.
    Unsubscribe(String),
    /// The message was published on the hub.
    Published,
    /// Stop.
    Quit,
}

/// The orders that subscribe to `names`.
pub open spec fn subscribe_orders(names: Seq<Seq<char>>) -> Seq<Order> {
    names.map_values(|name: Seq<char>| Order::Subscribe(name))
}

/// The orders that `commands` stand for.
pub open spec fn orders(commands: Seq<Command>) -> Seq<Order> {
    commands.map_values(|command: Command| command@)
}

/// The commands with which the bridge starts: to subscribe to each of the channels that
/// are there already.
pub fn initial_commands(channels: &Vec<String>) -> (commands: Vec<Command>)
    ensures
        orders(commands@) == subscribe_orders(texts(channels@)),
        commands.len() == channels.len(),
        forall|i: int|
            0 <= i < commands.len() ==> (#[trigger] commands@[i] matches Command::Subscribe(channel)
                && channel@ == channels@[i]@),
{
    let mut commands: Vec<Command> = Vec::new();
    let mut i: usize = 0;
    while i < channels.len()
        invariant
            i <= channels.len(),
            orders(commands@) == subscribe_orders(texts(channels@)).take(i as int),
            commands.len() == i,
            forall|j: int|
                0 <= j < i ==> (#[trigger] commands@[j] matches Command::Subscribe(channel)
                    && channel@ == channels@[j]@),
        decreases channels.len() - i,
    {
        let ghost given = orders(commands@);
        commands.push(Command::Subscribe(channels[i].clone()));
        proof {
            let all = subscribe_orders(texts(channels@));
            assert(all.take(i + 1) =~= given.push(all[i as int]));
        }
        i = i + 1;
    }
    commands
}

/// The bridge as it starts.
pub struct Beginning {
    /// The names of channels that come.
    pub channel_added: FeedStream<String>,
    /// The names of channels that go.
    pub channel_removed: FeedStream<String>,
    /// The commands for the channels that are there.
    pub commands: Vec<Command>,
}

impl Beginning {
    /// The bridge listened to the rings of notices of the hub `before`, then found the
    /// channels `names`, and has a command for each. All that was done with the handle is
    /// this one section, which left `after`.
    pub open spec fn takes_up(
        self,
        before: PubSub<String>,
        names: Seq<String>,
        after: PubSub<String>,
    ) -> bool {
        &&& before.acted(after)
        &&& self.channel_added.ring() == before.inner().added()
        &&& self.channel_removed.ring() == before.inner().removed()
        &&& watched(
            after.latest().before@,
            self.channel_added.ring(),
            self.channel_added.cursor(),
            self.channel_removed.ring(),
            self.channel_removed.cursor(),
            names,
            after.latest().after@,
        )
        &&& orders(self.commands@) == subscribe_orders(texts(names))
    }
}

/// Starts a bridge to the hub `dispatch`: it listens for channels that come and go, then
/// takes up those that are there, so that it misses none.
pub fn begin(dispatch: &mut PubSub<String>) -> (beginning: Beginning)
    requires
        old(dispatch).wf(),
    ensures
        exists|names: Seq<String>| #[trigger]
            beginning.takes_up(*old(dispatch), names, *final(dispatch)),
{
    let watch = dispatch.watch();
    let commands = initial_commands(&watch.names);
    let beginning = Beginning {
        channel_added: watch.added.into_stream(),
        channel_removed: watch.removed.into_stream(),
        commands,
    };
    assert(beginning.takes_up(*old(dispatch), watch.names@, *dispatch));
    beginning
}

/// What follows from an item of the stream of channels that come: a command for a channel.
/// Where names were lost, or there will be none any more, the bridge cannot go on, `None`.
pub fn on_added(item: Option<Result<String, u64>>) -> (next: Option<Command>)
    ensures
        match item {
            Some(Ok(channel)) => next == Some(Command::Subscribe(channel)),
            _ => next is None,
        },
{
    match item {
        Some(Ok(channel)) => Some(channel_added(channel)),
        _ => None,
    }
}

/// What follows from an item of the stream of channels that go: as in [`on_added`].
pub fn on_removed(item: Option<Result<String, u64>>) -> (next: Option<Command>)
    ensures
        match item {
            Some(Ok(channel)) => next == Some(Command::Unsubscribe(channel)),
            _ => next is None,
        },
{
    match item {
        Some(Ok(channel)) => Some(channel_removed(channel)),
        _ => None,
    }
}

/// The command for a channel that came.
pub fn channel_added(channel: String) -> (command: Command)
    ensures
        command == Command::Subscribe(channel),
{
    Command::Subscribe(channel)
}

/// The command for a channel that went.
pub fn channel_removed(channel: String) -> (command: Command)
    ensures
        command == Command::Unsubscribe(channel),
{
    Command::Unsubscribe(channel)
}

/// The order that follows from `event`: that of the queue, to quit when the queue has
/// ended, to publish a message whose parts are both text. There is none for other messages.
pub open spec fn order_for(event: Event) -> Option<Order> {
    match event {
        Event::Queue(Some(command)) => Some(command@),
        Event::Queue(None) => Some(Order::Quit),
        Event::Message(Some(message)) => match (message.channel, message.payload) {
            (Some(channel), Some(payload)) => Some(Order::Publish(channel@, payload@)),
            _ => None,
        },
        Event::Message(None) => None,
    }
}

/// The command that follows from `event`.
pub fn next_command(event: Event) -> (command: Option<Command>)
    ensures
        match command {
            Some(command) => order_for(event) == Some(command@),
            None => order_for(event) is None,
        },
        command == match event {
            Event::Queue(Some(queued)) => Some(queued),
            Event::Queue(None) => Some(Command::Quit),
            Event::Message(Some(message)) => match (message.channel, message.payload) {
                (Some(channel), Some(payload)) => Some(Command::Publish(channel, payload)),
                _ => None::<Command>,
            },
            Event::Message(None) => None::<Command>,
        },
{
    match event {
        Event::Queue(Some(command)) => Some(command),
        Event::Queue(None) => Some(Command::Quit),
        Event::Message(Some(message)) => {
            match message.channel {
                Some(channel) => match message.payload {
                    Some(payload) => Some(Command::Publish(channel, payload)),
                    None => None,
                },
                None => None,
            }
        },
        Event::Message(None) => None,
    }
}

/// A string with the text `payload` was published on `channel`.
pub open spec fn published_text(
    before: TableState<String>,
    channel: Seq<char>,
    payload: Seq<char>,
    after: TableState<String>,
) -> bool {
    exists|value: String| value@ == payload && #[trigger] published(before, channel, value, after)
}

/// `action` carries out `order` on the hub: a message was published, in one section and
/// with nothing else done; for other orders nothing was done with the handle.
pub open spec fn carries_out(
    before: PubSub<String>,
    order: Order,
    action: Action,
    after: PubSub<String>,
) -> bool {
    match order {
        Order::Subscribe(channel) => {
            &&& action matches Action::Subscribe(name) && name@ == channel
            &&& after == before
        },
        Order::Unsubscribe(channel) => {
            &&& action matches Action::Unsubscribe(name) && name@ == channel
            &&& after == before
        },
        Order::Publish(channel, payload) => {
            &&& action is Published
            &&& before.acted(after)
            &&& published_text(after.latest().before@, channel, payload, after.latest().after@)
        },
        Order::Quit => action is Quit && after == before,
    }
}

/// Carries out `command`, as far as that is up to the hub.
pub fn execute(dispatch: &mut PubSub<String>, command: Command) -> (action: Action)
    requires
        old(dispatch).wf(),
    ensures
        carries_out(*old(dispatch), command@, action, *final(dispatch)),
        match command {
            Command::Subscribe(channel) => {
                &&& action == Action::Subscribe(channel)
                &&& *final(dispatch) == *old(dispatch)
            },
            Command::Unsubscribe(channel) => {
                &&& action == Action::Unsubscribe(channel)
                &&& *final(dispatch) == *old(dispatch)
            },
            Command::Publish(channel, payload) => {
                &&& action is Published
                &&& old(dispatch).acted(*final(dispatch))
                &&& published(
                    final(dispatch).latest().before@,
                    channel@,
                    payload,
                    final(dispatch).latest().after@,
                )
            },
            Command::Quit => action is Quit && *final(dispatch) == *old(dispatch),
        },
{
    match command {
        Command::Subscribe(channel) => Action::Subscribe(channel),
        Command::Unsubscribe(channel) => Action::Unsubscribe(channel),
        Command::Publish(channel, payload) => {
            dispatch.publish(&channel, payload);
            Action::Published
        },
        Command::Quit => Action::Quit,
    }
}

/// The bridge reacted to `event` with `action`, if any, and what the hub had to do for it is
/// done.
pub open spec fn reacts(
    before: PubSub<String>,
    event: Event,
    action: Option<Action>,
    after: PubSub<String>,
) -> bool {
    match action {
        Some(action) => order_for(event) is Some && carries_out(
            before,
            order_for(event)->0,
            action,
            after,
        ),
        None => order_for(event) is None && after == before,
    }
}

/// One round of the bridge: what is to be done on `event`, if anything.
pub fn react(dispatch: &mut PubSub<String>, event: Event) -> (action: Option<Action>)
    requires
        old(dispatch).wf(),
    ensures
        reacts(*old(dispatch), event, action, *final(dispatch)),
        match event {
            Event::Queue(Some(Command::Subscribe(channel))) => {
                &&& action == Some(Action::Subscribe(channel))
                &&& *final(dispatch) == *old(dispatch)
            },
            Event::Queue(Some(Command::Unsubscribe(channel))) => {
                &&& action == Some(Action::Unsubscribe(channel))
                &&& *final(dispatch) == *old(dispatch)
            },
            Event::Queue(Some(Command::Publish(channel, payload))) => {
                &&& action == Some(Action::Published)
                &&& old(dispatch).acted(*final(dispatch))
                &&& published(
                    final(dispatch).latest().before@,
                    channel@,
                    payload,
                    final(dispatch).latest().after@,
                )
            },
            Event::Queue(Some(Command::Quit)) | Event::Queue(None) => {
                &&& action == Some(Action::Quit)
                &&& *final(dispatch) == *old(dispatch)
            },
            Event::Message(Some(message)) => match (message.channel, message.payload) {
                (Some(channel), Some(payload)) => {
                    &&& action == Some(Action::Published)
                    &&& old(dispatch).acted(*final(dispatch))
                    &&& published(
                        final(dispatch).latest().before@,
                        channel@,
                        payload,
                        final(dispatch).latest().after@,
                    )
                },
                _ => action is None && *final(dispatch) == *old(dispatch),
            },
            Event::Message(None) => action is None && *final(dispatch) == *old(dispatch),
        },
{
    match next_command(event) {
        Some(command) => Some(execute(dispatch, command)),
        None => None,
    }
}

/// Whatever command is taken from the queue is carried out, and nothing else: to subscribe at
/// Redis to the very channel that the command names, to unsubscribe from it, to publish the
/// very text on the very channel, or to stop. A queue that has ended stops the bridge too.
pub proof fn law_queue_is_carried_out(
    before: PubSub<String>,
    queued: Option<Command>,
    action: Option<Action>,
    after: PubSub<String>,
)
    requires
        reacts(before, Event::Queue(queued), action, after),
    ensures
        match queued {
            Some(Command::Subscribe(channel)) => {
                &&& action matches Some(Action::Subscribe(name)) && name@ == channel@
                &&& after == before
            },
            Some(Command::Unsubscribe(channel)) => {
                &&& action matches Some(Action::Unsubscribe(name)) && name@ == channel@
                &&& after == before
            },
            Some(Command::Publish(channel, payload)) => {
                &&& action == Some(Action::Published)
                &&& before.acted(after)
                &&& exists|value: String|
                    value@ == payload@ && #[trigger] published(
                        after.latest().before@,
                        channel@,
                        value,
                        after.latest().after@,
                    )
            },
            Some(Command::Quit) | None => action == Some(Action::Quit) && after == before,
        },
{
}

/// A message from Redis whose parts are both text is published on the hub, once: its payload,
/// on its channel. Nothing is done for any other.
pub proof fn law_message_is_passed_on(
    before: PubSub<String>,
    message: Option<Message>,
    action: Option<Action>,
    after: PubSub<String>,
)
    requires
        reacts(before, Event::Message(message), action, after),
    ensures
        match message {
            Some(Message { channel: Some(channel), payload: Some(payload) }) => {
                &&& action == Some(Action::Published)
                &&& before.acted(after)
                &&& exists|value: String|
                    value@ == payload@ && #[trigger] published(
                        after.latest().before@,
                        channel@,
                        value,
                        after.latest().after@,
                    )
            },
            _ => action is None && after == before,
        },
{
}

/// A message from Redis reaches the subscribers of its channel. A subscription began with the
/// channels `joined` or before; then the bridge reacted to a message on its channel, and the
/// subscriber has yielded all that was sent before that. The next text received, once the
/// subscriber knows of the message, is the payload, unless more was sent in the meantime than
/// the ring has room for.
pub proof fn law_message_reaches_the_subscriber(
    joined: TableState<String>,
    ring: Ring,
    before: PubSub<String>,
    channel: String,
    payload: String,
    action: Option<Action>,
    after: PubSub<String>,
    ready: Cursor<String>,
    received: Result<String, TryRecvError>,
    then: Cursor<String>,
)
    requires
        reacts(
            before,
            Event::Message(Some(Message { channel: Some(channel), payload: Some(payload) })),
            action,
            after,
        ),
        joined.rings.contains_key(channel@),
        joined.rings[channel@] == ring,
        reaches(joined, after.latest().before@),
        ready.receiver < joined.calls.len(),
        ready.read <= after.latest().before@.calls.len(),
        forall|i: int|
            ready.read <= i < after.latest().before@.calls.len() ==> !is_send_on(
                #[trigger] after.latest().before@.calls[i],
                ring,
            ),
        ready.known.contains(after.latest().after@.calls),
        drew(ring, ready, Some(received), then),
        yielded(ring, ready, Some(received), then),
        sends(then.seen, ring, ready.read) <= room(then.seen, ring),
    ensures
        received matches Ok(text) && text@ == payload@,
        then.lost == ready.lost,
{
    let value = choose|value: String|
        value@ == payload@ && #[trigger] published(
            after.latest().before@,
            channel@,
            value,
            after.latest().after@,
        );
    law_subscriber_receives_what_is_published(
        joined,
        channel@,
        ring,
        after.latest().before@,
        value,
        after.latest().after@,
        ready,
        received,
        then,
    );
}

/// What is requested at the REST interface is published on the hub, once: where Redis
/// delivers what was sent for `request`, the bridge publishes the request as JSON, on its
/// channel.
pub proof fn law_request_is_published(
    request: PublishRequest,
    sent: (String, String),
    received: Message,
    before: PubSub<String>,
    action: Action,
    after: PubSub<String>,
)
    requires
        is_message_for(request, sent),
        received.channel matches Some(channel) && channel@ == sent.0@,
        received.payload matches Some(payload) && payload@ == sent.1@,
        carries_out(before, order_for(Event::Message(Some(received)))->0, action, after),
    ensures
        action is Published,
        before.acted(after),
        published_text(
            after.latest().before@,
            request.channel@,
            request_json(request.channel@, request.data@),
            after.latest().after@,
        ),
        exists|value: String|
            read_object(value@) == Some(
                seq![("channel"@, request.channel@), ("data"@, request.data@)],
            ) && #[trigger] published(
                after.latest().before@,
                request.channel@,
                value,
                after.latest().after@,
            ),
{
    law_request_is_its_object(request.channel@, request.data@);
}

/// The channels that are subscribed to at Redis once `orders` were carried out in turn,
/// from `known` on.
pub open spec fn follow(known: Set<Seq<char>>, orders: Seq<Order>) -> Set<Seq<char>>
    decreases orders.len(),
{
    if orders.len() == 0 {
        known
    } else {
        let before = follow(known, orders.drop_last());
        match orders.last() {
            Order::Subscribe(channel) => before.insert(channel),
            Order::Unsubscribe(channel) => before.remove(channel),
            _ => before,
        }
    }
}

/// The order for one call on the rings of notices of `trace`: to subscribe to a channel that
/// came, to unsubscribe from one that went. None for other calls.
pub open spec fn order_for_notice(trace: int, call: Call<String>) -> Seq<Order> {
    match call {
        Call::Send { ring, value, .. } => if ring == added_ring(trace) {
            seq![Order::Subscribe(value@)]
        } else if ring == removed_ring(trace) {
            seq![Order::Unsubscribe(value@)]
        } else {
            Seq::empty()
        },
        _ => Seq::empty(),
    }
}

/// The orders for `notices`, in turn.
pub open spec fn orders_for_notices(trace: int, notices: Seq<Call<String>>) -> Seq<Order>
    decreases notices.len(),
{
    if notices.len() == 0 {
        Seq::empty()
    } else {
        orders_for_notices(trace, notices.drop_last()) + order_for_notice(trace, notices.last())
    }
}

/// What the last of `orders` on `channel` says of it: that it is to be subscribed to, or
/// not. `None` where no order speaks of it.
pub open spec fn verdict(orders: Seq<Order>, channel: Seq<char>) -> Option<bool>
    decreases orders.len(),
{
    if orders.len() == 0 {
        None
    } else if orders.last() == Order::Subscribe(channel) {
        Some(true)
    } else if orders.last() == Order::Unsubscribe(channel) {
        Some(false)
    } else {
        verdict(orders.drop_last(), channel)
    }
}

/// The last word decides.
proof fn lemma_follow_is_verdict(known: Set<Seq<char>>, orders: Seq<Order>, channel: Seq<char>)
    ensures
        follow(known, orders).contains(channel) == match verdict(orders, channel) {
            Some(subscribed) => subscribed,
            None => known.contains(channel),
        },
    decreases orders.len(),
{
    if orders.len() > 0 {
        lemma_follow_is_verdict(known, orders.drop_last(), channel);
    }
}

/// Orders can be followed in two parts.
proof fn lemma_follow_in_parts(known: Set<Seq<char>>, first: Seq<Order>, second: Seq<Order>)
    ensures
        follow(known, first + second) == follow(follow(known, first), second),
    decreases second.len(),
{
    if second.len() > 0 {
        assert((first + second).drop_last() =~= first + second.drop_last());
        lemma_follow_in_parts(known, first, second.drop_last());
    }
}

/// The orders for notices can be given in two parts.
proof fn lemma_orders_in_parts(trace: int, first: Seq<Call<String>>, second: Seq<Call<String>>)
    ensures
        orders_for_notices(trace, first + second) == orders_for_notices(trace, first)
            + orders_for_notices(trace, second),
    decreases second.len(),
{
    if second.len() > 0 {
        assert((first + second).drop_last() =~= first + second.drop_last());
        lemma_orders_in_parts(trace, first, second.drop_last());
        assert(orders_for_notices(trace, first + second) =~= orders_for_notices(trace, first)
            + orders_for_notices(trace, second));
    }
}

/// Following the orders for all notices is replaying the notices.
proof fn lemma_follow_is_replay(trace: int, notices: Seq<Call<String>>)
    ensures
        follow(Set::empty(), orders_for_notices(trace, notices)) == replay(trace, notices),
    decreases notices.len(),
{
    if notices.len() > 0 {
        lemma_follow_is_replay(trace, notices.drop_last());
        let earlier = orders_for_notices(trace, notices.drop_last());
        let latest = order_for_notice(trace, notices.last());
        lemma_follow_in_parts(Set::empty(), earlier, latest);
        reveal_with_fuel(follow, 2);
    }
}

/// The initial commands subscribe to exactly the channels that are there.
pub proof fn law_initial_commands_cover_the_channels(names: Seq<Seq<char>>)
    ensures
        follow(Set::empty(), subscribe_orders(names)) == names.to_set(),
    decreases names.len(),
{
    let given = subscribe_orders(names);
    if names.len() > 0 {
        assert(given.drop_last() =~= subscribe_orders(names.drop_last()));
        law_initial_commands_cover_the_channels(names.drop_last());
        assert(names.to_set() =~= names.drop_last().to_set().insert(names.last())) by {
            assert forall|name: Seq<char>| names.contains(name) <==> names.drop_last().contains(
                name,
            ) || name == names.last() by {
                if names.contains(name) && name != names.last() {
                    let i = names.index_of(name);
                    assert(names.drop_last()[i] == name);
                }
            }
        }
    }
}

/// A bridge begins by subscribing to exactly the channels that are there: each of its commands
/// is to subscribe to one, and there is such a command for each.
pub proof fn law_bridge_begins_with_what_is_there(
    before: PubSub<String>,
    beginning: Beginning,
    names: Seq<String>,
    after: PubSub<String>,
    channel: Seq<char>,
)
    requires
        beginning.takes_up(before, names, after),
    ensures
        before.acted(after),
        forall|i: int| 0 <= i < beginning.commands@.len() ==> #[trigger] beginning.commands@[i] is Subscribe,
        (exists|i: int|
            0 <= i < beginning.commands@.len() && (#[trigger] beginning.commands@[i] matches Command::Subscribe(
                name,
            ) && name@ == channel)) == after.latest().after@.rings.contains_key(channel),
        beginning.channel_added.ring() == added_ring(after.latest().after@.notice_trace),
        beginning.channel_removed.ring() == removed_ring(after.latest().after@.notice_trace),
        beginning.channel_added.cursor().read <= after.latest().after@.notices.len(),
        beginning.channel_removed.cursor().read <= after.latest().after@.notices.len(),
{
    let commands = beginning.commands@;
    let given = orders(commands);
    law_listing_is_exact(after.latest().after@, names, channel);
    assert(given.len() == subscribe_orders(texts(names)).len());
    assert(commands.len() == names.len());
    assert forall|i: int| 0 <= i < commands.len() implies (#[trigger] commands[i] matches Command::Subscribe(
        name,
    ) && name@ == names[i]@) by {
        assert(given[i] == commands[i]@);
        assert(given[i] == Order::Subscribe(texts(names)[i]));
    }
    if after.latest().after@.rings.contains_key(channel) {
        let i = choose|i: int| 0 <= i < names.len() && (#[trigger] names[i])@ == channel;
        assert(commands[i] is Subscribe);
    }
    if exists|i: int|
        0 <= i < commands.len() && (#[trigger] commands[i] matches Command::Subscribe(name)
            && name@ == channel) {
        let i = choose|i: int|
            0 <= i < commands.len() && (#[trigger] commands[i] matches Command::Subscribe(name)
                && name@ == channel);
        assert(names[i]@ == channel);
    }
}

/// The channels that are subscribed to at Redis once `actions` were performed in turn, from
/// `known` on.
pub open spec fn performed(known: Set<Seq<char>>, actions: Seq<Action>) -> Set<Seq<char>>
    decreases actions.len(),
{
    if actions.len() == 0 {
        known
    } else {
        let before = performed(known, actions.drop_last());
        match actions.last() {
            Action::Subscribe(channel) => before.insert(channel@),
            Action::Unsubscribe(channel) => before.remove(channel@),
            _ => before,
        }
    }
}

/// The bridge took `queue` from its queue, one command after the other, and reacted with
/// `actions`, while its handle of the hub came through `hubs`.
pub open spec fn worked_off(
    hubs: Seq<PubSub<String>>,
    queue: Seq<Command>,
    actions: Seq<Action>,
) -> bool {
    &&& hubs.len() == queue.len() + 1
    &&& actions.len() == queue.len()
    &&& forall|i: int|
        0 <= i < queue.len() ==> reacts(
            hubs[i],
            Event::Queue(Some(#[trigger] queue[i])),
            Some(actions[i]),
            hubs[i + 1],
        )
}

/// The actions for a queue do what its orders say.
proof fn lemma_performed_is_follow(
    hubs: Seq<PubSub<String>>,
    queue: Seq<Command>,
    actions: Seq<Action>,
    known: Set<Seq<char>>,
)
    requires
        worked_off(hubs, queue, actions),
    ensures
        performed(known, actions) == follow(known, orders(queue)),
    decreases queue.len(),
{
    if queue.len() > 0 {
        let n = queue.len() - 1;
        let fewer = queue.drop_last();
        assert forall|i: int| 0 <= i < fewer.len() implies reacts(
            hubs.drop_last()[i],
            Event::Queue(Some(#[trigger] fewer[i])),
            Some(actions.drop_last()[i]),
            hubs.drop_last()[i + 1],
        ) by {
            assert(fewer[i] == queue[i]);
        }
        lemma_performed_is_follow(hubs.drop_last(), fewer, actions.drop_last(), known);
        assert(orders(queue).drop_last() =~= orders(fewer));
        assert(orders(queue).last() == queue.last()@);
        assert(reacts(hubs[n], Event::Queue(Some(queue[n])), Some(actions[n]), hubs[n + 1]));
    }
}

/// What the bridge does at Redis comes to the channels of the hub. A bridge that reacted to the
/// commands with which it began, and then to `told`, the commands for all notices given since
/// it began to listen, in the order of the notices, has done at Redis what leaves it
/// subscribed to the channels of `now`, and to no others.
pub proof fn law_what_the_bridge_does_mirrors_the_hub(
    before: PubSub<String>,
    beginning: Beginning,
    names: Seq<String>,
    after: PubSub<String>,
    now: TableState<String>,
    told: Seq<Command>,
    hubs: Seq<PubSub<String>>,
    actions: Seq<Action>,
)
    requires
        beginning.takes_up(before, names, after),
        reaches(after.latest().after@, now),
        orders(told) == orders_for_notices(
            now.notice_trace,
            now.notices.skip(beginning.channel_added.cursor().read as int),
        ),
        worked_off(hubs, beginning.commands@ + told, actions),
    ensures
        performed(Set::empty(), actions) == now.rings.dom(),
{
    let queue = beginning.commands@ + told;
    law_bridge_mirrors_the_hub(before, beginning, names, after, now);
    lemma_performed_is_follow(hubs, queue, actions, Set::empty());
    assert(orders(queue) =~= orders(beginning.commands@) + orders(told));
}

/// The subscriptions at Redis come to be those channels that the hub has. A bridge that
/// carried out the commands with which it began, and then those for all notices given since
/// it began to listen, in the order of the notices, is subscribed to the channels of `now`.
/// (The two rings of notices are read apart, so that a notice on one can overtake a notice
/// on the other: see [`law_bridge_is_right_on_steady_channels`].)
pub proof fn law_bridge_mirrors_the_hub(
    before: PubSub<String>,
    beginning: Beginning,
    names: Seq<String>,
    after: PubSub<String>,
    now: TableState<String>,
)
    requires
        beginning.takes_up(before, names, after),
        reaches(after.latest().after@, now),
    ensures
        follow(
            Set::empty(),
            orders(beginning.commands@) + orders_for_notices(
                now.notice_trace,
                now.notices.skip(beginning.channel_added.cursor().read as int),
            ),
        ) == now.rings.dom(),
{
    let found = after.latest().after@;
    lemma_what_follows(found, now);
    let heard = beginning.channel_added.cursor().read;
    lemma_names_and_notices_suffice(heard, found, texts(names), now);
}

/// What follows from a consistent state is consistent, with notices added on the same rings.
proof fn lemma_what_follows<T>(found: TableState<T>, now: TableState<T>)
    requires
        consistent(found),
        reaches(found, now),
    ensures
        consistent(now),
        now.notice_trace == found.notice_trace,
        found.notices.is_prefix_of(now.notices),
{
    law_what_follows_is_consistent(found, now);
    law_rings_of_notices_are_kept(found, now);
}

/// In whatever order the two rings of notices are read, a channel that did not both come and
/// go since the bridge began is subscribed to at Redis if and only if the hub has it, once
/// all notices were read and their commands carried out. `carried` are these, the commands
/// for one ring in their order, and those for the other in theirs.
pub proof fn law_bridge_is_right_on_steady_channels(
    before: PubSub<String>,
    beginning: Beginning,
    names: Seq<String>,
    after: PubSub<String>,
    now: TableState<String>,
    carried: Seq<Order>,
    channel: Seq<char>,
)
    requires
        beginning.takes_up(before, names, after),
        reaches(after.latest().after@, now),
        merges(
            orders_on(
                now.notice_trace,
                added_ring(now.notice_trace),
                now.notices.skip(beginning.channel_added.cursor().read as int),
            ),
            orders_on(
                now.notice_trace,
                removed_ring(now.notice_trace),
                now.notices.skip(beginning.channel_removed.cursor().read as int),
            ),
            carried,
        ),
        ({
            ||| verdict(
                orders_on(
                    now.notice_trace,
                    added_ring(now.notice_trace),
                    now.notices.skip(beginning.channel_added.cursor().read as int),
                ),
                channel,
            ) is None
            ||| verdict(
                orders_on(
                    now.notice_trace,
                    removed_ring(now.notice_trace),
                    now.notices.skip(beginning.channel_removed.cursor().read as int),
                ),
                channel,
            ) is None
        }),
    ensures
        follow(Set::empty(), orders(beginning.commands@) + carried).contains(channel)
            == now.rings.contains_key(channel),
{
    let trace = now.notice_trace;
    lemma_what_follows(after.latest().after@, now);
    let told = now.notices.skip(beginning.channel_added.cursor().read as int);
    let told_gone = now.notices.skip(beginning.channel_removed.cursor().read as int);
    let came = orders_on(trace, added_ring(trace), told);
    let went = orders_on(trace, removed_ring(trace), told);
    assert(went == orders_on(trace, removed_ring(trace), told_gone)) by {
        let between = told.take(1);
        assert(told =~= between + told_gone);
        lemma_orders_on_in_parts(trace, removed_ring(trace), between, told_gone);
        assert(orders_on(trace, removed_ring(trace), between) =~= Seq::<Order>::empty()) by {
            reveal_with_fuel(orders_on, 2);
        }
        assert(Seq::<Order>::empty() + orders_on(trace, removed_ring(trace), told_gone)
            =~= orders_on(trace, removed_ring(trace), told_gone));
    }
    let in_order = orders_for_notices(trace, told);
    lemma_notices_are_a_merge(trace, told);
    lemma_merge_keeps_verdict(came, went, in_order, channel);
    lemma_merge_keeps_verdict(came, went, carried, channel);
    law_bridge_mirrors_the_hub(before, beginning, names, after, now);
    let first = orders(beginning.commands@);
    let none = Set::<Seq<char>>::empty();
    lemma_follow_in_parts(none, first, in_order);
    lemma_follow_in_parts(none, first, carried);
    lemma_follow_is_verdict(follow(none, first), in_order, channel);
    lemma_follow_is_verdict(follow(none, first), carried, channel);
}

/// The orders for the notices on `ring`, in turn.
pub open spec fn orders_on(trace: int, ring: Ring, notices: Seq<Call<String>>) -> Seq<Order>
    decreases notices.len(),
{
    if notices.len() == 0 {
        Seq::empty()
    } else {
        let earlier = orders_on(trace, ring, notices.drop_last());
        if is_send_on(notices.last(), ring) {
            earlier + order_for_notice(trace, notices.last())
        } else {
            earlier
        }
    }
}

/// The orders for what a receiver of `ring`, one of the rings of notices of `trace`, has
/// yielded: to subscribe to each channel that it told of, or to unsubscribe from each.
pub open spec fn orders_for_items(trace: int, ring: Ring, items: Seq<String>) -> Seq<Order> {
    items.map_values(
        |name: String|
            if ring == added_ring(trace) {
                Order::Subscribe(name@)
            } else {
                Order::Unsubscribe(name@)
            },
    )
}

/// The notices on a ring, by their positions.
proof fn lemma_orders_on_by_position(
    trace: int,
    ring: Ring,
    calls: Seq<Call<String>>,
    from: nat,
)
    requires
        ring == added_ring(trace) || ring == removed_ring(trace),
        from <= calls.len(),
    ensures
        orders_on(trace, ring, calls.skip(from as int)).len() == positions(calls, ring, from).len(),
        forall|i: int|
            0 <= i < positions(calls, ring, from).len() ==> {
                &&& (#[trigger] positions(calls, ring, from)[i]) < calls.len()
                &&& seq![orders_on(trace, ring, calls.skip(from as int))[i]] == order_for_notice(
                    trace,
                    calls[positions(calls, ring, from)[i] as int],
                )
            },
    decreases calls.len(),
{
    if from < calls.len() {
        let earlier = calls.drop_last();
        lemma_orders_on_by_position(trace, ring, earlier, from);
        assert(calls.skip(from as int).drop_last() =~= earlier.skip(from as int));
        assert(calls.skip(from as int).last() == calls.last());
        let given = orders_on(trace, ring, earlier.skip(from as int));
        let all = orders_on(trace, ring, calls.skip(from as int));
        let ps = positions(earlier, ring, from);
        assert forall|i: int| 0 <= i < positions(calls, ring, from).len() implies {
            &&& (#[trigger] positions(calls, ring, from)[i]) < calls.len()
            &&& seq![all[i]] == order_for_notice(
                trace,
                calls[positions(calls, ring, from)[i] as int],
            )
        } by {
            if i < ps.len() {
                assert(positions(calls, ring, from)[i] == ps[i]);
                assert(earlier[ps[i] as int] == calls[ps[i] as int]);
                assert(all[i] == given[i]);
            } else {
                let latest = order_for_notice(trace, calls.last());
                assert(all[i] == latest[0]);
                assert(seq![latest[0]] =~= latest);
            }
        }
    } else {
        assert(calls.skip(from as int) =~= Seq::<Call<String>>::empty());
    }
}

/// The bridge is told of every notice. As long as a receiver of a ring of notices has lost
/// none, the orders for what it has yielded are those for all notices on its ring since it
/// was given out, up to where it has read.
pub proof fn law_bridge_is_told_all(trace: int, ring: Ring, cursor: Cursor<String>)
    requires
        ring == added_ring(trace) || ring == removed_ring(trace),
        in_step(ring, cursor),
        cursor.lost == 0,
    ensures
        orders_for_items(trace, ring, values(cursor.draws)) == orders_on(
            trace,
            ring,
            cursor.seen.subrange((cursor.receiver + 1) as int, cursor.read as int),
        ),
{
    let from = (cursor.receiver + 1) as nat;
    let calls = cursor.seen.take(cursor.read as int);
    let items = values(cursor.draws);
    assert(calls.skip(from as int) =~= cursor.seen.subrange(from as int, cursor.read as int));
    lemma_orders_on_by_position(trace, ring, calls, from);
    let told = orders_on(trace, ring, calls.skip(from as int));
    let ordered = orders_for_items(trace, ring, items);
    assert forall|i: int| 0 <= i < items.len() implies ordered[i] == told[i] by {
        let at = cursor.heard[i];
        assert(positions(calls, ring, from)[i] == at);
        assert(calls[at as int] == cursor.seen[at as int]);
        let latest = order_for_notice(trace, calls[at as int]);
        assert(cloned::<String>(cursor.seen[at as int]->value, items[i]));
        assert(seq![told[i]][0] == latest[0]);
    }
    assert(ordered =~= told);
}

/// `merged` holds the orders of `first` in their order, those of `second` in theirs, and no
/// others.
pub open spec fn merges(first: Seq<Order>, second: Seq<Order>, merged: Seq<Order>) -> bool
    decreases merged.len(),
{
    if merged.len() == 0 {
        first.len() == 0 && second.len() == 0
    } else {
        ||| {
            &&& first.len() > 0
            &&& first.last() == merged.last()
            &&& merges(first.drop_last(), second, merged.drop_last())
        }
        ||| {
            &&& second.len() > 0
            &&& second.last() == merged.last()
            &&& merges(first, second.drop_last(), merged.drop_last())
        }
    }
}

/// The orders for the notices on one ring can be given in two parts.
proof fn lemma_orders_on_in_parts(
    trace: int,
    ring: Ring,
    first: Seq<Call<String>>,
    second: Seq<Call<String>>,
)
    ensures
        orders_on(trace, ring, first + second) == orders_on(trace, ring, first) + orders_on(
            trace,
            ring,
            second,
        ),
    decreases second.len(),
{
    if second.len() > 0 {
        assert((first + second).drop_last() =~= first + second.drop_last());
        lemma_orders_on_in_parts(trace, ring, first, second.drop_last());
        assert(orders_on(trace, ring, first + second) =~= orders_on(trace, ring, first)
            + orders_on(trace, ring, second));
    }
}

/// The orders for all notices are those for the two rings, merged.
proof fn lemma_notices_are_a_merge(trace: int, notices: Seq<Call<String>>)
    ensures
        merges(
            orders_on(trace, added_ring(trace), notices),
            orders_on(trace, removed_ring(trace), notices),
            orders_for_notices(trace, notices),
        ),
    decreases notices.len(),
{
    if notices.len() > 0 {
        let earlier = notices.drop_last();
        lemma_notices_are_a_merge(trace, earlier);
        let latest = order_for_notice(trace, notices.last());
        if latest.len() > 0 {
            assert(orders_for_notices(trace, notices).drop_last() =~= orders_for_notices(
                trace,
                earlier,
            ));
            let came = orders_on(trace, added_ring(trace), earlier);
            let went = orders_on(trace, removed_ring(trace), earlier);
            assert((came + latest).drop_last() =~= came);
            assert((went + latest).drop_last() =~= went);
        } else {
            assert(orders_for_notices(trace, notices) =~= orders_for_notices(trace, earlier));
        }
    }
}

/// Where one of two sequences of orders does not speak of a channel, what they come to on
/// that channel does not depend on how they are merged.
proof fn lemma_merge_keeps_verdict(
    first: Seq<Order>,
    second: Seq<Order>,
    merged: Seq<Order>,
    channel: Seq<char>,
)
    requires
        merges(first, second, merged),
    ensures
        verdict(second, channel) is None ==> verdict(merged, channel) == verdict(first, channel),
        verdict(first, channel) is None ==> verdict(merged, channel) == verdict(second, channel),
    decreases merged.len(),
{
    if merged.len() > 0 {
        if first.len() > 0 && first.last() == merged.last() && merges(
            first.drop_last(),
            second,
            merged.drop_last(),
        ) {
            lemma_merge_keeps_verdict(first.drop_last(), second, merged.drop_last(), channel);
        } else {
            lemma_merge_keeps_verdict(first, second.drop_last(), merged.drop_last(), channel);
        }
    }
}

/// Subscribing to the channels `names` that were found in `found`, and then following all
/// notices from some earlier moment on, leads to the channels of `now`.
proof fn lemma_names_and_notices_suffice<T>(
    heard: nat,
    found: TableState<T>,
    names: Seq<Seq<char>>,
    now: TableState<T>,
)
    requires
        consistent(found),
        consistent(now),
        names.to_set() == found.rings.dom(),
        now.notice_trace == found.notice_trace,
        heard <= found.notices.len() <= now.notices.len(),
        now.notices.take(found.notices.len() as int) == found.notices,
    ensures
        follow(
            Set::empty(),
            subscribe_orders(names) + orders_for_notices(
                now.notice_trace,
                now.notices.skip(heard as int),
            ),
        ) == now.rings.dom(),
{
    let none = Set::<Seq<char>>::empty();
    let trace = now.notice_trace;
    let unheard = now.notices.take(heard as int);
    let twice = found.notices.skip(heard as int);
    let since = now.notices.skip(found.notices.len() as int);
    let told = now.notices.skip(heard as int);
    assert(found.notices =~= unheard + twice);
    assert(told =~= twice + since);
    assert(now.notices =~= unheard + told);
    let old_orders = orders_for_notices(trace, unheard);
    let twice_orders = orders_for_notices(trace, twice);
    let told_orders = orders_for_notices(trace, told);
    law_initial_commands_cover_the_channels(names);
    lemma_follow_in_parts(none, subscribe_orders(names), told_orders);
    lemma_follow_is_replay(trace, found.notices);
    lemma_follow_is_replay(trace, now.notices);
    lemma_orders_in_parts(trace, unheard, twice);
    lemma_orders_in_parts(trace, unheard, told);
    lemma_orders_in_parts(trace, twice, since);
    lemma_follow_in_parts(none, old_orders, twice_orders);
    lemma_follow_in_parts(none, old_orders, told_orders);
    let first = follow(none, old_orders);
    assert(follow(follow(first, twice_orders), told_orders) =~= follow(first, told_orders)) by {
        assert forall|channel: Seq<char>|
            follow(follow(first, twice_orders), told_orders).contains(channel) == follow(
                first,
                told_orders,
            ).contains(channel) by {
            lemma_follow_is_verdict(follow(first, twice_orders), told_orders, channel);
            lemma_follow_is_verdict(first, told_orders, channel);
            lemma_follow_is_verdict(first, twice_orders, channel);
            lemma_verdict_of_extension(twice_orders, orders_for_notices(trace, since), channel);
        }
    }
}

/// Orders to which more were added speak of no fewer channels.
proof fn lemma_verdict_of_extension(orders: Seq<Order>, more: Seq<Order>, channel: Seq<char>)
    ensures
        verdict(orders + more, channel) is None ==> verdict(orders, channel) is None,
    decreases more.len(),
{
    if more.len() > 0 {
        assert((orders + more).drop_last() =~= orders + more.drop_last());
        lemma_verdict_of_extension(orders, more.drop_last(), channel);
    }
}

} // verus!
