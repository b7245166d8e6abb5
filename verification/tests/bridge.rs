use futures::executor::block_on;
use futures::future::poll_fn;
use futures::task::Poll;
use futures::FutureExt;
use pubsub_server::broadcast::FeedStream;
use pubsub_server::pubsub::{PubSub, Receiver};
use pubsub_server::redis_pubsub::{
    begin, channel_added, channel_removed, initial_commands, next_command, on_added, on_removed,
    react, Action, Command, Event, Message,
};
use pubsub_server::rest_api::PublishRequest;

fn pending(notices: &mut FeedStream<String>) -> Option<String> {
    let polled = poll_fn(|cx| Poll::Ready(notices.poll_next(cx))).now_or_never();
    match polled {
        Some(Some(Ok(name))) => Some(name),
        _ => None,
    }
}

fn received(receiver: &mut Receiver<String>) -> Option<String> {
    let polled = block_on(poll_fn(|cx| match receiver.poll_next(cx) {
        Some(polled) => Poll::Ready(polled),
        None => Poll::Pending,
    }));
    polled.ok()
}

fn text(s: &str) -> Option<String> {
    Some(s.to_owned())
}

#[test]
fn initial_commands_subscribe_to_each_channel() {
    let commands = initial_commands(&vec!["a".to_owned(), "b".to_owned()]);
    assert_eq!(commands.len(), 2);
    assert!(matches!(&commands[0], Command::Subscribe(c) if c == "a"));
    assert!(matches!(&commands[1], Command::Subscribe(c) if c == "b"));
    assert!(initial_commands(&vec![]).is_empty());
}

#[test]
fn notices_become_commands() {
    assert!(matches!(channel_added("a".to_owned()), Command::Subscribe(c) if c == "a"));
    assert!(matches!(channel_removed("a".to_owned()), Command::Unsubscribe(c) if c == "a"));
}

#[test]
fn lost_notices_end_the_bridge() {
    assert!(matches!(on_added(Some(Ok("a".to_owned()))), Some(Command::Subscribe(c)) if c == "a"));
    assert!(on_added(Some(Err(1))).is_none());
    assert!(on_added(None).is_none());
    assert!(matches!(on_removed(Some(Ok("a".to_owned()))), Some(Command::Unsubscribe(c)) if c == "a"));
    assert!(on_removed(Some(Err(1))).is_none());
    assert!(on_removed(None).is_none());
}

#[test]
fn message_is_published_once() {
    let mut hub: PubSub<String> = PubSub::new(4);
    let mut rx = hub.subscribe(&"a".to_owned());
    for payload in ["one", "two"] {
        let message = Message { channel: text("a"), payload: text(payload) };
        react(&mut hub, Event::Message(Some(message)));
    }
    assert_eq!(received(&mut rx), text("one"));
    assert_eq!(received(&mut rx), text("two"));
    let polled = poll_fn(|cx| Poll::Ready(rx.poll_next(cx))).now_or_never();
    assert_eq!(polled, Some(None));
}

#[test]
fn queue_is_followed_until_it_ends() {
    let command = Command::Unsubscribe("a".to_owned());
    assert!(matches!(
        next_command(Event::Queue(Some(command))),
        Some(Command::Unsubscribe(c)) if c == "a"
    ));
    assert!(matches!(next_command(Event::Queue(None)), Some(Command::Quit)));
}

#[test]
fn only_messages_of_text_are_published() {
    let message = Message { channel: text("a"), payload: text("hello") };
    assert!(matches!(
        next_command(Event::Message(Some(message))),
        Some(Command::Publish(c, p)) if c == "a" && p == "hello"
    ));
    let message = Message { channel: None, payload: text("hello") };
    assert!(next_command(Event::Message(Some(message))).is_none());
    let message = Message { channel: text("a"), payload: None };
    assert!(next_command(Event::Message(Some(message))).is_none());
    assert!(next_command(Event::Message(None)).is_none());
}

#[test]
fn message_from_redis_reaches_the_subscriber() {
    let mut hub: PubSub<String> = PubSub::new(4);
    let mut rx = hub.subscribe(&"a".to_owned());
    let message = Message { channel: text("a"), payload: text("hello") };
    assert!(matches!(react(&mut hub, Event::Message(Some(message))), Some(Action::Published)));
    assert_eq!(received(&mut rx), Some("hello".to_owned()));
}

#[test]
fn request_reaches_the_subscriber() {
    let mut hub: PubSub<String> = PubSub::new(4);
    let mut rx = hub.subscribe(&"test".to_owned());
    let request = PublishRequest { channel: "test".to_owned(), data: "message".to_owned() };
    let (channel, payload) = request.into_message();
    let message = Message { channel: Some(channel), payload: Some(payload) };
    react(&mut hub, Event::Message(Some(message)));
    assert_eq!(
        received(&mut rx),
        Some("{\"channel\":\"test\",\"data\":\"message\"}".to_owned())
    );
}

#[test]
fn commands_become_actions() {
    let mut hub: PubSub<String> = PubSub::new(4);
    let event = Event::Queue(Some(Command::Subscribe("a".to_owned())));
    assert!(matches!(react(&mut hub, event), Some(Action::Subscribe(c)) if c == "a"));
    let event = Event::Queue(Some(Command::Unsubscribe("a".to_owned())));
    assert!(matches!(react(&mut hub, event), Some(Action::Unsubscribe(c)) if c == "a"));
    assert!(matches!(react(&mut hub, Event::Queue(None)), Some(Action::Quit)));
    assert!(react(&mut hub, Event::Message(None)).is_none());
}

#[test]
fn bridge_begins_with_the_channels_that_are_there() {
    let mut hub: PubSub<String> = PubSub::new(4);
    let a = hub.subscribe(&"a".to_owned());
    let mut beginning = begin(&mut hub);
    assert_eq!(beginning.commands.len(), 1);
    assert!(matches!(&beginning.commands[0], Command::Subscribe(c) if c == "a"));
    let b = hub.subscribe(&"b".to_owned());
    assert_eq!(pending(&mut beginning.channel_added), text("b"));
    assert_eq!(pending(&mut beginning.channel_added), None);
    assert_eq!(pending(&mut beginning.channel_removed), None);
    a.close();
    assert_eq!(pending(&mut beginning.channel_removed), text("a"));
    b.close();
}

#[test]
fn bridge_mirrors_the_hub() {
    let mut hub: PubSub<String> = PubSub::new(4);
    let a = hub.subscribe(&"a".to_owned());
    let b = hub.subscribe(&"b".to_owned());
    let mut at_redis: Vec<String> = Vec::new();
    let beginning = begin(&mut hub);
    let mut added = beginning.channel_added;
    let mut removed = beginning.channel_removed;
    for command in beginning.commands {
        if let Command::Subscribe(channel) = command {
            at_redis.push(channel);
        }
    }
    let c = hub.subscribe(&"c".to_owned());
    a.close();
    while let Some(channel) = pending(&mut added) {
        if let Command::Subscribe(channel) = channel_added(channel) {
            at_redis.push(channel);
        }
    }
    while let Some(channel) = pending(&mut removed) {
        if let Command::Unsubscribe(channel) = channel_removed(channel) {
            at_redis.retain(|name| *name != channel);
        }
    }
    at_redis.sort();
    at_redis.dedup();
    let mut there = hub.channels();
    there.sort();
    assert_eq!(at_redis, there);
    b.close();
    c.close();
}
