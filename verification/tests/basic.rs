use futures::executor::block_on;
use futures::future::poll_fn;
use futures::task::Poll;
use pubsub_server::basic::{Config, PubSub, Server};
use pubsub_server::broadcast::TryRecvError;

#[test]
fn pubsub_test_pubsub() {
    let mut pubsub: PubSub<String> = PubSub::new(16);
    assert_eq!(pubsub.subscriber_count(&"channel1".to_owned()), 0);

    let mut rx1 = pubsub.subscribe(&"channel1".to_owned());
    assert_eq!(pubsub.subscriber_count(&"channel1".to_owned()), 1);

    let mut rx2 = pubsub.subscribe(&"channel1".to_owned());
    assert_eq!(pubsub.subscriber_count(&"channel1".to_owned()), 2);

    pubsub.publish(&"channel1".to_owned(), "hello".to_string());
    let msg = rx1.try_recv().unwrap();
    assert_eq!(msg, "hello".to_string());

    drop(rx1);
    assert_eq!(pubsub.subscriber_count(&"channel1".to_owned()), 1);

    let msg = rx2.try_recv().unwrap();
    assert_eq!(msg, "hello".to_string());
    drop(rx2);
    assert_eq!(pubsub.subscriber_count(&"channel1".to_owned()), 0);
}

#[test]
fn unheard_message_drops_the_channel() {
    let mut pubsub: PubSub<String> = PubSub::new(4);
    drop(pubsub.subscribe(&"a".to_owned()));
    pubsub.publish(&"a".to_owned(), "unheard".to_owned());
    let mut rx = pubsub.subscribe(&"a".to_owned());
    assert_eq!(rx.try_recv(), Err(TryRecvError::Empty));
    pubsub.clone().publish(&"a".to_owned(), "heard".to_owned());
    pubsub.publish(&"b".to_owned(), "elsewhere".to_owned());
    assert_eq!(rx.try_recv(), Ok("heard".to_owned()));
    assert_eq!(rx.try_recv(), Err(TryRecvError::Empty));
}

#[test]
fn count_is_that_of_the_channel() {
    let mut pubsub: PubSub<String> = PubSub::new(4);
    let _a = pubsub.subscribe(&"a".to_owned());
    let _b = pubsub.subscribe(&"b".to_owned());
    let _also_b = pubsub.subscribe(&"b".to_owned());
    assert_eq!(pubsub.subscriber_count(&"a".to_owned()), 1);
    assert_eq!(pubsub.subscriber_count(&"b".to_owned()), 2);
    assert_eq!(pubsub.subscriber_count(&"c".to_owned()), 0);
}

#[test]
fn messages_can_be_awaited() {
    let mut pubsub: PubSub<String> = PubSub::new(4);
    let mut stream = pubsub.subscribe(&"a".to_owned()).into_stream();
    pubsub.publish(&"a".to_owned(), "hello".to_owned());
    let received = block_on(poll_fn(|cx| match stream.poll_next(cx) {
        Some(polled) => Poll::Ready(polled),
        None => Poll::Pending,
    }));
    assert_eq!(received, Ok("hello".to_owned()));
}

#[test]
fn count_of_none_foretells_silence() {
    let mut pubsub: PubSub<String> = PubSub::new(4);
    drop(pubsub.subscribe(&"a".to_owned()));
    assert_eq!(pubsub.subscriber_count(&"a".to_owned()), 0);
    pubsub.publish(&"a".to_owned(), "unheard".to_owned());
    let mut rx = pubsub.subscribe(&"a".to_owned());
    rx.catch_up(pubsub.as_ticket());
    assert_eq!(rx.try_recv(), Err(TryRecvError::Empty));
    assert_eq!(pubsub.subscriber_count(&"a".to_owned()), 1);
}

#[test]
fn server_takes_a_config() {
    let _server = Server::new(Config::new(3000));
}

#[test]
fn closed_subscriptions_are_not_counted() {
    let mut pubsub: PubSub<String> = PubSub::new(4);
    let first = pubsub.subscribe(&"a".to_owned());
    let mut second = pubsub.subscribe(&"a".to_owned());
    assert_eq!(pubsub.subscriber_count(&"a".to_owned()), 2);
    pubsub.close(first);
    assert_eq!(pubsub.subscriber_count(&"a".to_owned()), 1);
    pubsub.publish(&"a".to_owned(), "hello".to_owned());
    assert_eq!(pubsub.subscriber_count(&"a".to_owned()), 1);
    assert_eq!(second.try_recv(), Ok("hello".to_owned()));
    assert_eq!(second.try_recv(), Err(TryRecvError::Empty));
    pubsub.close(second);
    assert_eq!(pubsub.subscriber_count(&"a".to_owned()), 0);
}

#[test]
fn message_reaches_all_that_are_counted() {
    let mut pubsub: PubSub<String> = PubSub::new(4);
    let mut all = Vec::new();
    for _ in 0..3 {
        all.push(pubsub.subscribe(&"a".to_owned()));
    }
    let other = pubsub.subscribe(&"b".to_owned());
    assert_eq!(pubsub.subscriber_count(&"a".to_owned()), 3);
    pubsub.publish(&"a".to_owned(), "hello".to_owned());
    for rx in all.iter_mut() {
        rx.catch_up(pubsub.as_ticket());
        assert_eq!(rx.try_recv(), Ok("hello".to_owned()));
        assert_eq!(rx.try_recv(), Err(TryRecvError::Empty));
    }
    assert_eq!(pubsub.subscriber_count(&"a".to_owned()), 3);
    assert_eq!(pubsub.subscriber_count(&"b".to_owned()), 1);
    pubsub.close(other);
}
