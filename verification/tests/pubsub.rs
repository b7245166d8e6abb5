use futures::executor::block_on;
use futures::future::poll_fn;
use futures::task::Poll;
use futures::FutureExt;
use pubsub_server::broadcast::{FeedStream, TryRecvError};
use pubsub_server::pubsub::{PubSub, Receiver};

fn next(receiver: &mut Receiver<String>) -> Result<String, TryRecvError> {
    block_on(poll_fn(|cx| match receiver.poll_next(cx) {
        Some(polled) => Poll::Ready(polled),
        None => Poll::Pending,
    }))
}

fn told(notices: &mut FeedStream<String>) -> Result<String, TryRecvError> {
    block_on(poll_fn(|cx| match notices.poll_next(cx) {
        Some(polled) => Poll::Ready(polled),
        None => Poll::Pending,
    }))
}

fn drawn(receiver: &mut Receiver<u32>) -> Option<Result<u32, TryRecvError>> {
    poll_fn(|cx| Poll::Ready(receiver.poll_next(cx))).now_or_never().unwrap()
}

#[test]
fn test_pubsub() {
    let mut pubsub: PubSub<String> = PubSub::new(16);

    let mut channel_added = pubsub.subscribe_channel_added();
    let mut channel_removed = pubsub.subscribe_channel_removed();

    assert_eq!(channel_added.try_recv(), Err(TryRecvError::Empty));
    assert_eq!(channel_removed.try_recv(), Err(TryRecvError::Empty));

    let mut rx1 = pubsub.subscribe(&"channel1".to_owned());
    assert_eq!(channel_added.try_recv(), Ok("channel1".to_owned()));

    let mut rx2 = pubsub.subscribe(&"channel1".to_owned());

    pubsub.publish(&"channel1".to_owned(), "hello".to_string());
    let msg = next(&mut rx1).unwrap();
    assert_eq!(msg, "hello".to_string());

    rx1.close();

    let msg = next(&mut rx2).unwrap();
    assert_eq!(msg, "hello".to_string());

    assert_eq!(channel_removed.try_recv(), Err(TryRecvError::Empty));
    rx2.close();
    assert_eq!(channel_removed.try_recv(), Ok("channel1".to_owned()));
    assert_eq!(channel_added.try_recv(), Err(TryRecvError::Empty));
}

fn sorted(mut names: Vec<String>) -> Vec<String> {
    names.sort();
    names
}

#[test]
fn channels_lists_each_channel_once() {
    let mut pubsub: PubSub<String> = PubSub::new(4);
    assert_eq!(pubsub.channels(), Vec::<String>::new());
    let a = pubsub.subscribe(&"a".to_owned());
    let b = pubsub.subscribe(&"b".to_owned());
    let again = pubsub.subscribe(&"a".to_owned());
    assert_eq!(sorted(pubsub.channels()), vec!["a".to_owned(), "b".to_owned()]);
    a.close();
    assert_eq!(sorted(pubsub.channels()), vec!["a".to_owned(), "b".to_owned()]);
    again.close();
    assert_eq!(pubsub.channels(), vec!["b".to_owned()]);
    b.close();
    assert_eq!(pubsub.channels(), Vec::<String>::new());
}

#[test]
fn second_subscriber_is_not_announced() {
    let mut pubsub: PubSub<String> = PubSub::new(4);
    let mut added = pubsub.subscribe_channel_added();
    let first = pubsub.subscribe(&"news".to_owned());
    let second = pubsub.subscribe(&"news".to_owned());
    assert_eq!(added.try_recv(), Ok("news".to_owned()));
    assert_eq!(added.try_recv(), Err(TryRecvError::Empty));
    first.close();
    second.close();
    let third = pubsub.subscribe(&"news".to_owned());
    assert_eq!(added.try_recv(), Ok("news".to_owned()));
    third.close();
}

#[test]
fn message_stays_on_its_channel() {
    let mut pubsub: PubSub<String> = PubSub::new(4);
    let mut a = pubsub.subscribe(&"a".to_owned());
    let mut b = pubsub.subscribe(&"b".to_owned());
    pubsub.publish(&"a".to_owned(), "for a".to_owned());
    pubsub.publish(&"b".to_owned(), "for b".to_owned());
    pubsub.publish(&"a".to_owned(), "more for a".to_owned());
    assert_eq!(next(&mut a), Ok("for a".to_owned()));
    assert_eq!(next(&mut a), Ok("more for a".to_owned()));
    assert_eq!(next(&mut b), Ok("for b".to_owned()));
}

#[test]
fn publishing_opens_nothing() {
    let mut pubsub: PubSub<String> = PubSub::new(4);
    let mut added = pubsub.subscribe_channel_added();
    let mut removed = pubsub.subscribe_channel_removed();
    pubsub.publish(&"nobody".to_owned(), "hello".to_owned());
    assert_eq!(pubsub.channels(), Vec::<String>::new());
    assert_eq!(added.try_recv(), Err(TryRecvError::Empty));
    assert_eq!(removed.try_recv(), Err(TryRecvError::Empty));
}

#[test]
fn publishing_drops_a_channel_that_nobody_hears() {
    let mut pubsub: PubSub<String> = PubSub::new(4);
    let mut removed = pubsub.subscribe_channel_removed();
    drop(pubsub.subscribe(&"a".to_owned()));
    assert_eq!(pubsub.channels(), vec!["a".to_owned()]);
    pubsub.publish(&"a".to_owned(), "hello".to_owned());
    assert_eq!(pubsub.channels(), Vec::<String>::new());
    assert_eq!(removed.try_recv(), Ok("a".to_owned()));
}

#[test]
fn departure_undoes_subscription() {
    let mut pubsub: PubSub<String> = PubSub::new(4);
    let mut added = pubsub.subscribe_channel_added();
    let mut removed = pubsub.subscribe_channel_removed();
    pubsub.subscribe(&"a".to_owned()).close();
    assert_eq!(pubsub.channels(), Vec::<String>::new());
    assert_eq!(added.try_recv(), Ok("a".to_owned()));
    assert_eq!(removed.try_recv(), Ok("a".to_owned()));
    let held = pubsub.subscribe(&"a".to_owned());
    assert_eq!(added.try_recv(), Ok("a".to_owned()));
    pubsub.subscribe(&"a".to_owned()).close();
    assert_eq!(pubsub.channels(), vec!["a".to_owned()]);
    assert_eq!(added.try_recv(), Err(TryRecvError::Empty));
    assert_eq!(removed.try_recv(), Err(TryRecvError::Empty));
    held.close();
    assert_eq!(removed.try_recv(), Ok("a".to_owned()));
}

#[test]
fn departure_spares_other_channels() {
    let mut pubsub: PubSub<String> = PubSub::new(4);
    let a = pubsub.subscribe(&"a".to_owned());
    let mut b = pubsub.subscribe(&"b".to_owned());
    pubsub.publish(&"b".to_owned(), "unread".to_owned());
    a.close();
    assert_eq!(pubsub.channels(), vec!["b".to_owned()]);
    assert_eq!(next(&mut b), Ok("unread".to_owned()));
}

#[test]
fn subscriber_hears_what_comes_after_it() {
    let mut pubsub: PubSub<String> = PubSub::new(4);
    let mut early = pubsub.subscribe(&"a".to_owned());
    pubsub.publish(&"a".to_owned(), "first".to_owned());
    let mut late = pubsub.subscribe(&"a".to_owned());
    pubsub.publish(&"a".to_owned(), "second".to_owned());
    assert_eq!(next(&mut early), Ok("first".to_owned()));
    assert_eq!(next(&mut early), Ok("second".to_owned()));
    assert_eq!(next(&mut late), Ok("second".to_owned()));
}

#[test]
fn watch_tells_what_comes_after_it() {
    let mut pubsub: PubSub<String> = PubSub::new(4);
    let a = pubsub.subscribe(&"a".to_owned());
    let mut watch = pubsub.watch();
    assert_eq!(watch.names, vec!["a".to_owned()]);
    assert_eq!(watch.added.try_recv(), Err(TryRecvError::Empty));
    let b = pubsub.subscribe(&"b".to_owned());
    a.close();
    assert_eq!(watch.added.try_recv(), Ok("b".to_owned()));
    assert_eq!(watch.removed.try_recv(), Ok("a".to_owned()));
    b.close();
}

#[test]
fn new_channel_is_silent() {
    let mut pubsub: PubSub<String> = PubSub::new(4);
    let early = pubsub.subscribe(&"a".to_owned());
    pubsub.publish(&"a".to_owned(), "early".to_owned());
    early.close();
    let mut late = pubsub.subscribe(&"a".to_owned());
    pubsub.publish(&"a".to_owned(), "late".to_owned());
    assert_eq!(next(&mut late), Ok("late".to_owned()));
}

#[test]
fn slow_receiver_is_told_what_it_lost() {
    let mut pubsub: PubSub<String> = PubSub::new(2);
    let mut rx = pubsub.subscribe(&"a".to_owned());
    for i in 0..5 {
        pubsub.publish(&"a".to_owned(), i.to_string());
    }
    assert_eq!(next(&mut rx), Err(TryRecvError::Lagged(3)));
    assert_eq!(next(&mut rx), Ok("3".to_owned()));
    assert_eq!(next(&mut rx), Ok("4".to_owned()));
}

#[test]
fn notices_have_room_for_thirty_two() {
    let mut pubsub: PubSub<String> = PubSub::new(1);
    let mut added = pubsub.subscribe_channel_added();
    let mut held = Vec::new();
    for i in 0..33 {
        held.push(pubsub.subscribe(&i.to_string()));
    }
    assert_eq!(added.try_recv(), Err(TryRecvError::Lagged(1)));
    assert_eq!(added.try_recv(), Ok("1".to_owned()));
}

#[test]
fn clones_share_one_hub() {
    let mut pubsub: PubSub<String> = PubSub::new(4);
    let mut other = pubsub.clone();
    let mut rx = pubsub.subscribe(&"a".to_owned());
    other.publish(&"a".to_owned(), "hello".to_owned());
    assert_eq!(next(&mut rx), Ok("hello".to_owned()));
    assert_eq!(other.channels(), vec!["a".to_owned()]);
}

#[test]
fn receiver_can_catch_up() {
    let mut pubsub: PubSub<String> = PubSub::new(4);
    let mut other = pubsub.clone();
    let mut rx = pubsub.subscribe(&"a".to_owned());
    other.catch_up(pubsub.as_ticket());
    other.publish(&"a".to_owned(), "hello".to_owned());
    rx.catch_up(other.as_ticket());
    assert_eq!(next(&mut rx), Ok("hello".to_owned()));
    rx.close();
    assert_eq!(other.channels(), Vec::<String>::new());
}

#[test]
fn live_subscriber_keeps_the_channel() {
    let mut pubsub: PubSub<String> = PubSub::new(4);
    let mut removed = pubsub.subscribe_channel_removed();
    let mut rx = pubsub.subscribe(&"a".to_owned());
    for i in 0..3 {
        pubsub.publish(&"a".to_owned(), i.to_string());
    }
    assert_eq!(pubsub.channels(), vec!["a".to_owned()]);
    assert_eq!(removed.try_recv(), Err(TryRecvError::Empty));
    for i in 0..3 {
        assert_eq!(next(&mut rx), Ok(i.to_string()));
    }
    rx.close();
    drop(pubsub);
    assert_eq!(removed.try_recv(), Ok("a".to_owned()));
    assert_eq!(removed.try_recv(), Err(TryRecvError::Closed));
}

#[test]
fn listener_is_told_what_comes_and_goes() {
    let mut pubsub: PubSub<String> = PubSub::new(4);
    let mut added = pubsub.subscribe_channel_added();
    let mut removed = pubsub.subscribe_channel_removed();
    let first = pubsub.subscribe(&"news".to_owned());
    let second = pubsub.subscribe(&"weather".to_owned());
    pubsub.inform(&mut added);
    assert_eq!(added.try_recv(), Ok("news".to_owned()));
    assert_eq!(added.try_recv(), Ok("weather".to_owned()));
    assert_eq!(added.try_recv(), Err(TryRecvError::Empty));
    let ticket = second.close();
    ticket.inform(&mut removed);
    assert_eq!(removed.try_recv(), Ok("weather".to_owned()));
    pubsub.catch_up(&ticket);
    assert_eq!(pubsub.channels(), vec!["news".to_owned()]);
    first.close();
    assert_eq!(removed.try_recv(), Ok("news".to_owned()));
}

#[test]
fn notices_can_be_awaited() {
    let mut pubsub: PubSub<String> = PubSub::new(4);
    let mut added = pubsub.subscribe_channel_added().into_stream();
    let mut removed = pubsub.subscribe_channel_removed().into_stream();
    let rx = pubsub.subscribe(&"a".to_owned());
    pubsub.inform_stream(&mut added);
    assert_eq!(told(&mut added), Ok("a".to_owned()));
    let ticket = rx.close();
    ticket.inform_stream(&mut removed);
    assert_eq!(told(&mut removed), Ok("a".to_owned()));
    drop(pubsub);
    drop(ticket);
    assert_eq!(told(&mut removed), Err(TryRecvError::Closed));
}

#[test]
fn receiver_learns_from_a_departure() {
    let mut pubsub: PubSub<String> = PubSub::new(4);
    let first = pubsub.subscribe(&"a".to_owned());
    let mut second = pubsub.subscribe(&"a".to_owned());
    let ticket = first.close();
    second.catch_up(&ticket);
    pubsub.publish(&"a".to_owned(), "still here".to_owned());
    second.catch_up(pubsub.as_ticket());
    assert_eq!(next(&mut second), Ok("still here".to_owned()));
}

#[test]
fn room_is_rounded_up_to_a_power_of_two() {
    let mut pubsub: PubSub<String> = PubSub::new(3);
    let mut rx = pubsub.subscribe(&"a".to_owned());
    for i in 0..4 {
        pubsub.publish(&"a".to_owned(), i.to_string());
    }
    assert_eq!(next(&mut rx), Ok("0".to_owned()));
    for i in 4..9 {
        pubsub.publish(&"a".to_owned(), i.to_string());
    }
    assert_eq!(next(&mut rx), Err(TryRecvError::Lagged(4)));
    assert_eq!(next(&mut rx), Ok("5".to_owned()));
}

#[test]
fn receiver_one_too_far_behind_is_told() {
    let mut pubsub: PubSub<u32> = PubSub::new(16);
    let mut rx = pubsub.subscribe(&"1".to_owned());
    for i in 1..=17 {
        pubsub.publish(&"1".to_owned(), i);
    }
    assert_eq!(drawn(&mut rx), Some(Err(TryRecvError::Lagged(1))));
    for i in 2..=17 {
        assert_eq!(drawn(&mut rx), Some(Ok(i)));
    }
    assert_eq!(drawn(&mut rx), None);
}

#[test]
fn messages_do_not_end() {
    let mut pubsub: PubSub<u32> = PubSub::new(4);
    let mut rx = pubsub.subscribe(&"a".to_owned());
    pubsub.publish(&"a".to_owned(), 7);
    drop(pubsub);
    assert_eq!(drawn(&mut rx), Some(Ok(7)));
    assert_eq!(drawn(&mut rx), None);
    assert_eq!(drawn(&mut rx), None);
}
