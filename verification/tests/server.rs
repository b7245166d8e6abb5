use futures::executor::block_on;
use futures::future::poll_fn;
use futures::task::Poll;
use jsonwebtoken::{encode, Algorithm, EncodingKey, Header};
use pubsub_server::pubsub::PubSub;
use pubsub_server::server::{
    answer_token, forward, handshake, subscribe_all, Answer, Claims, Knowledge, Refusal, Server,
    WsConnectionQuery,
};
use pubsub_server::token::{read_token, Signed};
use serde_json::Value;
use std::time::{SystemTime, UNIX_EPOCH};
use tokio::sync::watch;

fn now() -> u64 {
    SystemTime::now().duration_since(UNIX_EPOCH).unwrap().as_secs()
}

fn token(subs: &[&str], exp: Option<u64>, secret: &str, algorithm: Algorithm) -> String {
    let mut claims: serde_json::Map<String, Value> = serde_json::Map::new();
    let subs: Vec<Value> = subs.iter().map(|s| Value::from(*s)).collect();
    claims.insert("subs".to_owned(), Value::from(subs));
    if let Some(exp) = exp {
        claims.insert("exp".to_owned(), Value::from(exp));
    }
    let key = EncodingKey::from_secret(secret.as_bytes());
    encode(&Header::new(algorithm), &Value::from(claims), &key).unwrap()
}

fn ask(token: String) -> Answer {
    handshake("secret", Knowledge::Query(Some(WsConnectionQuery { token })))
}

fn signed(token: String) -> Signed {
    match ask(token) {
        Answer::ReadClaims(signed) => signed,
        _ => panic!("the token was refused"),
    }
}

fn is_refused(token: String) -> bool {
    matches!(ask(token), Answer::Refuse(Refusal::Token(_)))
}

#[test]
fn token_lets_the_client_in() {
    let token = token(&["channel1", "channel2"], Some(now()), "secret", Algorithm::HS256);
    let query = format!("token={}", token);
    let known = Knowledge::Uri(Some(query.clone()));
    assert!(matches!(handshake("secret", known), Answer::ReadQuery(q) if q == query));
    let signed = signed(token);
    let read: Value = serde_json::from_str(signed.text()).unwrap();
    let subs: Vec<String> = serde_json::from_value(read["subs"].clone()).unwrap();
    let exp: Option<u64> = serde_json::from_value(read["exp"].clone()).unwrap();
    let channels = match handshake("secret", Knowledge::Claims(signed, Some(Claims { subs, exp }))) {
        Answer::Accept(channels) => channels,
        _ => panic!("the claims were refused"),
    };
    assert_eq!(channels, vec!["channel1".to_owned(), "channel2".to_owned()]);
}

#[test]
fn token_needs_no_expiry() {
    let token = token(&["topic1", "topic2"], None, "secret", Algorithm::HS256);
    let signed = signed(token);
    assert_eq!(signed.text(), "{\"subs\":[\"topic1\",\"topic2\"]}");
    let subs = vec!["topic1".to_owned(), "topic2".to_owned()];
    let claims = Claims { subs: subs.clone(), exp: None };
    assert!(matches!(
        handshake("secret", Knowledge::Claims(signed, Some(claims))),
        Answer::Accept(channels) if channels == subs
    ));
}

#[test]
fn bad_tokens_are_refused() {
    let later = Some(now() + 1000);
    assert!(is_refused("a.b.c".to_owned()));
    assert!(is_refused("".to_owned()));
    assert!(is_refused(token(&["a"], later, "guess", Algorithm::HS256)));
    assert!(is_refused(token(&["a"], later, "secret", Algorithm::HS384)));
    assert!(is_refused(token(&["a"], None, "guess", Algorithm::HS256)));
    let past = Some(now() - 1000);
    assert!(is_refused(token(&["a"], past, "secret", Algorithm::HS256)));
}

#[test]
fn array_of_claims_can_expire() {
    let expiring = |exp: u64| {
        let claims: Vec<Value> =
            vec![Value::from(exp), Value::from(0), Value::Null, Value::Null, Value::Null];
        let key = EncodingKey::from_secret("secret".as_bytes());
        encode(&Header::new(Algorithm::HS256), &Value::from(claims), &key).unwrap()
    };
    assert!(signed(expiring(now() + 1000)).text().starts_with('['));
    assert!(is_refused(expiring(now() - 1000)));
}

#[test]
fn nothing_is_granted_on_nothing() {
    let answer = handshake("secret", Knowledge::Uri(None));
    assert!(matches!(answer, Answer::Refuse(Refusal::NoQuery)));
    let answer = handshake("secret", Knowledge::Query(None));
    assert!(matches!(answer, Answer::Refuse(Refusal::NoToken)));
    let rejected = match read_token("a.b.c", "secret") {
        Err(rejected) => rejected,
        Ok(_) => panic!("the token was accepted"),
    };
    let reason = rejected.error().to_string();
    assert!(matches!(
        answer_token(Err(rejected)),
        Answer::Refuse(Refusal::Token(word)) if word.error().to_string() == reason
    ));
    let signed = signed(token(&[], None, "secret", Algorithm::HS256));
    let signed = match answer_token(Ok(signed)) {
        Answer::ReadClaims(signed) => signed,
        _ => panic!("the claims were refused"),
    };
    assert_eq!(signed.text(), "{\"subs\":[]}");
    assert!(matches!(
        handshake("secret", Knowledge::Claims(signed, None)),
        Answer::Refuse(Refusal::NoClaims(signed)) if signed.text() == "{\"subs\":[]}"
    ));
}

#[test]
fn client_hears_all_its_channels() {
    let mut hub: PubSub<String> = PubSub::new(4);
    let names = vec!["a".to_owned(), "b".to_owned(), "a".to_owned()];
    let mut receivers = subscribe_all(&mut hub, &names);
    assert_eq!(receivers.len(), 3);
    assert_eq!(hub.channels().len(), 2);
    hub.publish(&"a".to_owned(), "to a".to_owned());
    hub.publish(&"b".to_owned(), "to b".to_owned());
    let expected = ["to a", "to b", "to a"];
    for (receiver, text) in receivers.iter_mut().zip(expected) {
        let received = block_on(poll_fn(|cx| match receiver.poll_next(cx) {
            Some(polled) => Poll::Ready(polled),
            None => Poll::Pending,
        }));
        assert_eq!(received, Ok(text.to_owned()));
    }
}

#[test]
fn losses_are_not_forwarded() {
    assert_eq!(forward(Ok("hello".to_owned())), Some("hello".to_owned()));
    assert_eq!(forward(Err(3)), None);
}

#[test]
fn server_keeps_what_it_is_made_of() {
    let (_tx, rx) = watch::channel(false);
    let mut hub: PubSub<String> = PubSub::new(10);
    let mut server = Server::new(5u8, "secret", hub.clone(), rx);
    assert_eq!(*server.listener(), 5);
    assert_eq!(server.jwt_secret(), "secret");
    let held = hub.subscribe(&"a".to_owned());
    assert_eq!(server.dispatch().channels(), vec!["a".to_owned()]);
    held.close();
    assert!(!*server.shutdown_signal().borrow());
    assert_eq!(server.take_listener(), Some(5));
    assert_eq!(server.take_listener(), None);
}
