use pubsub_server::address::{listen_address, port_to_string, redis_url};
use pubsub_server::rest_api::{check_api_key, AccessError, PublishRequest};

fn request(channel: &str, data: &str) -> PublishRequest {
    PublishRequest { channel: channel.to_owned(), data: data.to_owned() }
}

#[test]
fn key_opens_the_api() {
    assert_eq!(check_api_key("apikey".to_owned(), 7, &"apikey".to_owned()), Ok(7));
    assert_eq!(
        check_api_key("apikey".to_owned(), 7, &"guess".to_owned()),
        Err(AccessError::PermissionDenied)
    );
    assert_eq!(
        check_api_key("apikey".to_owned(), 7, &"".to_owned()),
        Err(AccessError::PermissionDenied)
    );
}

#[test]
fn request_is_sent_whole() {
    let (channel, payload) = request("test", "message").into_message();
    assert_eq!(channel, "test");
    assert_eq!(payload, r#"{"channel":"test","data":"message"}"#);
}

#[test]
fn json_is_escaped() {
    assert_eq!(
        request("a\"b\\c", "\u{8}\u{c}\n\r\t\u{1}\u{1f}\u{7f}/\u{e9}\u{1f600}").to_json(),
        "{\"channel\":\"a\\\"b\\\\c\",\"data\":\"\\b\\f\\n\\r\\t\\u0001\\u001f\u{7f}/\u{e9}\u{1f600}\"}"
    );
}

#[test]
fn request_reads_back() {
    let sent = request("a\",\"data\":\"b", "\\\"\n").to_json();
    let read: serde_json::Value = serde_json::from_str(&sent).unwrap();
    assert_eq!(read["channel"], "a\",\"data\":\"b");
    assert_eq!(read["data"], "\\\"\n");
    assert_eq!(sent, serde_json::to_string(&read).unwrap());
}

#[test]
fn addresses() {
    assert_eq!(listen_address(None, 3000), "127.0.0.1:3000");
    assert_eq!(listen_address(Some("0.0.0.0".to_owned()), 3001), "0.0.0.0:3001");
    assert_eq!(redis_url("127.0.0.1"), "redis://127.0.0.1/");
}

#[test]
fn ports_in_decimal() {
    for port in [0, 1, 9, 10, 80, 99, 100, 65535] {
        assert_eq!(port_to_string(port), port.to_string());
    }
}
