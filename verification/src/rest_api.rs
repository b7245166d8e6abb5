//! The requests of the REST interface: who may make them, and what they send to Redis.

use vstd::prelude::*;

use crate::json::{
    hex_value, read_chars, read_code, read_escape, read_member, read_members, read_object, read_string,
};

verus! {

/// An error of `serde_json`. Opaque.
#[verifier::external_type_specification]
#[verifier::external_body]
pub struct ExJsonError(serde_json::Error);

/// A request to publish `data` on `channel`.
pub struct PublishRequest {
    pub channel: String,
    pub data: String,
}

/// Why a request is turned down.
#[derive(PartialEq, Eq, Structural, Debug)]
pub enum AccessError {
    PermissionDenied,
}

/// Lets `req` pass when it came with the key `api_key`.
pub fn check_api_key<R>(api_key: String, req: R, token: &String) -> (checked: Result<R, AccessError>)
    ensures
        checked == if token@ == api_key@ {
            Ok::<R, AccessError>(req)
        } else {
            Err(AccessError::PermissionDenied)
        },
{
    if *token != api_key {
        Err(AccessError::PermissionDenied)
    } else {
        Ok(req)
    }
}

/// The hexadecimal digit of `n`.
pub open spec fn hex_digit(n: int) -> char {
    if n < 10 {
        ('0' as int + n) as char
    } else {
        ('a' as int + n - 10) as char
    }
}

/// How a character is written inside a JSON string.
pub open spec fn json_char(c: char) -> Seq<char> {
    if c == '"' || c == '\\' {
        seq!['\\', c]
    } else if c == '\u{8}' {
        seq!['\\', 'b']
    } else if c == '\u{c}' {
        seq!['\\', 'f']
    } else if c == '\n' {
        seq!['\\', 'n']
    } else if c == '\r' {
        seq!['\\', 'r']
    } else if c == '\t' {
        seq!['\\', 't']
    } else if (c as int) < 0x20 {
        seq!['\\', 'u', '0', '0', hex_digit(c as int / 16), hex_digit(c as int % 16)]
    } else {
        seq![c]
    }
}

/// How a text is written inside a JSON string.
pub open spec fn json_chars(text: Seq<char>) -> Seq<char>
    decreases text.len(),
{
    if text.len() == 0 {
        Seq::empty()
    } else {
        json_char(text[0]) + json_chars(text.drop_first())
    }
}

/// `text` as a JSON string.
pub open spec fn json_string(text: Seq<char>) -> Seq<char> {
    seq!['"'] + json_chars(text) + seq!['"']
}

/// The JSON object of a request.
pub open spec fn request_json(channel: Seq<char>, data: Seq<char>) -> Seq<char> {
    "{\"channel\":"@ + json_string(channel) + ",\"data\":"@ + json_string(data) + "}"@
}

/// What goes to Redis for `request`: the whole request as JSON, on its channel.
pub open spec fn is_message_for(request: PublishRequest, message: (String, String)) -> bool {
    &&& message.0@ == request.channel@
    &&& message.1@ == request_json(request.channel@, request.data@)
}

/// Writes a text as a JSON string with `serde_json::to_string`. Claimed: it succeeds, and
/// its result is the text in quotes, with quotes, backslashes and control characters
/// escaped and all else as it is.
#[verifier::external_body]
fn string_to_json(text: &str) -> (json: Result<String, serde_json::Error>)
    ensures
        json is Ok,
        json->Ok_0@ == json_string(text@),
{
    serde_json::to_string(text)
}

impl PublishRequest {
    /// The JSON object of this request.
    pub fn to_json(&self) -> (json: String)
        ensures
            json@ == request_json(self.channel@, self.data@),
            read_object(json@) == Some(
                seq![("channel"@, self.channel@), ("data"@, self.data@)],
            ),
    {
        proof {
            law_request_is_its_object(self.channel@, self.data@);
        }
        let channel = string_to_json(self.channel.as_str()).unwrap();
        let data = string_to_json(self.data.as_str()).unwrap();
        let mut json = "{\"channel\":".to_owned();
        json.append(channel.as_str());
        json.append(",\"data\":");
        json.append(data.as_str());
        json.append("}");
        json
    }

    /// What goes to Redis for this request: the whole request as JSON, on its channel.
    pub fn into_message(self) -> (message: (String, String))
        ensures
            is_message_for(self, message),
            message.0@ == self.channel@,
            read_object(message.1@) == Some(
                seq![("channel"@, self.channel@), ("data"@, self.data@)],
            ),
    {
        let json = self.to_json();
        (self.channel, json)
    }
}

/// What is written for a character tells which it was, whatever follows.
proof fn lemma_json_char_reads_back(a: char, rest_a: Seq<char>, b: char, rest_b: Seq<char>)
    requires
        json_char(a) + rest_a == json_char(b) + rest_b,
    ensures
        a == b,
        rest_a == rest_b,
{
    let whole_a = json_char(a) + rest_a;
    let whole_b = json_char(b) + rest_b;
    assert(whole_a[0] == json_char(a)[0] && whole_b[0] == json_char(b)[0]);
    if json_char(a).len() > 1 && json_char(b).len() > 1 {
        assert(whole_a[1] == json_char(a)[1] && whole_b[1] == json_char(b)[1]);
        if json_char(a).len() == 6 && json_char(b).len() == 6 {
            assert(whole_a[4] == json_char(a)[4] && whole_b[4] == json_char(b)[4]);
            assert(whole_a[5] == json_char(a)[5] && whole_b[5] == json_char(b)[5]);
        }
    }
    assert(a == b);
    let n = json_char(a).len() as int;
    assert(rest_a =~= whole_a.skip(n));
    assert(rest_b =~= whole_b.skip(n));
}

/// What is written for a text tells which it was, whatever follows the closing quote.
proof fn lemma_json_chars_read_back(
    a: Seq<char>,
    rest_a: Seq<char>,
    b: Seq<char>,
    rest_b: Seq<char>,
)
    requires
        json_chars(a) + (seq!['"'] + rest_a) == json_chars(b) + (seq!['"'] + rest_b),
    ensures
        a == b,
        rest_a == rest_b,
    decreases a.len(),
{
    let tail_a = seq!['"'] + rest_a;
    let tail_b = seq!['"'] + rest_b;
    let whole_a = json_chars(a) + tail_a;
    let whole_b = json_chars(b) + tail_b;
    if a.len() == 0 || b.len() == 0 {
        if a.len() > 0 {
            assert(whole_a[0] == json_char(a[0])[0]);
            assert(whole_b[0] == '"');
        }
        if b.len() > 0 {
            assert(whole_b[0] == json_char(b[0])[0]);
            assert(whole_a[0] == '"');
        }
        assert(a =~= b);
        assert(rest_a =~= whole_a.skip(1));
        assert(rest_b =~= whole_b.skip(1));
    } else {
        let more_a = json_chars(a.drop_first()) + tail_a;
        let more_b = json_chars(b.drop_first()) + tail_b;
        assert(whole_a =~= json_char(a[0]) + more_a);
        assert(whole_b =~= json_char(b[0]) + more_b);
        lemma_json_char_reads_back(a[0], more_a, b[0], more_b);
        lemma_json_chars_read_back(a.drop_first(), rest_a, b.drop_first(), rest_b);
        assert(a =~= seq![a[0]] + a.drop_first());
        assert(b =~= seq![b[0]] + b.drop_first());
    }
}

/// What is sent to Redis tells which request it was: no two requests are sent as the same
/// text.
pub proof fn law_request_reads_back(
    channel: Seq<char>,
    data: Seq<char>,
    other_channel: Seq<char>,
    other_data: Seq<char>,
)
    requires
        request_json(channel, data) == request_json(other_channel, other_data),
    ensures
        channel == other_channel,
        data == other_data,
{
    let head = "{\"channel\":"@;
    let middle = ",\"data\":"@;
    let end = "}"@;
    let rest = middle + json_string(data) + end;
    let other_rest = middle + json_string(other_data) + end;
    let n = head.len() + 1;
    assert(request_json(channel, data).skip(n as int) =~= json_chars(channel) + (seq!['"'] + rest));
    assert(request_json(other_channel, other_data).skip(n as int) =~= json_chars(other_channel) + (
    seq!['"'] + other_rest));
    lemma_json_chars_read_back(channel, rest, other_channel, other_rest);
    let m = middle.len() + 1;
    assert(rest.skip(m as int) =~= json_chars(data) + (seq!['"'] + end));
    assert(other_rest.skip(m as int) =~= json_chars(other_data) + (seq!['"'] + end));
    lemma_json_chars_read_back(data, end, other_data, end);
}

/// The digits that are written for a control character read as its code.
proof fn lemma_code_is_read(c: char, text: Seq<char>)
    requires
        (c as int) < 0x20,
        text.len() >= 4,
        text[0] == '0',
        text[1] == '0',
        text[2] == hex_digit(c as int / 16),
        text[3] == hex_digit(c as int % 16),
    ensures
        read_code(text) == Some(c as int),
{
    assert(hex_value('0') == Some(0int));
    assert(hex_value(hex_digit(c as int / 16)) == Some(c as int / 16));
    assert(hex_value(hex_digit(c as int % 16)) == Some(c as int % 16));
}

/// What is written for a character after a backslash reads as that character.
proof fn lemma_escape_is_read(c: char, more: Seq<char>)
    requires
        json_char(c).len() > 1,
    ensures
        json_char(c)[0] == '\\',
        read_escape((json_char(c) + more).skip(1)) == Some((c, json_char(c).len() - 1)),
{
    let written = json_char(c);
    let after = (written + more).skip(1);
    assert(after[0] == written[1]);
    if written.len() == 6 {
        let digits = after.skip(1);
        assert(digits[0] == written[2] && digits[1] == written[3]);
        assert(digits[2] == written[4] && digits[3] == written[5]);
        lemma_code_is_read(c, digits);
    }
}

/// What is written for a character reads as that character, whatever follows.
proof fn lemma_char_is_read(c: char, more: Seq<char>)
    ensures
        read_chars(json_char(c) + more) == match read_chars(more) {
            Some((text, rest)) => Some((seq![c] + text, rest)),
            None => None::<(Seq<char>, Seq<char>)>,
        },
{
    let written = json_char(c);
    let whole = written + more;
    let n = written.len() as int;
    assert(whole.skip(n) =~= more);
    assert(whole[0] == written[0]);
    if n > 1 {
        lemma_escape_is_read(c, more);
    }
}

/// What is written for a text reads as that text, whatever follows the closing quote.
proof fn lemma_chars_are_read(text: Seq<char>, rest: Seq<char>)
    ensures
        read_chars(json_chars(text) + (seq!['"'] + rest)) == Some((text, rest)),
    decreases text.len(),
{
    let end = seq!['"'] + rest;
    let whole = json_chars(text) + end;
    if text.len() == 0 {
        assert(whole[0] == '"');
        assert(whole.skip(1) =~= rest);
        assert(text =~= Seq::<char>::empty());
    } else {
        let more = json_chars(text.drop_first()) + end;
        assert(whole =~= json_char(text[0]) + more);
        lemma_chars_are_read(text.drop_first(), rest);
        lemma_char_is_read(text[0], more);
        assert(seq![text[0]] + text.drop_first() =~= text);
    }
}

/// What is written for a text as a string reads as that string, whatever follows.
proof fn lemma_string_is_read(text: Seq<char>, rest: Seq<char>)
    ensures
        read_string(json_string(text) + rest) == Some((text, rest)),
{
    let whole = json_string(text) + rest;
    assert(whole[0] == '"');
    assert(whole.skip(1) =~= json_chars(text) + (seq!['"'] + rest));
    lemma_chars_are_read(text, rest);
}

/// A key and a text, each written as a string, read as a member, whatever follows.
proof fn lemma_member_is_read(key: Seq<char>, value: Seq<char>, rest: Seq<char>)
    ensures
        read_member(json_string(key) + (seq![':'] + (json_string(value) + rest))) == Some(
            ((key, value), rest),
        ),
{
    let after = seq![':'] + (json_string(value) + rest);
    lemma_string_is_read(key, after);
    assert(after[0] == ':');
    assert(after.skip(1) =~= json_string(value) + rest);
    lemma_string_is_read(value, rest);
}

/// How the keys of a request are written.
proof fn lemma_keys_are_written()
    ensures
        "{\"channel\":"@ == seq!['{'] + json_string("channel"@) + seq![':'],
        ",\"data\":"@ == seq![','] + json_string("data"@) + seq![':'],
        "}"@ == seq!['}'],
{
    reveal_strlit("{\"channel\":");
    reveal_strlit(",\"data\":");
    reveal_strlit("}");
    reveal_strlit("channel");
    reveal_strlit("data");
    lemma_plain_text_is_written_as_it_is("channel"@);
    lemma_plain_text_is_written_as_it_is("data"@);
    assert("{\"channel\":"@ =~= seq!['{'] + json_string("channel"@) + seq![':']);
    assert(",\"data\":"@ =~= seq![','] + json_string("data"@) + seq![':']);
    assert("}"@ =~= seq!['}']);
}

/// Two members, each a key and a text that are written as strings, read as an object.
proof fn lemma_object_is_read(
    first_key: Seq<char>,
    first: Seq<char>,
    second_key: Seq<char>,
    second: Seq<char>,
)
    ensures
        read_object(
            seq!['{'] + (json_string(first_key) + (seq![':'] + (json_string(first) + (seq![','] + (
            json_string(second_key) + (seq![':'] + (json_string(second) + seq!['}']))))))),
        ) == Some(seq![(first_key, first), (second_key, second)]),
{
    let end = seq!['}'];
    let tail = json_string(second_key) + (seq![':'] + (json_string(second) + end));
    let after = seq![','] + tail;
    let members = json_string(first_key) + (seq![':'] + (json_string(first) + after));
    let whole = seq!['{'] + members;
    assert(whole.skip(1) =~= members);
    assert(after.skip(1) =~= tail);
    assert(after[0] == ',' && end[0] == '}');
    assert(whole[0] == '{' && whole[1] == '"') by {
        assert(whole[1] == members[0]);
        assert(members[0] == json_string(first_key)[0]);
    }
    assert(seq!['{', '}'][1] == '}');
    lemma_member_is_read(first_key, first, after);
    lemma_member_is_read(second_key, second, end);
    let last = seq![(second_key, second)];
    assert(read_members(tail) == Some(last));
    assert(read_members(members) == Some(seq![(first_key, first)] + last));
    assert(seq![(first_key, first)] + last =~= seq![(first_key, first), (second_key, second)]);
}

/// A request is sent as its object: the text sent for it, read as JSON, has exactly the keys
/// `channel` and `data`, with the request's channel and data as their values.
pub proof fn law_request_is_its_object(channel: Seq<char>, data: Seq<char>)
    ensures
        read_object(request_json(channel, data)) == Some(
            seq![("channel"@, channel), ("data"@, data)],
        ),
{
    let key = json_string("channel"@);
    let other_key = json_string("data"@);
    let value = json_string(channel);
    let other_value = json_string(data);
    lemma_keys_are_written();
    lemma_object_is_read("channel"@, channel, "data"@, data);
    assert(request_json(channel, data) =~= seq!['{'] + (key + (seq![':'] + (value + (seq![','] + (
    other_key + (seq![':'] + (other_value + seq!['}']))))))));
}

/// A text without characters that have to be escaped is written as it is.
proof fn lemma_plain_text_is_written_as_it_is(text: Seq<char>)
    requires
        forall|i: int|
            0 <= i < text.len() ==> {
                &&& (#[trigger] text[i]) as int >= 0x20
                &&& text[i] != '"'
                &&& text[i] != '\\'
            },
    ensures
        json_chars(text) == text,
    decreases text.len(),
{
    if text.len() > 0 {
        assert forall|i: int| 0 <= i < text.drop_first().len() implies {
            &&& (#[trigger] text.drop_first()[i]) as int >= 0x20
            &&& text.drop_first()[i] != '"'
            &&& text.drop_first()[i] != '\\'
        } by {
            assert(text.drop_first()[i] == text[i + 1]);
        }
        lemma_plain_text_is_written_as_it_is(text.drop_first());
        assert(json_char(text[0]) == seq![text[0]]);
        assert(seq![text[0]] + text.drop_first() =~= text);
    } else {
        assert(json_chars(text) =~= text);
    }
}

/// What goes to Redis for a request goes there on the channel of the request, and says, read
/// as JSON, which channel and which data it was.
pub proof fn law_message_carries_the_request(request: PublishRequest, message: (String, String))
    requires
        is_message_for(request, message),
    ensures
        message.0@ == request.channel@,
        read_object(message.1@) == Some(
            seq![("channel"@, request.channel@), ("data"@, request.data@)],
        ),
{
    law_request_is_its_object(request.channel@, request.data@);
}

} // verus!
