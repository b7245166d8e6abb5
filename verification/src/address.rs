//! The addresses that a server is started with.

use vstd::prelude::*;

verus! {

/// The digit of `n`.
pub open spec fn digit(n: nat) -> char {
    ('0' as int + n) as char
}

/// `n` in decimal.
pub open spec fn decimal(n: nat) -> Seq<char>
    decreases n,
{
    if n < 10 {
        seq![digit(n)]
    } else {
        decimal(n / 10).push(digit(n % 10))
    }
}

/// The number that `text` is in decimal. `None` where it is none.
pub open spec fn read_decimal(text: Seq<char>) -> Option<nat>
    decreases text.len(),
{
    if text.len() == 0 || !('0' <= text.last() <= '9') {
        None
    } else {
        let last = (text.last() as int - '0' as int) as nat;
        if text.len() == 1 {
            Some(last)
        } else {
            match read_decimal(text.drop_last()) {
                Some(n) => Some(10 * n + last),
                None => None,
            }
        }
    }
}

/// A number in decimal reads as that number, and has no leading zero.
pub proof fn law_decimal_reads_back(n: nat)
    ensures
        read_decimal(decimal(n)) == Some(n),
        decimal(n).len() > 0,
        decimal(n)[0] == '0' ==> n == 0,
    decreases n,
{
    if n >= 10 {
        law_decimal_reads_back(n / 10);
        assert(decimal(n).drop_last() =~= decimal(n / 10));
        assert(decimal(n).last() == digit(n % 10));
        assert(decimal(n)[0] == decimal(n / 10)[0]);
    } else {
        assert(decimal(n).last() == digit(n));
    }
}

/// The digit of `n`, as a string.
fn digit_to_str(n: u16) -> (text: &'static str)
    requires
        n < 10,
    ensures
        text@ == seq![digit(n as nat)],
{
    proof {
        reveal_strlit("0");
        reveal_strlit("1");
        reveal_strlit("2");
        reveal_strlit("3");
        reveal_strlit("4");
        reveal_strlit("5");
        reveal_strlit("6");
        reveal_strlit("7");
        reveal_strlit("8");
        reveal_strlit("9");
    }
    let text = if n == 0 {
        "0"
    } else if n == 1 {
        "1"
    } else if n == 2 {
        "2"
    } else if n == 3 {
        "3"
    } else if n == 4 {
        "4"
    } else if n == 5 {
        "5"
    } else if n == 6 {
        "6"
    } else if n == 7 {
        "7"
    } else if n == 8 {
        "8"
    } else {
        "9"
    };
    assert(text@ =~= seq![digit(n as nat)]);
    text
}

/// A port number in decimal.
pub fn port_to_string(port: u16) -> (text: String)
    ensures
        text@ == decimal(port as nat),
        read_decimal(text@) == Some(port as nat),
    decreases port,
{
    proof {
        law_decimal_reads_back(port as nat);
    }
    if port < 10 {
        digit_to_str(port).to_owned()
    } else {
        let mut text = port_to_string(port / 10);
        text.append(digit_to_str(port % 10));
        assert(text@ =~= decimal(port as nat));
        text
    }
}

/// The host and port to listen on, `127.0.0.1` where no host is given.
pub fn listen_address(host: Option<String>, port: u16) -> (address: String)
    ensures
        address@ == match host {
            Some(name) => name@,
            None => "127.0.0.1"@,
        } + ":"@ + decimal(port as nat),
{
    let mut address = match host {
        Some(name) => name,
        None => "127.0.0.1".to_owned(),
    };
    address.append(":");
    address.append(port_to_string(port).as_str());
    address
}

/// The URL of the Redis server at `host`.
pub fn redis_url(host: &str) -> (url: String)
    ensures
        url@ == "redis://"@ + host@ + "/"@,
{
    let mut url = "redis://".to_owned();
    url.append(host);
    url.append("/");
    url
}

} // verus!
