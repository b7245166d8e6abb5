//! What a JSON text says, as far as objects of strings go.
//!
//! These functions read; they know nothing of how a text was written. White space between
//! the parts of an object is not read.

use vstd::prelude::*;

verus! {

/// The value of a hexadecimal digit.
pub open spec fn hex_value(c: char) -> Option<int> {
    if '0' <= c <= '9' {
        Some(c as int - '0' as int)
    } else if 'a' <= c <= 'f' {
        Some(c as int - 'a' as int + 10)
    } else if 'A' <= c <= 'F' {
        Some(c as int - 'A' as int + 10)
    } else {
        None
    }
}

/// What the four hexadecimal digits at the start of `text` come to.
pub open spec fn read_code(text: Seq<char>) -> Option<int> {
    if text.len() < 4 {
        None
    } else {
        match (hex_value(text[0]), hex_value(text[1]), hex_value(text[2]), hex_value(text[3])) {
            (Some(a), Some(b), Some(c), Some(d)) => Some(0x1000 * a + 0x100 * b + 0x10 * c + d),
            _ => None,
        }
    }
}

/// The character that is written after a backslash at the start of `text`, and how much of
/// `text` that takes.
pub open spec fn read_escape(text: Seq<char>) -> Option<(char, int)> {
    if text.len() == 0 {
        None
    } else if text[0] == '"' || text[0] == '\\' || text[0] == '/' {
        Some((text[0], 1))
    } else if text[0] == 'b' {
        Some(('\u{8}', 1))
    } else if text[0] == 'f' {
        Some(('\u{c}', 1))
    } else if text[0] == 'n' {
        Some(('\n', 1))
    } else if text[0] == 'r' {
        Some(('\r', 1))
    } else if text[0] == 't' {
        Some(('\t', 1))
    } else if text[0] == 'u' {
        match read_code(text.skip(1)) {
            Some(code) => if code < 0xD800 || 0xDFFF < code {
                Some((code as char, 5))
            } else if code < 0xDC00 && text.len() >= 7 && text[5] == '\\' && text[6] == 'u' {
                match read_code(text.skip(7)) {
                    Some(low) => if 0xDC00 <= low <= 0xDFFF {
                        Some((
                            (0x10000 + (code - 0xD800) * 0x400 + (low - 0xDC00)) as char,
                            11,
                        ))
                    } else {
                        None
                    },
                    None => None,
                }
            } else {
                None
            },
            None => None,
        }
    } else {
        None
    }
}

/// The text of the string whose opening quote stands before `text`, and what follows its
/// closing quote.
pub open spec fn read_chars(text: Seq<char>) -> Option<(Seq<char>, Seq<char>)>
    decreases text.len(),
{
    if text.len() == 0 {
        None
    } else if text[0] == '"' {
        Some((Seq::empty(), text.skip(1)))
    } else if text[0] == '\\' {
        match read_escape(text.skip(1)) {
            Some((c, n)) => if 0 < n < text.len() {
                match read_chars(text.skip(1 + n)) {
                    Some((more, rest)) => Some((seq![c] + more, rest)),
                    None => None,
                }
            } else {
                None
            },
            None => None,
        }
    } else if (text[0] as int) < 0x20 {
        None
    } else {
        match read_chars(text.skip(1)) {
            Some((more, rest)) => Some((seq![text[0]] + more, rest)),
            None => None,
        }
    }
}

/// The string at the start of `text`, and what follows it.
pub open spec fn read_string(text: Seq<char>) -> Option<(Seq<char>, Seq<char>)> {
    if text.len() > 0 && text[0] == '"' {
        read_chars(text.skip(1))
    } else {
        None
    }
}

/// The member at the start of `text`, a key and a value that are both strings, and what
/// follows it.
pub open spec fn read_member(text: Seq<char>) -> Option<((Seq<char>, Seq<char>), Seq<char>)> {
    match read_string(text) {
        Some((key, after)) => if after.len() > 0 && after[0] == ':' {
            match read_string(after.skip(1)) {
                Some((value, rest)) => Some(((key, value), rest)),
                None => None,
            }
        } else {
            None
        },
        None => None,
    }
}

/// The members at the start of `text`, parted by commas, up to the closing brace, which has
/// to be the end.
pub open spec fn read_members(text: Seq<char>) -> Option<Seq<(Seq<char>, Seq<char>)>>
    decreases text.len(),
{
    match read_member(text) {
        Some((member, rest)) => if rest == seq!['}'] {
            Some(seq![member])
        } else if 0 < rest.len() < text.len() && rest[0] == ',' {
            match read_members(rest.skip(1)) {
                Some(more) => Some(seq![member] + more),
                None => None,
            }
        } else {
            None
        },
        None => None,
    }
}

/// The members of the object that `text` is, in their order. `None` where it is no object
/// whose values are all strings.
pub open spec fn read_object(text: Seq<char>) -> Option<Seq<(Seq<char>, Seq<char>)>> {
    if text == seq!['{', '}'] {
        Some(Seq::empty())
    } else if text.len() > 0 && text[0] == '{' {
        read_members(text.skip(1))
    } else {
        None
    }
}

} // verus!
