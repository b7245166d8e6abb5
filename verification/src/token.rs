//! Tokens that are signed with a secret.

use vstd::prelude::*;

use crate::address::read_decimal;
use crate::decode::decode_token;
pub use crate::decode::Rejected;

verus! {

/// The claims, as JSON text, of a token that is signed with `secret` by HMAC with SHA-256:
/// what `jsonwebtoken::decode` yields for the token until it expires, or for ever where it
/// does not. `None` for a token that is refused at any time.
pub uninterp spec fn token_claims(token: Seq<char>, secret: Seq<char>) -> Option<Seq<char>>;

/// `claims` can hold a time of expiry: they are no object, or they hold the letters of its
/// name, or a backslash, by which letters can be written otherwise.
pub open spec fn can_expire(claims: Seq<char>) -> bool {
    ||| claims.len() == 0
    ||| claims[0] != '{'
    ||| claims.contains('\\')
    ||| exists|i: int|
        0 <= i <= claims.len() - 3 && #[trigger] claims.subrange(i, i + 3) == seq!['e', 'x', 'p']
}

/// `claims` are an object in which the letters of the name of a time of expiry stand once, as
/// a key at `i`, with the number `exp` right behind it, up to `j`.
pub open spec fn is_expiry_at(claims: Seq<char>, exp: nat, i: int, j: int) -> bool {
    &&& 0 <= i
    &&& i + 6 < j < claims.len()
    &&& claims[0] == '{'
    &&& !claims.contains('\\')
    &&& claims.subrange(i, i + 6) == seq!['"', 'e', 'x', 'p', '"', ':']
    &&& read_decimal(claims.subrange(i + 6, j)) == Some(exp)
    &&& exp <= u64::MAX
    &&& claims[j] == ',' || claims[j] == '}'
    &&& forall|k: int|
        0 <= k <= claims.len() - 3 && #[trigger] claims.subrange(k, k + 3) == seq!['e', 'x', 'p']
            ==> k == i + 1
}

/// `claims` are seen to hold the time of expiry `exp`, if any.
pub open spec fn holds_expiry(claims: Seq<char>, exp: nat) -> bool {
    exists|i: int, j: int| #[trigger] is_expiry_at(claims, exp, i, j)
}

/// The time of expiry that `claims` are seen to hold, if any, is past by more than a minute
/// when the clock shows `clock`. (A clock in the first minute of 1970 is left out.)
pub open spec fn is_expired(claims: Seq<char>, clock: nat) -> bool {
    clock >= 60 ==> forall|exp: nat| #[trigger] holds_expiry(claims, exp) ==> exp + 60 < clock
}

/// The claims of a token that was accepted, as text. Only [`read_token`] makes one.
pub struct Signed {
    text: String,
    token: Ghost<Seq<char>>,
    secret: Ghost<Seq<char>>,
}

impl Signed {
    /// The claims.
    pub closed spec fn claims(self) -> Seq<char> {
        self.text@
    }

    /// The token that holds them.
    pub closed spec fn token(self) -> Seq<char> {
        self.token@
    }

    /// The secret that the token is signed with.
    pub closed spec fn secret(self) -> Seq<char> {
        self.secret@
    }

    /// The token is signed with the secret, and holds the claims.
    #[verifier::type_invariant]
    pub open spec fn is_signed(self) -> bool {
        token_claims(self.token(), self.secret()) == Some(self.claims())
    }

    /// The claims, to read them.
    pub fn text(&self) -> (text: &str)
        ensures
            text@ == self.claims(),
            self.is_signed(),
    {
        proof {
            use_type_invariant(self);
        }
        self.text.as_str()
    }
}

/// What can come of reading `token` with `secret`: its claims, or word that it was refused.
/// A token that has claims is refused only where these can expire, and have by the clock.
pub open spec fn is_reading(
    token: Seq<char>,
    secret: Seq<char>,
    read: Result<Signed, Rejected>,
) -> bool {
    match read {
        Ok(signed) => {
            &&& signed.token() == token
            &&& signed.secret() == secret
            &&& signed.is_signed()
        },
        Err(rejected) => {
            &&& rejected.token() == token
            &&& rejected.secret() == secret
            &&& token_claims(token, secret) matches Some(text) ==> can_expire(text)
            &&& token_claims(token, secret) matches Some(text) ==> is_expired(
                text,
                rejected.clock(),
            )
        },
    }
}

/// Reads a token that is to be signed with `secret`. It is refused only where decoding it
/// with that secret gave the error that comes back: nothing but [`decode_token`] makes a
/// [`Rejected`].
pub fn read_token(token: &str, secret: &str) -> (read: Result<Signed, Rejected>)
    ensures
        is_reading(token@, secret@, read),
        match read {
            Ok(signed) => {
                &&& signed.token() == token@
                &&& signed.secret() == secret@
                &&& token_claims(token@, secret@) == Some(signed.claims())
            },
            Err(rejected) => {
                &&& rejected.token() == token@
                &&& rejected.secret() == secret@
                &&& token_claims(token@, secret@) matches Some(text) ==> can_expire(text)
                &&& token_claims(token@, secret@) matches Some(text) ==> is_expired(
                    text,
                    rejected.clock(),
                )
            },
        },
{
    match decode_token(token, secret) {
        Ok(text) => Ok(Signed { text, token: Ghost(token@), secret: Ghost(secret@) }),
        Err(rejected) => Err(rejected),
    }
}

/// What comes of reading a token is about that token and that secret: the claims that come
/// back are those the token is signed for, and a refusal is one of decoding this very token
/// with this very secret. A token that has no claims is never read, and one whose claims
/// cannot expire always is.
pub proof fn law_reading_is_of_the_token_at_hand(
    token: Seq<char>,
    secret: Seq<char>,
    read: Result<Signed, Rejected>,
)
    requires
        is_reading(token, secret, read),
    ensures
        read matches Ok(signed) ==> token_claims(token, secret) == Some(signed.claims()),
        read matches Err(rejected) ==> rejected.token() == token && rejected.secret() == secret,
        token_claims(token, secret) is None ==> read is Err,
        token_claims(token, secret) matches Some(text) ==> (!can_expire(text) ==> (read matches Ok(
            signed,
        ) && signed.claims() == text)),
{
}

/// A token that has not expired is accepted. Where a token is signed with the secret and its
/// claims hold the time of expiry `exp`, it is read, unless that time was past by more than a
/// minute on the clock that was read when it was refused.
pub proof fn law_unexpired_token_is_read(
    token: Seq<char>,
    secret: Seq<char>,
    text: Seq<char>,
    exp: nat,
    read: Result<Signed, Rejected>,
)
    requires
        is_reading(token, secret, read),
        token_claims(token, secret) == Some(text),
        holds_expiry(text, exp),
        read matches Err(rejected) ==> rejected.clock() >= 60,
    ensures
        read matches Ok(signed) ==> signed.claims() == text,
        read matches Err(rejected) ==> exp + 60 < rejected.clock(),
{
}

} // verus!
