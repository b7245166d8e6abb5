//! Decoding of tokens.

use vstd::prelude::*;

use std::collections::HashSet;

use jsonwebtoken::{decode, Algorithm, DecodingKey, Validation};
use serde_json::value::RawValue;

use crate::token::{can_expire, is_expired, token_claims};

verus! {

/// An error of `jsonwebtoken`. Opaque.
#[verifier::external_type_specification]
#[verifier::external_body]
pub struct ExTokenError(jsonwebtoken::errors::Error);

/// Word that a token was refused, with the error. Only [`decode_token`] makes one, so that
/// there is no word of a refusal but where decoding gave an error.
pub struct Rejected {
    error: jsonwebtoken::errors::Error,
    token: Ghost<Seq<char>>,
    secret: Ghost<Seq<char>>,
    clock: Ghost<nat>,
}

impl Rejected {
    /// Why the token was refused.
    pub closed spec fn reason(self) -> jsonwebtoken::errors::Error {
        self.error
    }

    /// The token.
    pub closed spec fn token(self) -> Seq<char> {
        self.token@
    }

    /// The secret that it was to be signed with.
    pub closed spec fn secret(self) -> Seq<char> {
        self.secret@
    }

    /// The time that the clock showed when the token was refused, in seconds since 1970.
    pub closed spec fn clock(self) -> nat {
        self.clock@
    }

    /// Why the token was refused.
    pub fn error(&self) -> (error: &jsonwebtoken::errors::Error)
        ensures
            *error == self.reason(),
    {
        &self.error
    }
}

/// Reads a token with `jsonwebtoken::decode`, with the validation that `Validation::new`
/// sets up for HMAC with SHA-256, but that no claim has to be there. Claimed: the claims of
/// a token that is accepted are those of [`token_claims`], and a token that has some is
/// refused only where they hold a time of expiry, by its name in an object or by its place
/// in an array. Such a token is accepted until a minute after that time, so whether it is
/// rests on the clock, and neither outcome is promised. The word of a refusal is about the
/// token and the secret at hand, and where the claims of such a token are seen to hold a time
/// of expiry as a plain number, that time was past by more than a minute when the clock was
/// read. (It is left out what comes of a clock that shows the first minute of 1970, from which
/// no minute can be taken.)
/// (The claims are read as text, so a token whose claims are not UTF-8 is refused. The call
/// panics when the clock is set to before 1970.)
#[verifier::external_body]
pub(crate) fn decode_token(token: &str, secret: &str) -> (claims: Result<String, Rejected>)
    ensures
        match claims {
            Ok(text) => token_claims(token@, secret@) == Some(text@),
            Err(rejected) => {
                &&& rejected.token() == token@
                &&& rejected.secret() == secret@
                &&& token_claims(token@, secret@) matches Some(text) ==> can_expire(text)
                &&& token_claims(token@, secret@) matches Some(text) ==> is_expired(
                    text,
                    rejected.clock(),
                )
            },
        },
{
    let key = DecodingKey::from_secret(secret.as_bytes());
    let mut validation = Validation::new(Algorithm::HS256);
    validation.required_spec_claims = HashSet::new();
    match decode::<Box<RawValue>>(token, &key, &validation) {
        Ok(data) => Ok(data.claims.get().to_owned()),
        Err(error) => {
            let (token, secret) = (Ghost(arbitrary()), Ghost(arbitrary()));
            Err(Rejected { error, token, secret, clock: Ghost(arbitrary()) })
        },
    }
}

} // verus!
