//! WebSocket connections: who is let in, and what they are subscribed to.

use vstd::prelude::*;

use tokio::sync::watch::Receiver as WatchReceiver;

use crate::broadcast::{new_cursor, valid_capacity};
use crate::laws::law_subscription_joins_its_channel;
use crate::lock::Transition;
use crate::pubsub::{Inner, PubSub, Receiver};
use crate::table::{consistent, subscribed, Table};
use crate::token::{
    can_expire, holds_expiry, is_expired, is_reading, read_token, token_claims, Rejected, Signed,
};

verus! {

/// The receiver of a value that is watched, `tokio::sync::watch::Receiver`. Opaque.
#[verifier::external_type_specification]
#[verifier::external_body]
#[verifier::reject_recursive_types(T)]
pub struct ExWatchReceiver<T>(WatchReceiver<T>);

/// What a token says: the channels that its bearer wants, and when it expires, if ever.
pub struct Claims {
    pub subs: Vec<String>,
    pub exp: Option<u64>,
}

/// The query with which a client connects.
pub struct WsConnectionQuery {
    pub token: String,
}

/// What is known of a client that wants to connect.
pub enum Knowledge {
    /// The query part of the URI, where it has one.
    Uri(Option<String>),
    /// The query, where that part is one.
    Query(Option<WsConnectionQuery>),
    /// The claims, where the text that was signed holds some.
    Claims(Signed, Option<Claims>),
}

/// How to go on with a client that wants to connect.
pub enum Answer {
    /// Read this as a query.
    ReadQuery(String),
    /// Read this as claims.
    ReadClaims(Signed),
    /// Let the client in and subscribe it to these channels.
    Accept(Vec<String>),
    /// Turn the client away.
    Refuse(Refusal),
}

/// Why a client is turned away.
pub enum Refusal {
    /// Its URI has no query part.
    NoQuery,
    /// That part holds no token.
    NoToken,
    /// The token was refused.
    Token(Rejected),
    /// The token holds no claims.
    NoClaims(Signed),
}

/// The answer once the token was looked at.
pub open spec fn answers_token(read: Result<Signed, Rejected>, answer: Answer) -> bool {
    match read {
        Ok(signed) => answer == Answer::ReadClaims(signed),
        Err(rejected) => answer == Answer::Refuse(Refusal::Token(rejected)),
    }
}

/// How to go on once the token was looked at: with its claims, if it was accepted.
pub fn answer_token(read: Result<Signed, Rejected>) -> (answer: Answer)
    ensures
        answers_token(read, answer),
        answer == match read {
            Ok(signed) => Answer::ReadClaims(signed),
            Err(rejected) => Answer::Refuse(Refusal::Token(rejected)),
        },
{
    match read {
        Ok(signed) => Answer::ReadClaims(signed),
        Err(rejected) => Answer::Refuse(Refusal::Token(rejected)),
    }
}

/// The answer to what is known of a client, under the secret that its token is to be
/// signed with. Where the token decides, the answer holds what came of it.
pub open spec fn answers(secret: Seq<char>, known: Knowledge, answer: Answer) -> bool {
    match known {
        Knowledge::Uri(Some(query)) => answer matches Answer::ReadQuery(read) && read@ == query@,
        Knowledge::Uri(None) => answer == Answer::Refuse(Refusal::NoQuery),
        Knowledge::Query(Some(query)) => exists|read: Result<Signed, Rejected>|
            is_reading(query.token@, secret, read) && #[trigger] answers_token(read, answer),
        Knowledge::Query(None) => answer == Answer::Refuse(Refusal::NoToken),
        Knowledge::Claims(signed, Some(claims)) => {
            &&& answer matches Answer::Accept(subs) && subs == claims.subs
            &&& signed.is_signed()
        },
        Knowledge::Claims(signed, None) => answer == Answer::Refuse(Refusal::NoClaims(signed)),
    }
}

/// How to go on with a client of which `known` is known. A client is let in when its URI has
/// a query, the query has a token, the token is accepted and holds claims. Whether a token is
/// accepted is up to [`read_token`], which is asked once.
pub fn handshake(jwt_secret: &str, known: Knowledge) -> (answer: Answer)
    requires
        known matches Knowledge::Claims(signed, _) ==> signed.secret() == jwt_secret@,
    ensures
        answers(jwt_secret@, known, answer),
        match known {
            Knowledge::Uri(Some(query)) => answer == Answer::ReadQuery(query),
            Knowledge::Uri(None) => answer == Answer::Refuse(Refusal::NoQuery),
            Knowledge::Query(Some(query)) => match answer {
                Answer::ReadClaims(signed) => {
                    &&& signed.token() == query.token@
                    &&& signed.secret() == jwt_secret@
                    &&& token_claims(query.token@, jwt_secret@) == Some(signed.claims())
                },
                Answer::Refuse(Refusal::Token(rejected)) => {
                    &&& rejected.token() == query.token@
                    &&& rejected.secret() == jwt_secret@
                    &&& token_claims(query.token@, jwt_secret@) matches Some(text) ==> can_expire(
                        text,
                    ) && is_expired(text, rejected.clock())
                },
                _ => false,
            },
            Knowledge::Query(None) => answer == Answer::Refuse(Refusal::NoToken),
            Knowledge::Claims(_, Some(claims)) => answer == Answer::Accept(claims.subs),
            Knowledge::Claims(signed, None) => answer == Answer::Refuse(Refusal::NoClaims(signed)),
        },
{
    match known {
        Knowledge::Uri(Some(query)) => Answer::ReadQuery(query),
        Knowledge::Uri(None) => Answer::Refuse(Refusal::NoQuery),
        Knowledge::Query(Some(query)) => answer_token(read_token(query.token.as_str(), jwt_secret)),
        Knowledge::Query(None) => Answer::Refuse(Refusal::NoToken),
        Knowledge::Claims(signed, Some(claims)) => {
            proof {
                use_type_invariant(&signed);
            }
            Answer::Accept(claims.subs)
        },
        Knowledge::Claims(signed, None) => Answer::Refuse(Refusal::NoClaims(signed)),
    }
}

/// Claims are read only from a token that is signed with the server's secret: a query is
/// answered by reading the claims of its token, or by turning the client away, and always
/// the latter where the token is not signed.
pub proof fn law_only_signed_tokens_are_read(
    secret: Seq<char>,
    query: WsConnectionQuery,
    answer: Answer,
)
    requires
        answers(secret, Knowledge::Query(Some(query)), answer),
    ensures
        answer is Refuse || answer is ReadClaims,
        answer matches Answer::ReadClaims(signed) ==> token_claims(query.token@, secret) == Some(
            signed.claims(),
        ),
        token_claims(query.token@, secret) is None ==> answer is Refuse,
{
}

/// A client that shows a token is turned away only on word that decoding this very token with
/// the server's secret was refused, so that a token which holds a time of expiry is turned
/// away only when that is past by more than a minute on the clock: there is no other answer
/// but to read its claims.
pub proof fn law_only_refused_tokens_are_turned_away(
    secret: Seq<char>,
    query: WsConnectionQuery,
    answer: Answer,
)
    requires
        answers(secret, Knowledge::Query(Some(query)), answer),
    ensures
        match answer {
            Answer::ReadClaims(signed) => {
                &&& signed.token() == query.token@
                &&& signed.secret() == secret
                &&& token_claims(query.token@, secret) == Some(signed.claims())
            },
            Answer::Refuse(Refusal::Token(rejected)) => {
                &&& rejected.token() == query.token@
                &&& rejected.secret() == secret
                &&& token_claims(query.token@, secret) matches Some(text) ==> can_expire(text)
                &&& forall|text: Seq<char>, exp: nat|
                    token_claims(query.token@, secret) == Some(text) && #[trigger] holds_expiry(
                        text,
                        exp,
                    ) && rejected.clock() >= 60 ==> exp + 60 < rejected.clock()
            },
            _ => false,
        },
{
}

/// A client whose token holds claims is let in, with all the channels that the claims list, in
/// their order, and with no others; a query that is there is read as it is.
pub proof fn law_claims_let_the_client_in(
    secret: Seq<char>,
    signed: Signed,
    claims: Claims,
    query: String,
    answer: Answer,
    reading: Answer,
)
    requires
        answers(secret, Knowledge::Claims(signed, Some(claims)), answer),
        answers(secret, Knowledge::Uri(Some(query)), reading),
    ensures
        answer matches Answer::Accept(channels) && channels@.len() == claims.subs@.len() && (forall|
            i: int,
        |
            0 <= i < channels@.len() ==> (#[trigger] channels@[i])@ == claims.subs@[i]@),
        reading matches Answer::ReadQuery(read) && read@ == query@,
{
}

/// A token that is signed with the server's secret and holds no time of expiry is always
/// accepted, so that its claims are read.
pub proof fn law_token_without_expiry_is_read(
    secret: Seq<char>,
    query: WsConnectionQuery,
    text: Seq<char>,
    answer: Answer,
)
    requires
        answers(secret, Knowledge::Query(Some(query)), answer),
        token_claims(query.token@, secret) == Some(text),
        !can_expire(text),
    ensures
        answer matches Answer::ReadClaims(signed) && signed.claims() == text,
{
}

/// A client without a query, without a token or without claims is turned away, whatever the
/// secret.
pub proof fn law_nothing_is_granted_on_nothing(secret: Seq<char>, known: Knowledge, answer: Answer)
    requires
        answers(secret, known, answer),
        known matches Knowledge::Uri(query) ==> query is None,
        known matches Knowledge::Query(query) ==> query is None,
        known matches Knowledge::Claims(_, claims) ==> claims is None,
    ensures
        answer is Refuse,
{
}

/// Subscribes to each of `channels`, in turn, and to no others.
pub fn subscribe_all(dispatch: &mut PubSub<String>, channels: &Vec<String>) -> (receivers: Vec<
    Receiver<String>,
>)
    requires
        old(dispatch).wf(),
        valid_capacity(old(dispatch).inner().buffer_size()),
    ensures
        are_subscriptions(*old(dispatch), channels@, receivers@, *final(dispatch)),
        receivers.len() == channels.len(),
        forall|i: int|
            0 <= i < receivers.len() ==> (#[trigger] receivers@[i]).channel() == channels@[i]@,
        final(dispatch).ticket().session().made().len() == old(
            dispatch,
        ).ticket().session().made().len() + channels.len(),
{
    let mut receivers: Vec<Receiver<String>> = Vec::new();
    let mut i: usize = 0;
    proof {
        let made = dispatch.ticket().session().made();
        assert(made.take(made.len() as int) =~= made);
    }
    while i < channels.len()
        invariant
            valid_capacity(old(dispatch).inner().buffer_size()),
            i <= channels.len(),
            are_subscriptions(
                *old(dispatch),
                channels@.take(i as int),
                receivers@,
                *dispatch,
            ),
        decreases channels.len() - i,
    {
        let ghost before = *dispatch;
        let ghost made = before.ticket().session().made();
        let receiver = dispatch.subscribe(&channels[i]);
        proof {
            let now = dispatch.ticket().session().made();
            assert(now.drop_last() == made);
            assert(now.take(old(dispatch).ticket().session().made().len() as int) =~= made.take(
                old(dispatch).ticket().session().made().len() as int,
            ));
            assert forall|j: int| 0 <= j < i implies now[old(
                dispatch,
            ).ticket().session().made().len() + j] == #[trigger] made[old(
                dispatch,
            ).ticket().session().made().len() + j] by {
                assert(now.drop_last()[old(dispatch).ticket().session().made().len() + j]
                    == made[old(dispatch).ticket().session().made().len() + j]);
            }
        }
        receivers.push(receiver);
        i = i + 1;
    }
    assert(channels@.take(i as int) =~= channels@);
    receivers
}

/// `receiver` is a subscription to `channel` of the hub `inner`, which began by the section
/// `joined`, and has not been used.
pub open spec fn is_subscription(
    inner: Inner<String>,
    channel: Seq<char>,
    joined: Transition<Table<String>>,
    receiver: Receiver<String>,
) -> bool {
    &&& receiver.wf()
    &&& *receiver.parent() == inner
    &&& receiver.channel() == channel
    &&& receiver.cursor() == new_cursor(joined.after@.calls)
    &&& receiver.ticket().is_unused()
    &&& receiver.ticket().session().known().contains(joined.after)
    &&& consistent(joined.before@)
    &&& consistent(joined.after@)
    &&& subscribed(joined.before@, channel, inner.buffer_size(), joined.after@, receiver.ring())
}

/// `receivers` are subscriptions to `channels`, one for each, in their order, and these are
/// all that was done with the handle `before`, which became `after`.
pub open spec fn are_subscriptions(
    before: PubSub<String>,
    channels: Seq<String>,
    receivers: Seq<Receiver<String>>,
    after: PubSub<String>,
) -> bool {
    let made = before.ticket().session().made();
    let now = after.ticket().session().made();
    &&& after.wf()
    &&& after.inner() == before.inner()
    &&& receivers.len() == channels.len()
    &&& now.len() == made.len() + channels.len()
    &&& now.take(made.len() as int) == made
    &&& after.ticket().session().splits() == before.ticket().session().splits() + channels.len()
    &&& forall|i: int|
        0 <= i < receivers.len() ==> is_subscription(
            *before.inner(),
            channels[i]@,
            now[made.len() + i],
            #[trigger] receivers[i],
        )
}

/// A client is subscribed to the channels that its token lists, and to no others. Where
/// `claims` were read from what was signed, and what was answered to these was carried out,
/// the token is signed with the server's secret, and there are as many receivers as channels
/// in the claims: each belongs to the channel at its place, and draws from the ring that the
/// channel had once it had joined. Nothing else was done with the handle.
pub proof fn law_client_gets_the_channels_of_its_token(
    secret: Seq<char>,
    signed: Signed,
    claims: Claims,
    subs: Vec<String>,
    before: PubSub<String>,
    receivers: Seq<Receiver<String>>,
    after: PubSub<String>,
)
    requires
        signed.secret() == secret,
        answers(secret, Knowledge::Claims(signed, Some(claims)), Answer::Accept(subs)),
        are_subscriptions(before, subs@, receivers, after),
    ensures
        token_claims(signed.token(), secret) == Some(signed.claims()),
        are_subscriptions(before, claims.subs@, receivers, after),
        receivers.len() == claims.subs@.len(),
        after.ticket().session().made().len() == before.ticket().session().made().len()
            + claims.subs@.len(),
        forall|i: int|
            #![trigger receivers[i]]
            0 <= i < claims.subs@.len() ==> {
                let joined = after.ticket().session().made()[before.ticket().session().made().len()
                    + i].after@;
                &&& receivers[i].channel() == claims.subs@[i]@
                &&& receivers[i].wf()
                &&& receivers[i].parent() == before.inner()
                &&& joined.rings.contains_key(claims.subs@[i]@)
                &&& joined.rings[claims.subs@[i]@] == receivers[i].ring()
                &&& receivers[i].cursor().read == joined.calls.len()
                &&& receivers[i].cursor().receiver + 1 == joined.calls.len()
            },
{
    let made = before.ticket().session().made();
    let now = after.ticket().session().made();
    assert forall|i: int|
        #![trigger receivers[i]]
        0 <= i < claims.subs@.len() implies {
        let joined = now[made.len() + i].after@;
        &&& receivers[i].channel() == claims.subs@[i]@
        &&& receivers[i].wf()
        &&& receivers[i].parent() == before.inner()
        &&& joined.rings.contains_key(claims.subs@[i]@)
        &&& joined.rings[claims.subs@[i]@] == receivers[i].ring()
        &&& receivers[i].cursor().read == joined.calls.len()
        &&& receivers[i].cursor().receiver + 1 == joined.calls.len()
    } by {
        let section = now[made.len() + i];
        law_subscription_joins_its_channel(
            section.before@,
            subs@[i]@,
            before.inner().buffer_size(),
            section.after@,
            receivers[i].ring(),
            subs@[i]@,
        );
    }
}

/// What is sent to the client for what a subscription yields: a message as it is, and
/// nothing where `Err` says how many messages were lost because the client was too slow.
pub fn forward(item: Result<String, u64>) -> (text: Option<String>)
    ensures
        text == match item {
            Ok(message) => Some(message),
            Err(_) => None::<String>,
        },
{
    match item {
        Ok(message) => Some(message),
        Err(_) => None,
    }
}

/// A server of WebSocket connections that come from `T`.
#[verifier::reject_recursive_types(T)]
pub struct Server<T> {
    listener: Option<T>,
    jwt_secret: String,
    dispatch: PubSub<String>,
    shutdown_signal: WatchReceiver<bool>,
}

impl<T> Server<T> {
    /// Where the connections come from, until it is taken.
    pub closed spec fn listening(self) -> Option<T> {
        self.listener
    }

    /// The secret that tokens are signed with.
    pub closed spec fn secret(self) -> Seq<char> {
        self.jwt_secret@
    }

    /// The hub that clients are subscribed to.
    pub closed spec fn hub(self) -> PubSub<String> {
        self.dispatch
    }

    /// What tells the server to stop.
    pub closed spec fn signal(self) -> WatchReceiver<bool> {
        self.shutdown_signal
    }

    /// A server that listens to `listener`.
    pub fn new(
        listener: T,
        jwt_secret: &str,
        dispatch: PubSub<String>,
        shutdown_signal: WatchReceiver<bool>,
    ) -> (server: Self)
        ensures
            server.listening() == Some(listener),
            server.secret() == jwt_secret@,
            server.hub() == dispatch,
            server.signal() == shutdown_signal,
    {
        Self {
            listener: Some(listener),
            jwt_secret: jwt_secret.to_string(),
            dispatch,
            shutdown_signal,
        }
    }

    /// Where the connections come from.
    pub fn listener(&self) -> (listener: &T)
        requires
            self.listening() is Some,
        ensures
            Some(*listener) == self.listening(),
    {
        self.listener.as_ref().unwrap()
    }

    /// Takes the listener out, to run the server.
    pub fn take_listener(&mut self) -> (listener: Option<T>)
        ensures
            listener == old(self).listening(),
            final(self).listening() is None,
            final(self).secret() == old(self).secret(),
            final(self).hub() == old(self).hub(),
            final(self).signal() == old(self).signal(),
    {
        let mut listener: Option<T> = None;
        std::mem::swap(&mut self.listener, &mut listener);
        listener
    }

    /// The secret that tokens are signed with.
    pub fn jwt_secret(&self) -> (secret: &str)
        ensures
            secret@ == self.secret(),
    {
        self.jwt_secret.as_str()
    }

    /// A handle of the hub that clients are subscribed to.
    pub fn dispatch(&mut self) -> (handle: PubSub<String>)
        requires
            old(self).hub().wf(),
        ensures
            handle.is_unused(),
            handle.inner() == old(self).hub().inner(),
            handle.ticket().session().known() == old(self).hub().ticket().session().known(),
            final(self).hub().wf(),
            final(self).hub().inner() == old(self).hub().inner(),
            final(self).hub().ticket().session().made() == old(
                self,
            ).hub().ticket().session().made(),
            final(self).hub().ticket().session().splits() == old(
                self,
            ).hub().ticket().session().splits() + 1,
            final(self).listening() == old(self).listening(),
            final(self).secret() == old(self).secret(),
            final(self).signal() == old(self).signal(),
    {
        self.dispatch.clone()
    }

    /// What tells the server to stop.
    pub fn shutdown_signal(&self) -> (signal: &WatchReceiver<bool>)
        ensures
            *signal == self.signal(),
    {
        &self.shutdown_signal
    }
}

} // verus!
