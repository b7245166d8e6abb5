//! Values shared between threads, behind a lock whose critical sections are verified.

use vstd::prelude::*;

use std::sync::Arc;

use parking_lot::lock_api;
use parking_lot::RwLock;

verus! {

/// The reader-writer lock of `parking_lot`, a `lock_api::RwLock`. Opaque.
#[verifier::external_type_specification]
#[verifier::external_body]
#[verifier::reject_recursive_types(R)]
#[verifier::reject_recursive_types(T)]
pub struct ExRwLock<R, T: ?Sized>(lock_api::RwLock<R, T>);

/// The word that `parking_lot`'s lock is built on. Opaque.
#[verifier::external_type_specification]
#[verifier::external_body]
pub struct ExRawRwLock(parking_lot::RawRwLock);

/// A value that can be shared: it has an invariant, and a key that stays the same.
pub trait Guarded: Sized {
    /// What every section finds and leaves.
    spec fn inv(self) -> bool;

    /// What no section changes.
    spec fn key(self) -> (int, int);

    /// Sections can lead from this value to `later`.
    spec fn leads_to(self, later: Self) -> bool;

    /// No section at all leads from a value to itself.
    proof fn leads_to_itself(self)
        ensures
            self.leads_to(self),
    ;

    /// Sections that lead to a value, and then on from it, lead on.
    proof fn leads_on(self, between: Self, later: Self)
        requires
            self.leads_to(between),
            between.leads_to(later),
        ensures
            self.leads_to(later),
    ;
}

/// A value that threads work on in turn.
#[verifier::reject_recursive_types(S)]
pub struct Shared<S> {
    lock: RwLock<S>,
    key: Ghost<(int, int)>,
}

impl<S> Shared<S> {
    /// The key of the value.
    pub closed spec fn key(self) -> (int, int) {
        self.key@
    }
}

/// One section: what it found, and what it left.
#[verifier::reject_recursive_types(S)]
pub struct Transition<S> {
    pub before: S,
    pub after: S,
}

/// Leave to make sections on a shared value, with a record of those that were made with it.
/// There is no leave but the first, which comes with the shared value, and those that were
/// split off from another, which that other shows. It takes no space at run time.
#[verifier::reject_recursive_types(S)]
pub struct Session<S> {
    shared: Ghost<Shared<S>>,
    made: Ghost<Seq<Transition<S>>>,
    splits: Ghost<nat>,
    known: Ghost<Set<S>>,
    first: Ghost<bool>,
    left: Ghost<S>,
}

impl<S> Session<S> {
    /// The shared value.
    pub closed spec fn shared(self) -> Shared<S> {
        self.shared@
    }

    /// The sections made with this leave, in their order.
    pub closed spec fn made(self) -> Seq<Transition<S>> {
        self.made@
    }

    /// How many others were split off.
    pub closed spec fn splits(self) -> nat {
        self.splits@
    }

    /// What the shared value is known to have been at some time.
    pub closed spec fn known(self) -> Set<S> {
        self.known@
    }

    /// This is the leave that came with the shared value.
    pub closed spec fn is_first(self) -> bool {
        self.first@
    }

    /// There is no other leave: this is the first, and none was split off.
    pub open spec fn is_sole(self) -> bool {
        self.is_first() && self.splits() == 0
    }

    /// What the last section made with this leave left, or what was there at first.
    pub closed spec fn left(self) -> S {
        self.left@
    }

    /// The section that was made last.
    pub open spec fn latest(self) -> Transition<S> {
        self.made().last()
    }

    /// Another leave, which knows what this one knows.
    pub fn split(&mut self) -> (other: Self)
        ensures
            other.shared() == old(self).shared(),
            other.made() == Seq::<Transition<S>>::empty(),
            other.splits() == 0,
            other.known() == old(self).known(),
            other.left() == old(self).left(),
            final(self).left() == old(self).left(),
            !other.is_first(),
            final(self).is_first() == old(self).is_first(),
            final(self).shared() == old(self).shared(),
            final(self).made() == old(self).made(),
            final(self).splits() == old(self).splits() + 1,
            final(self).known() == old(self).known(),
    {
        self.splits = Ghost(self.splits@ + 1);
        Session {
            shared: self.shared,
            made: Ghost(Seq::empty()),
            splits: Ghost(0),
            known: self.known,
            first: Ghost(false),
            left: self.left,
        }
    }

    /// Takes over what `other` knows.
    pub fn learn(&mut self, other: &Self)
        requires
            old(self).shared() == other.shared(),
        ensures
            final(self).shared() == old(self).shared(),
            final(self).made() == old(self).made(),
            final(self).splits() == old(self).splits(),
            final(self).is_first() == old(self).is_first(),
            final(self).left() == old(self).left(),
            final(self).known() == old(self).known().union(other.known()),
    {
        self.known = Ghost(self.known@.union(other.known@));
    }
}

impl<S: Guarded> Session<S> {
    /// Sections can lead to `content` from all that is known.
    pub open spec fn leads_to(self, content: S) -> bool {
        forall|earlier: S| self.known().contains(earlier) ==> #[trigger] earlier.leads_to(content)
    }

    /// One section was made with leave `self`, which became `later`: it found what all that
    /// was known before leads to, and where there is no other leave, what was left last; what
    /// it left is known now.
    pub open spec fn advanced(self, later: Self) -> bool {
        &&& later.shared() == self.shared()
        &&& later.made().len() == self.made().len() + 1
        &&& later.made().drop_last() == self.made()
        &&& later.known() == self.known().insert(later.latest().after)
        &&& self.leads_to(later.latest().before)
        &&& self.is_sole() ==> later.latest().before == self.left()
        &&& later.left() == later.latest().after
        &&& later.is_first() == self.is_first()
        &&& later.latest().before.inv() && later.latest().before.key() == self.shared().key()
        &&& later.latest().after.inv() && later.latest().after.key() == self.shared().key()
    }
}

impl<S: Guarded> Shared<S> {
    /// Makes a lock with `parking_lot::RwLock::new`. Claimed: it guards `content` at first,
    /// and nothing was done with it.
    #[verifier::external_body]
    pub(crate) fn new(content: S) -> (made: (Self, Session<S>))
        requires
            content.inv(),
        ensures
            made.0.key() == content.key(),
            made.1.shared() == made.0,
            made.1.made() == Seq::<Transition<S>>::empty(),
            made.1.splits() == 0,
            made.1.is_first(),
            made.1.left() == content,
            made.1.known() == Set::<S>::empty().insert(content),
    {
        let first = Session {
            shared: Ghost(arbitrary()),
            made: Ghost(arbitrary()),
            splits: Ghost(arbitrary()),
            known: Ghost(arbitrary()),
            first: Ghost(arbitrary()),
            left: Ghost(arbitrary()),
        };
        (Shared { lock: RwLock::new(content), key: Ghost(arbitrary()) }, first)
    }

    /// Runs `section` on the value with exclusive access: `parking_lot`'s
    /// `RwLock::upgradable_read`, then `RwLockUpgradableReadGuard::with_upgraded`. Claimed:
    /// `section` ran once, on the value as the sections before it left it, and the record
    /// shows this section. Which value it found rests on other threads, but it has the
    /// invariant and the key, and all that the value is known to have been leads to it: the
    /// first value had them, each section leaves them and leads on, and there is no other
    /// way to the value. Where there is no other leave, it is what was left last. (The lock
    /// is held exclusively while `section` runs. The calls wait for it, for ever where the
    /// calling thread holds it already.)
    #[verifier::external_body]
    pub(crate) fn transact<A, F: FnOnce(&mut S) -> A>(
        &self,
        session: &mut Session<S>,
        section: F,
    ) -> (outcome: A)
        requires
            old(session).shared() == *self,
            forall|content: &mut S|
                (*content).inv() && (*content).key() == self.key() && old(session).leads_to(
                    *content,
                ) ==> call_requires(section, (content,)),
            forall|content: &mut S, result: A|
                (*content).inv() && (*content).key() == self.key() && old(session).leads_to(
                    *content,
                ) && call_ensures(section, (content,), result) ==> (*final(content)).inv() && (
                *final(content)).key() == self.key() && (*content).leads_to(*final(content)),
        ensures
            old(session).advanced(*final(session)),
            final(session).splits() == old(session).splits(),
            exists|content: &mut S|
                {
                    &&& call_ensures(section, (content,), outcome)
                    &&& final(session).latest().before == *content
                    &&& final(session).latest().after == *final(content)
                },
    {
        self.lock.upgradable_read().with_upgraded(section)
    }

    /// Runs `section` on the value with shared access: `parking_lot`'s `RwLock::read`.
    /// Claimed: `section` ran once, on the value as the sections before it left it, as in
    /// [`Shared::transact`].
    #[verifier::external_body]
    pub(crate) fn inspect<A, F: FnOnce(&S) -> A>(
        &self,
        session: &mut Session<S>,
        section: F,
    ) -> (outcome: A)
        requires
            old(session).shared() == *self,
            forall|content: &S|
                content.inv() && content.key() == self.key() && old(session).leads_to(*content)
                    ==> call_requires(section, (content,)),
        ensures
            old(session).advanced(*final(session)),
            final(session).splits() == old(session).splits(),
            final(session).latest().after == final(session).latest().before,
            call_ensures(section, (&final(session).latest().before,), outcome),
    {
        section(&self.lock.read())
    }
}

/// Another handle of the same value, with `Arc::clone` of std. Claimed: it points to that
/// value.
#[verifier::external_body]
pub(crate) fn share<A>(handle: &Arc<A>) -> (other: Arc<A>)
    ensures
        other == *handle,
{
    Arc::clone(handle)
}

} // verus!
