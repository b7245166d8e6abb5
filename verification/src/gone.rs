//! Receivers that are gone.

use vstd::prelude::*;

use crate::broadcast::{Feed, FeedStream, Ring};

verus! {

/// Evidence that a receiver was dropped. Only [`dispose`] makes one; it takes no
/// space at run time.
pub struct Gone {
    ring: Ghost<Ring>,
    receiver: Ghost<nat>,
}

impl Gone {
    /// The ring that the receiver belonged to.
    pub closed spec fn ring(self) -> Ring {
        self.ring@
    }

    /// The receiver.
    pub closed spec fn receiver(self) -> nat {
        self.receiver@
    }
}

/// A receiving half of a ring, in either form.
#[verifier::reject_recursive_types(T)]
pub enum Half<T> {
    Feed(Feed<T>),
    Stream(FeedStream<T>),
}

impl<T> Half<T> {
    /// The ring that it belongs to.
    pub open spec fn ring(self) -> Ring {
        match self {
            Half::Feed(feed) => feed.ring(),
            Half::Stream(stream) => stream.ring(),
        }
    }

    /// The call that gave it out.
    pub open spec fn receiver(self) -> nat {
        match self {
            Half::Feed(feed) => feed.cursor().receiver,
            Half::Stream(stream) => stream.cursor().receiver,
        }
    }
}

/// Drops a receiving half with `std::mem::drop`. Claimed: what comes back is evidence that
/// this receiver is gone, so that no call on its ring finds it any more.
#[verifier::external_body]
pub(crate) fn dispose<T>(half: Half<T>) -> (gone: Gone)
    ensures
        gone.ring() == half.ring(),
        gone.receiver() == half.receiver(),
{
    std::mem::drop(half);
    Gone { ring: Ghost(arbitrary()), receiver: Ghost(arbitrary()) }
}

} // verus!
