//! The channels that have a broadcast ring, by name.

use vstd::prelude::*;

use vstd::hash_map::StringHashMap;

use crate::broadcast::{
    candidates, counted, new_cursor, open, sent, valid_capacity, Call, Feed, Gone, Mark, Ring, Topic,
    Trace,
};

verus! {

/// What a [`Channels`] holds: the ring of each channel, and the trace of the calls made on
/// the rings.
#[verifier::ext_equal]
#[verifier::reject_recursive_types(T)]
pub struct ChannelsState<T> {
    pub rings: Map<Seq<char>, Ring>,
    pub trace: int,
    pub calls: Seq<Call<T>>,
}

/// `ring` was opened by one of the first `n` calls of a trace.
pub open spec fn is_open<T>(trace: int, calls: Seq<Call<T>>, ring: Ring, n: int) -> bool {
    &&& ring.trace == trace
    &&& ring.number < n
    &&& calls[ring.number as int] is Open
}

/// Call `i` of a trace opens a ring, or uses one that was opened before it.
pub open spec fn ring_is_known<T>(trace: int, calls: Seq<Call<T>>, i: int) -> bool {
    match calls[i] {
        Call::Open { .. } => true,
        Call::Attach { ring } => is_open(trace, calls, ring, i),
        Call::Send { ring, .. } => is_open(trace, calls, ring, i),
        Call::Count { ring, .. } => is_open(trace, calls, ring, i),
        Call::Left { .. } => true,
    }
}

/// All calls of the trace use rings that were opened under it. Each channel has such a
/// ring, and no two channels share one.
pub open spec fn rings_are_own<T>(
    rings: Map<Seq<char>, Ring>,
    trace: int,
    calls: Seq<Call<T>>,
) -> bool {
    &&& forall|i: int| 0 <= i < calls.len() ==> #[trigger] ring_is_known(trace, calls, i)
    &&& forall|name: Seq<char>| #[trigger]
        rings.contains_key(name) ==> is_open(trace, calls, rings[name], calls.len() as int)
    &&& forall|a: Seq<char>, b: Seq<char>| #[trigger]
        rings.contains_key(a) && #[trigger] rings.contains_key(b) && rings[a] == rings[b] ==> a == b
}

/// One more call that is known leaves the rings as they should be.
pub proof fn lemma_rings_stay_own<T>(
    rings: Map<Seq<char>, Ring>,
    trace: int,
    calls: Seq<Call<T>>,
    call: Call<T>,
)
    requires
        rings_are_own(rings, trace, calls),
        ring_is_known(trace, calls.push(call), calls.len() as int),
    ensures
        rings_are_own(rings, trace, calls.push(call)),
{
    let after = calls.push(call);
    assert forall|i: int| 0 <= i < after.len() implies #[trigger] ring_is_known(trace, after, i) by {
        if i < calls.len() {
            assert(ring_is_known(trace, calls, i));
        }
    }
}

/// A ring that is not open yet can have no receiver.
pub proof fn lemma_unopened_is_unheard<T>(trace: int, calls: Seq<Call<T>>, ring: Ring)
    requires
        forall|i: int| 0 <= i < calls.len() ==> #[trigger] ring_is_known(trace, calls, i),
        calls.len() <= ring.number,
    ensures
        candidates(calls, ring) == Set::<nat>::empty(),
    decreases calls.len(),
{
    if calls.len() > 0 {
        let earlier = calls.drop_last();
        assert forall|i: int| 0 <= i < earlier.len() implies #[trigger] ring_is_known(
            trace,
            earlier,
            i,
        ) by {
            assert(ring_is_known(trace, calls, i));
        }
        assert(ring_is_known(trace, calls, calls.len() - 1));
        lemma_unopened_is_unheard(trace, earlier, ring);
        assert(Set::<nat>::empty().remove(ring.number) =~= Set::<nat>::empty());
        assert(candidates(calls, ring) =~= Set::<nat>::empty());
    }
}

/// The ring that the next call of the trace would open.
pub open spec fn next_ring<T>(trace: int, calls: Seq<Call<T>>) -> Ring {
    Ring { trace, number: calls.len() }
}

/// The text of each string.
pub open spec fn texts(strings: Seq<String>) -> Seq<Seq<char>> {
    strings.map_values(|s: String| s@)
}

/// A table of broadcast rings, one for each channel that is in use.
#[verifier::reject_recursive_types(T)]
pub struct Channels<T> {
    topics: StringHashMap<Topic<T>>,
    names: Vec<String>,
    calls: Trace<T>,
}

impl<T> View for Channels<T> {
    type V = ChannelsState<T>;

    closed spec fn view(&self) -> ChannelsState<T> {
        ChannelsState {
            rings: self.topics@.map_values(|topic: Topic<T>| topic.ring()),
            trace: self.calls.id(),
            calls: self.calls@,
        }
    }
}

impl<T> Channels<T> {
    /// Each name is listed once, and the listed names are those of the table.
    pub closed spec fn wf(self) -> bool {
        &&& texts(self.names@).no_duplicates()
        &&& texts(self.names@).to_set() =~= self.topics@.dom()
        &&& rings_are_own(self@.rings, self@.trace, self@.calls)
    }

    /// What a well-formed table guarantees of its rings.
    pub proof fn lemma_rings_are_own(self)
        requires
            self.wf(),
        ensures
            rings_are_own(self@.rings, self@.trace, self@.calls),
    {
    }

    /// The table without channels.
    pub fn new() -> (channels: Self)
        ensures
            channels.wf(),
            channels@.rings == Map::<Seq<char>, Ring>::empty(),
            channels@.calls == Seq::<Call<T>>::empty(),
    {
        Channels { topics: StringHashMap::new(), names: Vec::new(), calls: Trace::new() }
    }

    /// The position at which `name` is listed.
    fn position(&self, name: &String) -> (at: Option<usize>)
        ensures
            match at {
                Some(i) => i < self.names.len() && self.names[i as int]@ == name@,
                None => !texts(self.names@).contains(name@),
            },
    {
        let mut i: usize = 0;
        while i < self.names.len()
            invariant
                i <= self.names.len(),
                forall|j: int| 0 <= j < i ==> #[trigger] texts(self.names@)[j] != name@,
            decreases self.names.len() - i,
        {
            if self.names[i] == *name {
                return Some(i);
            }
            i = i + 1;
        }
        None
    }

    /// Hands `value` to the ring of `name`. `None` when `name` has no ring; otherwise what
    /// the ring answered.
    pub fn send(&mut self, name: &str, value: T) -> (answer: Option<Option<usize>>)
        requires
            old(self).wf(),
        ensures
            final(self).wf(),
            final(self)@.rings == old(self)@.rings,
            final(self)@.trace == old(self)@.trace,
            match answer {
                None => !old(self)@.rings.contains_key(name@) && final(self)@.calls == old(
                    self,
                )@.calls,
                Some(reached) => {
                    &&& old(self)@.rings.contains_key(name@)
                    &&& sent(
                        old(self)@.calls,
                        old(self)@.rings[name@],
                        value,
                        reached,
                        final(self)@.calls,
                    )
                },
            },
    {
        match self.topics.get(name) {
            None => None,
            Some(topic) => {
                proof {
                    assert(old(self)@.rings.contains_key(name@));
                }
                let reached = topic.send(value, &mut self.calls);
                proof {
                    lemma_rings_stay_own(
                        old(self)@.rings,
                        old(self)@.trace,
                        old(self)@.calls,
                        self.calls@.last(),
                    );
                }
                Some(reached)
            },
        }
    }

    /// Asks the ring of `name` for the number of its receivers. `None` when `name` has no
    /// ring.
    pub fn receiver_count(&mut self, name: &str) -> (answer: Option<usize>)
        requires
            old(self).wf(),
        ensures
            final(self).wf(),
            final(self)@.rings == old(self)@.rings,
            final(self)@.trace == old(self)@.trace,
            match answer {
                None => !old(self)@.rings.contains_key(name@) && final(self)@.calls == old(
                    self,
                )@.calls,
                Some(receivers) => {
                    &&& old(self)@.rings.contains_key(name@)
                    &&& counted(
                        old(self)@.calls,
                        old(self)@.rings[name@],
                        receivers,
                        final(self)@.calls,
                    )
                },
            },
    {
        match self.topics.get(name) {
            None => None,
            Some(topic) => {
                proof {
                    assert(old(self)@.rings.contains_key(name@));
                }
                let receivers: usize = topic.receiver_count(&mut self.calls);
                proof {
                    lemma_rings_stay_own(
                        old(self)@.rings,
                        old(self)@.trace,
                        old(self)@.calls,
                        self.calls@.last(),
                    );
                }
                Some(receivers)
            },
        }
    }

    /// Evidence of the calls made so far.
    pub fn mark(&self) -> (mark: Mark<T>)
        ensures
            mark.id() == self@.trace,
            mark@ == self@.calls,
    {
        self.calls.mark()
    }

    /// Takes down that a receiver is gone.
    pub fn leave(&mut self, gone: Gone)
        requires
            old(self).wf(),
        ensures
            final(self).wf(),
            final(self)@.rings == old(self)@.rings,
            final(self)@.trace == old(self)@.trace,
            final(self)@.calls == old(self)@.calls.push(
                Call::Left { ring: gone.ring(), receiver: gone.receiver() },
            ),
    {
        self.calls.left(gone);
        proof {
            lemma_rings_stay_own(
                old(self)@.rings,
                old(self)@.trace,
                old(self)@.calls,
                self.calls@.last(),
            );
        }
    }

    /// Takes `name` out of the table.
    pub fn remove(&mut self, name: &String)
        requires
            old(self).wf(),
        ensures
            final(self).wf(),
            final(self)@.rings == old(self)@.rings.remove(name@),
            final(self)@.trace == old(self)@.trace,
            final(self)@.calls == old(self)@.calls,
    {
        let ghost before = texts(self.names@);
        self.topics.remove(name.as_str());
        match self.position(name) {
            None => {
            },
            Some(i) => {
                assert(before[i as int] == name@);
                self.names.remove(i);
                proof {
                    assert(texts(self.names@) =~= before.remove(i as int));
                    assert forall|n: Seq<char>| texts(self.names@).contains(n) <==> before.contains(
                        n,
                    ) && n != name@ by {
                        let after = before.remove(i as int);
                        if before.contains(n) && n != name@ {
                            let j = before.index_of(n);
                            if j < i {
                                assert(after[j] == n);
                            } else {
                                assert(after[j - 1] == n);
                            }
                        }
                    }
                }
            },
        }
        assert(self@.rings =~= old(self)@.rings.remove(name@));
    }

    /// The names in the table, each once.
    pub fn names(&self) -> (names: Vec<String>)
        requires
            self.wf(),
        ensures
            texts(names@).no_duplicates(),
            texts(names@).to_set() == self@.rings.dom(),
    {
        let mut names: Vec<String> = Vec::new();
        let mut i: usize = 0;
        while i < self.names.len()
            invariant
                i <= self.names.len(),
                texts(names@) == texts(self.names@).take(i as int),
            decreases self.names.len() - i,
        {
            let ghost listed = texts(names@);
            names.push(self.names[i].clone());
            assert(texts(self.names@).take(i + 1) =~= listed.push(texts(self.names@)[i as int]));
            i = i + 1;
        }
        assert(texts(names@) =~= texts(self.names@));
        names
    }
}

impl<T: Clone> Channels<T> {
    /// Attaches a receiver to the ring of `name`, after opening one for it where it has
    /// none. Says whether it was opened.
    pub fn attach(&mut self, name: &String, capacity: usize) -> (attached: (Feed<T>, bool))
        requires
            old(self).wf(),
            valid_capacity(capacity),
        ensures
            final(self).wf(),
            attached.0.cursor() == new_cursor(final(self)@.calls),
            attached.1 == !old(self)@.rings.contains_key(name@),
            if attached.1 {
                &&& attached.0.ring() == next_ring(old(self)@.trace, old(self)@.calls)
                &&& final(self)@.rings == old(self)@.rings.insert(name@, attached.0.ring())
                &&& final(self)@.trace == old(self)@.trace
                &&& final(self)@.calls == old(self)@.calls.push(Call::Open { capacity })
            } else {
                &&& attached.0.ring() == old(self)@.rings[name@]
                &&& final(self)@ == (ChannelsState {
                    calls: old(self)@.calls.push(Call::Attach { ring: attached.0.ring() }),
                    ..old(self)@
                })
            },
    {
        if let Some(topic) = self.topics.get(name.as_str()) {
            proof {
                assert(old(self)@.rings.contains_key(name@));
            }
            let feed = topic.subscribe(&mut self.calls);
            proof {
                lemma_rings_stay_own(
                    old(self)@.rings,
                    old(self)@.trace,
                    old(self)@.calls,
                    self.calls@.last(),
                );
            }
            return (feed, false);
        }
        let ghost before = texts(self.names@);
        let (topic, feed) = open(capacity, &mut self.calls);
        self.topics.insert(name.clone(), topic);
        self.names.push(name.clone());
        proof {
            assert(texts(self.names@) =~= before.push(name@));
            assert forall|n: Seq<char>| texts(self.names@).contains(n) <==> before.contains(n)
                || n == name@ by {
                let after = before.push(name@);
                if before.contains(n) {
                    assert(after[before.index_of(n)] == n);
                }
                assert(after[before.len() as int] == name@);
            }
            assert(self@.rings =~= old(self)@.rings.insert(name@, feed.ring()));
            lemma_rings_stay_own(
                old(self)@.rings,
                old(self)@.trace,
                old(self)@.calls,
                self.calls@.last(),
            );
        }
        (feed, true)
    }
}

} // verus!
