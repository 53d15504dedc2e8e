//! The registry of MIP maps: one entry for each distinct request, built once
//! and shared by every texture that asks for it.
//!
//! Loading an image is not this module's work. A requester calls
//! [`MIPMapCache::begin`] and does what the reply says: use the entry, wait for
//! the requester that is building it, or build it and hand the outcome to
//! [`MIPMapCache::finish`].

use vstd::prelude::*;
use crate::textures::options::{TexInfo, TexKey};

verus! {

/// What the registry holds for a request.
pub enum Entry<V> {
    /// Nothing: nobody has asked, or the build failed.
    Absent,
    /// A requester is building the value.
    Building,
    /// The value, built and published.
    Ready(V),
}

/// What a requester is to do.
#[derive(Copy, Clone, Debug, PartialEq, Eq, Structural)]
pub enum Begin {
    /// The value is there: use it.
    Hit,
    /// Another requester is building the value: wait for it.
    Pending,
    /// Nobody has the value: build it, then call `finish`.
    Build,
}

/// The reply to a request that finds `entry`.
pub open spec fn begin_reply<V>(entry: Entry<V>) -> Begin {
    match entry {
        Entry::Absent => Begin::Build,
        Entry::Building => Begin::Pending,
        Entry::Ready(_) => Begin::Hit,
    }
}

/// The entry after a request found `entry`.
pub open spec fn after_begin<V>(entry: Entry<V>) -> Entry<V> {
    match entry {
        Entry::Absent => Entry::Building,
        _ => entry,
    }
}

/// The entry after the build that `entry` stood for ended with `built`. A
/// build that failed leaves no entry. Where no build was under way, nothing
/// changes.
pub open spec fn after_finish<V>(entry: Entry<V>, built: Option<V>) -> Entry<V> {
    match entry {
        Entry::Building => match built {
            Some(v) => Entry::Ready(v),
            None => Entry::Absent,
        },
        _ => entry,
    }
}

/// What happens to the entry of one request: somebody asks for it, or the
/// requester that was told to build it ends its build.
pub enum Event<V> {
    Request,
    Finish(Option<V>),
}

/// The entry after `events` happened to `entry`, in order.
pub open spec fn after_events<V>(entry: Entry<V>, events: Seq<Event<V>>) -> Entry<V>
    decreases events.len(),
{
    if events.len() == 0 {
        entry
    } else {
        match events.last() {
            Event::Request => after_begin(after_events(entry, events.drop_last())),
            Event::Finish(built) => after_finish(after_events(entry, events.drop_last()), built),
        }
    }
}

/// How many of the requests among `events` are told to build.
pub open spec fn builds<V>(entry: Entry<V>, events: Seq<Event<V>>) -> nat
    decreases events.len(),
{
    if events.len() == 0 {
        0
    } else {
        let before = after_events(entry, events.drop_last());
        builds(entry, events.drop_last()) + (if events.last() is Request && begin_reply(before) == Begin::Build {
            1nat
        } else {
            0nat
        })
    }
}

/// No build among `events` fails.
pub open spec fn no_failure<V>(events: Seq<Event<V>>) -> bool {
    forall|i: int| 0 <= i < events.len() ==> !(#[trigger] events[i] matches Event::Finish(None))
}

/// However requests and the end of the build interleave, as long as no
/// build fails at most one request is told to build: none where the
/// entry is there already, and exactly one where it is not and somebody asks.
pub proof fn lemma_single_build<V>(entry: Entry<V>, events: Seq<Event<V>>)
    requires
        no_failure(events),
    ensures
        builds(entry, events) <= 1,
        !(entry is Absent) ==> builds(entry, events) == 0,
        builds(entry, events) == 1 <==> entry is Absent && exists|i: int| 0 <= i < events.len() && #[trigger] events[i] is Request,
        after_events(entry, events) is Absent <==> builds(entry, events) == 0 && entry is Absent,
    decreases events.len(),
{
    if events.len() == 0 {
        assert(!(exists|i: int| 0 <= i < events.len() && #[trigger] events[i] is Request));
    }
    if events.len() > 0 {
        let front = events.drop_last();
        assert forall|i: int| 0 <= i < front.len() implies !(#[trigger] front[i] matches Event::Finish(None)) by {
            assert(front[i] == events[i]);
        }
        lemma_single_build(entry, front);
        let last = events.last();
        assert(last == events[events.len() - 1]);
        if exists|i: int| 0 <= i < front.len() && #[trigger] front[i] is Request {
            let i = choose|i: int| 0 <= i < front.len() && #[trigger] front[i] is Request;
            assert(events[i] is Request);
        }
        if exists|i: int| 0 <= i < events.len() && #[trigger] events[i] is Request {
            let i = choose|i: int| 0 <= i < events.len() && #[trigger] events[i] is Request;
            if i < front.len() {
                assert(front[i] is Request);
            }
        }
        if last is Request {
            assert(events[events.len() - 1] is Request);
        }
    }
}

/// A published value stays: whatever happens afterwards, the entry holds the
/// same value, and every request is answered with it.
pub proof fn lemma_published_is_shared<V>(v: V, events: Seq<Event<V>>)
    ensures
        after_events(Entry::Ready(v), events) == Entry::Ready(v),
        builds(Entry::Ready(v), events) == 0,
    decreases events.len(),
{
    if events.len() > 0 {
        lemma_published_is_shared(v, events.drop_last());
    }
}

/// A build that fails leaves nothing behind: the next request builds anew.
pub proof fn lemma_failure_leaves_no_entry<V>()
    ensures
        after_finish(Entry::<V>::Building, None) == Entry::<V>::Absent,
        begin_reply(after_finish(Entry::<V>::Building, None)) == Begin::Build,
{
}

/// A registry of values by request.
pub struct MIPMapCache<V> {
    keys: Vec<TexInfo>,
    slots: Vec<Option<V>>,
}

impl<V> MIPMapCache<V> {
    /// No request has two entries.
    pub closed spec fn wf(&self) -> bool {
        &&& self.keys@.len() == self.slots@.len()
        &&& forall|i: int, j: int| 0 <= i < j < self.keys@.len() ==> self.keys@[i]@ != self.keys@[j]@
    }

    /// Whether entry `i` is the entry of `key`.
    pub closed spec fn holds(&self, i: int, key: TexKey) -> bool {
        0 <= i < self.keys@.len() && self.keys@[i]@ == key
    }

    /// What the registry holds for `key`.
    pub closed spec fn entry(&self, key: TexKey) -> Entry<V> {
        if exists|i: int| self.holds(i, key) {
            let i = choose|i: int| self.holds(i, key);
            match self.slots@[i] {
                Some(v) => Entry::Ready(v),
                None => Entry::Building,
            }
        } else {
            Entry::Absent
        }
    }

    /// Number of entries, building or ready.
    pub closed spec fn len(&self) -> nat {
        self.keys@.len()
    }

    /// An empty registry.
    pub fn new() -> (r: Self)
        ensures
            r.wf(),
            r.len() == 0,
            forall|key: TexKey| r.entry(key) == Entry::<V>::Absent,
    {
        let r = MIPMapCache { keys: Vec::new(), slots: Vec::new() };
        assert forall|key: TexKey| r.entry(key) == Entry::<V>::Absent by {
            assert(forall|i: int| !r.holds(i, key));
        }
        r
    }

    /// The index of the entry of `key`.
    fn find(&self, key: &TexInfo) -> (r: Option<usize>)
        requires
            self.wf(),
        ensures
            match r {
                Some(i) => self.holds(i as int, key@),
                None => forall|i: int| !self.holds(i, key@),
            },
    {
        let mut i: usize = 0;
        while i < self.keys.len()
            invariant
                i <= self.keys@.len(),
                forall|j: int| 0 <= j < i ==> self.keys@[j]@ != key@,
            decreases self.keys@.len() - i,
        {
            if self.keys[i].same(key) {
                return Some(i);
            }
            i = i + 1;
        }
        None
    }

    /// Entry `i` is the only entry of its request.
    proof fn lemma_entry_at(&self, i: int, key: TexKey)
        requires
            self.wf(),
            self.holds(i, key),
        ensures
            self.entry(key) == (match self.slots@[i] {
                Some(v) => Entry::Ready(v),
                None => Entry::Building,
            }),
    {
        let j = choose|j: int| self.holds(j, key);
        assert(self.holds(j, key));
        if i < j {
            assert(self.keys@[i]@ != self.keys@[j]@);
        } else if j < i {
            assert(self.keys@[j]@ != self.keys@[i]@);
        }
    }

    /// The number of entries.
    pub fn count(&self) -> (r: usize)
        ensures
            r == self.len(),
    {
        self.keys.len()
    }

    /// The published value of `key`, if there is one.
    pub fn value(&self, key: &TexInfo) -> (r: Option<&V>)
        requires
            self.wf(),
        ensures
            match self.entry(key@) {
                Entry::Ready(v) => r == Some(&v),
                _ => r.is_none(),
            },
    {
        match self.find(key) {
            Some(i) => {
                proof {
                    self.lemma_entry_at(i as int, key@);
                }
                self.slots[i].as_ref()
            },
            None => None,
        }
    }

    /// Registers a request for `key` and says what the requester is to do.
    /// Only a request that finds no entry is told to build, and it leaves
    /// the entry marked as being built.
    pub fn begin(&mut self, key: TexInfo) -> (r: Begin)
        requires
            old(self).wf(),
        ensures
            final(self).wf(),
            r == begin_reply(old(self).entry(key@)),
            final(self).entry(key@) == after_begin(old(self).entry(key@)),
            forall|other: TexKey| other != key@ ==> final(self).entry(other) == old(self).entry(other),
            final(self).len() == old(self).len() + (if r == Begin::Build { 1nat } else { 0nat }),
    {
        match self.find(&key) {
            Some(i) => {
                proof {
                    self.lemma_entry_at(i as int, key@);
                }
                match &self.slots[i] {
                    Some(_) => Begin::Hit,
                    None => Begin::Pending,
                }
            },
            None => {
                let ghost before = *self;
                let ghost k = key@;
                self.keys.push(key);
                self.slots.push(None);
                proof {
                    let n = before.keys@.len() as int;
                    assert forall|a: int, b: int| 0 <= a < b < self.keys@.len() implies self.keys@[a]@ != self.keys@[b]@ by {
                        if b == n {
                            assert(!before.holds(a, k));
                        } else {
                            assert(before.keys@[a]@ != before.keys@[b]@);
                        }
                    }
                    assert(self.wf());
                    assert(self.holds(n, k));
                    self.lemma_entry_at(n, k);
                    assert forall|other: TexKey| other != k implies self.entry(other) == before.entry(other) by {
                        if exists|i: int| before.holds(i, other) {
                            let i = choose|i: int| before.holds(i, other);
                            assert(self.holds(i, other));
                            self.lemma_entry_at(i, other);
                            before.lemma_entry_at(i, other);
                        } else {
                            assert forall|i: int| !self.holds(i, other) by {
                                if self.holds(i, other) {
                                    assert(before.holds(i, other));
                                }
                            }
                        }
                    }
                }
                Begin::Build
            },
        }
    }

    /// Ends the build of `key`: publishes what was built, or drops the entry
    /// where the build failed, so that a later request builds anew. The
    /// number of entries falls by one where an entry is dropped, and stays
    /// otherwise.
    pub fn finish(&mut self, key: &TexInfo, built: Option<V>)
        requires
            old(self).wf(),
        ensures
            final(self).wf(),
            final(self).entry(key@) == after_finish(old(self).entry(key@), built),
            forall|other: TexKey| other != key@ ==> final(self).entry(other) == old(self).entry(other),
            old(self).len() == final(self).len() + (if old(self).entry(key@) is Building && built.is_none() {
                1nat
            } else {
                0nat
            }),
    {
        let ghost before = *self;
        let ghost k = key@;
        match self.find(key) {
            Some(i) => {
                proof {
                    self.lemma_entry_at(i as int, k);
                }
                if self.slots[i].is_some() {
                    return ;
                }
                match built {
                    Some(v) => {
                        self.slots.set(i, Some(v));
                        proof {
                            assert(self.wf());
                            assert(self.holds(i as int, k));
                            self.lemma_entry_at(i as int, k);
                            assert forall|other: TexKey| other != k implies self.entry(other) == before.entry(other) by {
                                if exists|j: int| before.holds(j, other) {
                                    let j = choose|j: int| before.holds(j, other);
                                    assert(self.holds(j, other));
                                    self.lemma_entry_at(j, other);
                                    before.lemma_entry_at(j, other);
                                } else {
                                    assert forall|j: int| !self.holds(j, other) by {
                                        if self.holds(j, other) {
                                            assert(before.holds(j, other));
                                        }
                                    }
                                }
                            }
                        }
                    },
                    None => {
                        self.keys.remove(i);
                        self.slots.remove(i);
                        proof {
                            let n = before.keys@.len() as int;
                            let ii = i as int;
                            assert forall|a: int, b: int| 0 <= a < b < self.keys@.len() implies self.keys@[a]@ != self.keys@[b]@ by {
                                let a0 = if a < ii { a } else { a + 1 };
                                let b0 = if b < ii { b } else { b + 1 };
                                assert(self.keys@[a] == before.keys@[a0]);
                                assert(self.keys@[b] == before.keys@[b0]);
                                assert(before.keys@[a0]@ != before.keys@[b0]@);
                            }
                            assert(self.wf());
                            assert forall|j: int| !self.holds(j, k) by {
                                if self.holds(j, k) {
                                    let j0 = if j < ii { j } else { j + 1 };
                                    assert(self.keys@[j] == before.keys@[j0]);
                                    if j0 < ii {
                                        assert(before.keys@[j0]@ != before.keys@[ii]@);
                                    } else {
                                        assert(before.keys@[ii]@ != before.keys@[j0]@);
                                    }
                                }
                            }
                            assert forall|other: TexKey| other != k implies self.entry(other) == before.entry(other) by {
                                if exists|j: int| before.holds(j, other) {
                                    let j = choose|j: int| before.holds(j, other);
                                    assert(before.holds(j, other));
                                    let j1 = if j < ii { j } else { j - 1 };
                                    assert(self.keys@[j1] == before.keys@[j]);
                                    assert(self.slots@[j1] == before.slots@[j]);
                                    assert(self.holds(j1, other));
                                    self.lemma_entry_at(j1, other);
                                    before.lemma_entry_at(j, other);
                                } else {
                                    assert forall|j: int| !self.holds(j, other) by {
                                        if self.holds(j, other) {
                                            let j0 = if j < ii { j } else { j + 1 };
                                            assert(self.keys@[j] == before.keys@[j0]);
                                            assert(before.holds(j0, other));
                                        }
                                    }
                                }
                            }
                        }
                    },
                }
            },
            None => {},
        }
    }
}

} // verus!
