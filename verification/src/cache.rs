//! The memoizing load cache: for each key at most one load is in flight, and
//! everyone who asks for the key gets the one result.
//!
//! The cache decides; it loads nothing itself. A caller asks with `get`. The
//! first to ask for a key is told to load, those who ask while the load runs
//! are told to wait, and `complete` hands the result to all of them at once.
//! A result, once recorded, is never changed; it leaves only by `evict`.

use vstd::prelude::*;
use std::collections::HashMap;

verus! {

broadcast use vstd::std_specs::hash::group_hash_axioms;

/// How a load ended: with a value or with an error, each named by the number
/// under which the owner of the cache keeps it.
#[derive(Clone, Copy, Debug, PartialEq, Eq, Structural)]
pub enum Outcome {
    Value(u64),
    Error(u64),
}

/// What the cache holds for a key.
#[derive(Clone, Debug, PartialEq, Eq)]
pub enum Entry {
    /// A load is in flight. The callers that wait for it, the first being
    /// the one that loads.
    Pending(Vec<u64>),
    /// The load has ended.
    Done(Outcome),
}

pub enum EntryView {
    Pending(Seq<u64>),
    Done(Outcome),
}

impl View for Entry {
    type V = EntryView;

    open spec fn view(&self) -> EntryView {
        match self {
            Entry::Pending(w) => EntryView::Pending(w@),
            Entry::Done(o) => EntryView::Done(*o),
        }
    }
}

/// What a caller that asked for a key has to do.
#[derive(Clone, Copy, Debug, PartialEq, Eq, Structural)]
pub enum Decision {
    /// Nothing is known of the key: run the loader, then call `complete`.
    Load,
    /// A load is in flight: wait until `complete` releases the caller.
    Wait,
    /// The load has ended with this outcome.
    Ready(Outcome),
}

/// The cache after `caller` asked for `key`, and what the caller is told.
pub open spec fn spec_request(m: Map<u64, EntryView>, key: u64, caller: u64) -> (
    Map<u64, EntryView>,
    Decision,
) {
    if !m.contains_key(key) {
        (m.insert(key, EntryView::Pending(seq![caller])), Decision::Load)
    } else {
        match m[key] {
            EntryView::Pending(w) => (
                m.insert(key, EntryView::Pending(w.push(caller))),
                Decision::Wait,
            ),
            EntryView::Done(o) => (m, Decision::Ready(o)),
        }
    }
}

/// The cache after the load of `key` ended with `outcome`, and the callers
/// that are released with it. Where no load of `key` is in flight nothing
/// changes and nobody is released.
pub open spec fn spec_complete(m: Map<u64, EntryView>, key: u64, outcome: Outcome) -> (
    Map<u64, EntryView>,
    Seq<u64>,
) {
    if m.contains_key(key) && m[key] is Pending {
        (m.insert(key, EntryView::Done(outcome)), m[key]->Pending_0)
    } else {
        (m, Seq::empty())
    }
}

/// The cache after the recorded result of `key` is dropped. A load in
/// flight is not dropped.
pub open spec fn spec_evict(m: Map<u64, EntryView>, key: u64) -> Map<u64, EntryView> {
    if m.contains_key(key) && m[key] is Done {
        m.remove(key)
    } else {
        m
    }
}

/// The cache after each of `callers` asked for `key`, in order, and what
/// each was told.
pub open spec fn spec_requests(m: Map<u64, EntryView>, key: u64, callers: Seq<u64>) -> (
    Map<u64, EntryView>,
    Seq<Decision>,
)
    decreases callers.len(),
{
    if callers.len() == 0 {
        (m, Seq::empty())
    } else {
        let (m1, told) = spec_requests(m, key, callers.drop_last());
        let (m2, d) = spec_request(m1, key, callers.last());
        (m2, told.push(d))
    }
}

/// The memoizing cache.
#[derive(Clone, Debug)]
pub struct Cache {
    entries: HashMap<u64, Entry>,
}

impl View for Cache {
    type V = Map<u64, EntryView>;

    closed spec fn view(&self) -> Map<u64, EntryView> {
        self.entries@.map_values(|e: Entry| e@)
    }
}

impl Cache {
    /// A cache that holds nothing.
    pub fn new() -> (c: Cache)
        ensures
            c@ == Map::<u64, EntryView>::empty(),
    {
        let c = Cache { entries: HashMap::new() };
        assert(c@ =~= Map::<u64, EntryView>::empty());
        c
    }

    /// `caller` asks for `key`.
    ///
    /// The first caller for a key is told to load and is entered as the
    /// first to wait. A caller that asks while the load runs is entered
    /// behind the others and told to wait. Once the load has ended every
    /// caller is told its outcome, and the cache does not change.
    pub fn get(&mut self, key: u64, caller: u64) -> (d: Decision)
        ensures
            final(self)@ == spec_request(old(self)@, key, caller).0,
            d == spec_request(old(self)@, key, caller).1,
    {
        let ghost before = self@;
        match self.entries.remove(&key) {
            None => {
                let mut waiters: Vec<u64> = Vec::new();
                waiters.push(caller);
                assert(waiters@ =~= seq![caller]);
                self.entries.insert(key, Entry::Pending(waiters));
                assert(self@ =~= before.insert(key, EntryView::Pending(seq![caller])));
                Decision::Load
            },
            Some(Entry::Pending(mut waiters)) => {
                let ghost w = waiters@;
                waiters.push(caller);
                self.entries.insert(key, Entry::Pending(waiters));
                assert(self@ =~= before.insert(key, EntryView::Pending(w.push(caller))));
                Decision::Wait
            },
            Some(Entry::Done(outcome)) => {
                self.entries.insert(key, Entry::Done(outcome));
                assert(self@ =~= before);
                Decision::Ready(outcome)
            },
        }
    }

    /// The load of `key` has ended with `outcome`.
    ///
    /// The outcome is recorded and the callers that waited are returned, in
    /// the order in which they asked: each of them gets this one outcome.
    /// Where no load of `key` is in flight, nothing changes and nobody is
    /// returned: a recorded outcome is never replaced.
    pub fn complete(&mut self, key: u64, outcome: Outcome) -> (released: Vec<u64>)
        ensures
            final(self)@ == spec_complete(old(self)@, key, outcome).0,
            released@ == spec_complete(old(self)@, key, outcome).1,
    {
        let ghost before = self@;
        match self.entries.remove(&key) {
            None => {
                assert(self@ =~= before);
                Vec::new()
            },
            Some(Entry::Pending(waiters)) => {
                self.entries.insert(key, Entry::Done(outcome));
                assert(self@ =~= before.insert(key, EntryView::Done(outcome)));
                waiters
            },
            Some(Entry::Done(recorded)) => {
                self.entries.insert(key, Entry::Done(recorded));
                assert(self@ =~= before);
                Vec::new()
            },
        }
    }

    /// Drops the recorded outcome of `key`, so that the next caller loads
    /// again. A load in flight stays. Tells whether an outcome was dropped.
    pub fn evict(&mut self, key: u64) -> (dropped: bool)
        ensures
            final(self)@ == spec_evict(old(self)@, key),
            dropped == (old(self)@.contains_key(key) && old(self)@[key] is Done),
    {
        let ghost before = self@;
        match self.entries.remove(&key) {
            None => {
                assert(self@ =~= before);
                false
            },
            Some(Entry::Pending(waiters)) => {
                self.entries.insert(key, Entry::Pending(waiters));
                assert(self@ =~= before);
                false
            },
            Some(Entry::Done(_)) => {
                assert(self@ =~= before.remove(key));
                true
            },
        }
    }

    /// The recorded outcome of `key`, if its load has ended.
    pub fn peek(&self, key: u64) -> (r: Option<Outcome>)
        ensures
            r == (if self@.contains_key(key) && self@[key] is Done {
                Some(self@[key]->Done_0)
            } else {
                None
            }),
    {
        match self.entries.get(&key) {
            Some(Entry::Done(outcome)) => Some(*outcome),
            _ => None,
        }
    }

    /// Tells whether a load of `key` is in flight.
    pub fn is_loading(&self, key: u64) -> (b: bool)
        ensures
            b == (self@.contains_key(key) && self@[key] is Pending),
    {
        match self.entries.get(&key) {
            Some(Entry::Pending(_)) => true,
            _ => false,
        }
    }
}

/// A caller is told to load exactly when the cache holds nothing for the
/// key, and afterwards the cache holds something for it: while the entry
/// stays, nobody else is told to load.
pub proof fn lemma_load_once(m: Map<u64, EntryView>, key: u64, caller: u64)
    ensures
        spec_request(m, key, caller).1 == Decision::Load <==> !m.contains_key(key),
        spec_request(m, key, caller).0.contains_key(key),
{
}

/// A recorded outcome is never changed: asking for the key and completing
/// it again leave the cache as it is, and every caller is told the
/// recorded outcome.
pub proof fn lemma_done_is_final(m: Map<u64, EntryView>, key: u64, caller: u64, outcome: Outcome)
    requires
        m.contains_key(key),
        m[key] is Done,
    ensures
        spec_request(m, key, caller) == (m, Decision::Ready(m[key]->Done_0)),
        spec_complete(m, key, outcome) == (m, Seq::<u64>::empty()),
{
}

/// Asking for one key and completing it leave the other keys alone.
pub proof fn lemma_other_keys_untouched(
    m: Map<u64, EntryView>,
    key: u64,
    caller: u64,
    outcome: Outcome,
    other: u64,
)
    requires
        other != key,
    ensures
        spec_request(m, key, caller).0.contains_key(other) == m.contains_key(other),
        spec_request(m, key, caller).0[other] == m[other],
        spec_complete(m, key, outcome).0.contains_key(other) == m.contains_key(other),
        spec_complete(m, key, outcome).0[other] == m[other],
        spec_evict(m, key).contains_key(other) == m.contains_key(other),
        spec_evict(m, key)[other] == m[other],
{
}

/// What any number of callers that ask for a key of which nothing is known
/// are told: the first to load, every other to wait; and all of them wait
/// in the entry, in the order in which they asked.
pub proof fn lemma_requests(m: Map<u64, EntryView>, key: u64, callers: Seq<u64>)
    requires
        !m.contains_key(key),
        callers.len() > 0,
    ensures
        ({
            let (after, told) = spec_requests(m, key, callers);
            &&& told.len() == callers.len()
            &&& told[0] == Decision::Load
            &&& forall|i: int| 1 <= i < told.len() ==> told[i] == Decision::Wait
            &&& after == m.insert(key, EntryView::Pending(callers))
        }),
    decreases callers.len(),
{
    let (after, told) = spec_requests(m, key, callers);
    let head = callers.drop_last();
    if head.len() == 0 {
        assert(spec_requests(m, key, head) == (m, Seq::<Decision>::empty()));
        assert(callers =~= seq![callers.last()]);
    } else {
        lemma_requests(m, key, head);
        let (m1, told1) = spec_requests(m, key, head);
        assert(head.push(callers.last()) =~= callers);
        assert(after =~= m.insert(key, EntryView::Pending(callers)));
    }
}

/// One load for any number of callers: where nothing is known of a key and
/// `callers` ask for it before its load ends, exactly one of them, the
/// first, is told to load; when the load ends, all of them are released
/// with its outcome; and whoever asks later is told that same outcome
/// without a load.
pub proof fn lemma_dedup(m: Map<u64, EntryView>, key: u64, callers: Seq<u64>, outcome: Outcome)
    requires
        !m.contains_key(key),
        callers.len() > 0,
    ensures
        ({
            let (pending, told) = spec_requests(m, key, callers);
            let (done, released) = spec_complete(pending, key, outcome);
            &&& told.len() == callers.len()
            &&& forall|i: int| 0 <= i < told.len() ==> (told[i] == Decision::Load <==> i == 0)
            &&& released == callers
            &&& done == m.insert(key, EntryView::Done(outcome))
            &&& forall|late: u64| #[trigger]
                spec_request(done, key, late) == (done, Decision::Ready(outcome))
        }),
{
    lemma_requests(m, key, callers);
    let (pending, told) = spec_requests(m, key, callers);
    let (done, released) = spec_complete(pending, key, outcome);
    assert(done =~= m.insert(key, EntryView::Done(outcome)));
}

} // verus!
