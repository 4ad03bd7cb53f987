//! Durable de-duplication contract: "have we already processed this key?".
use vstd::hash_set::StringHashSet;
use vstd::prelude::*;

verus! {

/// Dedup store. SEC's current-events feed replays roughly the last day of
/// filings on every poll, so without a durable check a restart silently
/// re-emits signals for everything still in that window.
pub trait SeenStore {
    /// The keys recorded so far.
    spec fn seen_keys(&self) -> Set<Seq<char>>;

    /// Records `key`. Returns `true` if it was newly recorded (the first
    /// time it is seen), `false` if it was already present.
    fn mark_seen_if_new(&mut self, key: &str) -> (newly: bool)
        ensures
            newly == !old(self).seen_keys().contains(key@),
            final(self).seen_keys() == old(self).seen_keys().insert(key@),
    ;
}

/// The zero-configuration store: keys live in memory only and do not
/// survive a restart.
pub struct InMemorySeenStore {
    seen: StringHashSet,
}

impl InMemorySeenStore {
    /// A store that has seen nothing.
    pub fn new() -> (s: Self)
        ensures
            s.seen_keys() == Set::<Seq<char>>::empty(),
    {
        InMemorySeenStore { seen: StringHashSet::new() }
    }
}

impl Default for InMemorySeenStore {
    fn default() -> (s: Self)
        ensures
            s.seen_keys() == Set::<Seq<char>>::empty(),
    {
        InMemorySeenStore::new()
    }
}

impl SeenStore for InMemorySeenStore {
    closed spec fn seen_keys(&self) -> Set<Seq<char>> {
        self.seen@
    }

    fn mark_seen_if_new(&mut self, key: &str) -> (newly: bool) {
        self.seen.insert(key.to_owned())
    }
}

/// A key is new exactly once: after `mark_seen_if_new(key)`, the key is
/// recorded, so marking it again reports it as already seen and leaves the
/// recorded keys as they are.
pub proof fn lemma_seen_once(seen: Set<Seq<char>>, key: Seq<char>)
    ensures
        seen.insert(key).contains(key),
        seen.insert(key).insert(key) == seen.insert(key),
{
    assert(seen.insert(key).insert(key) =~= seen.insert(key));
}

} // verus!
