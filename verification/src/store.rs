//! The cache store: one slot per `(backend, endpoint)` pair.
//!
//! A slot holds the media address fetched last, if any fetch has succeeded,
//! and a marker that says whether a fetch for the pair is under way. Slots are
//! independent of each other: every operation touches at most one of them.

use vstd::prelude::*;

verus! {

/// What a [`CacheKey`] stands for: the backend's name and the endpoint's name.
pub type KeyView = (Seq<char>, Seq<char>);

/// Names one cache slot. Both parts are compared exactly, case included.
#[derive(Debug, PartialEq, Eq, Hash)]
pub struct CacheKey {
    pub backend_id: String,
    pub endpoint_id: String,
}

impl View for CacheKey {
    type V = KeyView;

    open spec fn view(&self) -> KeyView {
        (self.backend_id@, self.endpoint_id@)
    }
}

impl Clone for CacheKey {
    fn clone(&self) -> (r: Self)
        ensures
            r@ == self@,
    {
        CacheKey { backend_id: self.backend_id.clone(), endpoint_id: self.endpoint_id.clone() }
    }
}

impl CacheKey {
    /// The key of `endpoint` at `backend`.
    pub fn new(backend: &str, endpoint: &str) -> (r: CacheKey)
        ensures
            r@ == (backend@, endpoint@),
    {
        CacheKey {
            backend_id: String::from_str(backend),
            endpoint_id: String::from_str(endpoint),
        }
    }

    /// Whether both keys name the same slot.
    pub fn same_as(&self, other: &CacheKey) -> (r: bool)
        ensures
            r == (self@ == other@),
    {
        self.backend_id == other.backend_id && self.endpoint_id == other.endpoint_id
    }
}

/// The state of one slot, as contracts see it.
pub struct Slot {
    /// The address fetched last; `None` until a fetch has succeeded.
    pub url: Option<Seq<char>>,
    /// Whether a fetch for this slot is under way.
    pub refreshing: bool,
}

/// The slot of a pair that was declared and never fetched.
pub open spec fn empty_slot() -> Slot {
    Slot { url: None, refreshing: false }
}

/// The address in a slot of `cache`, if the slot exists and is populated.
pub open spec fn cached_in(cache: Map<KeyView, Slot>, key: KeyView) -> Option<Seq<char>> {
    if cache.contains_key(key) {
        cache[key].url
    } else {
        None
    }
}

/// Whether a fetch for `key` is under way in `cache`.
pub open spec fn refreshing_in(cache: Map<KeyView, Slot>, key: KeyView) -> bool {
    cache.contains_key(key) && cache[key].refreshing
}

/// One slot together with its key.
pub struct CacheEntry {
    key: CacheKey,
    url: Option<String>,
    refreshing: bool,
}

impl CacheEntry {
    /// The slot's state.
    pub closed spec fn slot(&self) -> Slot {
        Slot {
            url: match self.url {
                Some(u) => Some(u@),
                None => None,
            },
            refreshing: self.refreshing,
        }
    }
}

spec fn distinct_keys(entries: Seq<CacheEntry>) -> bool {
    forall|i: int, j: int|
        0 <= i < j < entries.len() ==> (#[trigger] entries[i]).key@ != (#[trigger] entries[j]).key@
}

spec fn holds_key(entries: Seq<CacheEntry>, key: KeyView) -> bool {
    exists|i: int| 0 <= i < entries.len() && (#[trigger] entries[i]).key@ == key
}

spec fn place_of(entries: Seq<CacheEntry>, key: KeyView) -> int {
    choose|i: int| 0 <= i < entries.len() && (#[trigger] entries[i]).key@ == key
}

spec fn slots_of(entries: Seq<CacheEntry>) -> Map<KeyView, Slot> {
    Map::new(
        |key: KeyView| holds_key(entries, key),
        |key: KeyView| entries[place_of(entries, key)].slot(),
    )
}

spec fn keys_of(entries: Seq<CacheEntry>) -> Seq<KeyView> {
    Seq::new(entries.len(), |i: int| entries[i].key@)
}

proof fn lemma_slot_at(entries: Seq<CacheEntry>, i: int)
    requires
        distinct_keys(entries),
        0 <= i < entries.len(),
    ensures
        slots_of(entries).contains_key(entries[i].key@),
        slots_of(entries)[entries[i].key@] == entries[i].slot(),
        place_of(entries, entries[i].key@) == i,
{
}

proof fn lemma_replace_entry(entries: Seq<CacheEntry>, i: int, entry: CacheEntry)
    requires
        distinct_keys(entries),
        0 <= i < entries.len(),
        entry.key@ == entries[i].key@,
    ensures
        distinct_keys(entries.update(i, entry)),
        keys_of(entries.update(i, entry)) == keys_of(entries),
        slots_of(entries.update(i, entry)) == slots_of(entries).insert(entry.key@, entry.slot()),
{
    let after = entries.update(i, entry);
    assert forall|key: KeyView| holds_key(after, key) == holds_key(entries, key) by {
        if holds_key(entries, key) {
            assert(after[place_of(entries, key)].key@ == key);
        }
    }
}

proof fn lemma_append_entry(entries: Seq<CacheEntry>, entry: CacheEntry)
    requires
        distinct_keys(entries),
        !holds_key(entries, entry.key@),
    ensures
        distinct_keys(entries.push(entry)),
        keys_of(entries.push(entry)) == keys_of(entries).push(entry.key@),
        slots_of(entries.push(entry)) == slots_of(entries).insert(entry.key@, entry.slot()),
{
    let after = entries.push(entry);
    assert forall|key: KeyView|
        holds_key(after, key) == (holds_key(entries, key) || key == entry.key@) by {
        if holds_key(entries, key) {
            assert(after[place_of(entries, key)].key@ == key);
        }
        if key == entry.key@ {
            assert(after[entries.len() as int].key@ == key);
        }
    }
}

proof fn lemma_keys_cover(entries: Seq<CacheEntry>)
    requires
        distinct_keys(entries),
    ensures
        keys_of(entries).no_duplicates(),
        keys_of(entries).to_set() == slots_of(entries).dom(),
{
    let keys = keys_of(entries);
    assert forall|key: KeyView| keys.contains(key) == holds_key(entries, key) by {
        if holds_key(entries, key) {
            assert(keys[place_of(entries, key)] == key);
        }
    }
}

/// The slots of the cache, kept in the order in which they were declared.
pub struct CacheStore {
    entries: Vec<CacheEntry>,
}

impl View for CacheStore {
    type V = Map<KeyView, Slot>;

    closed spec fn view(&self) -> Map<KeyView, Slot> {
        slots_of(self.entries@)
    }
}

impl CacheStore {
    #[verifier::type_invariant]
    spec fn keys_are_distinct(&self) -> bool {
        distinct_keys(self.entries@)
    }

    /// The keys of all slots, in the order in which they were declared.
    pub closed spec fn key_order(&self) -> Seq<KeyView> {
        keys_of(self.entries@)
    }

    /// A store without slots.
    pub fn new() -> (r: CacheStore)
        ensures
            r@ == Map::<KeyView, Slot>::empty(),
            r.key_order() == Seq::<KeyView>::empty(),
    {
        CacheStore { entries: Vec::new() }
    }

    /// Moves the slots out and leaves none behind, for the caller to put back.
    fn take_entries(&mut self) -> (entries: Vec<CacheEntry>)
        ensures
            entries@ == old(self).entries@,
            distinct_keys(entries@),
            final(self).entries@ == Seq::<CacheEntry>::empty(),
    {
        proof {
            use_type_invariant(&*self);
        }
        let mut entries: Vec<CacheEntry> = Vec::new();
        std::mem::swap(&mut self.entries, &mut entries);
        entries
    }

    fn find(&self, key: &CacheKey) -> (r: Option<usize>)
        ensures
            match r {
                Some(i) => i < self.entries@.len() && self.entries@[i as int].key@ == key@,
                None => !holds_key(self.entries@, key@),
            },
    {
        let mut i: usize = 0;
        while i < self.entries.len()
            invariant
                i <= self.entries@.len(),
                forall|j: int| 0 <= j < i ==> (#[trigger] self.entries@[j]).key@ != key@,
            decreases self.entries@.len() - i,
        {
            if self.entries[i].key.same_as(key) {
                return Some(i);
            }
            i += 1;
        }
        None
    }

    /// The address cached for `key`. `None` where the slot does not exist or
    /// no fetch for it has succeeded yet.
    pub fn get(&self, key: &CacheKey) -> (r: Option<String>)
        ensures
            match r {
                Some(url) => cached_in(self@, key@) == Some(url@),
                None => cached_in(self@, key@) is None,
            },
    {
        proof {
            use_type_invariant(self);
        }
        match self.find(key) {
            Some(i) => match &self.entries[i].url {
                Some(url) => Some(url.clone()),
                None => None,
            },
            None => None,
        }
    }

    /// Whether a fetch for `key` is under way.
    pub fn is_refreshing(&self, key: &CacheKey) -> (r: bool)
        ensures
            r == refreshing_in(self@, key@),
    {
        proof {
            use_type_invariant(self);
        }
        match self.find(key) {
            Some(i) => self.entries[i].refreshing,
            None => false,
        }
    }

    /// Declares a slot for `key`. A slot that exists already is left as it is.
    pub fn declare(&mut self, key: CacheKey)
        ensures
            final(self)@ == if old(self)@.contains_key(key@) {
                old(self)@
            } else {
                old(self)@.insert(key@, empty_slot())
            },
            final(self).key_order() == if old(self)@.contains_key(key@) {
                old(self).key_order()
            } else {
                old(self).key_order().push(key@)
            },
    {
        match self.find(&key) {
            Some(_) => {},
            None => {
                let entry = CacheEntry { key, url: None, refreshing: false };
                let mut entries = self.take_entries();
                proof {
                    lemma_append_entry(entries@, entry);
                }
                entries.push(entry);
                self.entries = entries;
            },
        }
    }

    /// Stores `url` as the address cached for `key`, in place of any earlier
    /// one. A slot that does not exist yet is created. The marker of a fetch
    /// under way is not touched.
    pub fn put(&mut self, key: CacheKey, url: String)
        ensures
            final(self)@ == old(self)@.insert(
                key@,
                Slot { url: Some(url@), refreshing: refreshing_in(old(self)@, key@) },
            ),
            final(self).key_order() == if old(self)@.contains_key(key@) {
                old(self).key_order()
            } else {
                old(self).key_order().push(key@)
            },
    {
        match self.find(&key) {
            Some(i) => {
                let refreshing = self.entries[i].refreshing;
                let entry = CacheEntry { key, url: Some(url), refreshing };
                let mut entries = self.take_entries();
                proof {
                    lemma_replace_entry(entries@, i as int, entry);
                }
                entries.set(i, entry);
                self.entries = entries;
            },
            None => {
                let entry = CacheEntry { key, url: Some(url), refreshing: false };
                let mut entries = self.take_entries();
                proof {
                    lemma_append_entry(entries@, entry);
                }
                entries.push(entry);
                self.entries = entries;
            },
        }
    }

    /// Sets or clears the marker that a fetch for `key` is under way. Nothing
    /// changes where the slot does not exist.
    pub fn set_refreshing(&mut self, key: &CacheKey, refreshing: bool)
        ensures
            final(self)@ == if old(self)@.contains_key(key@) {
                old(self)@.insert(key@, Slot { url: old(self)@[key@].url, refreshing })
            } else {
                old(self)@
            },
            final(self).key_order() == old(self).key_order(),
    {
        match self.find(key) {
            Some(i) => {
                let mut entries = self.take_entries();
                let ghost before = entries@;
                entries[i].refreshing = refreshing;
                proof {
                    lemma_replace_entry(before, i as int, entries@[i as int]);
                }
                self.entries = entries;
            },
            None => {},
        }
    }

    /// The keys of all slots, in the order in which they were declared.
    pub fn keys(&self) -> (r: Vec<CacheKey>)
        ensures
            r@.len() == self.key_order().len(),
            forall|i: int| 0 <= i < r@.len() ==> (#[trigger] r@[i])@ == self.key_order()[i],
            self.key_order().no_duplicates(),
            self.key_order().to_set() == self@.dom(),
    {
        proof {
            use_type_invariant(self);
            lemma_keys_cover(self.entries@);
        }
        let mut r: Vec<CacheKey> = Vec::new();
        let mut i: usize = 0;
        while i < self.entries.len()
            invariant
                i <= self.entries@.len(),
                r@.len() == i,
                forall|j: int| 0 <= j < i ==> (#[trigger] r@[j])@ == self.entries@[j].key@,
            decreases self.entries@.len() - i,
        {
            r.push(self.entries[i].key.clone());
            i += 1;
        }
        r
    }
}

} // verus!
