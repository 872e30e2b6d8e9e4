use vstd::prelude::*;
use vstd::slice::slice_to_vec;
use crate::versioned::Versioned;

verus! {

#[verifier::external_type_specification]
#[verifier::external_body]
#[verifier::reject_recursive_types(K)]
#[verifier::reject_recursive_types(V)]
#[verifier::reject_recursive_types(S)]
pub struct ExDashMap<K, V, S>(dashmap::DashMap<K, V, S>);

/// The concrete shared map behind the index, and the mathematical form
/// of one of its entries: (version, tombstone, value).
pub type ByteMap = dashmap::DashMap<Vec<u8>, Versioned>;

pub type EntrySpec = (u64, bool, Seq<u8>);

/// What the shared map holds: each key's entry.
pub uninterp spec fn dash_contents(m: ByteMap) -> Map<Seq<u8>, EntrySpec>;

/// The entry map of a store that holds nothing.
pub open spec fn empty_entries() -> Map<Seq<u8>, EntrySpec> {
    Map::empty()
}

/// Relies on dashmap::DashMap::new: a fresh map holds no entries.
#[verifier::external_body]
fn dash_new() -> (r: ByteMap)
    ensures
        dash_contents(r) == empty_entries(),
{
    dashmap::DashMap::new()
}

/// Relies on dashmap::DashMap::insert: maps the key to the new entry
/// and returns the entry it replaced, if the key was present.
#[verifier::external_body]
fn dash_insert(m: &mut ByteMap, key: Vec<u8>, entry: Versioned) -> (prev: Option<Versioned>)
    ensures
        dash_contents(*final(m)) == dash_contents(*old(m)).insert(key@, entry@),
        match prev {
            Some(p) => dash_contents(*old(m)).dom().contains(key@) && p@ == dash_contents(
                *old(m),
            )[key@],
            None => !dash_contents(*old(m)).dom().contains(key@),
        },
{
    m.insert(key, entry)
}

/// Relies on dashmap::DashMap::get: returns the entry the key maps to,
/// if the key is present.
#[verifier::external_body]
fn dash_get(m: &ByteMap, key: &[u8]) -> (r: Option<Versioned>)
    ensures
        match r {
            Some(e) => dash_contents(*m).dom().contains(key@) && e@ == dash_contents(*m)[key@],
            None => !dash_contents(*m).dom().contains(key@),
        },
{
    match m.get(key) {
        Some(e) => Some(e.value().clone()),
        None => None,
    }
}

/// What a read of `key` returns over an entry map: the value if the key
/// has a live (non-tombstone) entry, and nothing both when the key was
/// never written and when its latest entry is a tombstone.
pub open spec fn spec_lookup(entries: Map<Seq<u8>, EntrySpec>, key: Seq<u8>) -> Option<Seq<u8>> {
    if entries.dom().contains(key) && !entries[key].1 {
        Some(entries[key].2)
    } else {
        None
    }
}

/// The in-memory index: the latest versioned entry per key, plus the
/// store-wide version counter that stamps every mutation.
pub struct KeyValue {
    map: ByteMap,
    version: u64,
}

impl KeyValue {
    /// The entry map this index holds.
    pub closed spec fn spec_entries(self) -> Map<Seq<u8>, EntrySpec> {
        dash_contents(self.map)
    }

    /// The version counter's current value.
    pub closed spec fn spec_version(self) -> u64 {
        self.version
    }

    /// Well-formedness: no stored entry is stamped beyond the counter,
    /// and a tombstone carries no value bytes.
    pub open spec fn wf(self) -> bool {
        forall|k: Seq<u8>| #[trigger]
            self.spec_entries().dom().contains(k) ==> self.spec_entries()[k].0
                <= self.spec_version() && (self.spec_entries()[k].1
                ==> self.spec_entries()[k].2.len() == 0)
    }

    /// An empty index: no entries, counter at zero.
    pub fn new() -> (kv: Self)
        ensures
            kv.wf(),
            kv.spec_entries() == empty_entries(),
            kv.spec_version() == 0,
    {
        KeyValue { map: dash_new(), version: 0 }
    }

    /// The version counter's current value; it advances by one on every
    /// `put` or `delete`.
    pub fn current_version(&self) -> (v: u64)
        ensures
            v == self.spec_version(),
    {
        self.version
    }

    /// Stores `value` under `key`, stamped with the next version.
    /// Returns the previous value if the key held a live entry, and
    /// nothing when it was absent or a tombstone.
    pub fn put(&mut self, key: &[u8], value: &[u8]) -> (prev: Option<Vec<u8>>)
        requires
            old(self).wf(),
            old(self).spec_version() < u64::MAX,
        ensures
            final(self).wf(),
            final(self).spec_version() == old(self).spec_version() + 1,
            final(self).spec_entries() == old(self).spec_entries().insert(
                key@,
                (final(self).spec_version(), false, value@),
            ),
            match prev {
                Some(p) => spec_lookup(old(self).spec_entries(), key@) == Some(p@),
                None => spec_lookup(old(self).spec_entries(), key@) is None,
            },
    {
        self.version = self.version + 1;
        let entry = Versioned::from_value(self.version, value);
        let previous = dash_insert(&mut self.map, slice_to_vec(key), entry);
        match previous {
            Some(p) => if p.tomb {
                None
            } else {
                Some(p.val)
            },
            None => None,
        }
    }

    /// Reads the current value of `key`: the stored value if the key
    /// has a live entry, and nothing both when the key was never
    /// written and when its latest entry is a tombstone.
    pub fn get(&self, key: &[u8]) -> (r: Option<Vec<u8>>)
        ensures
            match r {
                Some(v) => spec_lookup(self.spec_entries(), key@) == Some(v@),
                None => spec_lookup(self.spec_entries(), key@) is None,
            },
    {
        match dash_get(&self.map, key) {
            Some(e) => if e.tomb {
                None
            } else {
                Some(e.val)
            },
            None => None,
        }
    }

    /// Stores a tombstone under `key`, stamped with the next version;
    /// the key reads as absent afterwards. Always succeeds, also for a
    /// key that was never written. Returns the previous value only if
    /// the key held a live entry.
    pub fn delete(&mut self, key: &[u8]) -> (prev: Option<Vec<u8>>)
        requires
            old(self).wf(),
            old(self).spec_version() < u64::MAX,
        ensures
            final(self).wf(),
            final(self).spec_version() == old(self).spec_version() + 1,
            final(self).spec_entries() == old(self).spec_entries().insert(
                key@,
                (final(self).spec_version(), true, Seq::<u8>::empty()),
            ),
            match prev {
                Some(p) => spec_lookup(old(self).spec_entries(), key@) == Some(p@),
                None => spec_lookup(old(self).spec_entries(), key@) is None,
            },
    {
        self.version = self.version + 1;
        let entry = Versioned::tomb(self.version);
        let previous = dash_insert(&mut self.map, slice_to_vec(key), entry);
        match previous {
            Some(p) => if p.tomb {
                None
            } else {
                Some(p.val)
            },
            None => None,
        }
    }
}

/// A key never written reads as absent: a lookup in an entry map that
/// does not contain the key yields nothing.
pub proof fn lemma_get_never_written(entries: Map<Seq<u8>, EntrySpec>, key: Seq<u8>)
    requires
        !entries.dom().contains(key),
    ensures
        spec_lookup(entries, key) is None,
{
}

/// A read after a put: looking up a key right after `put` stored
/// `value` under it yields that value, whatever the map held before.
pub proof fn lemma_get_after_put(
    entries: Map<Seq<u8>, EntrySpec>,
    version: u64,
    key: Seq<u8>,
    value: Seq<u8>,
)
    ensures
        spec_lookup(entries.insert(key, (version, false, value)), key) == Some(value),
{
}

/// A read after a delete: looking up a key right after `delete` stored
/// a tombstone under it yields nothing, whatever the map held before.
pub proof fn lemma_get_after_delete(
    entries: Map<Seq<u8>, EntrySpec>,
    version: u64,
    key: Seq<u8>,
)
    ensures
        spec_lookup(entries.insert(key, (version, true, Seq::<u8>::empty())), key) is None,
{
}

} // verus!
