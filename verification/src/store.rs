//! The in-memory key/value store: one mapping from byte-string keys to
//! byte-string values, modelled as a `Map<Seq<u8>, Seq<u8>>`. Keys are kept
//! unique, so the entry holding a key is the only one that speaks for it.

use vstd::prelude::*;

use crate::parser::bytes_eq;

verus! {

/// The mapping that a sequence of entries denotes; a later entry for the
/// same key would win, and the store keeps keys unique so the question never
/// arises.
pub open spec fn map_of(entries: Seq<(Vec<u8>, Vec<u8>)>) -> Map<Seq<u8>, Seq<u8>>
    decreases entries.len(),
{
    if entries.len() == 0 {
        Map::empty()
    } else {
        map_of(entries.subrange(0, entries.len() - 1)).insert(
            entries.last().0@,
            entries.last().1@,
        )
    }
}

/// Whether no two entries carry the same key.
pub open spec fn unique_keys(entries: Seq<(Vec<u8>, Vec<u8>)>) -> bool {
    forall|i: int, j: int|
        0 <= i < j < entries.len() ==> entries[i].0@ != entries[j].0@
}

/// A key is in the mapping exactly when some entry carries it.
pub proof fn lemma_map_of_contains(entries: Seq<(Vec<u8>, Vec<u8>)>, k: Seq<u8>)
    ensures
        map_of(entries).contains_key(k) <==> exists|i: int|
            0 <= i < entries.len() && entries[i].0@ == k,
    decreases entries.len(),
{
    if entries.len() > 0 {
        lemma_map_of_contains(entries.subrange(0, entries.len() - 1), k);
        if entries.last().0@ == k {
            assert(entries[entries.len() - 1].0@ == k);
        } else if map_of(entries).contains_key(k) {
            let i = choose|i: int|
                0 <= i < entries.len() - 1 && #[trigger] entries.subrange(
                    0,
                    entries.len() - 1,
                )[i].0@ == k;
            assert(entries[i].0@ == k);
        } else {
            assert forall|i: int| 0 <= i < entries.len() implies entries[i].0@ != k by {
                if i < entries.len() - 1 {
                    assert(entries.subrange(0, entries.len() - 1)[i] == entries[i]);
                }
            }
        }
    }
}

/// With unique keys, the entry that carries a key gives its value.
pub proof fn lemma_map_of_get(entries: Seq<(Vec<u8>, Vec<u8>)>, i: int)
    requires
        unique_keys(entries),
        0 <= i < entries.len(),
    ensures
        map_of(entries).contains_key(entries[i].0@),
        map_of(entries)[entries[i].0@] == entries[i].1@,
    decreases entries.len(),
{
    if i == entries.len() - 1 {
        lemma_map_of_contains(entries, entries[i].0@);
    } else {
        let front = entries.subrange(0, entries.len() - 1);
        assert(front[i] == entries[i]);
        lemma_map_of_get(front, i);
    }
}

/// Replacing the entry that carries a key updates just that key.
pub proof fn lemma_map_of_update(entries: Seq<(Vec<u8>, Vec<u8>)>, i: int, e: (Vec<u8>, Vec<u8>))
    requires
        unique_keys(entries),
        0 <= i < entries.len(),
        e.0@ == entries[i].0@,
    ensures
        map_of(entries.update(i, e)) == map_of(entries).insert(e.0@, e.1@),
    decreases entries.len(),
{
    let updated = entries.update(i, e);
    if i == entries.len() - 1 {
        assert(updated.subrange(0, updated.len() - 1) =~= entries.subrange(
            0,
            entries.len() - 1,
        ));
        assert(map_of(updated) =~= map_of(entries).insert(e.0@, e.1@));
    } else {
        let front = entries.subrange(0, entries.len() - 1);
        assert(front[i] == entries[i]);
        lemma_map_of_update(front, i, e);
        assert(updated.subrange(0, updated.len() - 1) =~= front.update(i, e));
        assert(updated.last() == entries.last());
        assert(entries.last().0@ != e.0@);
        assert(map_of(updated) =~= map_of(entries).insert(e.0@, e.1@));
    }
}

/// The store: one process-lifetime mapping, created once and shared by every
/// connection-handling job under one exclusive-access discipline that the
/// caller supplies.
pub struct Store {
    key_val_store: Vec<(Vec<u8>, Vec<u8>)>,
}

impl View for Store {
    type V = Map<Seq<u8>, Seq<u8>>;

    closed spec fn view(&self) -> Map<Seq<u8>, Seq<u8>> {
        map_of(self.key_val_store@)
    }
}

impl Store {
    /// Whether the store is well formed: no key appears twice.
    pub closed spec fn wf(&self) -> bool {
        unique_keys(self.key_val_store@)
    }

    /// A fresh store that maps nothing.
    pub fn init() -> (s: Store)
        ensures
            s.wf(),
            s@ == Map::<Seq<u8>, Seq<u8>>::empty(),
    {
        let key_val_store: Vec<(Vec<u8>, Vec<u8>)> = Vec::new();
        Store { key_val_store }
    }

    /// Record `val` under `key`, overwriting any prior value for that key.
    pub fn set_key_val(&mut self, key: Vec<u8>, val: Vec<u8>)
        requires
            old(self).wf(),
        ensures
            final(self).wf(),
            final(self)@ == old(self)@.insert(key@, val@),
    {
        let ghost entries = self.key_val_store@;
        let mut i: usize = 0;
        while i < self.key_val_store.len()
            invariant
                0 <= i <= self.key_val_store@.len(),
                self.key_val_store@ == entries,
                entries == old(self).key_val_store@,
                unique_keys(entries),
                forall|j: int| 0 <= j < i ==> entries[j].0@ != key@,
            decreases self.key_val_store@.len() - i,
        {
            if bytes_eq(self.key_val_store[i].0.as_slice(), key.as_slice()) {
                proof {
                    lemma_map_of_update(entries, i as int, (key, val));
                }
                self.key_val_store.set(i, (key, val));
                return ;
            }
            i = i + 1;
        }
        proof {
            assert(entries.push((key, val)).subrange(0, entries.len() as int) =~= entries);
            lemma_map_of_contains(entries, key@);
        }
        self.key_val_store.push((key, val));
    }

    /// Look `key` up: the value it maps to, or `None` when it maps nothing.
    /// The store is untouched, so repeated lookups of an unmodified key
    /// return the same value every time.
    pub fn get_from_key_val_store(&self, key: Vec<u8>) -> (r: Option<Vec<u8>>)
        requires
            self.wf(),
        ensures
            match r {
                Some(v) => self@.contains_key(key@) && v@ == self@[key@],
                None => !self@.contains_key(key@),
            },
    {
        let ghost entries = self.key_val_store@;
        let mut i: usize = 0;
        while i < self.key_val_store.len()
            invariant
                0 <= i <= self.key_val_store@.len(),
                self.key_val_store@ == entries,
                unique_keys(entries),
                forall|j: int| 0 <= j < i ==> entries[j].0@ != key@,
            decreases self.key_val_store@.len() - i,
        {
            if bytes_eq(self.key_val_store[i].0.as_slice(), key.as_slice()) {
                proof {
                    lemma_map_of_get(entries, i as int);
                }
                let found = &self.key_val_store[i].1;
                return Some(found.clone());
            }
            i = i + 1;
        }
        proof {
            lemma_map_of_contains(entries, key@);
        }
        None
    }
}

} // verus!
