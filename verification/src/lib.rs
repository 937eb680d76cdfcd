//! An insert-only, typed registry addressed by two kinds of key: a dense
//! slot index that is meaningful inside one running instance, and a stable
//! 64-bit hash of the entry's identifier.

pub mod entry;
pub mod hash;
pub mod key;
pub mod map;

pub use crate::entry::Entry;
pub use crate::key::{GlobalKey, LocalKey};

use crate::hash::{hash_ident, stable_hash};
use crate::map::InsertMap;
use vstd::prelude::*;

verus! {

/// `std::slice::IterMut`, the iterator that hands out the elements of a
/// slice for change. Nothing is said of what it holds.
#[verifier::external_type_specification]
#[verifier::external_body]
#[verifier::reject_recursive_types(E)]
pub struct ExIterMut<'a, E: 'a>(std::slice::IterMut<'a, E>);

/// `<[T]>::iter_mut`: the iterator hands out each element of the slice for
/// change, and can neither add nor remove one.
pub assume_specification<'a, T>[ <[T]>::iter_mut ](s: &'a mut [T]) -> (it: std::slice::IterMut<'a, T>)
    ensures
        final(s)@.len() == old(s)@.len(),
;

/// The most entries a registry can hold: a local key is a 16-bit index.
pub const MAX_ENTRIES: usize = 65535;

/// Why an entry could not be added. Both are mistakes in how a program sets
/// its registries up, not conditions to recover from while it runs.
#[derive(Debug)]
pub enum RegistryError {
    /// The registry already holds `MAX_ENTRIES` entries.
    CapacityExceeded { ident: String },
    /// The identifier's hash is already taken by the entry `existing`:
    /// either the identifier was added twice, or two identifiers collide.
    Uniqueness { ident: String, existing: String },
}

/// An insert-only container of items of one type.
///
/// Every entry gets a `LocalKey`, its position in the order of insertion,
/// and a `GlobalKey`, the stable hash of its identifier.
pub struct Registry<I> {
    /// The entries, in the order of insertion.
    items: Vec<Entry<I>>,
    /// From the hash of each entry's identifier to the entry's position.
    table: InsertMap,
}

impl<I> View for Registry<I> {
    type V = Seq<Entry<I>>;

    /// The entries, in the order of insertion.
    closed spec fn view(&self) -> Seq<Entry<I>> {
        self.items@
    }
}

impl<I> Registry<I> {
    spec fn slot_ok(items: Seq<Entry<I>>, table: InsertMap, i: int) -> bool {
        let e = items[i];
        &&& e.spec_local() == i
        &&& table@.contains_key(e.spec_global())
        &&& table@[e.spec_global()] == i
    }

    spec fn parts_wf(items: Seq<Entry<I>>, table: InsertMap) -> bool {
        &&& table.wf()
        &&& table.spec_len() == items.len()
        &&& items.len() <= MAX_ENTRIES
        &&& forall|i: int| 0 <= i < items.len() ==> #[trigger] Self::slot_ok(items, table, i)
        &&& forall|h: u64| #[trigger]
            table@.contains_key(h) ==> (table@[h] as int) < items.len() && items[table@[h] as int].spec_global()
                == h
    }

    spec fn entry_ok(&self, i: int) -> bool {
        Self::slot_ok(self.items@, self.table, i)
    }

    /// Every entry sits at the position that its local key names and is the
    /// one entry that the lookup table gives for its global key.
    pub closed spec fn wf(&self) -> bool {
        Self::parts_wf(self.items@, self.table)
    }

    /// The global key of every entry is the stable hash of the entry's
    /// identifier. This holds of a registry that was filled through `add`.
    pub open spec fn keyed(&self) -> bool {
        forall|i: int|
            0 <= i < self@.len() ==> (#[trigger] self@[i]).spec_global() == stable_hash(
                self@[i].spec_ident(),
            )
    }

    /// Replacing the item of one entry keeps a registry well formed.
    proof fn lemma_item_change(items: Seq<Entry<I>>, table: InsertMap, i: int, e: Entry<I>)
        requires
            Self::parts_wf(items, table),
            0 <= i < items.len(),
            e.same_identity(&items[i]),
        ensures
            Self::parts_wf(items.update(i, e), table),
    {
        let after = items.update(i, e);
        assert forall|j: int| 0 <= j < after.len() implies #[trigger] Self::slot_ok(after, table, j) by {
            assert(Self::slot_ok(items, table, j));
        }
        assert forall|h: u64| #[trigger] table@.contains_key(h) implies (table@[h] as int) < after.len()
            && after[table@[h] as int].spec_global() == h by {
            assert(Self::slot_ok(items, table, table@[h] as int));
        }
    }

    /// Replacing the items of any entries keeps a registry well formed.
    proof fn lemma_items_change(items: Seq<Entry<I>>, table: InsertMap, after: Seq<Entry<I>>)
        requires
            Self::parts_wf(items, table),
            after.len() == items.len(),
            forall|i: int| 0 <= i < after.len() ==> (#[trigger] after[i]).same_identity(&items[i]),
        ensures
            Self::parts_wf(after, table),
    {
        assert forall|j: int| 0 <= j < after.len() implies #[trigger] Self::slot_ok(after, table, j) by {
            assert(Self::slot_ok(items, table, j));
            assert(after[j].same_identity(&items[j]));
        }
        assert forall|h: u64| #[trigger] table@.contains_key(h) implies (table@[h] as int) < after.len()
            && after[table@[h] as int].spec_global() == h by {
            let j = table@[h] as int;
            assert(Self::slot_ok(items, table, j));
            assert(after[j].same_identity(&items[j]));
        }
    }

    /// Some entry has the hash `hash`.
    pub open spec fn holds(&self, hash: u64) -> bool {
        exists|i: int| 0 <= i < self@.len() && (#[trigger] self@[i]).spec_global() == hash
    }

    /// The position of an entry with the hash `hash`.
    pub open spec fn slot_of(&self, hash: u64) -> int {
        choose|i: int| 0 <= i < self@.len() && (#[trigger] self@[i]).spec_global() == hash
    }

    /// No two entries share a hash.
    pub proof fn lemma_hashes_unique(&self, i: int, j: int)
        requires
            self.wf(),
            0 <= i < self@.len(),
            0 <= j < self@.len(),
            self@[i].spec_global() == self@[j].spec_global(),
        ensures
            i == j,
    {
        assert(self.entry_ok(i));
        assert(self.entry_ok(j));
    }

    /// A registry never holds more than `MAX_ENTRIES` entries.
    pub proof fn lemma_len_is_bounded(&self)
        requires
            self.wf(),
        ensures
            self@.len() <= MAX_ENTRIES,
    {
    }

    /// No two entries share an identifier.
    pub proof fn lemma_identifiers_unique(&self, i: int, j: int)
        requires
            self.wf(),
            self.keyed(),
            0 <= i < self@.len(),
            0 <= j < self@.len(),
            self@[i].spec_ident() == self@[j].spec_ident(),
        ensures
            i == j,
    {
        assert(self.entry_ok(i));
        assert(self.entry_ok(j));
    }

    /// Every entry sits at the position that its local key names.
    pub proof fn lemma_local_keys_are_positions(&self, i: int)
        requires
            self.wf(),
            0 <= i < self@.len(),
        ensures
            self@[i].spec_local() == i,
    {
        assert(self.entry_ok(i));
    }

    /// Searching for the key of an entry's identifier finds that entry.
    pub proof fn lemma_every_entry_is_found(&self, i: int)
        requires
            self.wf(),
            self.keyed(),
            0 <= i < self@.len(),
        ensures
            self.holds(stable_hash(self@[i].spec_ident())),
            self.slot_of(stable_hash(self@[i].spec_ident())) == i,
    {
        assert(self.entry_ok(i));
        let h = stable_hash(self@[i].spec_ident());
        assert(self.holds(h));
        self.lemma_hashes_unique(i, self.slot_of(h));
    }

    /// An identifier that some entry has is one whose hash is taken, so
    /// adding it again is refused.
    pub proof fn lemma_present_identifier_is_held(&self, ident: Seq<char>)
        requires
            self.wf(),
            self.keyed(),
            exists|i: int| 0 <= i < self@.len() && (#[trigger] self@[i]).spec_ident() == ident,
        ensures
            self.holds(stable_hash(ident)),
    {
        let i = choose|i: int| 0 <= i < self@.len() && (#[trigger] self@[i]).spec_ident() == ident;
        self.lemma_every_entry_is_found(i);
    }

    proof fn lemma_table_agrees(&self, h: u64)
        requires
            self.wf(),
        ensures
            self.table@.contains_key(h) <==> self.holds(h),
            self.holds(h) ==> self.table@[h] == self.slot_of(h),
    {
        if self.table@.contains_key(h) {
            let i = self.table@[h] as int;
            assert(self@[i].spec_global() == h);
        }
        if self.holds(h) {
            let i = self.slot_of(h);
            assert(self.entry_ok(i));
        }
    }

    /// An empty registry with room for 64 entries.
    pub fn new() -> (reg: Self)
        ensures
            reg.wf(),
            reg.keyed(),
            reg@.len() == 0,
    {
        Registry { items: Vec::with_capacity(64), table: InsertMap::with_capacity(64) }
    }

    /// An empty registry with room for `capacity` entries.
    pub fn with_capacity(capacity: usize) -> (reg: Self)
        ensures
            reg.wf(),
            reg.keyed(),
            reg@.len() == 0,
    {
        Registry { items: Vec::with_capacity(capacity), table: InsertMap::with_capacity(capacity) }
    }

    /// Makes room for `amount` more entries. The contents stay as they are.
    pub fn reserve(&mut self, amount: usize)
        ensures
            final(self)@ == old(self)@,
            old(self).wf() ==> final(self).wf(),
    {
        self.items.reserve(amount);
    }

    /// Number of entries.
    pub fn len(&self) -> (n: usize)
        ensures
            n == self@.len(),
    {
        self.items.len()
    }

    /// Adds an entry for `item` under the identifier `ident`, with `hash`
    /// as its global key. `add` is this with the stable hash of `ident`,
    /// and is the way to fill a registry; this one is for a caller that has
    /// the hash at hand.
    ///
    /// The entry gets the next free position as its local key. A full
    /// registry refuses, and so does one in which an entry already has that
    /// hash; in both cases nothing changes.
    pub fn add_with_hash(&mut self, ident: &str, hash: u64, item: I) -> (added: Result<
        &Entry<I>,
        RegistryError,
    >)
        requires
            old(self).wf(),
        ensures
            final(self).wf(),
            old(self).keyed() && hash == stable_hash(ident@) ==> final(self).keyed(),
            match added {
                Ok(e) => {
                    &&& old(self)@.len() < MAX_ENTRIES
                    &&& !old(self).holds(hash)
                    &&& final(self)@.len() == old(self)@.len() + 1
                    &&& final(self)@.take(old(self)@.len() as int) == old(self)@
                    &&& *e == final(self)@[old(self)@.len() as int]
                    &&& e.spec_ident() == ident@
                    &&& e.spec_local() == old(self)@.len()
                    &&& e.spec_global() == hash
                    &&& e.spec_item() == item
                },
                Err(RegistryError::CapacityExceeded { ident: refused }) => {
                    &&& old(self)@.len() >= MAX_ENTRIES
                    &&& *final(self) == *old(self)
                    &&& refused@ == ident@
                },
                Err(RegistryError::Uniqueness { ident: refused, existing }) => {
                    &&& old(self)@.len() < MAX_ENTRIES
                    &&& old(self).holds(hash)
                    &&& *final(self) == *old(self)
                    &&& refused@ == ident@
                    &&& existing@ == old(self)@[old(self).slot_of(hash)].spec_ident()
                },
            },
    {
        if self.items.len() >= MAX_ENTRIES {
            return Err(RegistryError::CapacityExceeded { ident: ident.to_owned() });
        }
        let local = self.items.len() as u16;
        proof {
            self.lemma_table_agrees(hash);
        }
        match self.table.insert(hash, local) {
            Some(taken) => {
                let existing = self.items[taken as usize].ident().to_owned();
                Err(RegistryError::Uniqueness { ident: ident.to_owned(), existing })
            },
            None => {
                self.items.push(
                    Entry::new(ident.to_owned(), LocalKey::at(local), GlobalKey::from_hash(hash), item),
                );
                proof {
                    let n = old(self)@.len() as int;
                    assert(self@.take(n) =~= old(self)@);
                    assert forall|i: int| 0 <= i < n + 1 implies #[trigger] Self::slot_ok(
                        self.items@,
                        self.table,
                        i,
                    ) by {
                        if i < n {
                            assert(Self::slot_ok(old(self).items@, old(self).table, i));
                        }
                    }
                    if old(self).keyed() && hash == stable_hash(ident@) {
                        assert forall|i: int| 0 <= i < n + 1 implies (#[trigger] self@[i]).spec_global()
                            == stable_hash(self@[i].spec_ident()) by {
                            if i < n {
                                assert(self@[i] == old(self)@[i]);
                            }
                        }
                    }
                }
                Ok(&self.items[local as usize])
            },
        }
    }

    /// Adds an entry for `item` under the identifier `ident`.
    ///
    /// The entry gets the next free position as its local key and the hash
    /// of `ident` as its global key. A full registry refuses, and so does
    /// one in which an entry already has that hash; in both cases nothing
    /// changes.
    pub fn add(&mut self, ident: &str, item: I) -> (added: Result<&Entry<I>, RegistryError>)
        requires
            old(self).wf(),
        ensures
            final(self).wf(),
            old(self).keyed() ==> final(self).keyed(),
            match added {
                Ok(e) => {
                    &&& old(self)@.len() < MAX_ENTRIES
                    &&& !old(self).holds(stable_hash(ident@))
                    &&& final(self)@.len() == old(self)@.len() + 1
                    &&& final(self)@.take(old(self)@.len() as int) == old(self)@
                    &&& *e == final(self)@[old(self)@.len() as int]
                    &&& e.spec_ident() == ident@
                    &&& e.spec_local() == old(self)@.len()
                    &&& e.spec_global() == stable_hash(ident@)
                    &&& e.spec_item() == item
                },
                Err(RegistryError::CapacityExceeded { ident: refused }) => {
                    &&& old(self)@.len() >= MAX_ENTRIES
                    &&& *final(self) == *old(self)
                    &&& refused@ == ident@
                },
                Err(RegistryError::Uniqueness { ident: refused, existing }) => {
                    &&& old(self)@.len() < MAX_ENTRIES
                    &&& old(self).holds(stable_hash(ident@))
                    &&& *final(self) == *old(self)
                    &&& refused@ == ident@
                    &&& existing@ == old(self)@[old(self).slot_of(stable_hash(ident@))].spec_ident()
                },
            },
    {
        let hash = hash_ident(ident);
        self.add_with_hash(ident, hash, item)
    }

    /// The entries in the order of insertion.
    pub fn iter(&self) -> (it: std::slice::Iter<'_, Entry<I>>)
        ensures
            vstd::std_specs::slice::into_iter_elts(it) == self@,
    {
        self.items.iter()
    }

    /// The entries in the order of insertion, each for changing its item.
    /// A registry whose entries all keep their identifiers and keys stays
    /// well formed.
    pub fn iter_mut(&mut self) -> (it: std::slice::IterMut<'_, Entry<I>>)
        ensures
            final(self)@.len() == old(self)@.len(),
            old(self).wf() && (forall|i: int|
                0 <= i < old(self)@.len() ==> (#[trigger] final(self)@[i]).same_identity(&old(self)@[i]))
                ==> final(self).wf(),
    {
        proof {
            if self.wf() {
                assert forall|after: Seq<Entry<I>>|
                    after.len() == self.items@.len() && (forall|i: int|
                        0 <= i < after.len() ==> (#[trigger] after[i]).same_identity(&self.items@[i]))
                    implies #[trigger] Self::parts_wf(after, self.table) by {
                    Self::lemma_items_change(self.items@, self.table, after);
                }
            }
        }
        self.items.iter_mut()
    }

    /// The entry whose global key is `key`, if there is one.
    pub fn search(&self, key: GlobalKey<I>) -> (found: Option<&Entry<I>>)
        requires
            self.wf(),
        ensures
            found is Some <==> self.holds(key@),
            found is Some ==> *found.unwrap() == self@[self.slot_of(key@)],
    {
        proof {
            self.lemma_table_agrees(key@);
        }
        match self.table.get(key.hash_value()) {
            Some(idx) => Some(&self.items[idx as usize]),
            None => None,
        }
    }

    /// The entry whose global key is `key`, if there is one, for changing
    /// its item.
    pub fn search_mut(&mut self, key: GlobalKey<I>) -> (found: Option<&mut Entry<I>>)
        requires
            old(self).wf(),
        ensures
            found is Some <==> old(self).holds(key@),
            found is None ==> *final(self) == *old(self),
            found is Some ==> {
                let e = found.unwrap();
                let i = old(self).slot_of(key@);
                &&& *e == old(self)@[i]
                &&& final(self)@ == old(self)@.update(i, *final(e))
                &&& final(e).same_identity(&old(self)@[i]) ==> final(self).wf()
            },
    {
        proof {
            self.lemma_table_agrees(key@);
        }
        match self.table.get(key.hash_value()) {
            Some(idx) => {
                proof {
                    assert forall|e: Entry<I>| e.same_identity(&self.items@[idx as int]) implies Self::parts_wf(
                        #[trigger] self.items@.update(idx as int, e),
                        self.table,
                    ) by {
                        Self::lemma_item_change(self.items@, self.table, idx as int, e);
                    }
                }
                Some(&mut self.items[idx as usize])
            },
            None => None,
        }
    }
}

impl<I> std::ops::Index<LocalKey<I>> for Registry<I> {
    type Output = Entry<I>;

    /// The entry at the position that `key` names. The key must come from
    /// this registry.
    fn index(&self, key: LocalKey<I>) -> (e: &Entry<I>)
        ensures
            *e == self@[key@ as int],
    {
        &self.items[key.index() as usize]
    }
}

impl<I> vstd::std_specs::core::IndexSpecImpl<LocalKey<I>> for Registry<I> {
    open spec fn index_req(&self, key: &LocalKey<I>) -> bool {
        key@ < self@.len()
    }
}

impl<I> std::ops::IndexMut<LocalKey<I>> for Registry<I> {
    /// The entry at the position that `key` names, for changing its item.
    /// The key must come from this registry.
    fn index_mut(&mut self, key: LocalKey<I>) -> (e: &mut Entry<I>)
        requires
            key@ < old(self)@.len(),
        ensures
            *e == old(self)@[key@ as int],
            final(self)@ == old(self)@.update(key@ as int, *final(e)),
            old(self).wf() && final(e).same_identity(&old(self)@[key@ as int]) ==> final(self).wf(),
    {
        let i = key.index() as usize;
        proof {
            if self.wf() {
                assert forall|e: Entry<I>| e.same_identity(&self.items@[i as int]) implies Self::parts_wf(
                    #[trigger] self.items@.update(i as int, e),
                    self.table,
                ) by {
                    Self::lemma_item_change(self.items@, self.table, i as int, e);
                }
            }
        }
        &mut self.items[i]
    }
}

impl<'i, I> IntoIterator for &'i Registry<I> {
    type IntoIter = std::slice::Iter<'i, Entry<I>>;

    type Item = &'i Entry<I>;

    /// The entries in the order of insertion.
    fn into_iter(self) -> (it: std::slice::Iter<'i, Entry<I>>)
        ensures
            vstd::std_specs::slice::into_iter_elts(it) == self@,
    {
        self.iter()
    }
}

impl<'i, I> IntoIterator for &'i mut Registry<I> {
    type IntoIter = std::slice::IterMut<'i, Entry<I>>;

    type Item = &'i mut Entry<I>;

    /// The entries in the order of insertion, each for changing its item.
    /// A registry whose entries all keep their identifiers and keys stays
    /// well formed.
    fn into_iter(self) -> (it: std::slice::IterMut<'i, Entry<I>>)
        ensures
            final(self)@.len() == old(self)@.len(),
            old(self).wf() && (forall|i: int|
                0 <= i < old(self)@.len() ==> (#[trigger] final(self)@[i]).same_identity(&old(self)@[i]))
                ==> final(self).wf(),
    {
        self.iter_mut()
    }
}

} // verus!
