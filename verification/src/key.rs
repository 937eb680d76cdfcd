//! The two keys under which a registry entry can be addressed.

use crate::hash::{hash_ident, stable_hash};
use std::marker::PhantomData;
use vstd::prelude::*;

verus! {

/// A slot index in one registry instance.
///
/// Its value follows from the order of insertion, so it is meaningful only
/// against the registry that handed it out, within one run. Lookup by it is
/// a plain array access. The type parameter keeps keys of registries with
/// different item types apart.
pub struct LocalKey<I> {
    pub(crate) index: u16,
    pub(crate) marker: PhantomData<I>,
}

impl<I> View for LocalKey<I> {
    type V = u16;

    /// The slot index.
    closed spec fn view(&self) -> u16 {
        self.index
    }
}

impl<I> Copy for LocalKey<I> {}

impl<I> Clone for LocalKey<I> {
    fn clone(&self) -> (copy: Self)
        ensures
            copy@ == self@,
    {
        LocalKey { index: self.index, marker: PhantomData }
    }
}

impl<I> PartialEq for LocalKey<I> {
    fn eq(&self, other: &Self) -> (same: bool) {
        self.index == other.index
    }
}

impl<I> vstd::std_specs::cmp::PartialEqSpecImpl for LocalKey<I> {
    open spec fn obeys_eq_spec() -> bool {
        true
    }

    open spec fn eq_spec(&self, other: &Self) -> bool {
        self@ == other@
    }
}

impl<I> Eq for LocalKey<I> {}

impl<I> LocalKey<I> {
    /// The key of slot `index`.
    pub(crate) fn at(index: u16) -> (key: Self)
        ensures
            key@ == index,
    {
        LocalKey { index, marker: PhantomData }
    }

    /// The slot index.
    pub fn index(&self) -> (index: u16)
        ensures
            index == self@,
    {
        self.index
    }
}

/// The stable 64-bit hash of an entry's identifier.
///
/// It is the same in every process, build and platform, so it is the form
/// in which a reference to an entry is stored or sent. Lookup by it descends
/// a binary tree. The type parameter keeps keys of registries with different
/// item types apart.
pub struct GlobalKey<I> {
    pub(crate) hash: u64,
    pub(crate) marker: PhantomData<I>,
}

impl<I> View for GlobalKey<I> {
    type V = u64;

    /// The hash.
    closed spec fn view(&self) -> u64 {
        self.hash
    }
}

impl<I> Copy for GlobalKey<I> {}

impl<I> Clone for GlobalKey<I> {
    fn clone(&self) -> (copy: Self)
        ensures
            copy@ == self@,
    {
        GlobalKey { hash: self.hash, marker: PhantomData }
    }
}

impl<I> PartialEq for GlobalKey<I> {
    fn eq(&self, other: &Self) -> (same: bool) {
        self.hash == other.hash
    }
}

impl<I> vstd::std_specs::cmp::PartialEqSpecImpl for GlobalKey<I> {
    open spec fn obeys_eq_spec() -> bool {
        true
    }

    open spec fn eq_spec(&self, other: &Self) -> bool {
        self@ == other@
    }
}

impl<I> Eq for GlobalKey<I> {}

impl<I> std::hash::Hash for GlobalKey<I> {
    /// `Hasher::write_u64` on the hash: a key feeds a hasher its 64-bit
    /// value and nothing else.
    #[verifier::external_body]
    fn hash<H: std::hash::Hasher>(&self, state: &mut H) {
        state.write_u64(self.hash)
    }
}

/// A value as it is found in stored data where a global key is expected:
/// an unsigned integer of any width, or a text.
pub enum WireValue {
    U8(u8),
    U16(u16),
    U32(u32),
    U64(u64),
    Text(String),
}

/// The hash that a stored value stands for: an integer is the hash itself,
/// widened to 64 bits; a text is an identifier, and is hashed.
pub open spec fn decoded(value: WireValue) -> u64 {
    match value {
        WireValue::U8(v) => v as u64,
        WireValue::U16(v) => v as u64,
        WireValue::U32(v) => v as u64,
        WireValue::U64(v) => v,
        WireValue::Text(s) => stable_hash(s@),
    }
}

impl<I> GlobalKey<I> {
    /// The key of the entry with identifier `ident`.
    pub fn new(ident: &str) -> (key: Self)
        ensures
            key@ == stable_hash(ident@),
    {
        GlobalKey { hash: hash_ident(ident), marker: PhantomData }
    }

    /// The key with the given hash.
    pub fn from_hash(hash: u64) -> (key: Self)
        ensures
            key@ == hash,
    {
        GlobalKey { hash, marker: PhantomData }
    }

    /// The hash.
    pub fn hash_value(&self) -> (hash: u64)
        ensures
            hash == self@,
    {
        self.hash
    }

    /// The stored form of the key: its hash as one unsigned 64-bit integer.
    pub fn serialize(&self) -> (raw: u64)
        ensures
            raw == self@,
    {
        self.hash
    }

    /// Reads a key from its stored form, or from an identifier written in
    /// its place.
    pub fn deserialize(value: &WireValue) -> (key: Self)
        ensures
            key@ == decoded(*value),
    {
        let hash = match value {
            WireValue::U8(v) => *v as u64,
            WireValue::U16(v) => *v as u64,
            WireValue::U32(v) => *v as u64,
            WireValue::U64(v) => *v,
            WireValue::Text(s) => hash_ident(s.as_str()),
        };
        GlobalKey { hash, marker: PhantomData }
    }
}

/// A key survives being written and read back: the stored integer decodes
/// to the hash it was written from.
pub proof fn lemma_stored_key_round_trip<I>(key: GlobalKey<I>)
    ensures
        decoded(WireValue::U64(key@)) == key@,
{
}

/// An identifier written in a key's place decodes to the key of that
/// identifier.
pub proof fn lemma_identifier_decodes_to_its_key(text: String)
    ensures
        decoded(WireValue::Text(text)) == stable_hash(text@),
{
}

} // verus!
