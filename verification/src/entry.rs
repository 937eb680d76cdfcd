//! An item of a registry together with the names it goes by.

use crate::key::{GlobalKey, LocalKey};
use vstd::prelude::*;

verus! {

/// An item in a registry, with its identifier and its two keys.
///
/// The identifier and the keys are fixed when the entry is made; only the
/// item can be changed afterwards.
pub struct Entry<I> {
    pub(crate) ident: String,
    pub(crate) local: LocalKey<I>,
    pub(crate) global: GlobalKey<I>,
    pub item: I,
}

impl<I> Entry<I> {
    /// The identifier.
    pub closed spec fn spec_ident(&self) -> Seq<char> {
        self.ident@
    }

    /// The slot index of the entry in its registry.
    pub closed spec fn spec_local(&self) -> u16 {
        self.local@
    }

    /// The hash under which the entry is found.
    pub closed spec fn spec_global(&self) -> u64 {
        self.global@
    }

    /// The item.
    pub closed spec fn spec_item(&self) -> I {
        self.item
    }

    /// Two entries are the same but for their items.
    pub open spec fn same_identity(&self, other: &Self) -> bool {
        &&& self.spec_ident() == other.spec_ident()
        &&& self.spec_local() == other.spec_local()
        &&& self.spec_global() == other.spec_global()
    }

    /// An entry with the given identifier, keys and item.
    pub(crate) fn new(ident: String, local: LocalKey<I>, global: GlobalKey<I>, item: I) -> (e: Self)
        ensures
            e.spec_ident() == ident@,
            e.spec_local() == local@,
            e.spec_global() == global@,
            e.spec_item() == item,
    {
        Entry { ident, local, global, item }
    }

    /// The identifier.
    pub fn ident(&self) -> (ident: &str)
        ensures
            ident@ == self.spec_ident(),
    {
        self.ident.as_str()
    }

    /// The slot index of the entry in its registry.
    pub fn local_key(&self) -> (key: LocalKey<I>)
        ensures
            key@ == self.spec_local(),
    {
        self.local
    }

    /// The hash under which the entry is found.
    pub fn global_key(&self) -> (key: GlobalKey<I>)
        ensures
            key@ == self.spec_global(),
    {
        self.global
    }

    /// Replaces the item. The identifier and the keys stay.
    pub fn set_item(&mut self, item: I)
        ensures
            final(self).spec_item() == item,
            final(self).same_identity(old(self)),
    {
        self.item = item;
    }
}

impl<I> std::ops::Deref for Entry<I> {
    type Target = I;

    fn deref(&self) -> (item: &I)
        ensures
            *item == self.spec_item(),
    {
        &self.item
    }
}

impl<I> std::ops::DerefMut for Entry<I> {
    fn deref_mut(&mut self) -> (item: &mut I)
        ensures
            *item == old(self).spec_item(),
            final(self).spec_item() == *final(item),
            final(self).same_identity(old(self)),
    {
        &mut self.item
    }
}

} // verus!
