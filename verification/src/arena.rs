//! What the library has from the arena allocator `bumpalo`: the arena in
//! which the nodes of the intermediate representation are allocated, and the
//! arena vectors that hold the helpers to generate and the generated ones.
//! Verus does not look into that crate, so what is stated here of its
//! functions is believed, not proved.
use crate::ir::Proc;
use crate::layout::Layout;
use crate::refcount::RefcountOp;
use crate::symbol::Symbol;
use vstd::prelude::*;

verus! {

/// `bumpalo::Bump`, the arena. Nothing is said of what it holds.
#[verifier::external_type_specification]
#[verifier::external_body]
pub struct ExBump<const MIN_ALIGN: usize>(bumpalo::Bump<MIN_ALIGN>);

/// `Bump::alloc`: moves the value into the arena and hands back a reference
/// to it that lives as long as the arena. The value behind the reference is
/// the one that was given. (Like every allocation, the call does not return
/// when memory cannot be had.)
#[verifier::external_body]
pub(crate) fn arena_alloc<'a, T>(arena: &'a bumpalo::Bump, value: T) -> (place: &'a T)
    ensures
        *place == value,
{
    arena.alloc(value)
}

/// A helper that is to be generated: for which layout, for which
/// operation, and under which name.
pub type Pending<'a> = (Layout<'a>, RefcountOp, Symbol);

/// A `bumpalo::collections::Vec` of the helpers to generate.
#[verifier::external_body]
pub struct PendingProcs<'a> {
    items: bumpalo::collections::Vec<'a, Pending<'a>>,
}

/// The items of the vector, first to last.
pub uninterp spec fn pending_items(list: PendingProcs<'_>) -> Seq<Pending<'_>>;

impl<'a> PendingProcs<'a> {
    /// `Vec::with_capacity_in`: a vector in the arena, with room for
    /// `capacity` items and with no item in it. The call panics where the
    /// bytes of so many items cannot be counted; the bound on `capacity`
    /// stays far from that.
    #[verifier::external_body]
    pub(crate) fn with_capacity_in(capacity: usize, arena: &'a bumpalo::Bump) -> (list: Self)
        requires
            capacity <= 0x1_0000,
        ensures
            pending_items(list) == Seq::<Pending<'a>>::empty(),
    {
        PendingProcs { items: bumpalo::collections::Vec::with_capacity_in(capacity, arena) }
    }

    /// `Vec::len`: the number of items.
    #[verifier::external_body]
    pub(crate) fn len(&self) -> (n: usize)
        ensures
            n == pending_items(*self).len(),
    {
        self.items.len()
    }

    /// Indexing, which the vector has from the slice it dereferences to:
    /// the item at a position that is in range.
    #[verifier::external_body]
    pub(crate) fn get(&self, index: usize) -> (item: Pending<'a>)
        requires
            index < pending_items(*self).len(),
        ensures
            item == pending_items(*self)[index as int],
    {
        self.items[index]
    }

    /// `Vec::push`: the item is added behind the others. (The call
    /// panics when the number of items would overflow `usize`; memory
    /// runs out long before, for items of this size.)
    #[verifier::external_body]
    pub(crate) fn push(&mut self, item: Pending<'a>)
        ensures
            pending_items(*final(self)) == pending_items(*old(self)).push(item),
    {
        self.items.push(item)
    }

    /// `Vec::clear`: all items are removed.
    #[verifier::external_body]
    pub(crate) fn clear(&mut self)
        ensures
            pending_items(*final(self)) == Seq::<Pending<'a>>::empty(),
    {
        self.items.clear()
    }
}

/// A `bumpalo::collections::Vec` of generated procedures.
#[verifier::external_body]
pub struct ProcList<'a> {
    items: bumpalo::collections::Vec<'a, Proc<'a>>,
}

/// The procedures of the vector, first to last.
pub uninterp spec fn proc_items(list: ProcList<'_>) -> Seq<Proc<'_>>;

impl<'a> ProcList<'a> {
    /// `Vec::from_iter_in`, on the items of a standard vector: a vector in
    /// the arena that holds the same items in the same order.
    #[verifier::external_body]
    pub(crate) fn from_vec_in(procs: Vec<Proc<'a>>, arena: &'a bumpalo::Bump) -> (list: Self)
        ensures
            proc_items(list) == procs@,
    {
        ProcList { items: bumpalo::collections::Vec::from_iter_in(procs, arena) }
    }

    /// `Vec::len`: the number of procedures.
    #[verifier::external_body]
    pub(crate) fn vec_len(&self) -> (n: usize)
        ensures
            n == proc_items(*self).len(),
    {
        self.items.len()
    }

    /// Indexing, which the vector has from the slice it dereferences to:
    /// the procedure at a position that is in range.
    #[verifier::external_body]
    pub(crate) fn vec_get(&self, index: usize) -> (item: Proc<'a>)
        requires
            index < proc_items(*self).len(),
        ensures
            item == proc_items(*self)[index as int],
    {
        self.items[index]
    }
}

} // verus!
