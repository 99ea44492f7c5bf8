//! The arena that hands out the identifiers of annotated items.
use crate::rustdoc::GlobalItemId;
use vstd::prelude::*;

verus! {

/// An id pointing at the coordinates of an annotated component.
pub type AnnotatedItemId = la_arena::Idx<GlobalItemId>;

/// Declares `la_arena::Idx`, the index of a value in an arena.
#[verifier::external_type_specification]
#[verifier::external_body]
#[verifier::reject_recursive_types(T)]
pub struct ExIdx<T>(la_arena::Idx<T>);

/// Declares `la_arena::Arena`, a list of values that only grows.
#[verifier::external_type_specification]
#[verifier::external_body]
#[verifier::reject_recursive_types(T)]
pub struct ExArena<T>(la_arena::Arena<T>);

/// The values of an arena, in the order in which they were allocated: of each the number of the
/// item and its package.
pub uninterp spec fn arena_values(arena: la_arena::Arena<GlobalItemId>) -> Seq<(u32, Seq<char>)>;

/// The number that an index holds.
pub uninterp spec fn raw_index(idx: la_arena::Idx<GlobalItemId>) -> u32;

/// Calls `la_arena::Arena::new`, which makes an arena without values.
#[verifier::external_body]
pub(crate) fn new_arena() -> (res: la_arena::Arena<GlobalItemId>)
    ensures
        arena_values(res) == Seq::<(u32, Seq<char>)>::empty(),
{
    la_arena::Arena::new()
}

/// Calls `la_arena::Arena::len`, which counts the values of the arena.
#[verifier::external_body]
pub(crate) fn arena_len(arena: &la_arena::Arena<GlobalItemId>) -> (res: usize)
    ensures
        res == arena_values(*arena).len(),
{
    arena.len()
}

/// Calls `la_arena::Arena::alloc`, which adds a value behind the others and returns an index that
/// holds the number of values before it. Such an index has 32 bits.
#[verifier::external_body]
pub(crate) fn arena_alloc(
    arena: &mut la_arena::Arena<GlobalItemId>,
    value: GlobalItemId,
) -> (res: la_arena::Idx<GlobalItemId>)
    requires
        arena_values(*old(arena)).len() <= u32::MAX,
    ensures
        arena_values(*final(arena)) == arena_values(*old(arena)).push(value@),
        raw_index(res) == arena_values(*old(arena)).len(),
{
    arena.alloc(value)
}

/// Indexes a `la_arena::Arena`, which gives the value at the number that the index holds.
#[verifier::external_body]
pub(crate) fn arena_get(
    arena: &la_arena::Arena<GlobalItemId>,
    idx: la_arena::Idx<GlobalItemId>,
) -> (res: &GlobalItemId)
    requires
        raw_index(idx) < arena_values(*arena).len(),
    ensures
        res@ == arena_values(*arena)[raw_index(idx) as int],
{
    &arena[idx]
}

/// Calls `la_arena::Idx::from_raw`, which makes an index that holds the number `raw`.
#[verifier::external_body]
pub(crate) fn idx_from_u32(raw: u32) -> (res: la_arena::Idx<GlobalItemId>)
    ensures
        raw_index(res) == raw,
{
    la_arena::Idx::from_raw(la_arena::RawIdx::from_u32(raw))
}

/// Calls `la_arena::Idx::into_raw`, which gives the number that the index holds.
#[verifier::external_body]
pub(crate) fn idx_into_u32(idx: la_arena::Idx<GlobalItemId>) -> (res: u32)
    ensures
        res == raw_index(idx),
{
    idx.into_raw().into_u32()
}

} // verus!
