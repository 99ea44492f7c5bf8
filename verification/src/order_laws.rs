//! Which items are processed and in which order, by the numbers of the items.
use crate::queue::{is_greatest, QueueItem, SortableId};
use crate::rustdoc::{lies_in, Crate, CrateCollection, Id, ImportIndexEntry, ItemEnum, PackageId};
use crate::text::views;
use crate::traversal::{
    impls_of, is_complete, is_reachable, items_of, law_each_item_is_processed_once, law_processing_order, may_follow,
    traversal,
};
use std::cmp::Ordering;
use vstd::prelude::*;
use vstd::std_specs::cmp::PartialOrdSpec;

verus! {

/// Items are ordered by the numbers of the type, of the `impl` block and of the item, in this order,
/// where what has no such number comes first.
pub proof fn law_items_are_ordered_by_their_numbers(a: QueueItem, b: QueueItem)
    ensures
        ({
            let (a0, a1, a2): (int, int, int) = match a {
                QueueItem::Standalone(id) => (id.0 as int, -1, -1),
                QueueItem::Impl { self_, id } => (self_.0 as int, id.0 as int, -1),
                QueueItem::ImplItem { self_, impl_, id } => (
                    self_.0 as int,
                    impl_.0 as int,
                    id.0 as int,
                ),
            };
            let (b0, b1, b2): (int, int, int) = match b {
                QueueItem::Standalone(id) => (id.0 as int, -1, -1),
                QueueItem::Impl { self_, id } => (self_.0 as int, id.0 as int, -1),
                QueueItem::ImplItem { self_, impl_, id } => (
                    self_.0 as int,
                    impl_.0 as int,
                    id.0 as int,
                ),
            };
            a.precedes(b) <==> a0 < b0 || (a0 == b0 && (a1 < b1 || (a1 == b1 && a2 < b2)))
        }),
{
}

/// The sortable form of an item lists its numbers, outermost first.
pub proof fn law_sortable_form_lists_the_numbers(x: Id, y: Id, z: Id)
    ensures
        QueueItem::Standalone(x).sortable() == (SortableId(x), None::<SortableId>, None::<SortableId>),
        (QueueItem::Impl { self_: x, id: y }).sortable() == (
            SortableId(x),
            Some(SortableId(y)),
            None::<SortableId>,
        ),
        (QueueItem::ImplItem { self_: x, impl_: y, id: z }).sortable() == (
            SortableId(x),
            Some(SortableId(y)),
            Some(SortableId(z)),
        ),
{
}

/// The identifier of an item is the innermost of its numbers.
pub proof fn law_own_identifier_is_the_innermost(x: Id, y: Id, z: Id)
    ensures
        QueueItem::Standalone(x).own_id() == x,
        (QueueItem::Impl { self_: x, id: y }).own_id() == y,
        (QueueItem::ImplItem { self_: x, impl_: y, id: z }).own_id() == z,
{
}

/// Comparing goes by the order: the lesser comes before the greater, and only an item is equal to
/// itself.
pub proof fn law_comparing_goes_by_the_order(a: QueueItem, b: QueueItem, x: SortableId, y: SortableId)
    ensures
        a.partial_cmp_spec(&b) == Some(Ordering::Less) <==> a.precedes(b),
        a.partial_cmp_spec(&b) == Some(Ordering::Greater) <==> b.precedes(a),
        a.partial_cmp_spec(&b) == Some(Ordering::Equal) <==> a == b,
        x.partial_cmp_spec(&y) == Some(Ordering::Less) <==> x.0.0 < y.0.0,
        x.partial_cmp_spec(&y) == Some(Ordering::Greater) <==> x.0.0 > y.0.0,
        x.partial_cmp_spec(&y) == Some(Ordering::Equal) <==> x.0.0 == y.0.0,
{
}

/// The greatest item of a set is one of its items, and all others come before it.
pub proof fn law_greatest_item(s: Set<QueueItem>, m: QueueItem)
    ensures
        is_greatest(s, m) <==> {
            &&& s.contains(m)
            &&& forall|x: QueueItem| #[trigger] s.contains(x) ==> x == m || x.precedes(m)
            &&& forall|x: QueueItem| #[trigger] s.contains(x) ==> !m.precedes(x)
        },
{
}

/// What is processed for a module, in the terms of the documentation: the items that are public and
/// have a path that starts with that of the module; of these that are structs or enums, the `impl`
/// blocks; and the items of these blocks.
#[verifier::rlimit(40)]
pub proof fn law_what_is_processed(
    krate: &Crate,
    module: Seq<String>,
    q: QueueItem,
    root: Id,
    entry: ImportIndexEntry,
)
    requires
        root == match q {
            QueueItem::Standalone(id) => id,
            QueueItem::Impl { self_, .. } => self_,
            QueueItem::ImplItem { self_, .. } => self_,
        },
        entry == krate.import_index@[root.0],
    ensures
        traversal(krate, module).contains(q) <==> {
            &&& krate.import_index@.contains_key(root.0)
            &&& entry.is_public
            &&& exists|p: int|
                {
                    &&& 0 <= p < entry.paths@.len()
                    &&& (#[trigger] entry.paths@[p])@.len() >= module.len()
                    &&& forall|j: int|
                        0 <= j < module.len() ==> #[trigger] entry.paths@[p]@[j]@ == module[j]@
                }
            &&& match q {
                QueueItem::Standalone(_) => true,
                QueueItem::Impl { id, .. } => match krate.items@[root.0].inner {
                    ItemEnum::Struct { impls } => impls@.contains(id),
                    ItemEnum::Enum { impls } => impls@.contains(id),
                    _ => false,
                },
                QueueItem::ImplItem { impl_, id, .. } => {
                    &&& match krate.items@[root.0].inner {
                        ItemEnum::Struct { impls } => impls@.contains(impl_),
                        ItemEnum::Enum { impls } => impls@.contains(impl_),
                        _ => false,
                    }
                    &&& match krate.items@[impl_.0].inner {
                        ItemEnum::Impl(block) => block.items@.contains(id),
                        _ => false,
                    }
                },
            }
        },
{
    law_each_item_is_processed_once(krate, module);
    assert forall|p: int| 0 <= p < entry.paths@.len() implies (lies_in(
        (#[trigger] entry.paths@[p])@,
        module,
    ) <==> entry.paths@[p]@.len() >= module.len() && forall|j: int|
        0 <= j < module.len() ==> #[trigger] entry.paths@[p]@[j]@ == module[j]@) by {
        let path = entry.paths@[p]@;
        assert(views(path).len() == path.len());
        assert(views(module).len() == module.len());
        if lies_in(path, module) {
            assert forall|j: int| 0 <= j < module.len() implies #[trigger] path[j]@ == module[j]@ by {
                assert(views(module)[j] == views(path)[j]);
            }
        }
        if path.len() >= module.len() && forall|j: int|
            0 <= j < module.len() ==> #[trigger] path[j]@ == module[j]@ {
            assert(views(module) =~= views(path).subrange(0, module.len() as int));
        }
    }
    if entry.is_exported_from(module) {
        let p = choose|p: int|
            0 <= p < entry.paths@.len() && lies_in(
                (#[trigger] entry.paths@[p])@,
                module,
            );
        assert(entry.paths@[p]@.len() >= module.len());
    } else if entry.is_public {
        assert forall|p: int| 0 <= p < entry.paths@.len() implies !{
            &&& (#[trigger] entry.paths@[p])@.len() >= module.len()
            &&& forall|j: int|
                0 <= j < module.len() ==> #[trigger] entry.paths@[p]@[j]@ == module[j]@
        } by {
            assert(!lies_in(entry.paths@[p]@, module));
        }
    }
    assert(entry.is_exported_from(module) <==> entry.is_public && exists|p: int|
        {
            &&& 0 <= p < entry.paths@.len()
            &&& (#[trigger] entry.paths@[p])@.len() >= module.len()
            &&& forall|j: int|
                0 <= j < module.len() ==> #[trigger] entry.paths@[p]@[j]@ == module[j]@
        });
    assert(traversal(krate, module).contains(q) <==> is_reachable(krate, module, q));
    match q {
        QueueItem::Standalone(id) => {
            assert(is_reachable(krate, module, q) <==> krate.import_index@.contains_key(root.0)
                && entry.is_exported_from(module));
        },
        QueueItem::Impl { id, .. } => {
            assert(is_reachable(krate, module, q) <==> krate.import_index@.contains_key(root.0)
                && entry.is_exported_from(module) && impls_of(krate.items@[root.0].inner).contains(
                id,
            ));
        },
        QueueItem::ImplItem { impl_, id, .. } => {
            assert(is_reachable(krate, module, q) <==> krate.import_index@.contains_key(root.0)
                && entry.is_exported_from(module) && impls_of(krate.items@[root.0].inner).contains(
                impl_,
            ) && items_of(krate.items@[impl_.0].inner).contains(id));
        },
    }
}

/// What comes when, by the numbers of the items: what brings an item in comes before it, and of two
/// items of which neither brings the other in the one with the greater numbers comes first. No item
/// comes twice.
pub proof fn law_when_items_are_processed(krate: &Crate, module: Seq<String>, i: int, j: int)
    requires
        0 <= i < j < traversal(krate, module).len(),
    ensures
        ({
            let a = traversal(krate, module)[i];
            let b = traversal(krate, module)[j];
            let (a0, a1, a2): (int, int, int) = match a {
                QueueItem::Standalone(id) => (id.0 as int, -1, -1),
                QueueItem::Impl { self_, id } => (self_.0 as int, id.0 as int, -1),
                QueueItem::ImplItem { self_, impl_, id } => (
                    self_.0 as int,
                    impl_.0 as int,
                    id.0 as int,
                ),
            };
            let (b0, b1, b2): (int, int, int) = match b {
                QueueItem::Standalone(id) => (id.0 as int, -1, -1),
                QueueItem::Impl { self_, id } => (self_.0 as int, id.0 as int, -1),
                QueueItem::ImplItem { self_, impl_, id } => (
                    self_.0 as int,
                    impl_.0 as int,
                    id.0 as int,
                ),
            };
            &&& a != b
            &&& if a0 != b0 {
                a0 > b0
            } else if a1 == -1 {
                b1 != -1
            } else if b1 == -1 {
                false
            } else if a1 != b1 {
                a1 > b1
            } else if a2 == -1 {
                b2 != -1
            } else {
                b2 != -1 && a2 > b2
            }
        }),
{
    law_processing_order(krate, module);
    law_each_item_is_processed_once(krate, module);
    assert(may_follow(traversal(krate, module)[i], traversal(krate, module)[j]));
}

/// All that is processed has to be there, and nothing else: the documentation is complete where it
/// holds each of the items.
pub proof fn law_completeness_asks_for_the_items(krate: &Crate, module: Seq<String>)
    ensures
        is_complete(krate, module) <==> forall|q: QueueItem| #[trigger]
            traversal(krate, module).contains(q) ==> match q {
                QueueItem::Standalone(id) => krate.items@.contains_key(id.0),
                QueueItem::Impl { id, .. } => krate.items@.contains_key(id.0),
                QueueItem::ImplItem { id, .. } => krate.items@.contains_key(id.0),
            },
{
    law_each_item_is_processed_once(krate, module);
    if is_complete(krate, module) {
        assert forall|q: QueueItem| #[trigger] traversal(krate, module).contains(q) implies match q {
            QueueItem::Standalone(id) => krate.items@.contains_key(id.0),
            QueueItem::Impl { id, .. } => krate.items@.contains_key(id.0),
            QueueItem::ImplItem { id, .. } => krate.items@.contains_key(id.0),
        } by {
            assert(is_reachable(krate, module, q));
        }
    }
    if forall|q: QueueItem| #[trigger]
        traversal(krate, module).contains(q) ==> match q {
            QueueItem::Standalone(id) => krate.items@.contains_key(id.0),
            QueueItem::Impl { id, .. } => krate.items@.contains_key(id.0),
            QueueItem::ImplItem { id, .. } => krate.items@.contains_key(id.0),
        } {
        assert forall|q: QueueItem| #[trigger] is_reachable(krate, module, q) implies krate.has_item(
            q.own_id(),
        ) by {
            assert(traversal(krate, module).contains(q));
        }
    }
}

/// Items and paths are looked up under their number.
pub proof fn law_lookups_go_by_number(krate: &Crate, id: Id)
    ensures
        krate.has_item(id) <==> krate.items@.contains_key(id.0),
        krate.item(id) == krate.items@[id.0],
        krate.has_entry(id) <==> krate.import_index@.contains_key(id.0),
        krate.entry(id) == krate.import_index@[id.0],
{
}

/// The documentation of a package is the first one that is of that package; there is none where
/// none of them is.
pub proof fn law_crates_are_found_by_package(crates: CrateCollection, package_id: PackageId, i: int)
    ensures
        0 <= i < crates.crates@.len() && crates.crates@[i].package_id.0@ == package_id.0@ && (
        forall|j: int|
            0 <= j < i ==> (#[trigger] crates.crates@[j]).package_id.0@ != package_id.0@)
            ==> crates.crate_of(package_id) == Some(crates.crates@[i]),
        (forall|j: int|
            0 <= j < crates.crates@.len() ==> (#[trigger] crates.crates@[j]).package_id.0@
                != package_id.0@) <==> crates.crate_of(package_id) is None,
{
    lemma_position_from(crates, package_id, 0);
}

proof fn lemma_position_from(crates: CrateCollection, package_id: PackageId, from: int)
    requires
        0 <= from <= crates.crates@.len(),
    ensures
        match crates.position_from(package_id, from) {
            Some(i) => {
                &&& from <= i < crates.crates@.len()
                &&& crates.crates@[i].package_id.0@ == package_id.0@
                &&& forall|j: int|
                    from <= j < i ==> (#[trigger] crates.crates@[j]).package_id.0@ != package_id.0@
            },
            None => forall|j: int|
                from <= j < crates.crates@.len() ==> (#[trigger] crates.crates@[j]).package_id.0@
                    != package_id.0@,
        },
    decreases crates.crates@.len() - from,
{
    if from < crates.crates@.len() {
        lemma_position_from(crates, package_id, from + 1);
    }
}

} // verus!
