//! Which items of a crate are processed for a module, and in which order.
use crate::queue::{is_greatest, Queue, QueueItem};
use crate::rustdoc::{Crate, Id, ImportIndexEntry, ItemEnum};
use crate::text::views;
use vstd::prelude::*;

verus! {

/// The `impl` blocks of a struct or an enum; nothing for any other item.
pub open spec fn impls_of(inner: ItemEnum) -> Seq<Id> {
    match inner {
        ItemEnum::Struct { impls } => impls@,
        ItemEnum::Enum { impls } => impls@,
        _ => seq![],
    }
}

/// The items of an `impl` block; nothing for any other item.
pub open spec fn items_of(inner: ItemEnum) -> Seq<Id> {
    match inner {
        ItemEnum::Impl(block) => block.items@,
        _ => seq![],
    }
}

/// What the type `self_` brings into the queue for the identifier `id`: one of its `impl` blocks,
/// or an item of its `impl` block `impl_`.
pub open spec fn child(self_: Id, impl_: Option<Id>, id: Id) -> QueueItem {
    match impl_ {
        Some(impl_) => QueueItem::ImplItem { self_, impl_, id },
        None => QueueItem::Impl { self_, id },
    }
}

/// What `q` brings into the queue: a struct or an enum its `impl` blocks, an `impl` block its
/// items.
pub open spec fn children(krate: &Crate, q: QueueItem) -> Set<QueueItem> {
    let inner = krate.item(q.own_id()).inner;
    match q {
        QueueItem::Standalone(self_) => impls_of(inner).map_values(
            |id: Id| child(self_, None, id),
        ).to_set(),
        QueueItem::Impl { self_, id: impl_ } => items_of(inner).map_values(
            |id: Id| child(self_, Some(impl_), id),
        ).to_set(),
        QueueItem::ImplItem { .. } => Set::empty(),
    }
}

/// The public items that can be found in the module `module`.
pub open spec fn roots(krate: &Crate, module: Seq<String>) -> Set<QueueItem> {
    krate.import_index@.dom().filter(
        |id: u32| krate.entry(Id(id)).is_exported_from(module),
    ).map(|id: u32| QueueItem::Standalone(Id(id)))
}

/// The items of `s`, the greatest first.
pub open spec fn greatest_first(s: Set<QueueItem>) -> Seq<QueueItem>
    decreases s.len(),
    when s.finite()
    via greatest_first_decreases
{
    if s.is_empty() {
        seq![]
    } else {
        let m = choose|m: QueueItem| is_greatest(s, m);
        seq![m] + greatest_first(s.remove(m))
    }
}

#[via_fn]
proof fn greatest_first_decreases(s: Set<QueueItem>) {
    if !s.is_empty() {
        lemma_greatest_exists(s);
    }
}

/// A finite set that is not empty has a greatest item, and only one.
proof fn lemma_greatest_exists(s: Set<QueueItem>)
    requires
        s.finite(),
        !s.is_empty(),
    ensures
        exists|m: QueueItem| is_greatest(s, m),
        forall|a: QueueItem, b: QueueItem| is_greatest(s, a) && is_greatest(s, b) ==> a == b,
    decreases s.len(),
{
    let x = s.choose();
    assert(s.contains(x));
    let rest = s.remove(x);
    if rest.is_empty() {
        assert forall|y: QueueItem| #[trigger] s.contains(y) implies y == x by {
            if y != x {
                assert(rest.contains(y));
            }
        }
        assert(is_greatest(s, x));
    } else {
        lemma_greatest_exists(rest);
        let m = choose|m: QueueItem| is_greatest(rest, m);
        let top = if x.precedes(m) { m } else { x };
        assert forall|y: QueueItem| #[trigger] s.contains(y) && y != top implies y.precedes(top) by {
            if y != x {
                assert(rest.contains(y));
            }
        }
        assert(is_greatest(s, top));
    }
}

/// The visits to an `impl` block and then to its items.
pub open spec fn visit_impl(krate: &Crate, q: QueueItem) -> Seq<QueueItem> {
    seq![q] + greatest_first(children(krate, q))
}

/// The visits to each of the `impl` blocks `blocks`.
pub open spec fn visit_impls(krate: &Crate, blocks: Seq<QueueItem>) -> Seq<QueueItem>
    decreases blocks.len(),
{
    if blocks.len() == 0 {
        seq![]
    } else {
        visit_impl(krate, blocks[0]) + visit_impls(krate, blocks.drop_first())
    }
}

/// The visits to `q` and then to all that it brings into the queue.
pub open spec fn visit(krate: &Crate, q: QueueItem) -> Seq<QueueItem> {
    match q {
        QueueItem::Standalone(_) => seq![q] + visit_impls(
            krate,
            greatest_first(children(krate, q)),
        ),
        QueueItem::Impl { .. } => visit_impl(krate, q),
        QueueItem::ImplItem { .. } => seq![q],
    }
}

/// The visits to each of `items` and to all that they bring into the queue.
pub open spec fn visit_all(krate: &Crate, items: Seq<QueueItem>) -> Seq<QueueItem>
    decreases items.len(),
{
    if items.len() == 0 {
        seq![]
    } else {
        visit(krate, items[0]) + visit_all(krate, items.drop_first())
    }
}

/// The order in which the items of `module` are processed: the greatest public item first,
/// each item before its `impl` blocks, each `impl` block before its items.
pub open spec fn traversal(krate: &Crate, module: Seq<String>) -> Seq<QueueItem> {
    visit_all(krate, greatest_first(roots(krate, module)))
}

/// Whether `q` is among the items to process for `module`.
pub open spec fn is_reachable(krate: &Crate, module: Seq<String>, q: QueueItem) -> bool {
    match q {
        QueueItem::Standalone(id) => krate.has_entry(id) && krate.entry(id).is_exported_from(
            module,
        ),
        QueueItem::Impl { self_, id } => {
            &&& is_reachable_root(krate, module, self_)
            &&& impls_of(krate.item(self_).inner).contains(id)
        },
        QueueItem::ImplItem { self_, impl_, id } => {
            &&& is_reachable_root(krate, module, self_)
            &&& impls_of(krate.item(self_).inner).contains(impl_)
            &&& items_of(krate.item(impl_).inner).contains(id)
        },
    }
}

/// Whether the item `id` is public and can be found in `module`.
pub open spec fn is_reachable_root(krate: &Crate, module: Seq<String>, id: Id) -> bool {
    krate.has_entry(id) && krate.entry(id).is_exported_from(module)
}

/// Whether the documentation holds every item that is processed for `module`.
pub open spec fn is_complete(krate: &Crate, module: Seq<String>) -> bool {
    forall|q: QueueItem| #[trigger]
        is_reachable(krate, module, q) ==> krate.has_item(q.own_id())
}

proof fn lemma_children(krate: &Crate, q: QueueItem)
    ensures
        children(krate, q).finite(),
        forall|c: QueueItem| #[trigger]
            children(krate, q).contains(c) <==> match (q, c) {
                (QueueItem::Standalone(s), QueueItem::Impl { self_, id }) => self_ == s
                    && impls_of(krate.item(s).inner).contains(id),
                (
                    QueueItem::Impl { self_: s, id: i },
                    QueueItem::ImplItem { self_, impl_, id },
                ) => self_ == s && impl_ == i && items_of(krate.item(i).inner).contains(id),
                _ => false,
            },
{
    broadcast use vstd::seq_lib::seq_to_set_is_finite;

    let inner = krate.item(q.own_id()).inner;
    match q {
        QueueItem::Standalone(s) => {
            let f = |id: Id| child(s, None, id);
            let ids = impls_of(inner);
            assert forall|c: QueueItem| #[trigger]
                children(krate, q).contains(c) <==> (c matches QueueItem::Impl { self_, id }
                    && self_ == s && ids.contains(id)) by {
                if let QueueItem::Impl { self_, id } = c {
                    if self_ == s && ids.contains(id) {
                        let k = choose|k: int| 0 <= k < ids.len() && ids[k] == id;
                        assert(ids.map_values(f)[k] == c);
                    }
                }
            }
        },
        QueueItem::Impl { self_: s, id: i } => {
            let f = |id: Id| child(s, Some(i), id);
            let ids = items_of(inner);
            assert forall|c: QueueItem| #[trigger]
                children(krate, q).contains(c) <==> (c matches QueueItem::ImplItem {
                    self_,
                    impl_,
                    id,
                } && self_ == s && impl_ == i && ids.contains(id)) by {
                if let QueueItem::ImplItem { self_, impl_, id } = c {
                    if self_ == s && impl_ == i && ids.contains(id) {
                        let k = choose|k: int| 0 <= k < ids.len() && ids[k] == id;
                        assert(ids.map_values(f)[k] == c);
                    }
                }
            }
        },
        QueueItem::ImplItem { .. } => {},
    }
}

proof fn lemma_roots(krate: &Crate, module: Seq<String>)
    ensures
        roots(krate, module).finite(),
        forall|c: QueueItem| #[trigger]
            roots(krate, module).contains(c) <==> (c matches QueueItem::Standalone(id)
                && is_reachable_root(krate, module, id)),
{
    broadcast use vstd::std_specs::hash::group_hash_axioms;

    let keys = krate.import_index@.dom();
    let p = |id: u32| krate.entry(Id(id)).is_exported_from(module);
    let f = |id: u32| QueueItem::Standalone(Id(id));
    keys.lemma_len_filter(p);
    keys.filter(p).lemma_map_finite(f);
    assert forall|c: QueueItem| #[trigger]
        roots(krate, module).contains(c) <==> (c matches QueueItem::Standalone(id)
            && is_reachable_root(krate, module, id)) by {
        if let QueueItem::Standalone(id) = c {
            if is_reachable_root(krate, module, id) {
                assert(keys.filter(p).contains(id.0));
                assert(f(id.0) == c);
            }
        }
    }
}

/// Taking the greatest item of a set out leaves the tail of its order.
proof fn lemma_greatest_first_pop(s: Set<QueueItem>, m: QueueItem)
    requires
        s.finite(),
        is_greatest(s, m),
    ensures
        greatest_first(s) == seq![m] + greatest_first(s.remove(m)),
{
    lemma_greatest_exists(s);
}

/// What is greater than all of `low` comes before all of `low`.
proof fn lemma_greatest_first_union(low: Set<QueueItem>, high: Set<QueueItem>)
    requires
        low.finite(),
        high.finite(),
        forall|a: QueueItem, b: QueueItem| low.contains(a) && high.contains(b) ==> a.precedes(b),
    ensures
        greatest_first(low.union(high)) == greatest_first(high) + greatest_first(low),
    decreases high.len(),
{
    if high.is_empty() {
        assert(low.union(high) =~= low);
        assert(greatest_first(high) + greatest_first(low) =~= greatest_first(low));
    } else {
        lemma_greatest_exists(high);
        let m = choose|m: QueueItem| is_greatest(high, m);
        let all = low.union(high);
        assert(is_greatest(all, m));
        lemma_greatest_first_pop(high, m);
        lemma_greatest_first_pop(all, m);
        if low.contains(m) {
            assert(high.contains(m));
            assert(m.precedes(m));
        }
        assert(all.remove(m) =~= low.union(high.remove(m)));
        lemma_greatest_first_union(low, high.remove(m));
        assert(greatest_first(all) =~= greatest_first(high) + greatest_first(low));
    }
}

proof fn lemma_visit_all_concat(krate: &Crate, a: Seq<QueueItem>, b: Seq<QueueItem>)
    ensures
        visit_all(krate, a + b) == visit_all(krate, a) + visit_all(krate, b),
    decreases a.len(),
{
    if a.len() == 0 {
        assert(a + b =~= b);
        assert(visit_all(krate, a) + visit_all(krate, b) =~= visit_all(krate, b));
    } else {
        assert((a + b).drop_first() =~= a.drop_first() + b);
        lemma_visit_all_concat(krate, a.drop_first(), b);
        assert(visit_all(krate, a + b) =~= visit_all(krate, a) + visit_all(krate, b));
    }
}

/// Items that bring nothing in are visited one after the other.
proof fn lemma_visit_all_leaves(krate: &Crate, items: Seq<QueueItem>)
    requires
        forall|i: int| 0 <= i < items.len() ==> (#[trigger] items[i]) is ImplItem,
    ensures
        visit_all(krate, items) == items,
    decreases items.len(),
{
    if items.len() > 0 {
        lemma_visit_all_leaves(krate, items.drop_first());
        assert(visit_all(krate, items) =~= items);
    }
}

proof fn lemma_visit_all_impls(krate: &Crate, items: Seq<QueueItem>)
    requires
        forall|i: int| 0 <= i < items.len() ==> (#[trigger] items[i]) is Impl,
    ensures
        visit_all(krate, items) == visit_impls(krate, items),
    decreases items.len(),
{
    if items.len() > 0 {
        lemma_visit_all_impls(krate, items.drop_first());
    }
}

/// The order of a set holds the items of the set and no others, each once.
proof fn lemma_greatest_first_contains(s: Set<QueueItem>)
    requires
        s.finite(),
    ensures
        forall|q: QueueItem| #[trigger] greatest_first(s).contains(q) <==> s.contains(q),
        greatest_first(s).no_duplicates(),
        forall|i: int, j: int|
            0 <= i < j < greatest_first(s).len() ==> (#[trigger] greatest_first(s)[j]).precedes(
                #[trigger] greatest_first(s)[i],
            ),
    decreases s.len(),
{
    if !s.is_empty() {
        lemma_greatest_exists(s);
        let m = choose|m: QueueItem| is_greatest(s, m);
        let rest = greatest_first(s.remove(m));
        lemma_greatest_first_contains(s.remove(m));
        let all = greatest_first(s);
        assert(all == seq![m] + rest);
        assert forall|q: QueueItem| #[trigger] all.contains(q) <==> s.contains(q) by {
            if s.contains(q) {
                if q == m {
                    assert(all[0] == q);
                } else {
                    assert(rest.contains(q));
                    let k = choose|k: int| 0 <= k < rest.len() && rest[k] == q;
                    assert(all[k + 1] == q);
                }
            }
            if all.contains(q) {
                let k = choose|k: int| 0 <= k < all.len() && all[k] == q;
                if k > 0 {
                    assert(rest[k - 1] == q);
                    assert(rest.contains(q));
                }
            }
        }
        assert forall|i: int, j: int| 0 <= i < j < all.len() implies (#[trigger]
        all[j]).precedes(#[trigger] all[i]) by {
            assert(all[j] == rest[j - 1]);
            assert(rest.contains(rest[j - 1]));
            if i > 0 {
                assert(all[i] == rest[i - 1]);
            }
        }
        assert(all.no_duplicates());
    }
}

/// A visit to `q` is followed by the visits to what it brings in.
proof fn lemma_visit_unfold(krate: &Crate, q: QueueItem)
    ensures
        visit(krate, q) == seq![q] + visit_all(krate, greatest_first(children(krate, q))),
{
    let c = children(krate, q);
    let order = greatest_first(c);
    lemma_children(krate, q);
    lemma_greatest_first_contains(c);
    assert forall|i: int| 0 <= i < order.len() implies c.contains(#[trigger] order[i]) by {
        assert(order.contains(order[i]));
    }
    match q {
        QueueItem::Standalone(_) => {
            lemma_visit_all_impls(krate, order);
        },
        QueueItem::Impl { .. } => {
            lemma_visit_all_leaves(krate, order);
        },
        QueueItem::ImplItem { .. } => {
            assert(c =~= Set::empty());
            assert(visit(krate, q) =~= seq![q] + visit_all(krate, order));
        },
    }
}

/// What an item brings in comes after the item.
proof fn lemma_children_follow(krate: &Crate, q: QueueItem, c: QueueItem)
    requires
        children(krate, q).contains(c),
    ensures
        q.precedes(c),
{
    lemma_children(krate, q);
}

/// Whether `path` lies in `module`.
fn starts_with(path: &Vec<String>, module: &Vec<String>) -> (res: bool)
    ensures
        res == crate::rustdoc::lies_in(path@, module@),
{
    if path.len() < module.len() {
        return false;
    }
    let mut i: usize = 0;
    while i < module.len()
        invariant
            i <= module@.len() <= path@.len(),
            forall|j: int| 0 <= j < i ==> path@[j]@ == module@[j]@,
        decreases module@.len() - i,
    {
        if path[i] != module[i] {
            assert(views(module@)[i as int] != views(path@)[i as int]);
            return false;
        }
        i = i + 1;
    }
    assert(views(module@) =~= views(path@).subrange(0, module@.len() as int));
    true
}

/// Whether the item of `entry` is public and can be found in `module`.
fn exported_from(entry: &ImportIndexEntry, module: &Vec<String>) -> (res: bool)
    ensures
        res == entry.is_exported_from(module@),
{
    if !entry.is_public {
        return false;
    }
    let mut i: usize = 0;
    while i < entry.paths.len()
        invariant
            entry.is_public,
            i <= entry.paths@.len(),
            forall|j: int|
                0 <= j < i ==> !crate::rustdoc::lies_in(#[trigger] entry.paths@[j]@, module@),
        decreases entry.paths@.len() - i,
    {
        if starts_with(&entry.paths[i], module) {
            return true;
        }
        i = i + 1;
    }
    false
}

/// A queue that holds the public items of `module`.
fn queue_roots(krate: &Crate, module: &Vec<String>) -> (queue: Queue)
    ensures
        queue@ == roots(krate, module@),
{
    broadcast use vstd::std_specs::hash::group_hash_axioms;

    let mut queue = Queue::new();
    for entry in it: krate.import_index.iter()
        invariant
            forall|k: int|
                0 <= k < it.seq().len() ==> {
                    &&& krate.import_index@.contains_key(*(#[trigger] it.seq()[k]).0)
                    &&& krate.import_index@[*it.seq()[k].0] == *it.seq()[k].1
                },
            forall|id: u32| #[trigger]
                krate.import_index@.contains_key(id) ==> it.seq().contains(
                    (&id, &krate.import_index@[id]),
                ),
            forall|q: QueueItem| #[trigger]
                queue@.contains(q) <==> exists|k: int|
                    0 <= k < it.index() && {
                        &&& q == QueueItem::Standalone(Id(*(#[trigger] it.seq()[k]).0))
                        &&& it.seq()[k].1.is_exported_from(module@)
                    },
    {
        let (id, paths) = entry;
        if exported_from(paths, module) {
            queue.insert(QueueItem::Standalone(Id(*id)));
        }
    }
    proof {
        lemma_roots(krate, module@);
        assert(queue@ =~= roots(krate, module@));
    }
    queue
}

/// Adds what the type `self_` brings in for each of `ids` to the queue: its `impl` blocks, or the
/// items of its `impl` block `impl_`.
fn queue_children(queue: &mut Queue, self_: Id, impl_: Option<Id>, ids: &Vec<Id>)
    ensures
        final(queue)@ == old(queue)@.union(
            ids@.map_values(|id: Id| child(self_, impl_, id)).to_set(),
        ),
{
    let ghost all = ids@.map_values(|id: Id| child(self_, impl_, id));
    let mut i: usize = 0;
    assert(queue@ =~= old(queue)@.union(all.take(0).to_set()));
    while i < ids.len()
        invariant
            i <= ids@.len(),
            all == ids@.map_values(|id: Id| child(self_, impl_, id)),
            queue@ == old(queue)@.union(all.take(i as int).to_set()),
        decreases ids@.len() - i,
    {
        let id = ids[i];
        queue.insert(
            match impl_ {
                Some(impl_) => QueueItem::ImplItem { self_, impl_, id },
                None => QueueItem::Impl { self_, id },
            },
        );
        proof {
            lemma_to_set_take(all, i as int);
            assert(queue@ =~= old(queue)@.union(all.take(i + 1).to_set()));
        }
        i = i + 1;
    }
    assert(all.take(i as int) =~= all);
}

proof fn lemma_to_set_take(s: Seq<QueueItem>, i: int)
    requires
        0 <= i < s.len(),
    ensures
        s.take(i + 1).to_set() == s.take(i).to_set().insert(s[i]),
{
    let short = s.take(i);
    let long = s.take(i + 1);
    assert forall|x: QueueItem| long.to_set().contains(x) <==> short.to_set().insert(s[i]).contains(
        x,
    ) by {
        if long.contains(x) {
            let k = choose|k: int| 0 <= k < long.len() && long[k] == x;
            if k < i {
                assert(short[k] == x);
            }
        }
        if short.contains(x) {
            let k = choose|k: int| 0 <= k < short.len() && short[k] == x;
            assert(long[k] == x);
        }
        assert(long[i] == s[i]);
    }
    assert(long.to_set() =~= short.to_set().insert(s[i]));
}

/// The items to process for `module`, in the order in which they are to be processed.
pub fn processing_order(krate: &Crate, module: &Vec<String>) -> (order: Vec<QueueItem>)
    requires
        is_complete(krate, module@),
    ensures
        order@ == traversal(krate, module@),
{
    checked_processing_order(krate, module).unwrap()
}

/// The items to process for `module`, in the order in which they are to be processed; nothing where
/// the documentation lacks one of them.
pub fn checked_processing_order(krate: &Crate, module: &Vec<String>) -> (res: Option<
    Vec<QueueItem>,
>)
    ensures
        res is Some <==> is_complete(krate, module@),
        res matches Some(order) ==> order@ == traversal(krate, module@),
{
    let mut queue = queue_roots(krate, module);
    let mut order: Vec<QueueItem> = Vec::new();
    let ghost whole = traversal(krate, module@);
    let ghost mut left = whole;
    proof {
        lemma_roots(krate, module@);
        assert(order@ + left =~= whole);
    }
    loop
        invariant
            queue@.finite(),
            forall|q: QueueItem| #[trigger] queue@.contains(q) ==> is_reachable(krate, module@, q),
            left == visit_all(krate, greatest_first(queue@)),
            order@ + left == whole,
            forall|i: int|
                0 <= i < order@.len() ==> krate.has_item((#[trigger] order@[i]).own_id()),
        ensures
            order@ == whole,
            forall|i: int|
                0 <= i < order@.len() ==> krate.has_item((#[trigger] order@[i]).own_id()),
        decreases left.len(),
    {
        let ghost before = queue@;
        match queue.pop_last() {
            Some(queue_item) => {
                let ghost rest = before.remove(queue_item);
                proof {
                    assert(is_reachable(krate, module@, queue_item));
                    lemma_greatest_first_pop(before, queue_item);
                    lemma_visit_all_concat(krate, seq![queue_item], greatest_first(rest));
                    lemma_visit_unfold(krate, queue_item);
                    lemma_children(krate, queue_item);
                }
                let ghost brought = children(krate, queue_item);
                let id = match queue_item {
                    QueueItem::Standalone(id) => id,
                    QueueItem::Impl { id, .. } => id,
                    QueueItem::ImplItem { id, .. } => id,
                };
                let item = match krate.find_item(&id) {
                    Some(item) => item,
                    None => {
                        return None;
                    },
                };
                match queue_item {
                    QueueItem::Standalone(id) => match &item.inner {
                        ItemEnum::Struct { impls } => queue_children(&mut queue, id, None, impls),
                        ItemEnum::Enum { impls } => queue_children(&mut queue, id, None, impls),
                        _ => {},
                    },
                    QueueItem::Impl { self_, id } => {
                        if let ItemEnum::Impl(block) = &item.inner {
                            queue_children(&mut queue, self_, Some(id), &block.items);
                        }
                    },
                    QueueItem::ImplItem { .. } => {},
                }
                proof {
                    assert(queue@ =~= rest.union(brought));
                    assert forall|a: QueueItem, b: QueueItem|
                        rest.contains(a) && brought.contains(b) implies a.precedes(b) by {
                        assert(before.contains(a));
                        lemma_children_follow(krate, queue_item, b);
                    }
                    lemma_greatest_first_union(rest, brought);
                    lemma_visit_all_concat(krate, greatest_first(brought), greatest_first(rest));
                    let one = seq![queue_item];
                    assert(visit_all(krate, one.drop_first()) =~= seq![]);
                    assert(visit_all(krate, one) =~= visit(krate, queue_item));
                    assert(left =~= one + visit_all(krate, greatest_first(queue@)));
                    left = visit_all(krate, greatest_first(queue@));
                }
                let ghost done = order@;
                order.push(queue_item);
                assert(order@ + left =~= done + (seq![queue_item] + left));
            },
            None => {
                assert(left =~= seq![]);
                assert(order@ =~= order@ + left);
                break ;
            },
        }
    }
    proof {
        law_each_item_is_processed_once(krate, module@);
        assert forall|q: QueueItem| #[trigger] is_reachable(krate, module@, q) implies krate.has_item(
            q.own_id(),
        ) by {
            assert(whole.contains(q));
            let i = choose|i: int| 0 <= i < whole.len() && whole[i] == q;
            assert(krate.has_item(order@[i].own_id()));
        }
    }
    Some(order)
}

/// Whether `a` brings `b` into the queue, at once or through an `impl` block.
pub open spec fn is_ancestor(a: QueueItem, b: QueueItem) -> bool {
    match (a, b) {
        (QueueItem::Standalone(s), QueueItem::Impl { self_, .. }) => s == self_,
        (QueueItem::Standalone(s), QueueItem::ImplItem { self_, .. }) => s == self_,
        (QueueItem::Impl { self_: s, id }, QueueItem::ImplItem { self_, impl_, .. }) => s == self_
            && id == impl_,
        _ => false,
    }
}

/// Whether `b` comes after `a` in the processing order: `a` brings it in, or it is smaller and
/// does not bring `a` in.
pub open spec fn may_follow(a: QueueItem, b: QueueItem) -> bool {
    is_ancestor(a, b) || (b.precedes(a) && !is_ancestor(b, a))
}

/// Whether each item of `s` comes after those before it.
pub open spec fn is_in_order(s: Seq<QueueItem>) -> bool {
    forall|i: int, j: int|
        0 <= i < j < s.len() ==> may_follow(#[trigger] s[i], #[trigger] s[j])
}

proof fn lemma_in_order_concat(a: Seq<QueueItem>, b: Seq<QueueItem>)
    requires
        is_in_order(a),
        is_in_order(b),
        forall|x: QueueItem, y: QueueItem|
            a.contains(x) && b.contains(y) ==> #[trigger] may_follow(x, y),
    ensures
        is_in_order(a + b),
        forall|x: QueueItem| #[trigger] (a + b).contains(x) <==> a.contains(x) || b.contains(x),
{
    let c = a + b;
    assert forall|i: int, j: int| 0 <= i < j < c.len() implies may_follow(
        #[trigger] c[i],
        #[trigger] c[j],
    ) by {
        if j < a.len() {
            assert(may_follow(a[i], a[j]));
        } else if i >= a.len() {
            assert(may_follow(b[i - a.len()], b[j - a.len()]));
        } else {
            assert(a.contains(a[i]));
            assert(b.contains(b[j - a.len()]));
        }
    }
    lemma_concat_contains(a, b);
}

proof fn lemma_concat_contains(a: Seq<QueueItem>, b: Seq<QueueItem>)
    ensures
        forall|x: QueueItem| #[trigger] (a + b).contains(x) <==> a.contains(x) || b.contains(x),
{
    let c = a + b;
    assert forall|x: QueueItem| #[trigger] c.contains(x) <==> a.contains(x) || b.contains(x) by {
        if a.contains(x) {
            let k = choose|k: int| 0 <= k < a.len() && a[k] == x;
            assert(c[k] == x);
        }
        if b.contains(x) {
            let k = choose|k: int| 0 <= k < b.len() && b[k] == x;
            assert(c[k + a.len()] == x);
        }
        if c.contains(x) {
            let k = choose|k: int| 0 <= k < c.len() && c[k] == x;
            if k < a.len() {
                assert(a[k] == x);
            } else {
                assert(b[k - a.len()] == x);
            }
        }
    }
}

proof fn lemma_visit_impl(krate: &Crate, q: QueueItem)
    requires
        q is Impl,
    ensures
        is_in_order(visit_impl(krate, q)),
        forall|x: QueueItem| #[trigger]
            visit_impl(krate, q).contains(x) <==> x == q || children(krate, q).contains(x),
{
    let c = children(krate, q);
    lemma_children(krate, q);
    lemma_greatest_first_contains(c);
    let below = greatest_first(c);
    assert forall|i: int| 0 <= i < below.len() implies c.contains(#[trigger] below[i]) by {
        assert(below.contains(below[i]));
    }
    let one = seq![q];
    assert(one[0] == q);
    lemma_in_order_concat(one, below);
}

/// Whether `x` is one of the `impl` blocks `blocks` or is brought in by one.
spec fn is_under_impls(krate: &Crate, blocks: Seq<QueueItem>, x: QueueItem) -> bool {
    exists|k: int|
        0 <= k < blocks.len() && (x == blocks[k] || children(krate, #[trigger] blocks[k]).contains(x))
}

proof fn lemma_visit_impls(krate: &Crate, blocks: Seq<QueueItem>)
    requires
        forall|i: int| 0 <= i < blocks.len() ==> (#[trigger] blocks[i]) is Impl,
        forall|i: int, j: int|
            0 <= i < j < blocks.len() ==> (#[trigger] blocks[j]).precedes(#[trigger] blocks[i]),
    ensures
        is_in_order(visit_impls(krate, blocks)),
        forall|x: QueueItem| #[trigger]
            visit_impls(krate, blocks).contains(x) <==> is_under_impls(krate, blocks, x),
    decreases blocks.len(),
{
    if blocks.len() > 0 {
        let head = blocks[0];
        let tail = blocks.drop_first();
        lemma_visit_impl(krate, head);
        lemma_visit_impls(krate, tail);
        lemma_children(krate, head);
        let a = visit_impl(krate, head);
        let b = visit_impls(krate, tail);
        assert forall|x: QueueItem, y: QueueItem| a.contains(x) && b.contains(y) implies #[trigger]
        may_follow(x, y) by {
            let k = choose|k: int|
                0 <= k < tail.len() && (y == tail[k] || children(
                    krate,
                    #[trigger] tail[k],
                ).contains(y));
            assert(tail[k] == blocks[k + 1]);
            lemma_children(krate, tail[k]);
            assert(blocks[k + 1].precedes(blocks[0]));
        }
        lemma_in_order_concat(a, b);
        assert forall|x: QueueItem| #[trigger]
            visit_impls(krate, blocks).contains(x) <==> is_under_impls(krate, blocks, x) by {
            if is_under_impls(krate, tail, x) {
                let k = choose|k: int|
                    0 <= k < tail.len() && (x == tail[k] || children(
                        krate,
                        #[trigger] tail[k],
                    ).contains(x));
                assert(tail[k] == blocks[k + 1]);
            }
            if is_under_impls(krate, blocks, x) {
                let k = choose|k: int|
                    0 <= k < blocks.len() && (x == blocks[k] || children(
                        krate,
                        #[trigger] blocks[k],
                    ).contains(x));
                if k > 0 {
                    assert(tail[k - 1] == blocks[k]);
                }
            }
        }
    }
}

/// Whether `x` is the item `s` or is brought in by it.
spec fn is_under(krate: &Crate, s: Id, x: QueueItem) -> bool {
    match x {
        QueueItem::Standalone(id) => id == s,
        QueueItem::Impl { self_, id } => self_ == s && impls_of(krate.item(s).inner).contains(id),
        QueueItem::ImplItem { self_, impl_, id } => self_ == s && impls_of(
            krate.item(s).inner,
        ).contains(impl_) && items_of(krate.item(impl_).inner).contains(id),
    }
}

proof fn lemma_visit_standalone(krate: &Crate, s: Id)
    ensures
        is_in_order(visit(krate, QueueItem::Standalone(s))),
        forall|x: QueueItem| #[trigger]
            visit(krate, QueueItem::Standalone(s)).contains(x) <==> is_under(krate, s, x),
{
    let q = QueueItem::Standalone(s);
    let c = children(krate, q);
    let blocks = greatest_first(c);
    lemma_children(krate, q);
    lemma_greatest_first_contains(c);
    assert forall|i: int| 0 <= i < blocks.len() implies c.contains(#[trigger] blocks[i]) by {
        assert(blocks.contains(blocks[i]));
    }
    lemma_visit_impls(krate, blocks);
    let below = visit_impls(krate, blocks);
    assert forall|x: QueueItem| #[trigger]
        below.contains(x) <==> x != q && is_under(krate, s, x) by {
        if is_under_impls(krate, blocks, x) {
            let k = choose|k: int|
                0 <= k < blocks.len() && (x == blocks[k] || children(
                    krate,
                    #[trigger] blocks[k],
                ).contains(x));
            assert(c.contains(blocks[k]));
            lemma_children(krate, blocks[k]);
        }
        if x != q && is_under(krate, s, x) {
            let block = match x {
                QueueItem::Impl { .. } => x,
                QueueItem::ImplItem { self_, impl_, .. } => QueueItem::Impl { self_, id: impl_ },
                _ => x,
            };
            assert(c.contains(block));
            assert(blocks.contains(block));
            let k = choose|k: int| 0 <= k < blocks.len() && blocks[k] == block;
            lemma_children(krate, blocks[k]);
            assert(is_under_impls(krate, blocks, x));
        }
    }
    let one = seq![q];
    assert(one[0] == q);
    lemma_in_order_concat(one, below);
}

proof fn lemma_visit_all_standalone(krate: &Crate, items: Seq<QueueItem>)
    requires
        forall|i: int| 0 <= i < items.len() ==> (#[trigger] items[i]) is Standalone,
        forall|i: int, j: int|
            0 <= i < j < items.len() ==> (#[trigger] items[j]).precedes(#[trigger] items[i]),
    ensures
        is_in_order(visit_all(krate, items)),
        forall|x: QueueItem| #[trigger]
            visit_all(krate, items).contains(x) <==> exists|k: int|
                0 <= k < items.len() && is_under(krate, (#[trigger] items[k]).own_id(), x),
    decreases items.len(),
{
    if items.len() > 0 {
        let head = items[0];
        let tail = items.drop_first();
        lemma_visit_standalone(krate, head.own_id());
        lemma_visit_all_standalone(krate, tail);
        let a = visit(krate, head);
        let b = visit_all(krate, tail);
        assert forall|x: QueueItem, y: QueueItem| a.contains(x) && b.contains(y) implies #[trigger]
        may_follow(x, y) by {
            let k = choose|k: int|
                0 <= k < tail.len() && is_under(krate, (#[trigger] tail[k]).own_id(), y);
            assert(tail[k] == items[k + 1]);
            assert(items[k + 1].precedes(items[0]));
        }
        lemma_in_order_concat(a, b);
        assert forall|x: QueueItem| #[trigger]
            visit_all(krate, items).contains(x) <==> exists|k: int|
                0 <= k < items.len() && is_under(krate, (#[trigger] items[k]).own_id(), x) by {
            if b.contains(x) {
                let k = choose|k: int|
                    0 <= k < tail.len() && is_under(krate, (#[trigger] tail[k]).own_id(), x);
                assert(tail[k] == items[k + 1]);
            }
            if exists|k: int|
                0 <= k < items.len() && is_under(krate, (#[trigger] items[k]).own_id(), x) {
                let k = choose|k: int|
                    0 <= k < items.len() && is_under(krate, (#[trigger] items[k]).own_id(), x);
                if k > 0 {
                    assert(tail[k - 1] == items[k]);
                }
            }
        }
    }
}

/// The processing order holds the items that are to be processed for the module and no others,
/// and each of them once.
pub proof fn law_each_item_is_processed_once(krate: &Crate, module: Seq<String>)
    ensures
        forall|q: QueueItem| #[trigger]
            traversal(krate, module).contains(q) <==> is_reachable(krate, module, q),
        traversal(krate, module).no_duplicates(),
{
    let r = roots(krate, module);
    let items = greatest_first(r);
    lemma_roots(krate, module);
    lemma_greatest_first_contains(r);
    assert forall|i: int| 0 <= i < items.len() implies r.contains(#[trigger] items[i]) by {
        assert(items.contains(items[i]));
    }
    lemma_visit_all_standalone(krate, items);
    assert forall|q: QueueItem| #[trigger]
        traversal(krate, module).contains(q) <==> is_reachable(krate, module, q) by {
        if is_reachable(krate, module, q) {
            let root = QueueItem::Standalone(q.sortable().0.0);
            assert(r.contains(root));
            assert(items.contains(root));
            let k = choose|k: int| 0 <= k < items.len() && items[k] == root;
            assert(is_under(krate, items[k].own_id(), q));
        }
    }
    law_processing_order(krate, module);
}

/// An item is processed after those that bring it into the queue; of two items of which neither
/// brings the other in, the greater is processed first.
pub proof fn law_processing_order(krate: &Crate, module: Seq<String>)
    ensures
        is_in_order(traversal(krate, module)),
{
    let r = roots(krate, module);
    let items = greatest_first(r);
    lemma_roots(krate, module);
    lemma_greatest_first_contains(r);
    assert forall|i: int| 0 <= i < items.len() implies r.contains(#[trigger] items[i]) by {
        assert(items.contains(items[i]));
    }
    lemma_visit_all_standalone(krate, items);
}

/// Nothing but what is to be processed decides on the order: there is one sequence only that
/// holds just these items and keeps to the processing order.
pub proof fn law_order_is_deterministic(krate: &Crate, module: Seq<String>, s: Seq<QueueItem>)
    requires
        is_in_order(s),
        forall|q: QueueItem| #[trigger] s.contains(q) <==> is_reachable(krate, module, q),
    ensures
        s == traversal(krate, module),
{
    law_each_item_is_processed_once(krate, module);
    law_processing_order(krate, module);
    assert forall|q: QueueItem| #[trigger]
        s.contains(q) <==> traversal(krate, module).contains(q) by {}
    lemma_same_order(s, traversal(krate, module));
}

/// The order rests on what the documentation says alone, and not on how its tables are laid out.
pub proof fn law_order_rests_on_the_documentation(a: &Crate, b: &Crate, module: Seq<String>)
    requires
        a.same_as(b),
    ensures
        traversal(a, module) == traversal(b, module),
{
    law_each_item_is_processed_once(a, module);
    law_processing_order(a, module);
    assert forall|q: QueueItem| #[trigger]
        traversal(a, module).contains(q) <==> is_reachable(b, module, q) by {
        assert(is_reachable(a, module, q) == is_reachable(b, module, q));
    }
    law_order_is_deterministic(b, module, traversal(a, module));
}

/// Two sequences that hold the same items and keep to the processing order are the same.
proof fn lemma_same_order(s: Seq<QueueItem>, t: Seq<QueueItem>)
    requires
        is_in_order(s),
        is_in_order(t),
        forall|q: QueueItem| #[trigger] s.contains(q) <==> t.contains(q),
    ensures
        s == t,
    decreases s.len(),
{
    if s.len() == 0 {
        if t.len() > 0 {
            assert(t.contains(t[0]));
            assert(s.contains(t[0]));
        }
        assert(s =~= t);
    } else {
        assert(s.contains(s[0]));
        assert(t.contains(s[0]));
        assert(t.contains(t[0]));
        assert(s.contains(t[0]));
        let i = choose|i: int| 0 <= i < t.len() && t[i] == s[0];
        let j = choose|j: int| 0 <= j < s.len() && s[j] == t[0];
        if i > 0 && j > 0 {
            assert(may_follow(t[0], t[i]));
            assert(may_follow(s[0], s[j]));
        }
        assert(s[0] == t[0]);
        let s1 = s.drop_first();
        let t1 = t.drop_first();
        assert forall|q: QueueItem| #[trigger] s1.contains(q) <==> t1.contains(q) by {
            if s1.contains(q) {
                let k = choose|k: int| 0 <= k < s1.len() && s1[k] == q;
                assert(s[k + 1] == q);
                assert(may_follow(s[0], s[k + 1]));
                assert(s.contains(s[k + 1]));
                assert(s.contains(q));
                assert(t.contains(q));
                let m = choose|m: int| 0 <= m < t.len() && t[m] == q;
                assert(t1[m - 1] == q);
            }
            if t1.contains(q) {
                let k = choose|k: int| 0 <= k < t1.len() && t1[k] == q;
                assert(t[k + 1] == q);
                assert(may_follow(t[0], t[k + 1]));
                assert(t.contains(t[k + 1]));
                assert(t.contains(q));
                assert(s.contains(q));
                let m = choose|m: int| 0 <= m < s.len() && s[m] == q;
                assert(s1[m - 1] == q);
            }
        }
        lemma_same_order(s1, t1);
        assert(s =~= seq![s[0]] + s1);
        assert(t =~= seq![t[0]] + t1);
    }
}

} // verus!
