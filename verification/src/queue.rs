//! The queue of items whose annotations are still to be processed, and its order.
use crate::rustdoc::Id;
use std::cmp::Ordering;
use vstd::prelude::*;

verus! {

/// An item that waits for its annotations to be processed.
#[derive(Debug, Copy, Clone, PartialEq, Eq, Structural)]
pub enum QueueItem {
    /// The `id` of an enum, struct, trait or function.
    Standalone(Id),
    Impl {
        /// The `id` of the `Self` type for this `impl` block.
        self_: Id,
        /// The `id` of the `impl` block item.
        id: Id,
    },
    ImplItem {
        /// The `id` of the `Self` type for this `impl` block.
        self_: Id,
        /// The `id` of the `impl` block that this item belongs to.
        impl_: Id,
        /// The `id` of the `impl` block item.
        id: Id,
    },
}

/// An identifier that can be ordered, by its number.
#[derive(Debug, Copy, Clone, PartialEq, Eq, Structural)]
pub struct SortableId(pub Id);

impl SortableId {
    /// Whether `self` comes before `other`.
    pub open spec fn precedes(self, other: SortableId) -> bool {
        self.0.0 < other.0.0
    }

    /// How `self` compares with `other`.
    pub fn cmp(&self, other: &Self) -> (res: Ordering)
        ensures
            res == (if self.precedes(*other) {
                Ordering::Less
            } else if other.precedes(*self) {
                Ordering::Greater
            } else {
                Ordering::Equal
            }),
    {
        if self.0.0 < other.0.0 {
            Ordering::Less
        } else if other.0.0 < self.0.0 {
            Ordering::Greater
        } else {
            Ordering::Equal
        }
    }
}

impl From<Id> for SortableId {
    fn from(value: Id) -> (res: Self) {
        SortableId(value)
    }
}

impl vstd::std_specs::convert::FromSpecImpl<Id> for SortableId {
    open spec fn obeys_from_spec() -> bool {
        true
    }

    open spec fn from_spec(value: Id) -> Self {
        SortableId(value)
    }
}

impl PartialOrd for SortableId {
    fn partial_cmp(&self, other: &Self) -> (res: Option<Ordering>) {
        Some(SortableId::cmp(self, other))
    }
}

impl vstd::std_specs::cmp::PartialOrdSpecImpl for SortableId {
    open spec fn obeys_partial_cmp_spec() -> bool {
        true
    }

    open spec fn partial_cmp_spec(&self, other: &Self) -> Option<Ordering> {
        Some(
            if self.precedes(*other) {
                Ordering::Less
            } else if other.precedes(*self) {
                Ordering::Greater
            } else {
                Ordering::Equal
            },
        )
    }
}

/// Where an optional identifier stands among the others: nothing comes before anything.
pub open spec fn rank(id: Option<SortableId>) -> int {
    match id {
        Some(id) => id.0.0 as int,
        None => -1,
    }
}

/// Compares two optional identifiers: nothing comes before anything.
fn compare(a: Option<SortableId>, b: Option<SortableId>) -> (res: Ordering)
    ensures
        res == (if rank(a) < rank(b) {
            Ordering::Less
        } else if rank(b) < rank(a) {
            Ordering::Greater
        } else {
            Ordering::Equal
        }),
{
    match (a, b) {
        (Some(a), Some(b)) => SortableId::cmp(&a, &b),
        (None, Some(_)) => Ordering::Less,
        (Some(_), None) => Ordering::Greater,
        (None, None) => Ordering::Equal,
    }
}

impl QueueItem {
    /// The identifiers of the item, outermost first.
    pub open spec fn sortable(self) -> (SortableId, Option<SortableId>, Option<SortableId>) {
        match self {
            QueueItem::Standalone(id) => (SortableId(id), None, None),
            QueueItem::Impl { self_, id } => (SortableId(self_), Some(SortableId(id)), None),
            QueueItem::ImplItem { self_, impl_, id } => (
                SortableId(self_),
                Some(SortableId(impl_)),
                Some(SortableId(id)),
            ),
        }
    }

    /// Whether `self` comes before `other`: the identifiers are compared one by one, outermost
    /// first.
    pub open spec fn precedes(self, other: QueueItem) -> bool {
        let a = self.sortable();
        let b = other.sortable();
        ||| a.0.precedes(b.0)
        ||| a.0 == b.0 && rank(a.1) < rank(b.1)
        ||| a.0 == b.0 && a.1 == b.1 && rank(a.2) < rank(b.2)
    }

    /// The `id` of the item itself.
    pub open spec fn own_id(self) -> Id {
        match self {
            QueueItem::Standalone(id) => id,
            QueueItem::Impl { id, .. } => id,
            QueueItem::ImplItem { id, .. } => id,
        }
    }

    /// The identifiers of the item, outermost first.
    pub fn as_sortable(&self) -> (res: (SortableId, Option<SortableId>, Option<SortableId>))
        ensures
            res == self.sortable(),
    {
        match self {
            QueueItem::Standalone(id) => ((*id).into(), None, None),
            QueueItem::Impl { self_, id } => ((*self_).into(), Some((*id).into()), None),
            QueueItem::ImplItem { self_, impl_, id } => {
                ((*self_).into(), Some((*impl_).into()), Some((*id).into()))
            },
        }
    }

    /// How `self` compares with `other`.
    pub fn cmp(&self, other: &Self) -> (res: Ordering)
        ensures
            res == (if self.precedes(*other) {
                Ordering::Less
            } else if other.precedes(*self) {
                Ordering::Greater
            } else {
                Ordering::Equal
            }),
            res == Ordering::Equal <==> *self == *other,
    {
        let sortable_self = self.as_sortable();
        let sortable_other = other.as_sortable();
        match SortableId::cmp(&sortable_self.0, &sortable_other.0) {
            Ordering::Equal => match compare(sortable_self.1, sortable_other.1) {
                Ordering::Equal => compare(sortable_self.2, sortable_other.2),
                res => res,
            },
            res => res,
        }
    }
}

impl PartialOrd for QueueItem {
    fn partial_cmp(&self, other: &Self) -> (res: Option<Ordering>) {
        Some(QueueItem::cmp(self, other))
    }
}

impl vstd::std_specs::cmp::PartialOrdSpecImpl for QueueItem {
    open spec fn obeys_partial_cmp_spec() -> bool {
        true
    }

    open spec fn partial_cmp_spec(&self, other: &Self) -> Option<Ordering> {
        Some(
            if self.precedes(*other) {
                Ordering::Less
            } else if other.precedes(*self) {
                Ordering::Greater
            } else {
                Ordering::Equal
            },
        )
    }
}

/// The order of the queue is a strict total order.
pub proof fn law_order_is_total(a: QueueItem, b: QueueItem, c: QueueItem)
    ensures
        !a.precedes(a),
        a.precedes(b) ==> !b.precedes(a),
        a.precedes(b) && b.precedes(c) ==> a.precedes(c),
        a == b || a.precedes(b) || b.precedes(a),
{
}

/// A set of items, from which the greatest can be taken.
#[derive(Debug)]
pub struct Queue {
    /// The items, in ascending order.
    items: Vec<QueueItem>,
}

impl View for Queue {
    type V = Set<QueueItem>;

    closed spec fn view(&self) -> Set<QueueItem> {
        self.items@.to_set()
    }
}

/// Whether `m` is the greatest item of `s`.
pub open spec fn is_greatest(s: Set<QueueItem>, m: QueueItem) -> bool {
    s.contains(m) && forall|x: QueueItem| #[trigger] s.contains(x) && x != m ==> x.precedes(m)
}

impl Queue {
    #[verifier::type_invariant]
    spec fn ascending(self) -> bool {
        forall|i: int, j: int|
            0 <= i < j < self.items@.len() ==> (#[trigger] self.items@[i]).precedes(
                #[trigger] self.items@[j],
            )
    }

    /// An empty queue.
    pub fn new() -> (res: Self)
        ensures
            res@ == Set::<QueueItem>::empty(),
    {
        let res = Queue { items: Vec::new() };
        assert(res@ =~= Set::empty());
        res
    }

    /// Adds an item, unless it is there already.
    pub fn insert(&mut self, item: QueueItem)
        ensures
            final(self)@ == old(self)@.insert(item),
    {
        proof {
            use_type_invariant(&*self);
        }
        let mut i: usize = self.items.len();
        while i > 0 && item < self.items[i - 1]
            invariant
                i <= self.items@.len(),
                forall|j: int| i <= j < self.items@.len() ==> item.precedes(#[trigger] self.items@[j]),
            decreases i,
        {
            i = i - 1;
        }
        if i > 0 && self.items[i - 1] == item {
            assert(self@.contains(item));
            assert(self@ =~= self@.insert(item));
            return ;
        }
        let ghost before = self.items@;
        let mut items: Vec<QueueItem> = Vec::new();
        std::mem::swap(&mut items, &mut self.items);
        items.insert(i, item);
        proof {
            let after = items@;
            assert forall|x: QueueItem| after.to_set().contains(x) <==> before.to_set().insert(
                item,
            ).contains(x) by {
                if before.contains(x) {
                    let k = choose|k: int| 0 <= k < before.len() && before[k] == x;
                    assert(after[if k < i { k } else { k + 1 }] == x);
                }
                assert(after[i as int] == item);
            }
            assert(after.to_set() =~= before.to_set().insert(item));
        }
        self.items = items;
    }

    /// Takes the greatest item out, if there is one.
    pub fn pop_last(&mut self) -> (res: Option<QueueItem>)
        ensures
            match res {
                Some(m) => is_greatest(old(self)@, m) && final(self)@ == old(self)@.remove(m),
                None => old(self)@ == Set::<QueueItem>::empty() && final(self)@ == old(self)@,
            },
    {
        proof {
            use_type_invariant(&*self);
        }
        let ghost before = self.items@;
        let mut items: Vec<QueueItem> = Vec::new();
        std::mem::swap(&mut items, &mut self.items);
        let res = items.pop();
        proof {
            match res {
                Some(m) => {
                    assert(before.to_set().contains(before[before.len() - 1]));
                    assert forall|x: QueueItem|
                        items@.to_set().contains(x) <==> before.to_set().remove(m).contains(x) by {
                        if before.contains(x) && x != m {
                            let k = choose|k: int| 0 <= k < before.len() && before[k] == x;
                            assert(items@[k] == x);
                        }
                        if items@.contains(x) {
                            let k = choose|k: int| 0 <= k < items@.len() && items@[k] == x;
                            assert(before[k] == x);
                        }
                    }
                    assert(items@.to_set() =~= before.to_set().remove(m));
                },
                None => {
                    assert(before.to_set() =~= Set::empty());
                    assert(items@.to_set() =~= Set::empty());
                },
            }
        }
        self.items = items;
        res
    }
}

} // verus!
