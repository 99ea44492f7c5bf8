use pavex_reflection::queue::{Queue, QueueItem, SortableId};
use pavex_reflection::rustdoc::Id;
use std::cmp::Ordering;

fn standalone(id: u32) -> QueueItem {
    QueueItem::Standalone(Id(id))
}

fn block(self_: u32, id: u32) -> QueueItem {
    QueueItem::Impl {
        self_: Id(self_),
        id: Id(id),
    }
}

fn member(self_: u32, impl_: u32, id: u32) -> QueueItem {
    QueueItem::ImplItem {
        self_: Id(self_),
        impl_: Id(impl_),
        id: Id(id),
    }
}

#[test]
fn sortable_form_lists_the_identifiers_from_the_outside_in() {
    let id = |n: u32| SortableId(Id(n));
    assert_eq!(standalone(1).as_sortable(), (id(1), None, None));
    assert_eq!(block(1, 2).as_sortable(), (id(1), Some(id(2)), None));
    assert_eq!(member(1, 2, 3).as_sortable(), (id(1), Some(id(2)), Some(id(3))));
}

#[test]
fn identifiers_are_ordered_by_their_number() {
    let (a, b) = (SortableId::from(Id(2)), SortableId::from(Id(10)));
    assert_eq!(a.cmp(&b), Ordering::Less);
    assert_eq!(b.cmp(&a), Ordering::Greater);
    assert_eq!(a.cmp(&a), Ordering::Equal);
    assert_eq!(a.partial_cmp(&b), Some(Ordering::Less));
    assert!(a < b);
}

#[test]
fn items_are_ordered_by_their_identifiers_from_the_outside_in() {
    let ascending = [
        standalone(1),
        block(1, 2),
        member(1, 2, 0),
        member(1, 2, 9),
        block(1, 3),
        member(1, 3, 0),
        standalone(2),
        block(2, 0),
        member(2, 0, 0),
    ];
    for (i, a) in ascending.iter().enumerate() {
        for (j, b) in ascending.iter().enumerate() {
            assert_eq!(a.cmp(b), i.cmp(&j));
            assert_eq!(a.partial_cmp(b), Some(i.cmp(&j)));
            assert_eq!(a < b, i < j);
            assert_eq!(a == b, i == j);
        }
    }
}

#[test]
fn order_is_that_of_the_tuples() {
    let key = |q: &QueueItem| {
        let (a, b, c) = q.as_sortable();
        (a.0 .0, b.map(|x| x.0 .0), c.map(|x| x.0 .0))
    };
    let mut items = vec![];
    for a in 0..3 {
        items.push(standalone(a));
        for b in 0..3 {
            items.push(block(a, b));
            for c in 0..3 {
                items.push(member(a, b, c));
            }
        }
    }
    for x in &items {
        for y in &items {
            assert_eq!(x.cmp(y), key(x).cmp(&key(y)));
        }
    }
}

#[test]
fn queue_gives_the_greatest_item_first_and_each_once() {
    let mut queue = Queue::new();
    for item in [
        block(1, 2),
        standalone(3),
        standalone(1),
        block(1, 2),
        member(1, 2, 5),
        standalone(3),
    ] {
        queue.insert(item);
    }
    let mut popped = vec![];
    while let Some(item) = queue.pop_last() {
        popped.push(item);
    }
    assert_eq!(
        popped,
        vec![standalone(3), member(1, 2, 5), block(1, 2), standalone(1)]
    );
    assert_eq!(queue.pop_last(), None);
}
