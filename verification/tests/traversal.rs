use pavex_reflection::queue::QueueItem;
use pavex_reflection::rustdoc::{
    Crate, CrateCollection, Function, FunctionSignature, Id, Impl, ImportIndexEntry, Item, ItemEnum,
    PackageId, Type,
};
use pavex_reflection::traversal::{checked_processing_order, processing_order};
use std::collections::HashMap;

fn strings(segments: &[&str]) -> Vec<String> {
    segments.iter().map(|s| s.to_string()).collect()
}

fn ids(numbers: &[u32]) -> Vec<Id> {
    numbers.iter().map(|n| Id(*n)).collect()
}

fn item(id: u32, inner: ItemEnum) -> Item {
    Item {
        id: Id(id),
        name: None,
        span: None,
        attrs: vec![],
        inner,
    }
}

fn function() -> ItemEnum {
    ItemEnum::Function(Function {
        sig: FunctionSignature {
            inputs: vec![],
            output: None,
        },
        is_async: false,
    })
}

fn block(items: &[u32]) -> ItemEnum {
    ItemEnum::Impl(Impl {
        for_: Type::Other(0),
        items: ids(items),
    })
}

fn entry(is_public: bool, paths: &[&[&str]]) -> ImportIndexEntry {
    ImportIndexEntry {
        is_public,
        paths: paths.iter().map(|p| strings(p)).collect(),
        defined_at: None,
        canonical_path: strings(paths[0]),
    }
}

fn krate(items: Vec<Item>, entries: Vec<(u32, ImportIndexEntry)>) -> Crate {
    Crate {
        crate_name: "app".to_string(),
        package_id: PackageId("app 0.1.0".to_string()),
        items: items.into_iter().map(|i| (i.id.0, i)).collect(),
        import_index: entries.into_iter().collect::<HashMap<_, _>>(),
    }
}

fn standalone(id: u32) -> QueueItem {
    QueueItem::Standalone(Id(id))
}

fn impl_of(self_: u32, id: u32) -> QueueItem {
    QueueItem::Impl {
        self_: Id(self_),
        id: Id(id),
    }
}

fn member(self_: u32, impl_: u32, id: u32) -> QueueItem {
    QueueItem::ImplItem {
        self_: Id(self_),
        impl_: Id(impl_),
        id: Id(id),
    }
}

#[test]
fn greater_items_come_first_and_parents_before_children() {
    let krate = krate(
        vec![
            item(1, function()),
            item(2, ItemEnum::Struct { impls: ids(&[20, 21, 20]) }),
            item(3, ItemEnum::Enum { impls: ids(&[30]) }),
            item(4, ItemEnum::Trait),
            item(20, block(&[200, 201])),
            item(21, block(&[])),
            item(30, ItemEnum::Other),
            item(200, function()),
            item(201, ItemEnum::Other),
        ],
        vec![
            (1, entry(true, &[&["app", "f"]])),
            (2, entry(true, &[&["app", "S"]])),
            (3, entry(true, &[&["app", "E"]])),
            (4, entry(true, &[&["app", "T"]])),
        ],
    );
    assert_eq!(
        processing_order(&krate, &strings(&["app"])),
        vec![
            standalone(4),
            standalone(3),
            impl_of(3, 30),
            standalone(2),
            impl_of(2, 21),
            impl_of(2, 20),
            member(2, 20, 201),
            member(2, 20, 200),
            standalone(1),
        ]
    );
}

#[test]
fn order_is_given_only_where_every_item_is_there() {
    let index = || {
        vec![
            (1, entry(true, &[&["app", "S"]])),
            (2, entry(false, &[&["app", "f"]])),
        ]
    };
    let build = |items: Vec<Item>| krate(items, index());
    let struct_ = || item(1, ItemEnum::Struct { impls: ids(&[10]) });
    let module = strings(&["app"]);
    let whole = build(vec![struct_(), item(10, block(&[100])), item(100, function())]);
    assert_eq!(
        checked_processing_order(&whole, &module),
        Some(vec![standalone(1), impl_of(1, 10), member(1, 10, 100)])
    );
    assert_eq!(
        checked_processing_order(&whole, &module),
        Some(processing_order(&whole, &module))
    );
    let without_method = build(vec![struct_(), item(10, block(&[100]))]);
    assert_eq!(checked_processing_order(&without_method, &module), None);
    let without_block = build(vec![struct_(), item(100, function())]);
    assert_eq!(checked_processing_order(&without_block, &module), None);
    let without_struct = build(vec![item(10, block(&[100])), item(100, function())]);
    assert_eq!(checked_processing_order(&without_struct, &module), None);
    // What is not reached need not be there.
    assert_eq!(
        checked_processing_order(&build(vec![]), &strings(&["elsewhere"])),
        Some(vec![])
    );
}

#[test]
fn order_does_not_depend_on_how_the_tables_were_filled() {
    let build = |order: &[u32]| {
        krate(
            order.iter().map(|n| item(*n, function())).collect(),
            order
                .iter()
                .map(|n| (*n, entry(true, &[&["app", "f"]])))
                .collect(),
        )
    };
    let expected: Vec<QueueItem> = (0..50).rev().map(standalone).collect();
    let up: Vec<u32> = (0..50).collect();
    let down: Vec<u32> = (0..50).rev().collect();
    assert_eq!(processing_order(&build(&up), &strings(&["app"])), expected);
    assert_eq!(processing_order(&build(&down), &strings(&["app"])), expected);
}

#[test]
fn only_public_items_of_the_module_are_processed() {
    let krate = krate(
        vec![
            item(1, function()),
            item(2, function()),
            item(3, function()),
            item(4, function()),
            item(5, function()),
        ],
        vec![
            // In the module, and public.
            (1, entry(true, &[&["app", "m", "f"]])),
            // In the module, but private.
            (2, entry(false, &[&["app", "m", "g"]])),
            // In another module whose name starts alike.
            (3, entry(true, &[&["app", "mm", "h"]])),
            // In the module through one of its paths.
            (4, entry(true, &[&["app", "k"], &["app", "m", "n", "k"]])),
            // Above the module.
            (5, entry(true, &[&["app"]])),
        ],
    );
    assert_eq!(
        processing_order(&krate, &strings(&["app", "m"])),
        vec![standalone(4), standalone(1)]
    );
    assert_eq!(processing_order(&krate, &strings(&["other"])), vec![]);
    assert_eq!(processing_order(&krate, &vec![]).len(), 4);
}

#[test]
fn items_are_looked_up_by_identifier() {
    let krate = krate(
        vec![item(1, function()), item(2, ItemEnum::Trait)],
        vec![(1, entry(true, &[&["app", "f"]]))],
    );
    assert_eq!(krate.get_item_by_local_type_id(&Id(2)).inner, ItemEnum::Trait);
    assert_eq!(krate.get_entry(&Id(1)).canonical_path, strings(&["app", "f"]));
}

#[test]
fn crates_are_looked_up_by_package() {
    let mut other = krate(vec![], vec![]);
    other.package_id = PackageId("other 1.0.0".to_string());
    other.crate_name = "other".to_string();
    let collection = CrateCollection {
        crates: vec![krate(vec![], vec![]), other],
    };
    let found = |id: &str| {
        collection
            .get_crate_by_package_id(&PackageId(id.to_string()))
            .map(|k| k.crate_name.clone())
    };
    assert_eq!(found("app 0.1.0"), Some("app".to_string()));
    assert_eq!(found("other 1.0.0"), Some("other".to_string()));
    assert_eq!(found("missing 1.0.0"), None);
}
