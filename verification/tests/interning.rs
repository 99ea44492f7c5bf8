use pavex_reflection::auxiliary::{ComponentSource, UserComponent, UserComponentId};
use pavex_reflection::interner::{AnnotationInterner, Interner};
use pavex_reflection::rustdoc::{GlobalItemId, Id, PackageId};
use pavex_reflection::{CreatedAt, RawIdentifiers};

fn identifiers(import_path: &str, crate_name: &str, module: &str) -> RawIdentifiers {
    RawIdentifiers::from_raw_parts(
        import_path.to_string(),
        CreatedAt {
            crate_name: crate_name.to_string(),
            module: module.to_string(),
        },
    )
}

fn global(id: u32, package: &str) -> GlobalItemId {
    GlobalItemId {
        rustdoc_item_id: Id(id),
        package_id: PackageId(package.to_string()),
    }
}

#[test]
fn equal_identifiers_share_an_id() {
    let mut interner = Interner::new();
    assert_eq!(interner.len(), 0);
    assert_eq!(interner.get_or_intern(identifiers("a", "c", "m")), 0);
    assert_eq!(interner.get_or_intern(identifiers("b", "c", "m")), 1);
    assert_eq!(interner.get_or_intern(identifiers("a", "d", "m")), 2);
    assert_eq!(interner.get_or_intern(identifiers("a", "c", "n")), 3);
    assert_eq!(interner.get_or_intern(identifiers("a", "c", "m")), 0);
    assert_eq!(interner.get_or_intern(identifiers("a", "d", "m")), 2);
    assert_eq!(interner.len(), 4);
    assert_eq!(interner.get(1), &identifiers("b", "c", "m"));
}

#[test]
fn equal_components_share_an_id() {
    let mut annotations = AnnotationInterner::new();
    let (a, b) = (
        annotations.get_or_intern(global(1, "app")),
        annotations.get_or_intern(global(2, "app")),
    );
    let constructor = |id| UserComponent::Constructor {
        source: ComponentSource::Annotation(id),
    };
    let handler = |id, n| UserComponent::ErrorHandler {
        source: ComponentSource::Identifiers(id),
        fallible_id: UserComponentId(n),
    };
    let mut interner = Interner::new();
    assert_eq!(interner.get_or_intern(constructor(a)), 0);
    assert_eq!(interner.get_or_intern(constructor(b)), 1);
    assert_eq!(interner.get_or_intern(handler(0, 0)), 2);
    assert_eq!(interner.get_or_intern(handler(0, 1)), 3);
    assert_eq!(interner.get_or_intern(handler(1, 0)), 4);
    let by_path = UserComponent::Constructor {
        source: ComponentSource::Identifiers(0),
    };
    assert_eq!(interner.get_or_intern(by_path), 5);
    assert_eq!(interner.get_or_intern(constructor(b)), 1);
    assert_eq!(interner.get_or_intern(handler(0, 1)), 3);
    assert_eq!(interner.len(), 6);
}

#[test]
fn annotated_items_get_the_indices_of_an_arena() {
    let mut interner = AnnotationInterner::new();
    assert_eq!(interner.len(), 0);
    let a = interner.get_or_intern(global(7, "app"));
    let b = interner.get_or_intern(global(7, "lib"));
    let c = interner.get_or_intern(global(8, "app"));
    assert_eq!(interner.get_or_intern(global(7, "lib")), b);
    assert_eq!(interner.len(), 3);
    let raw = |id: la_arena::Idx<GlobalItemId>| id.into_raw().into_u32();
    assert_eq!((raw(a), raw(b), raw(c)), (0, 1, 2));
    assert_eq!(interner.get(a), &global(7, "app"));
    assert_eq!(interner.get(b), &global(7, "lib"));
    assert_eq!(interner.get(c), &global(8, "app"));
}
