use pavex_reflection::blueprint::{refer_to, Component, Method};
use pavex_reflection::fallbacks_can_access_all_primitives;
use pavex_reflection::invalid_prebuilt::{self, A, C};
use pavex_reflection::CreatedAt;

fn created_at() -> CreatedAt {
    CreatedAt {
        crate_name: "ui-test".to_string(),
        module: "ui_test".to_string(),
    }
}

#[test]
fn prebuilt_types_are_registered_in_order() {
    let bp = invalid_prebuilt::blueprint(&created_at());
    let prebuilt = |path: &str| Component::PrebuiltType(refer_to(path, &created_at()));
    assert_eq!(
        bp.components,
        vec![
            prebuilt("crate::A"),
            prebuilt("crate::B"),
            prebuilt("crate::C"),
            prebuilt("crate::D"),
            Component::Route {
                method: Method::Get,
                path: "/".to_string(),
                handler: refer_to("crate::handler", &created_at()),
            },
        ]
    );
}

#[test]
fn fallbacks_are_registered_at_both_levels() {
    let bp = fallbacks_can_access_all_primitives::blueprint(&created_at());
    let fallback = || Component::Fallback(refer_to("crate::handler", &created_at()));
    assert_eq!(bp.components.len(), 2);
    match &bp.components[0] {
        Component::Nested { prefix, blueprint } => {
            assert_eq!(prefix, "/nested");
            assert_eq!(blueprint.components, vec![fallback()]);
        }
        other => panic!("{other:?}"),
    }
    assert_eq!(bp.components[1], fallback());
}

#[test]
fn registered_paths_are_resolved_in_the_crate() {
    assert_eq!(
        refer_to("crate::A", &created_at()).fully_qualified_path(),
        vec!["ui_test", "A"]
    );
}

#[test]
fn types_with_lifetimes_are_cloned() {
    let a = A { a: "x" };
    assert_eq!(a.clone().a, "x");
    let c = C {
        a: "x",
        b: "y",
        c: "z",
    };
    let d = c.clone();
    assert_eq!((d.a, d.b, d.c), ("x", "y", "z"));
}
