use pavex_reflection::callable::{
    rustdoc_free_fn2callable, rustdoc_method2callable, Callable, CallableResolutionError,
    GenericBindings, InvocationStyle, ResolvedPath, ResolvedPathSegment,
};
use pavex_reflection::rustdoc::{
    Crate, Function, FunctionSignature, GlobalItemId, Id, Impl, ImportIndexEntry, Item, ItemEnum,
    PackageId, Type,
};
use std::collections::HashMap;

fn strings(segments: &[&str]) -> Vec<String> {
    segments.iter().map(|s| s.to_string()).collect()
}

fn package() -> PackageId {
    PackageId("app 0.1.0".to_string())
}

fn function(id: u32, name: Option<&str>, inputs: Vec<Type>, output: Option<Type>) -> Item {
    Item {
        id: Id(id),
        name: name.map(String::from),
        span: None,
        attrs: vec![],
        inner: ItemEnum::Function(Function {
            sig: FunctionSignature {
                inputs: inputs
                    .into_iter()
                    .enumerate()
                    .map(|(i, ty)| (format!("p{i}"), ty))
                    .collect(),
                output,
            },
            is_async: id % 2 == 0,
        }),
    }
}

fn self_type() -> Type {
    Type::Generic("Self".to_string())
}

fn reference(to: Type) -> Type {
    Type::BorrowedRef {
        lifetime: None,
        is_mutable: true,
        type_: Box::new(to),
    }
}

/// A crate with a type, 1, whose `impl` block, 2, is for the type with the number given.
fn krate(for_: usize) -> Crate {
    let block = Item {
        id: Id(2),
        name: None,
        span: None,
        attrs: vec![],
        inner: ItemEnum::Impl(Impl {
            for_: Type::Other(for_),
            items: vec![Id(3)],
        }),
    };
    let entry = |path: &[&str]| ImportIndexEntry {
        is_public: true,
        paths: vec![],
        defined_at: None,
        canonical_path: strings(path),
    };
    Crate {
        crate_name: "app".to_string(),
        package_id: package(),
        items: HashMap::from([(2, block)]),
        import_index: HashMap::from([(1, entry(&["app", "S"])), (4, entry(&["app", "m", "f"]))]),
    }
}

/// Resolves a type to a text; types with a number from 100 on cannot be resolved.
fn resolve(
    ty: &Type,
    package_id: &PackageId,
    bindings: &GenericBindings<String>,
) -> Result<String, usize> {
    assert_eq!(package_id, &package());
    match ty {
        Type::BorrowedRef { type_, .. } => Ok(format!("&{}", resolve(type_, package_id, bindings)?)),
        Type::Generic(name) => match &bindings.self_ {
            Some(self_) if name == "Self" => Ok(self_.clone()),
            _ => Ok(name.clone()),
        },
        Type::Other(n) if *n >= 100 => Err(*n),
        Type::Other(n) => Ok(format!("t{n}")),
    }
}

fn path(segments: &[&str]) -> ResolvedPath {
    ResolvedPath {
        segments: segments
            .iter()
            .map(|s| ResolvedPathSegment::new(s.to_string()))
            .collect(),
        qualified_self: None,
        package_id: package(),
    }
}

fn source(id: u32) -> Option<GlobalItemId> {
    Some(GlobalItemId {
        rustdoc_item_id: Id(id),
        package_id: package(),
    })
}

#[test]
fn free_function_becomes_a_callable() {
    let item = function(
        4,
        Some("f"),
        vec![Type::Other(1), reference(self_type())],
        Some(Type::Other(2)),
    );
    assert_eq!(
        rustdoc_free_fn2callable(&item, &krate(0), &resolve),
        Ok(Callable {
            is_async: true,
            // There is no `self` in a free function.
            takes_self_as_ref: false,
            output: Some("t2".to_string()),
            path: path(&["app", "m", "f"]),
            inputs: strings(&["t1", "&Self"]),
            invocation_style: InvocationStyle::FunctionCall,
            source_coordinates: source(4),
        })
    );
}

#[test]
fn free_function_may_take_and_return_nothing() {
    let item = function(4, None, vec![], None);
    let callable = rustdoc_free_fn2callable(&item, &krate(0), &resolve).unwrap();
    assert_eq!(callable.output, None);
    assert!(callable.inputs.is_empty());
}

#[test]
fn first_parameter_that_cannot_be_resolved_is_reported() {
    let item = function(
        4,
        Some("f"),
        vec![Type::Other(1), Type::Other(101), Type::Other(102)],
        Some(Type::Other(103)),
    );
    assert_eq!(
        rustdoc_free_fn2callable(&item, &krate(0), &resolve),
        Err(CallableResolutionError::InputParameterResolutionError {
            callable_path: path(&["app", "m", "f"]),
            callable_item: &item,
            parameter_type: &Type::Other(101),
            parameter_index: 1,
            source: 101,
        })
    );
}

#[test]
fn output_that_cannot_be_resolved_is_reported() {
    let item = function(4, Some("f"), vec![Type::Other(1)], Some(Type::Other(103)));
    assert_eq!(
        rustdoc_free_fn2callable(&item, &krate(0), &resolve),
        Err(CallableResolutionError::OutputTypeResolutionError {
            callable_path: path(&["app", "m", "f"]),
            callable_item: &item,
            output_type: &Type::Other(103),
            source: 103,
        })
    );
}

#[test]
fn method_becomes_a_callable() {
    let item = function(
        3,
        Some("method"),
        vec![reference(self_type()), self_type()],
        Some(self_type()),
    );
    assert_eq!(
        rustdoc_method2callable(Id(1), Id(2), &item, &krate(9), &resolve),
        Ok(Callable {
            is_async: false,
            takes_self_as_ref: true,
            output: Some("t9".to_string()),
            path: path(&["app", "S", "method"]),
            inputs: strings(&["&t9", "t9"]),
            invocation_style: InvocationStyle::FunctionCall,
            source_coordinates: source(3),
        })
    );
}

#[test]
fn only_a_reference_to_self_in_front_counts() {
    let by_ref = |inputs: Vec<Type>| {
        let item = function(3, Some("method"), inputs, None);
        rustdoc_method2callable(Id(1), Id(2), &item, &krate(9), &resolve)
            .unwrap()
            .takes_self_as_ref
    };
    assert!(by_ref(vec![reference(self_type()), Type::Other(1)]));
    assert!(!by_ref(vec![]));
    assert!(!by_ref(vec![self_type()]));
    assert!(!by_ref(vec![reference(Type::Generic("T".to_string()))]));
    assert!(!by_ref(vec![reference(reference(self_type()))]));
    assert!(!by_ref(vec![Type::Other(1), reference(self_type())]));
}

#[test]
fn self_type_that_cannot_be_resolved_is_reported_first() {
    let item = function(3, Some("method"), vec![Type::Other(101)], None);
    assert_eq!(
        rustdoc_method2callable(Id(1), Id(2), &item, &krate(100), &resolve),
        Err(CallableResolutionError::SelfResolutionError {
            path: path(&["app", "S", "method"]),
            source: 100,
        })
    );
}

#[test]
fn methods_report_parameters_and_outputs() {
    let item = function(3, Some("method"), vec![Type::Other(101)], None);
    assert_eq!(
        rustdoc_method2callable(Id(1), Id(2), &item, &krate(9), &resolve),
        Err(CallableResolutionError::InputParameterResolutionError {
            callable_path: path(&["app", "S", "method"]),
            callable_item: &item,
            parameter_type: &Type::Other(101),
            parameter_index: 0,
            source: 101,
        })
    );
    let item = function(3, Some("method"), vec![], Some(Type::Other(101)));
    assert_eq!(
        rustdoc_method2callable(Id(1), Id(2), &item, &krate(9), &resolve),
        Err(CallableResolutionError::OutputTypeResolutionError {
            callable_path: path(&["app", "S", "method"]),
            callable_item: &item,
            output_type: &Type::Other(101),
            source: 101,
        })
    );
}
