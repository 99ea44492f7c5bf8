//! What a callable, or the error that stands in its place, says of the function it was made from.
use crate::callable::{
    free_fn_outcome, inputs_resolve_to, method_outcome, outcome_view, path_of, resolves_to,
    same_callable, signature_outcome, takes_self_as_ref, Callable, CallableResolutionError,
    GenericBindings, InvocationStyle, ResolvedPath, ResolvedPathView,
};
use crate::rustdoc::{Crate, Function, Id, Impl, Item, ItemEnum, PackageId, Type};
use crate::text::views;
use vstd::prelude::*;
use vstd::std_specs::cmp::PartialEqSpec;

verus! {

proof fn lemma_path(path: ResolvedPath, krate: &Crate, id: Id, rest: Seq<Seq<char>>)
    requires
        path@ == path_of(krate, id, rest),
    ensures
        path.qualified_self is None,
        path.package_id.0@ == krate.package_id.0@,
        path.segments@.len() == krate.import_index@[id.0].canonical_path@.len() + rest.len(),
        forall|i: int|
            0 <= i < krate.import_index@[id.0].canonical_path@.len() ==> (
            #[trigger] path.segments@[i]).ident@ == krate.import_index@[id.0].canonical_path@[i]@,
        rest.len() > 0 ==> path.segments@[path.segments@.len() - 1].ident@ == rest.last(),
{
    let known = krate.import_index@[id.0].canonical_path@;
    assert(path@.segments.len() == path.segments@.len());
    assert(views(known).len() == known.len());
    assert forall|i: int| 0 <= i < known.len() implies (#[trigger] path.segments@[i]).ident@
        == known[i]@ by {
        assert(path@.segments[i] == views(known)[i]);
    }
    if rest.len() > 0 {
        assert(path@.segments[path.segments@.len() - 1] == rest.last());
    }
}

#[verifier::rlimit(40)]
proof fn lemma_signature<'a, T, E, R: Fn(&Type, &PackageId, &GenericBindings<T>) -> Result<T, E>>(
    resolve: R,
    item: Item,
    krate: &Crate,
    function: Function,
    bindings: GenericBindings<T>,
    path: ResolvedPathView,
    by_ref: bool,
    res: Result<Callable<T>, CallableResolutionError<'a, E>>,
)
    requires
        item.inner == ItemEnum::Function(function),
        signature_outcome(
            resolve,
            item,
            krate.package_id,
            bindings,
            path,
            by_ref,
            outcome_view(res),
        ),
    ensures
        match res {
            Ok(callable) => {
                &&& callable.is_async == function.is_async
                &&& callable.takes_self_as_ref == by_ref
                &&& callable.invocation_style == InvocationStyle::FunctionCall
                &&& callable.path@ == path
                &&& callable.source_coordinates is Some
                &&& callable.source_coordinates->0.rustdoc_item_id.0 == item.id.0
                &&& callable.source_coordinates->0.package_id.0@ == krate.package_id.0@
                &&& callable.inputs@.len() == function.sig.inputs@.len()
                &&& forall|i: int|
                    0 <= i < callable.inputs@.len() ==> call_ensures(
                        resolve,
                        (&function.sig.inputs@[i].1, &krate.package_id, &bindings),
                        Ok::<T, E>(#[trigger] callable.inputs@[i]),
                    )
                &&& (callable.output is Some) == (function.sig.output is Some)
                &&& callable.output is Some ==> call_ensures(
                    resolve,
                    (&function.sig.output->0, &krate.package_id, &bindings),
                    Ok::<T, E>(callable.output->0),
                )
            },
            Err(
                CallableResolutionError::InputParameterResolutionError {
                    callable_path,
                    callable_item,
                    parameter_type,
                    parameter_index,
                    source,
                },
            ) => {
                &&& callable_path@ == path
                &&& *callable_item == item
                &&& parameter_index < function.sig.inputs@.len()
                &&& *parameter_type == function.sig.inputs@[parameter_index as int].1
                &&& call_ensures(
                    resolve,
                    (parameter_type, &krate.package_id, &bindings),
                    Err::<T, E>(source),
                )
                &&& exists|types: Seq<T>|
                    {
                        &&& #[trigger] types.len() == parameter_index
                        &&& forall|i: int|
                            0 <= i < types.len() ==> call_ensures(
                                resolve,
                                (&function.sig.inputs@[i].1, &krate.package_id, &bindings),
                                Ok::<T, E>(#[trigger] types[i]),
                            )
                    }
            },
            Err(
                CallableResolutionError::OutputTypeResolutionError {
                    callable_path,
                    callable_item,
                    output_type,
                    source,
                },
            ) => {
                &&& callable_path@ == path
                &&& *callable_item == item
                &&& function.sig.output == Some(*output_type)
                &&& call_ensures(
                    resolve,
                    (output_type, &krate.package_id, &bindings),
                    Err::<T, E>(source),
                )
                &&& exists|types: Seq<T>|
                    {
                        &&& #[trigger] types.len() == function.sig.inputs@.len()
                        &&& forall|i: int|
                            0 <= i < types.len() ==> call_ensures(
                                resolve,
                                (&function.sig.inputs@[i].1, &krate.package_id, &bindings),
                                Ok::<T, E>(#[trigger] types[i]),
                            )
                    }
            },
            Err(CallableResolutionError::SelfResolutionError { .. }) => false,
        },
{
    let inputs = function.sig.inputs@;
    match res {
        Ok(callable) => {
            assert forall|i: int| 0 <= i < callable.inputs@.len() implies call_ensures(
                resolve,
                (&inputs[i].1, &krate.package_id, &bindings),
                Ok::<T, E>(#[trigger] callable.inputs@[i]),
            ) by {
                assert(resolves_to(
                    resolve,
                    inputs[i].1,
                    krate.package_id,
                    bindings,
                    Ok::<T, E>(callable@.inputs[i]),
                ));
            }
        },
        Err(CallableResolutionError::InputParameterResolutionError { parameter_index, .. }) => {
            let known = inputs.take(parameter_index as int);
            let types = choose|types: Seq<T>|
                inputs_resolve_to(resolve, known, krate.package_id, bindings, types);
            assert(types.len() == parameter_index);
            assert forall|i: int| 0 <= i < types.len() implies call_ensures(
                resolve,
                (&inputs[i].1, &krate.package_id, &bindings),
                Ok::<T, E>(#[trigger] types[i]),
            ) by {
                assert(resolves_to(
                    resolve,
                    known[i].1,
                    krate.package_id,
                    bindings,
                    Ok::<T, E>(types[i]),
                ));
            }
        },
        Err(CallableResolutionError::OutputTypeResolutionError { .. }) => {
            let types = choose|types: Seq<T>|
                inputs_resolve_to(resolve, inputs, krate.package_id, bindings, types);
            assert(types.len() == inputs.len());
            assert forall|i: int| 0 <= i < types.len() implies call_ensures(
                resolve,
                (&inputs[i].1, &krate.package_id, &bindings),
                Ok::<T, E>(#[trigger] types[i]),
            ) by {
                assert(resolves_to(
                    resolve,
                    inputs[i].1,
                    krate.package_id,
                    bindings,
                    Ok::<T, E>(types[i]),
                ));
            }
        },
        _ => {},
    }
}

/// What comes of a free function says of it what it is: a callable is async just where the
/// function is, takes no `self`, has the canonical path of the function, and takes and returns what
/// the types of the signature resolve to; an error names the first type that cannot be resolved.
#[verifier::rlimit(40)]
pub proof fn law_free_function_becomes_its_callable<
    'a,
    T,
    E,
    R: Fn(&Type, &PackageId, &GenericBindings<T>) -> Result<T, E>,
>(
    resolve: R,
    item: Item,
    krate: &Crate,
    function: Function,
    res: Result<Callable<T>, CallableResolutionError<'a, E>>,
)
    requires
        item.inner == ItemEnum::Function(function),
        free_fn_outcome(resolve, item, krate, outcome_view(res)),
    ensures
        match res {
            Ok(callable) => {
                &&& callable.is_async == function.is_async
                &&& callable.takes_self_as_ref == false
                &&& callable.invocation_style == InvocationStyle::FunctionCall
                &&& callable.path.qualified_self is None
                &&& callable.path.package_id.0@ == krate.package_id.0@
                &&& callable.path.segments@.len() == krate.import_index@[item.id.0].canonical_path@.len()
                &&& forall|i: int|
                    0 <= i < krate.import_index@[item.id.0].canonical_path@.len() ==> (
                    #[trigger] callable.path.segments@[i]).ident@ == krate.import_index@[item.id.0].canonical_path@[i]@
                &&& callable.source_coordinates is Some
                &&& callable.source_coordinates->0.rustdoc_item_id.0 == item.id.0
                &&& callable.source_coordinates->0.package_id.0@ == krate.package_id.0@
                &&& callable.inputs@.len() == function.sig.inputs@.len()
                &&& forall|i: int|
                    0 <= i < callable.inputs@.len() ==> call_ensures(
                        resolve,
                        (&function.sig.inputs@[i].1, &krate.package_id, &GenericBindings { self_: None::<T> }),
                        Ok::<T, E>(#[trigger] callable.inputs@[i]),
                    )
                &&& (callable.output is Some) == (function.sig.output is Some)
                &&& callable.output is Some ==> call_ensures(
                    resolve,
                    (&function.sig.output->0, &krate.package_id, &GenericBindings { self_: None::<T> }),
                    Ok::<T, E>(callable.output->0),
                )
            },
            Err(
                CallableResolutionError::InputParameterResolutionError {
                    callable_path,
                    callable_item,
                    parameter_type,
                    parameter_index,
                    source,
                },
            ) => {
                &&& callable_path.qualified_self is None
                &&& callable_path.package_id.0@ == krate.package_id.0@
                &&& callable_path.segments@.len() == krate.import_index@[item.id.0].canonical_path@.len()
                &&& forall|i: int|
                    0 <= i < krate.import_index@[item.id.0].canonical_path@.len() ==> (
                    #[trigger] callable_path.segments@[i]).ident@ == krate.import_index@[item.id.0].canonical_path@[i]@
                &&& *callable_item == item
                &&& parameter_index < function.sig.inputs@.len()
                &&& *parameter_type == function.sig.inputs@[parameter_index as int].1
                &&& call_ensures(
                    resolve,
                    (parameter_type, &krate.package_id, &GenericBindings { self_: None::<T> }),
                    Err::<T, E>(source),
                )
                &&& exists|types: Seq<T>|
                    {
                        &&& #[trigger] types.len() == parameter_index
                        &&& forall|i: int|
                            0 <= i < types.len() ==> call_ensures(
                                resolve,
                                (&function.sig.inputs@[i].1, &krate.package_id, &GenericBindings { self_: None::<T> }),
                                Ok::<T, E>(#[trigger] types[i]),
                            )
                    }
            },
            Err(
                CallableResolutionError::OutputTypeResolutionError {
                    callable_path,
                    callable_item,
                    output_type,
                    source,
                },
            ) => {
                &&& callable_path.qualified_self is None
                &&& callable_path.package_id.0@ == krate.package_id.0@
                &&& callable_path.segments@.len() == krate.import_index@[item.id.0].canonical_path@.len()
                &&& forall|i: int|
                    0 <= i < krate.import_index@[item.id.0].canonical_path@.len() ==> (
                    #[trigger] callable_path.segments@[i]).ident@ == krate.import_index@[item.id.0].canonical_path@[i]@
                &&& *callable_item == item
                &&& function.sig.output == Some(*output_type)
                &&& call_ensures(
                    resolve,
                    (output_type, &krate.package_id, &GenericBindings { self_: None::<T> }),
                    Err::<T, E>(source),
                )
                &&& exists|types: Seq<T>|
                    {
                        &&& #[trigger] types.len() == function.sig.inputs@.len()
                        &&& forall|i: int|
                            0 <= i < types.len() ==> call_ensures(
                                resolve,
                                (&function.sig.inputs@[i].1, &krate.package_id, &GenericBindings { self_: None::<T> }),
                                Ok::<T, E>(#[trigger] types[i]),
                            )
                    }
            },
            Err(CallableResolutionError::SelfResolutionError { .. }) => false,
        },
{
    let path = path_of(krate, item.id, seq![]);
    lemma_signature(
        resolve,
        item,
        krate,
        function,
        GenericBindings { self_: None },
        path,
        false,
        res,
    );
    match res {
        Ok(callable) => lemma_path(callable.path, krate, item.id, seq![]),
        Err(CallableResolutionError::InputParameterResolutionError { callable_path, .. }) => {
            lemma_path(callable_path, krate, item.id, seq![])
        },
        Err(CallableResolutionError::OutputTypeResolutionError { callable_path, .. }) => {
            lemma_path(callable_path, krate, item.id, seq![])
        },
        _ => {},
    }
}

/// What comes of a method says of it what it is: a callable is async just where the method is, has
/// the canonical path of the type with the name of the method behind it, and takes and returns what
/// the types of the signature resolve to where `Self` stands for the type of the `impl` block. It
/// takes `self` by reference where the first parameter is a reference to `Self`, with any lifetime
/// and mutable or not, and nowhere else. An error names the first type that cannot be resolved.
#[verifier::rlimit(40)]
pub proof fn law_method_becomes_its_callable<
    'a,
    T,
    E,
    R: Fn(&Type, &PackageId, &GenericBindings<T>) -> Result<T, E>,
>(
    resolve: R,
    self_id: Id,
    impl_id: Id,
    block: Impl,
    item: Item,
    name: String,
    krate: &Crate,
    function: Function,
    res: Result<Callable<T>, CallableResolutionError<'a, E>>,
)
    requires
        item.inner == ItemEnum::Function(function),
        item.name == Some(name),
        krate.items@[impl_id.0].inner == ItemEnum::Impl(block),
        method_outcome(resolve, self_id, impl_id, item, krate, outcome_view(res)),
    ensures
        match res {
            Err(CallableResolutionError::SelfResolutionError { path, source }) => {
                &&& path.qualified_self is None
                &&& path.package_id.0@ == krate.package_id.0@
                &&& path.segments@.len() == krate.import_index@[self_id.0].canonical_path@.len() + 1
                &&& forall|i: int|
                    0 <= i < krate.import_index@[self_id.0].canonical_path@.len() ==> (
                    #[trigger] path.segments@[i]).ident@ == krate.import_index@[self_id.0].canonical_path@[i]@
                &&& path.segments@[path.segments@.len() - 1].ident@ == name@
                &&& call_ensures(
                    resolve,
                    (&block.for_, &krate.package_id, &GenericBindings { self_: None::<T> }),
                    Err::<T, E>(source),
                )
            },
            _ => exists|self_ty: T|
                {
                    &&& #[trigger] call_ensures(
                        resolve,
                        (&block.for_, &krate.package_id, &GenericBindings { self_: None::<T> }),
                        Ok::<T, E>(self_ty),
                    )
                    &&& match res {
                        Ok(callable) => {
                            &&& callable.is_async == function.is_async
                            &&& callable.takes_self_as_ref == (function.sig.inputs@.len() > 0
                                && match function.sig.inputs@[0].1 {
                                Type::BorrowedRef { type_, .. } => match *type_ {
                                    Type::Generic(g) => g@ == "Self"@,
                                    _ => false,
                                },
                                _ => false,
                            })
                            &&& callable.invocation_style == InvocationStyle::FunctionCall
                            &&& callable.path.qualified_self is None
                            &&& callable.path.package_id.0@ == krate.package_id.0@
                            &&& callable.path.segments@.len() == krate.import_index@[self_id.0].canonical_path@.len() + 1
                            &&& forall|i: int|
                                0 <= i < krate.import_index@[self_id.0].canonical_path@.len() ==> (
                                #[trigger] callable.path.segments@[i]).ident@ == krate.import_index@[self_id.0].canonical_path@[i]@
                            &&& callable.path.segments@[callable.path.segments@.len() - 1].ident@ == name@
                            &&& callable.source_coordinates is Some
                            &&& callable.source_coordinates->0.rustdoc_item_id.0 == item.id.0
                            &&& callable.source_coordinates->0.package_id.0@ == krate.package_id.0@
                            &&& callable.inputs@.len() == function.sig.inputs@.len()
                            &&& forall|i: int|
                                0 <= i < callable.inputs@.len() ==> call_ensures(
                                    resolve,
                                    (&function.sig.inputs@[i].1, &krate.package_id, &GenericBindings { self_: Some(self_ty) }),
                                    Ok::<T, E>(#[trigger] callable.inputs@[i]),
                                )
                            &&& (callable.output is Some) == (function.sig.output is Some)
                            &&& callable.output is Some ==> call_ensures(
                                resolve,
                                (&function.sig.output->0, &krate.package_id, &GenericBindings { self_: Some(self_ty) }),
                                Ok::<T, E>(callable.output->0),
                            )
                        },
                        Err(
                            CallableResolutionError::InputParameterResolutionError {
                                callable_path,
                                callable_item,
                                parameter_type,
                                parameter_index,
                                source,
                            },
                        ) => {
                            &&& callable_path.qualified_self is None
                            &&& callable_path.package_id.0@ == krate.package_id.0@
                            &&& callable_path.segments@.len() == krate.import_index@[self_id.0].canonical_path@.len() + 1
                            &&& forall|i: int|
                                0 <= i < krate.import_index@[self_id.0].canonical_path@.len() ==> (
                                #[trigger] callable_path.segments@[i]).ident@ == krate.import_index@[self_id.0].canonical_path@[i]@
                            &&& callable_path.segments@[callable_path.segments@.len() - 1].ident@ == name@
                            &&& *callable_item == item
                            &&& parameter_index < function.sig.inputs@.len()
                            &&& *parameter_type == function.sig.inputs@[parameter_index as int].1
                            &&& call_ensures(
                                resolve,
                                (parameter_type, &krate.package_id, &GenericBindings { self_: Some(self_ty) }),
                                Err::<T, E>(source),
                            )
                            &&& exists|types: Seq<T>|
                                {
                                    &&& #[trigger] types.len() == parameter_index
                                    &&& forall|i: int|
                                        0 <= i < types.len() ==> call_ensures(
                                            resolve,
                                            (&function.sig.inputs@[i].1, &krate.package_id, &GenericBindings { self_: Some(self_ty) }),
                                            Ok::<T, E>(#[trigger] types[i]),
                                        )
                                }
                        },
                        Err(
                            CallableResolutionError::OutputTypeResolutionError {
                                callable_path,
                                callable_item,
                                output_type,
                                source,
                            },
                        ) => {
                            &&& callable_path.qualified_self is None
                            &&& callable_path.package_id.0@ == krate.package_id.0@
                            &&& callable_path.segments@.len() == krate.import_index@[self_id.0].canonical_path@.len() + 1
                            &&& forall|i: int|
                                0 <= i < krate.import_index@[self_id.0].canonical_path@.len() ==> (
                                #[trigger] callable_path.segments@[i]).ident@ == krate.import_index@[self_id.0].canonical_path@[i]@
                            &&& callable_path.segments@[callable_path.segments@.len() - 1].ident@ == name@
                            &&& *callable_item == item
                            &&& function.sig.output == Some(*output_type)
                            &&& call_ensures(
                                resolve,
                                (output_type, &krate.package_id, &GenericBindings { self_: Some(self_ty) }),
                                Err::<T, E>(source),
                            )
                            &&& exists|types: Seq<T>|
                                {
                                    &&& #[trigger] types.len() == function.sig.inputs@.len()
                                    &&& forall|i: int|
                                        0 <= i < types.len() ==> call_ensures(
                                            resolve,
                                            (&function.sig.inputs@[i].1, &krate.package_id, &GenericBindings { self_: Some(self_ty) }),
                                            Ok::<T, E>(#[trigger] types[i]),
                                        )
                                }
                        },
                        Err(CallableResolutionError::SelfResolutionError { .. }) => false,
                    }
                },
        },
{
    let rest = seq![name@];
    let path = path_of(krate, self_id, rest);
    match res {
        Ok(callable) => lemma_path(callable.path, krate, self_id, rest),
        Err(CallableResolutionError::InputParameterResolutionError { callable_path, .. }) => {
            if callable_path@ == path {
                lemma_path(callable_path, krate, self_id, rest)
            }
        },
        Err(CallableResolutionError::OutputTypeResolutionError { callable_path, .. }) => {
            if callable_path@ == path {
                lemma_path(callable_path, krate, self_id, rest)
            }
        },
        Err(CallableResolutionError::SelfResolutionError { path: p, .. }) => {
            lemma_path(p, krate, self_id, rest)
        },
    }
    if !(res matches Err(CallableResolutionError::SelfResolutionError { .. })) {
        let none = GenericBindings { self_: None::<T> };
        let by_ref = takes_self_as_ref(function.sig.inputs@);
        let self_ty = choose|self_ty: T|
            {
                &&& #[trigger] resolves_to(
                    resolve,
                    block.for_,
                    krate.package_id,
                    none,
                    Ok::<T, E>(self_ty),
                )
                &&& signature_outcome(
                    resolve,
                    item,
                    krate.package_id,
                    GenericBindings { self_: Some(self_ty) },
                    path,
                    by_ref,
                    outcome_view(res),
                )
            };
        assert(call_ensures(resolve, (&block.for_, &krate.package_id, &none), Ok::<T, E>(self_ty)));
        lemma_signature(
            resolve,
            item,
            krate,
            function,
            GenericBindings { self_: Some(self_ty) },
            path,
            by_ref,
            res,
        );
    }
}

/// A method whose first parameter is a reference to `Self`, with any lifetime and mutable or not,
/// takes `self` by reference; so does no method with another first parameter, and none without
/// parameters.
pub proof fn law_references_to_self_are_recognised<
    'a,
    T,
    E,
    R: Fn(&Type, &PackageId, &GenericBindings<T>) -> Result<T, E>,
>(
    resolve: R,
    self_id: Id,
    impl_id: Id,
    item: Item,
    krate: &Crate,
    function: Function,
    lifetime: Option<String>,
    is_mutable: bool,
    referent: Type,
    callable: Callable<T>,
)
    requires
        item.inner == ItemEnum::Function(function),
        method_outcome(
            resolve,
            self_id,
            impl_id,
            item,
            krate,
            outcome_view(Ok::<Callable<T>, CallableResolutionError<'a, E>>(callable)),
        ),
    ensures
        function.sig.inputs@.len() == 0 ==> !callable.takes_self_as_ref,
        function.sig.inputs@.len() > 0 && function.sig.inputs@[0].1 == (Type::BorrowedRef {
            lifetime,
            is_mutable,
            type_: Box::new(referent),
        }) ==> (callable.takes_self_as_ref <==> (referent matches Type::Generic(name) && name@
            == "Self"@)),
        function.sig.inputs@.len() > 0 && !(function.sig.inputs@[0].1 is BorrowedRef)
            ==> !callable.takes_self_as_ref,
{
}

/// Two callables are the same where all that is said of them agrees, the types that they take and
/// return included; and nowhere else.
#[verifier::rlimit(40)]
pub proof fn law_same_callables_agree_in_all<T: PartialEq>(a: Callable<T>, b: Callable<T>)
    requires
        forall|x: T, y: T| #[trigger] x.eq_spec(&y) <==> x == y,
    ensures
        same_callable(a@, b@) <==> {
            &&& a.is_async == b.is_async
            &&& a.takes_self_as_ref == b.takes_self_as_ref
            &&& a.output == b.output
            &&& a.inputs@ == b.inputs@
            &&& a.path.segments@.len() == b.path.segments@.len()
            &&& forall|i: int|
                0 <= i < a.path.segments@.len() ==> (#[trigger] a.path.segments@[i]).ident@
                    == b.path.segments@[i].ident@
            &&& a.path.package_id.0@ == b.path.package_id.0@
            &&& match (a.path.qualified_self, b.path.qualified_self) {
                (Some(x), Some(y)) => x@ == y@,
                (None, None) => true,
                _ => false,
            }
            &&& match (a.source_coordinates, b.source_coordinates) {
                (Some(x), Some(y)) => x.rustdoc_item_id.0 == y.rustdoc_item_id.0
                    && x.package_id.0@ == y.package_id.0@,
                (None, None) => true,
                _ => false,
            }
        },
{
    let (x, y) = (a@, b@);
    if same_callable(x, y) {
        assert forall|i: int| 0 <= i < a.inputs@.len() implies a.inputs@[i] == b.inputs@[i] by {
            assert(x.inputs[i].eq_spec(&y.inputs[i]));
        }
        assert(a.inputs@ =~= b.inputs@);
        assert forall|i: int| 0 <= i < a.path.segments@.len() implies (
        #[trigger] a.path.segments@[i]).ident@ == b.path.segments@[i].ident@ by {
            assert(x.path.segments[i] == y.path.segments[i]);
        }
    }
    if a.path.segments@.len() == b.path.segments@.len() && forall|i: int|
        0 <= i < a.path.segments@.len() ==> (#[trigger] a.path.segments@[i]).ident@
            == b.path.segments@[i].ident@ {
        assert(x.path.segments =~= y.path.segments);
    }
}

/// Two references are spelt the same where their lifetimes are, they are both mutable or both not,
/// and what they refer to is spelt the same; two generic parameters where their names are the same.
/// A reference, a generic parameter and another type are never spelt the same.
pub proof fn law_spellings_differ(a: Type, b: Type)
    ensures
        a@ == b@ <==> match (a, b) {
            (
                Type::BorrowedRef { lifetime: l, is_mutable: m, type_: t },
                Type::BorrowedRef { lifetime, is_mutable, type_ },
            ) => {
                &&& (l is Some) == (lifetime is Some)
                &&& l is Some ==> l->0@ == lifetime->0@
                &&& m == is_mutable
                &&& (*t)@ == (*type_)@
            },
            (Type::Generic(x), Type::Generic(y)) => x@ == y@,
            (Type::Other(x), Type::Other(y)) => x == y,
            _ => false,
        },
{
}

} // verus!
