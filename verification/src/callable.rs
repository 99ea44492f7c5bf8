//! Functions and methods as callables: their path, and what they take and return.
use crate::rustdoc::{Crate, Function, GlobalItemId, Id, Item, ItemEnum, PackageId, Type, TypeView};
use crate::text::views;
use vstd::prelude::*;
use vstd::std_specs::cmp::PartialEqSpec;

verus! {

/// The types that generic parameters stand for.
#[derive(Debug, PartialEq, Eq)]
pub struct GenericBindings<T> {
    /// The type that `Self` stands for.
    pub self_: Option<T>,
}

/// One segment of a path.
#[derive(Debug, PartialEq, Eq)]
pub struct ResolvedPathSegment {
    pub ident: String,
}

impl ResolvedPathSegment {
    /// A segment without generic arguments.
    pub fn new(ident: String) -> (res: Self)
        ensures
            res.ident == ident,
    {
        ResolvedPathSegment { ident }
    }
}

/// An absolute path, and the package that it starts from.
#[derive(Debug, PartialEq, Eq)]
pub struct ResolvedPath {
    pub segments: Vec<ResolvedPathSegment>,
    /// The type in front of the path, for a path of the form `<Type>::segments`.
    pub qualified_self: Option<Type>,
    pub package_id: PackageId,
}

/// An absolute path, and the package that it starts from.
#[verifier::ext_equal]
pub ghost struct ResolvedPathView {
    pub segments: Seq<Seq<char>>,
    pub qualified_self: Option<TypeView>,
    pub package_id: Seq<char>,
}

impl View for ResolvedPath {
    type V = ResolvedPathView;

    open spec fn view(&self) -> ResolvedPathView {
        ResolvedPathView {
            segments: self.segments@.map_values(|s: ResolvedPathSegment| s.ident@),
            qualified_self: match self.qualified_self {
                Some(ty) => Some(ty@),
                None => None,
            },
            package_id: self.package_id.0@,
        }
    }
}

impl ResolvedPath {
    /// Whether `self` and `other` are the same path.
    pub fn same(&self, other: &ResolvedPath) -> (res: bool)
        ensures
            res == (self@ == other@),
    {
        let same_self = match (&self.qualified_self, &other.qualified_self) {
            (Some(a), Some(b)) => a.same(b),
            (None, None) => true,
            _ => false,
        };
        if !same_self || self.package_id.0 != other.package_id.0 || self.segments.len()
            != other.segments.len() {
            assert(self@.segments.len() == self.segments@.len());
            assert(other@.segments.len() == other.segments@.len());
            return false;
        }
        let mut i: usize = 0;
        while i < self.segments.len()
            invariant
                i <= self.segments@.len(),
                self.segments@.len() == other.segments@.len(),
                forall|j: int|
                    0 <= j < i ==> self.segments@[j].ident@ == other.segments@[j].ident@,
            decreases self.segments@.len() - i,
        {
            if self.segments[i].ident != other.segments[i].ident {
                assert(self@.segments[i as int] != other@.segments[i as int]);
                return false;
            }
            i = i + 1;
        }
        assert(self@.segments =~= other@.segments);
        true
    }
}

/// How a callable is invoked.
#[derive(Debug, Copy, Clone, PartialEq, Eq, Structural)]
pub enum InvocationStyle {
    /// As a function, with its arguments in order.
    FunctionCall,
}

/// A function or a method that can be invoked.
#[derive(Debug, PartialEq, Eq)]
pub struct Callable<T> {
    pub is_async: bool,
    /// Whether the first parameter is `&self` or `&mut self`.
    pub takes_self_as_ref: bool,
    pub output: Option<T>,
    pub path: ResolvedPath,
    pub inputs: Vec<T>,
    pub invocation_style: InvocationStyle,
    /// The item that the callable was made from.
    pub source_coordinates: Option<GlobalItemId>,
}

/// A function or a method that can be invoked.
#[verifier::ext_equal]
pub ghost struct CallableView<T> {
    pub is_async: bool,
    pub takes_self_as_ref: bool,
    pub output: Option<T>,
    pub path: ResolvedPathView,
    pub inputs: Seq<T>,
    pub invocation_style: InvocationStyle,
    pub source_coordinates: Option<(u32, Seq<char>)>,
}

impl<T> View for Callable<T> {
    type V = CallableView<T>;

    open spec fn view(&self) -> CallableView<T> {
        CallableView {
            is_async: self.is_async,
            takes_self_as_ref: self.takes_self_as_ref,
            output: self.output,
            path: self.path@,
            inputs: self.inputs@,
            invocation_style: self.invocation_style,
            source_coordinates: match self.source_coordinates {
                Some(id) => Some(id@),
                None => None,
            },
        }
    }
}

/// Whether `a` and `b` are the same callable: they agree in all, and the types that they take and
/// return are equal.
pub open spec fn same_callable<T: PartialEq>(a: CallableView<T>, b: CallableView<T>) -> bool {
    &&& a.is_async == b.is_async
    &&& a.takes_self_as_ref == b.takes_self_as_ref
    &&& a.path == b.path
    &&& a.invocation_style == b.invocation_style
    &&& a.source_coordinates == b.source_coordinates
    &&& match (a.output, b.output) {
        (Some(x), Some(y)) => x.eq_spec(&y),
        (None, None) => true,
        _ => false,
    }
    &&& a.inputs.len() == b.inputs.len()
    &&& forall|i: int| 0 <= i < a.inputs.len() ==> (#[trigger] a.inputs[i]).eq_spec(&b.inputs[i])
}

/// Whether every value is equal to itself.
pub open spec fn equals_itself<T: PartialEq>() -> bool {
    forall|x: T| #[trigger] x.eq_spec(&x)
}

impl<T: PartialEq> Callable<T> {
    /// Whether `self` and `other` are the same callable.
    pub fn same(&self, other: &Callable<T>) -> (res: bool)
        requires
            T::obeys_eq_spec(),
        ensures
            res == same_callable(self@, other@),
    {
        let same_output = match (&self.output, &other.output) {
            (Some(a), Some(b)) => *a == *b,
            (None, None) => true,
            _ => false,
        };
        let same_source = match (&self.source_coordinates, &other.source_coordinates) {
            (Some(a), Some(b)) => a.same(b),
            (None, None) => true,
            _ => false,
        };
        if !same_output || !same_source || self.is_async != other.is_async || self.takes_self_as_ref
            != other.takes_self_as_ref || self.invocation_style != other.invocation_style
            || !self.path.same(&other.path) || self.inputs.len() != other.inputs.len() {
            return false;
        }
        let mut i: usize = 0;
        while i < self.inputs.len()
            invariant
                T::obeys_eq_spec(),
                i <= self.inputs@.len(),
                self.inputs@.len() == other.inputs@.len(),
                forall|j: int|
                    0 <= j < i ==> (#[trigger] self.inputs@[j]).eq_spec(&other.inputs@[j]),
            decreases self.inputs@.len() - i,
        {
            if !(self.inputs[i] == other.inputs[i]) {
                assert(!self@.inputs[i as int].eq_spec(&other@.inputs[i as int]));
                return false;
            }
            i = i + 1;
        }
        true
    }
}

/// Why an item could not be made into a callable.
#[derive(Debug, PartialEq, Eq)]
pub enum CallableResolutionError<'a, E> {
    /// The type of a parameter could not be resolved.
    InputParameterResolutionError {
        callable_path: ResolvedPath,
        callable_item: &'a Item,
        parameter_type: &'a Type,
        parameter_index: usize,
        source: E,
    },
    /// The type of the output could not be resolved.
    OutputTypeResolutionError {
        callable_path: ResolvedPath,
        callable_item: &'a Item,
        output_type: &'a Type,
        source: E,
    },
    /// The type that the `impl` block is for could not be resolved.
    SelfResolutionError { path: ResolvedPath, source: E },
}

/// Why an item could not be made into a callable.
pub ghost enum CallableResolutionErrorView<E> {
    Input {
        path: ResolvedPathView,
        item: Item,
        parameter_type: Type,
        parameter_index: int,
        source: E,
    },
    Output { path: ResolvedPathView, item: Item, output_type: Type, source: E },
    Self_ { path: ResolvedPathView, source: E },
}

impl<'a, E> View for CallableResolutionError<'a, E> {
    type V = CallableResolutionErrorView<E>;

    open spec fn view(&self) -> CallableResolutionErrorView<E> {
        match *self {
            CallableResolutionError::InputParameterResolutionError {
                callable_path,
                callable_item,
                parameter_type,
                parameter_index,
                source,
            } => CallableResolutionErrorView::Input {
                path: callable_path@,
                item: *callable_item,
                parameter_type: *parameter_type,
                parameter_index: parameter_index as int,
                source,
            },
            CallableResolutionError::OutputTypeResolutionError {
                callable_path,
                callable_item,
                output_type,
                source,
            } => CallableResolutionErrorView::Output {
                path: callable_path@,
                item: *callable_item,
                output_type: *output_type,
                source,
            },
            CallableResolutionError::SelfResolutionError {
                path,
                source,
            } => CallableResolutionErrorView::Self_ { path: path@, source },
        }
    }
}

/// Whether `resolve` can give `outcome` for `ty`, in the package `package_id` and under
/// `bindings`.
pub open spec fn resolves_to<T, E, R: Fn(&Type, &PackageId, &GenericBindings<T>) -> Result<T, E>>(
    resolve: R,
    ty: Type,
    package_id: PackageId,
    bindings: GenericBindings<T>,
    outcome: Result<T, E>,
) -> bool {
    call_ensures(resolve, (&ty, &package_id, &bindings), outcome)
}

/// Whether `resolve` can be called on every type.
pub open spec fn resolves_any<T, E, R: Fn(&Type, &PackageId, &GenericBindings<T>) -> Result<T, E>>(
    resolve: R,
) -> bool {
    forall|ty: &Type, package_id: &PackageId, bindings: &GenericBindings<T>|
        call_requires(resolve, (ty, package_id, bindings))
}

/// Whether `resolve` can give `types` for the parameters `inputs`.
pub open spec fn inputs_resolve_to<
    T,
    E,
    R: Fn(&Type, &PackageId, &GenericBindings<T>) -> Result<T, E>,
>(
    resolve: R,
    inputs: Seq<(String, Type)>,
    package_id: PackageId,
    bindings: GenericBindings<T>,
    types: Seq<T>,
) -> bool {
    &&& types.len() == inputs.len()
    &&& forall|i: int|
        0 <= i < types.len() ==> resolves_to(
            resolve,
            (#[trigger] inputs[i]).1,
            package_id,
            bindings,
            Ok::<T, E>(types[i]),
        )
}

/// The path of the item `id`, and what follows it.
pub open spec fn path_of(krate: &Crate, id: Id, rest: Seq<Seq<char>>) -> ResolvedPathView {
    ResolvedPathView {
        segments: views(krate.entry(id).canonical_path@) + rest,
        qualified_self: None,
        package_id: krate.package_id.0@,
    }
}

/// Whether the first parameter of a method is `&self` or `&mut self`.
pub open spec fn takes_self_as_ref(inputs: Seq<(String, Type)>) -> bool {
    inputs.len() > 0 && inputs[0].1.is_self_ref()
}

/// Whether `outcome` can come of making the function `item` into a callable with the path `path`,
/// where the types of its signature are resolved under `bindings`. The parameters are resolved in
/// order, then the output; the first type that cannot be resolved is the one that is reported.
pub open spec fn signature_outcome<
    T,
    E,
    R: Fn(&Type, &PackageId, &GenericBindings<T>) -> Result<T, E>,
>(
    resolve: R,
    item: Item,
    package_id: PackageId,
    bindings: GenericBindings<T>,
    path: ResolvedPathView,
    by_ref: bool,
    outcome: Result<CallableView<T>, CallableResolutionErrorView<E>>,
) -> bool {
    let function = item.inner->Function_0;
    let inputs = function.sig.inputs@;
    match outcome {
        Ok(callable) => {
            &&& inputs_resolve_to(resolve, inputs, package_id, bindings, callable.inputs)
            &&& match function.sig.output {
                Some(ty) => callable.output is Some && resolves_to(
                    resolve,
                    ty,
                    package_id,
                    bindings,
                    Ok::<T, E>(callable.output->0),
                ),
                None => callable.output is None,
            }
            &&& callable.is_async == function.is_async
            &&& callable.takes_self_as_ref == by_ref
            &&& callable.path == path
            &&& callable.invocation_style == InvocationStyle::FunctionCall
            &&& callable.source_coordinates == Some((item.id.0, package_id.0@))
        },
        Err(
            CallableResolutionErrorView::Input {
                path: p,
                item: i,
                parameter_type,
                parameter_index,
                source,
            },
        ) => {
            &&& p == path
            &&& i == item
            &&& 0 <= parameter_index < inputs.len()
            &&& parameter_type == inputs[parameter_index].1
            &&& exists|types: Seq<T>|
                inputs_resolve_to(
                    resolve,
                    inputs.take(parameter_index),
                    package_id,
                    bindings,
                    types,
                )
            &&& resolves_to(resolve, parameter_type, package_id, bindings, Err::<T, E>(source))
        },
        Err(CallableResolutionErrorView::Output { path: p, item: i, output_type, source }) => {
            &&& p == path
            &&& i == item
            &&& function.sig.output == Some(output_type)
            &&& exists|types: Seq<T>|
                inputs_resolve_to(resolve, inputs, package_id, bindings, types)
            &&& resolves_to(resolve, output_type, package_id, bindings, Err::<T, E>(source))
        },
        Err(CallableResolutionErrorView::Self_ { .. }) => false,
    }
}

/// Whether `outcome` can come of making the free function `item` into a callable.
pub open spec fn free_fn_outcome<
    T,
    E,
    R: Fn(&Type, &PackageId, &GenericBindings<T>) -> Result<T, E>,
>(
    resolve: R,
    item: Item,
    krate: &Crate,
    outcome: Result<CallableView<T>, CallableResolutionErrorView<E>>,
) -> bool {
    // It's a free function, there's no `self`.
    signature_outcome(
        resolve,
        item,
        krate.package_id,
        GenericBindings { self_: None },
        path_of(krate, item.id, seq![]),
        false,
        outcome,
    )
}

/// Whether `outcome` can come of making the method `item` of the `impl` block `impl_id`, which is
/// for the type `self_id`, into a callable. The type that the block is for is resolved first, and
/// stands for `Self` in the signature of the method.
pub open spec fn method_outcome<
    T,
    E,
    R: Fn(&Type, &PackageId, &GenericBindings<T>) -> Result<T, E>,
>(
    resolve: R,
    self_id: Id,
    impl_id: Id,
    item: Item,
    krate: &Crate,
    outcome: Result<CallableView<T>, CallableResolutionErrorView<E>>,
) -> bool {
    let path = path_of(krate, self_id, seq![item.name->0@]);
    let for_ = krate.item(impl_id).inner->Impl_0.for_;
    match outcome {
        Err(CallableResolutionErrorView::Self_ { path: p, source }) => {
            &&& p == path
            &&& resolves_to(
                resolve,
                for_,
                krate.package_id,
                GenericBindings { self_: None },
                Err::<T, E>(source),
            )
        },
        _ => exists|self_ty: T|
            {
                &&& #[trigger] resolves_to(
                    resolve,
                    for_,
                    krate.package_id,
                    GenericBindings { self_: None },
                    Ok::<T, E>(self_ty),
                )
                &&& signature_outcome(
                    resolve,
                    item,
                    krate.package_id,
                    GenericBindings { self_: Some(self_ty) },
                    path,
                    takes_self_as_ref(item.inner->Function_0.sig.inputs@),
                    outcome,
                )
            },
    }
}

/// The outcome, with what it holds seen through its views.
pub open spec fn outcome_view<'a, T, E>(
    outcome: Result<Callable<T>, CallableResolutionError<'a, E>>,
) -> Result<CallableView<T>, CallableResolutionErrorView<E>> {
    match outcome {
        Ok(callable) => Ok(callable@),
        Err(e) => Err(e@),
    }
}

/// The path of the item `id`.
fn canonical_path(krate: &Crate, id: Id) -> (res: ResolvedPath)
    requires
        krate.has_entry(id),
    ensures
        res@ == path_of(krate, id, seq![]),
{
    let entry = krate.get_entry(&id);
    let mut segments: Vec<ResolvedPathSegment> = Vec::new();
    let mut i: usize = 0;
    while i < entry.canonical_path.len()
        invariant
            i == segments@.len(),
            i <= entry.canonical_path@.len(),
            forall|j: int| 0 <= j < i ==> segments@[j].ident@ == entry.canonical_path@[j]@,
        decreases entry.canonical_path@.len() - i,
    {
        segments.push(ResolvedPathSegment::new(entry.canonical_path[i].clone()));
        i = i + 1;
    }
    let res = ResolvedPath { segments, qualified_self: None, package_id: krate.package_id.clone() };
    assert(res@ =~= path_of(krate, id, seq![]));
    res
}

/// Makes the function `item` into a callable with the path `path`: resolves the types of its
/// signature under `bindings`.
fn signature2callable<'a, T, E, R: Fn(&Type, &PackageId, &GenericBindings<T>) -> Result<T, E>>(
    item: &'a Item,
    inner: &'a Function,
    krate: &Crate,
    path: ResolvedPath,
    by_ref: bool,
    bindings: &GenericBindings<T>,
    resolve_type: &R,
) -> (res: Result<Callable<T>, CallableResolutionError<'a, E>>)
    requires
        item.inner == ItemEnum::Function(*inner),
        resolves_any(*resolve_type),
    ensures
        signature_outcome(
            *resolve_type,
            *item,
            krate.package_id,
            *bindings,
            path@,
            by_ref,
            outcome_view(res),
        ),
{
    let mut inputs: Vec<T> = Vec::new();
    let mut parameter_index: usize = 0;
    while parameter_index < inner.sig.inputs.len()
        invariant
            item.inner == ItemEnum::Function(*inner),
            resolves_any(*resolve_type),
            parameter_index <= inner.sig.inputs@.len(),
            inputs_resolve_to(
                *resolve_type,
                inner.sig.inputs@.take(parameter_index as int),
                krate.package_id,
                *bindings,
                inputs@,
            ),
        decreases inner.sig.inputs@.len() - parameter_index,
    {
        let input_ty = &inner.sig.inputs[parameter_index].1;
        match resolve_type(input_ty, &krate.package_id, bindings) {
            Ok(t) => {
                inputs.push(t);
            },
            Err(e) => {
                return Err(
                    CallableResolutionError::InputParameterResolutionError {
                        callable_path: path,
                        callable_item: item,
                        parameter_type: input_ty,
                        parameter_index,
                        source: e,
                    },
                );
            },
        }
        proof {
            let short = inner.sig.inputs@.take(parameter_index as int);
            let long = inner.sig.inputs@.take(parameter_index + 1);
            assert forall|i: int| 0 <= i < inputs@.len() implies resolves_to(
                *resolve_type,
                (#[trigger] long[i]).1,
                krate.package_id,
                *bindings,
                Ok::<T, E>(inputs@[i]),
            ) by {
                if i < parameter_index {
                    assert(short[i] == long[i]);
                }
            }
        }
        parameter_index = parameter_index + 1;
    }
    assert(inner.sig.inputs@.take(parameter_index as int) =~= inner.sig.inputs@);
    let output = match &inner.sig.output {
        Some(output_ty) => {
            match resolve_type(output_ty, &krate.package_id, bindings) {
                Ok(t) => Some(t),
                Err(e) => {
                    return Err(
                        CallableResolutionError::OutputTypeResolutionError {
                            callable_path: path,
                            callable_item: item,
                            output_type: output_ty,
                            source: e,
                        },
                    );
                },
            }
        },
        None => None,
    };
    Ok(
        Callable {
            is_async: inner.is_async,
            takes_self_as_ref: by_ref,
            output,
            path,
            inputs,
            invocation_style: InvocationStyle::FunctionCall,
            source_coordinates: Some(
                GlobalItemId {
                    rustdoc_item_id: item.id,
                    package_id: krate.package_id.clone(),
                },
            ),
        },
    )
}

/// Convert a free function into a `Callable`.
pub fn rustdoc_free_fn2callable<
    'a,
    T,
    E,
    R: Fn(&Type, &PackageId, &GenericBindings<T>) -> Result<T, E>,
>(item: &'a Item, krate: &Crate, resolve_type: &R) -> (res: Result<
    Callable<T>,
    CallableResolutionError<'a, E>,
>)
    requires
        item.inner is Function,
        krate.has_entry(item.id),
        resolves_any(*resolve_type),
    ensures
        free_fn_outcome(*resolve_type, *item, krate, outcome_view(res)),
{
    let path = canonical_path(krate, item.id);
    let inner = match &item.inner {
        ItemEnum::Function(inner) => inner,
        _ => vstd::pervasive::unreached(),
    };
    // It's a free function, there's no `self`.
    signature2callable(
        item,
        inner,
        krate,
        path,
        false,
        &GenericBindings { self_: None },
        resolve_type,
    )
}

/// Whether `ty` is `&Self` or `&mut Self`.
fn is_self_ref(ty: &Type) -> (res: bool)
    ensures
        res == ty.is_self_ref(),
{
    if let Type::BorrowedRef { type_, .. } = ty {
        if let Type::Generic(g) = &**type_ {
            return *g == "Self".to_owned();
        }
    }
    false
}

/// Convert a method into a `Callable`.
pub fn rustdoc_method2callable<
    'a,
    T,
    E,
    R: Fn(&Type, &PackageId, &GenericBindings<T>) -> Result<T, E>,
>(
    self_id: Id,
    impl_id: Id,
    method_item: &'a Item,
    krate: &Crate,
    resolve_type: &R,
) -> (res: Result<Callable<T>, CallableResolutionError<'a, E>>)
    requires
        method_item.inner is Function,
        method_item.name is Some,
        krate.has_entry(self_id),
        krate.has_item(impl_id),
        krate.item(impl_id).inner is Impl,
        resolves_any(*resolve_type),
    ensures
        method_outcome(*resolve_type, self_id, impl_id, *method_item, krate, outcome_view(res)),
{
    let mut method_path = canonical_path(krate, self_id);
    method_path.segments.push(
        ResolvedPathSegment::new(method_item.name.as_ref().unwrap().clone()),
    );
    assert(method_path@ =~= path_of(krate, self_id, seq![method_item.name->0@]));
    let inner = match &method_item.inner {
        ItemEnum::Function(inner) => inner,
        _ => vstd::pervasive::unreached(),
    };
    let impl_item = match &krate.get_item_by_local_type_id(&impl_id).inner {
        ItemEnum::Impl(impl_item) => impl_item,
        _ => vstd::pervasive::unreached(),
    };
    let self_ty = match resolve_type(
        &impl_item.for_,
        &krate.package_id,
        &GenericBindings { self_: None },
    ) {
        Ok(t) => t,
        Err(e) => {
            return Err(
                CallableResolutionError::SelfResolutionError { path: method_path, source: e },
            );
        },
    };
    let ghost self_type = self_ty;
    let generic_bindings = GenericBindings { self_: Some(self_ty) };
    // The first parameter might be `&self` or `&mut self`.
    // This is important to know for carrying out further analysis down the line,
    // e.g. undoing lifetime elision.
    let takes_self_as_ref = inner.sig.inputs.len() > 0 && is_self_ref(&inner.sig.inputs[0].1);
    let res = signature2callable(
        method_item,
        inner,
        krate,
        method_path,
        takes_self_as_ref,
        &generic_bindings,
        resolve_type,
    );
    proof {
        assert(resolves_to(
            *resolve_type,
            impl_item.for_,
            krate.package_id,
            GenericBindings { self_: None },
            Ok::<T, E>(self_type),
        ));
    }
    res
}

/// Whether `resolve` gives the same outcome each time it is called on the same type, in the same
/// package and under the same bindings.
pub open spec fn is_deterministic<
    T,
    E,
    R: Fn(&Type, &PackageId, &GenericBindings<T>) -> Result<T, E>,
>(resolve: R) -> bool {
    forall|
        ty: Type,
        package_id: PackageId,
        bindings: GenericBindings<T>,
        a: Result<T, E>,
        b: Result<T, E>,
    |
        #[trigger] resolves_to(resolve, ty, package_id, bindings, a) && #[trigger] resolves_to(
            resolve,
            ty,
            package_id,
            bindings,
            b,
        ) ==> a == b
}

proof fn lemma_signature_outcome_is_determined<
    T,
    E,
    R: Fn(&Type, &PackageId, &GenericBindings<T>) -> Result<T, E>,
>(
    resolve: R,
    item: Item,
    package_id: PackageId,
    bindings: GenericBindings<T>,
    path: ResolvedPathView,
    by_ref: bool,
    a: Result<CallableView<T>, CallableResolutionErrorView<E>>,
    b: Result<CallableView<T>, CallableResolutionErrorView<E>>,
)
    requires
        is_deterministic(resolve),
        signature_outcome(resolve, item, package_id, bindings, path, by_ref, a),
        signature_outcome(resolve, item, package_id, bindings, path, by_ref, b),
    ensures
        a == b,
{
    let inputs = item.inner->Function_0.sig.inputs@;
    let m = lemma_resolved_inputs(resolve, item, package_id, bindings, path, by_ref, a);
    let n = lemma_resolved_inputs(resolve, item, package_id, bindings, path, by_ref, b);
    if let Err(CallableResolutionErrorView::Input { parameter_index, .. }) = a {
        if parameter_index < n.len() {
            assert(resolves_to(
                resolve,
                inputs[parameter_index].1,
                package_id,
                bindings,
                Ok::<T, E>(n[parameter_index]),
            ));
        }
    }
    if let Err(CallableResolutionErrorView::Input { parameter_index, .. }) = b {
        if parameter_index < m.len() {
            assert(resolves_to(
                resolve,
                inputs[parameter_index].1,
                package_id,
                bindings,
                Ok::<T, E>(m[parameter_index]),
            ));
        }
    }
    match (a, b) {
        (Ok(x), Ok(y)) => {
            assert forall|i: int| 0 <= i < x.inputs.len() implies x.inputs[i] == y.inputs[i] by {
                assert(resolves_to(
                    resolve,
                    inputs[i].1,
                    package_id,
                    bindings,
                    Ok::<T, E>(x.inputs[i]),
                ));
                assert(resolves_to(
                    resolve,
                    inputs[i].1,
                    package_id,
                    bindings,
                    Ok::<T, E>(y.inputs[i]),
                ));
            }
            assert(x =~= y);
        },
        _ => {},
    }
}

/// The types that the parameters resolve to, up to the first that cannot be resolved.
proof fn lemma_resolved_inputs<
    T,
    E,
    R: Fn(&Type, &PackageId, &GenericBindings<T>) -> Result<T, E>,
>(
    resolve: R,
    item: Item,
    package_id: PackageId,
    bindings: GenericBindings<T>,
    path: ResolvedPathView,
    by_ref: bool,
    outcome: Result<CallableView<T>, CallableResolutionErrorView<E>>,
) -> (types: Seq<T>)
    requires
        signature_outcome(resolve, item, package_id, bindings, path, by_ref, outcome),
    ensures
        types.len() == match outcome {
            Err(CallableResolutionErrorView::Input { parameter_index, .. }) => parameter_index,
            _ => item.inner->Function_0.sig.inputs@.len() as int,
        },
        forall|i: int|
            0 <= i < types.len() ==> resolves_to(
                resolve,
                (#[trigger] item.inner->Function_0.sig.inputs@[i]).1,
                package_id,
                bindings,
                Ok::<T, E>(types[i]),
            ),
{
    let inputs = item.inner->Function_0.sig.inputs@;
    match outcome {
        Ok(callable) => callable.inputs,
        Err(CallableResolutionErrorView::Input { parameter_index, .. }) => {
            let known = inputs.take(parameter_index);
            let types = choose|types: Seq<T>|
                inputs_resolve_to(resolve, known, package_id, bindings, types);
            assert forall|i: int| 0 <= i < types.len() implies resolves_to(
                resolve,
                (#[trigger] inputs[i]).1,
                package_id,
                bindings,
                Ok::<T, E>(types[i]),
            ) by {
                assert(known[i] == inputs[i]);
            }
            types
        },
        _ => choose|types: Seq<T>|
            inputs_resolve_to(resolve, inputs, package_id, bindings, types),
    }
}

/// Where the resolution of types is deterministic, one callable or one error can come of a free
/// function.
pub proof fn law_free_functions_have_one_outcome<
    T,
    E,
    R: Fn(&Type, &PackageId, &GenericBindings<T>) -> Result<T, E>,
>(
    resolve: R,
    item: Item,
    krate: &Crate,
    a: Result<CallableView<T>, CallableResolutionErrorView<E>>,
    b: Result<CallableView<T>, CallableResolutionErrorView<E>>,
)
    requires
        is_deterministic(resolve),
        free_fn_outcome(resolve, item, krate, a),
        free_fn_outcome(resolve, item, krate, b),
    ensures
        a == b,
{
    lemma_signature_outcome_is_determined(
        resolve,
        item,
        krate.package_id,
        GenericBindings { self_: None },
        path_of(krate, item.id, seq![]),
        false,
        a,
        b,
    );
}

/// Where the resolution of types is deterministic, one callable or one error can come of a method.
pub proof fn law_methods_have_one_outcome<
    T,
    E,
    R: Fn(&Type, &PackageId, &GenericBindings<T>) -> Result<T, E>,
>(
    resolve: R,
    self_id: Id,
    impl_id: Id,
    item: Item,
    krate: &Crate,
    a: Result<CallableView<T>, CallableResolutionErrorView<E>>,
    b: Result<CallableView<T>, CallableResolutionErrorView<E>>,
)
    requires
        is_deterministic(resolve),
        method_outcome(resolve, self_id, impl_id, item, krate, a),
        method_outcome(resolve, self_id, impl_id, item, krate, b),
    ensures
        a == b,
{
    let path = path_of(krate, self_id, seq![item.name->0@]);
    let by_ref = takes_self_as_ref(item.inner->Function_0.sig.inputs@);
    let a_fails = a matches Err(CallableResolutionErrorView::Self_ { .. });
    let b_fails = b matches Err(CallableResolutionErrorView::Self_ { .. });
    if !a_fails && !b_fails {
        let for_ = krate.item(impl_id).inner->Impl_0.for_;
        let none = GenericBindings { self_: None };
        let x = choose|x: T|
            {
                &&& #[trigger] resolves_to(resolve, for_, krate.package_id, none, Ok::<T, E>(x))
                &&& signature_outcome(
                    resolve,
                    item,
                    krate.package_id,
                    GenericBindings { self_: Some(x) },
                    path,
                    by_ref,
                    a,
                )
            };
        let y = choose|y: T|
            {
                &&& #[trigger] resolves_to(resolve, for_, krate.package_id, none, Ok::<T, E>(y))
                &&& signature_outcome(
                    resolve,
                    item,
                    krate.package_id,
                    GenericBindings { self_: Some(y) },
                    path,
                    by_ref,
                    b,
                )
            };
        assert(Ok::<T, E>(x) == Ok::<T, E>(y));
        lemma_signature_outcome_is_determined(
            resolve,
            item,
            krate.package_id,
            GenericBindings { self_: Some(x) },
            path,
            by_ref,
            a,
            b,
        );
    }
}

} // verus!
