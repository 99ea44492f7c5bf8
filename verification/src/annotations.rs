//! The registration of annotated components.
use crate::auxiliary::{
    intern_annotated, is_registered, law_annotations_are_registered,
    law_registered_components_stay, law_tables_stay_consistent, same_tables, tables_extend,
    AnnotatedComponent, AuxiliaryData, AuxiliaryDataView, Registration, ScopeId, UserComponentId,
};
use crate::callable::{
    free_fn_outcome, method_outcome, outcome_view, resolves_any, rustdoc_free_fn2callable,
    rustdoc_method2callable, same_callable, Callable, CallableResolutionErrorView, CallableView, GenericBindings,
};
use crate::diagnostic::{
    annotates_any, invalid_diagnostic_attribute, is_source, malformed_annotation,
    AnnotatedSource, ComponentKind, Diagnostic, DiagnosticSink, DiagnosticView,
};
use crate::interner::{interned, law_interning, lemma_position};
use crate::queue::QueueItem;
use crate::reflection::{resolve_segments, CreatedAt, RawIdentifiersView};
use crate::rustdoc::{
    Crate, CrateCollection, ImportIndexEntry, Item, ItemEnum, PackageId, Type,
};
use crate::text::{is_segment, join, joined, law_split_undoes_join, path_segments, views};
use crate::traversal::{
    is_reachable, law_each_item_is_processed_once, processing_order, traversal,
};
use vstd::prelude::*;
use vstd::std_specs::cmp::PartialEqSpec;

verus! {

/// A module whose components are to be registered.
#[derive(Debug, PartialEq, Eq)]
pub struct ResolvedImport {
    /// The path of the module.
    pub path: Vec<String>,
    pub package_id: PackageId,
}

/// The callables of components, in the order in which they were found, each once.
#[derive(Debug, PartialEq, Eq)]
pub struct ComputationDb<T> {
    pub callables: Vec<(UserComponentId, Callable<T>)>,
}

impl<T> View for ComputationDb<T> {
    type V = Seq<(usize, CallableView<T>)>;

    open spec fn view(&self) -> Seq<(usize, CallableView<T>)> {
        self.callables@.map_values(|entry: (UserComponentId, Callable<T>)| (entry.0.0, entry.1@))
    }
}

impl<T> ComputationDb<T> {
    /// No callables.
    pub fn new() -> (res: Self)
        ensures
            res@ == Seq::<(usize, CallableView<T>)>::empty(),
    {
        let res = ComputationDb { callables: Vec::new() };
        assert(res@ =~= Seq::<(usize, CallableView<T>)>::empty());
        res
    }
}

/// Whether `callable` is known as the callable of the component `id`.
pub open spec fn has_computation<T: PartialEq>(
    computations: Seq<(usize, CallableView<T>)>,
    id: usize,
    callable: CallableView<T>,
) -> bool {
    exists|i: int|
        0 <= i < computations.len() && (#[trigger] computations[i]).0 == id && same_callable(
            computations[i].1,
            callable,
        )
}

/// The callables with `callable` as that of the component `id`: it is added behind the others,
/// unless it is there already.
pub open spec fn with_computation<T: PartialEq>(
    computations: Seq<(usize, CallableView<T>)>,
    id: usize,
    callable: CallableView<T>,
) -> Seq<(usize, CallableView<T>)> {
    if has_computation(computations, id, callable) {
        computations
    } else {
        computations.push((id, callable))
    }
}

impl<T: PartialEq> ComputationDb<T> {
    /// Records that `callable` is the callable of the component `id`, unless that is known.
    pub fn get_or_intern_with_id(&mut self, callable: Callable<T>, id: UserComponentId)
        requires
            T::obeys_eq_spec(),
        ensures
            final(self)@ == with_computation(old(self)@, id.0, callable@),
    {
        let mut i: usize = 0;
        while i < self.callables.len()
            invariant
                T::obeys_eq_spec(),
                *self == *old(self),
                i <= self.callables@.len(),
                forall|j: int|
                    0 <= j < i ==> !((#[trigger] self@[j]).0 == id.0 && same_callable(
                        self@[j].1,
                        callable@,
                    )),
            decreases self.callables@.len() - i,
        {
            let known = &self.callables[i];
            if known.0.0 == id.0 && known.1.same(&callable) {
                assert(self@[i as int].0 == id.0);
                return ;
            }
            i = i + 1;
        }
        let ghost before = self@;
        self.callables.push((id, callable));
        assert(self@ =~= before.push((id.0, callable@)));
    }
}

/// The components whose identifiers are to be resolved, in order.
#[derive(Debug, PartialEq, Eq)]
pub struct ResolvedPaths {
    pub pending: Vec<UserComponentId>,
}

/// All that the registration of components changes but for the pending components.
#[verifier::ext_equal]
pub ghost struct Registry<T, E> {
    pub aux: AuxiliaryDataView,
    pub computations: Seq<(usize, CallableView<T>)>,
    pub diagnostics: Seq<DiagnosticView<E>>,
}

impl<T, E> Registry<T, E> {
    /// Whether the parts of the registry fit together: the tables of the components do, and
    /// callables and diagnostics speak of registered constructors.
    pub open spec fn is_consistent(self) -> bool {
        &&& self.aux.is_consistent()
        &&& forall|i: int|
            0 <= i < self.computations.len() ==> self.aux.has_constructor(
                (#[trigger] self.computations[i]).0,
            )
        &&& forall|i: int|
            0 <= i < self.diagnostics.len() ==> match #[trigger] self.diagnostics[i] {
                DiagnosticView::CannotResolveCallable { component_id, .. } =>
                    self.aux.has_constructor(component_id),
                DiagnosticView::MalformedAnnotation { .. } => true,
            }
    }
}

/// What came of processing an item.
pub ghost enum Outcome<T, E> {
    /// It is not annotated.
    Skipped,
    /// Its annotation cannot be understood, for the reason given, and this is to be shown of it.
    Malformed { reason: Seq<char>, source: Option<AnnotatedSource> },
    /// It is annotated, and its callable could be made or not.
    Annotated {
        annotation: AnnotatedComponent,
        callable: Result<CallableView<T>, CallableResolutionErrorView<E>>,
    },
}

/// The identifier, unique within the dependency graph, of the item `q`.
pub open spec fn global_id(krate: &Crate, q: QueueItem) -> (u32, Seq<char>) {
    (krate.item(q.own_id()).id.0, krate.package_id.0@)
}

/// Whether annotations are looked for on `q`: it is a free function or a method.
pub open spec fn is_annotatable(krate: &Crate, q: QueueItem) -> bool {
    !(q is Impl) && krate.item(q.own_id()).inner is Function
}

/// Whether `parse` can give `outcome` for the attributes of `item`.
pub open spec fn parses_to<P: Fn(&Vec<String>) -> Result<Option<AnnotatedComponent>, String>>(
    parse: P,
    item: Item,
    outcome: Result<Option<AnnotatedComponent>, String>,
) -> bool {
    call_ensures(parse, (&item.attrs,), outcome)
}

/// Whether `parse` can be called on all attributes.
pub open spec fn parses_any<P: Fn(&Vec<String>) -> Result<Option<AnnotatedComponent>, String>>(
    parse: P,
) -> bool {
    forall|attrs: &Vec<String>| call_requires(parse, (attrs,))
}

/// Whether `outcome` can come of processing `q`.
pub open spec fn is_outcome<
    T,
    E,
    P: Fn(&Vec<String>) -> Result<Option<AnnotatedComponent>, String>,
    S: Fn(&Registration, ComponentKind, &str) -> Option<AnnotatedSource>,
    R: Fn(&Type, &PackageId, &GenericBindings<T>) -> Result<T, E>,
>(parse: P, annotate: S, resolve: R, krate: &Crate, q: QueueItem, outcome: Outcome<T, E>) -> bool {
    let item = krate.item(q.own_id());
    if is_annotatable(krate, q) {
        match outcome {
            Outcome::Skipped => parses_to(parse, item, Ok(None)),
            Outcome::Malformed { reason, source } => {
                &&& exists|e: String| e@ == reason && #[trigger] parses_to(parse, item, Err(e))
                &&& is_source(annotate, item.span, source)
            },
            Outcome::Annotated { annotation, callable } => {
                &&& parses_to(parse, item, Ok(Some(annotation)))
                &&& match q {
                    QueueItem::ImplItem { self_, impl_, .. } => method_outcome(
                        resolve,
                        self_,
                        impl_,
                        item,
                        krate,
                        callable,
                    ),
                    _ => free_fn_outcome(resolve, item, krate, callable),
                }
            },
        }
    } else {
        outcome is Skipped
    }
}

/// The path where `q` is defined; for a method, that of its type.
pub open spec fn definition_path(krate: &Crate, q: QueueItem) -> Option<Vec<String>> {
    match q {
        QueueItem::ImplItem { self_, .. } => krate.entry(self_).defined_at,
        _ => krate.entry(krate.item(q.own_id()).id).defined_at,
    }
}

/// The path of the module where `q` is defined; for a method, of the module of its type.
pub open spec fn definition_module(krate: &Crate, q: QueueItem) -> Seq<char> {
    joined(views((definition_path(krate, q)->0)@).drop_last(), "::"@)
}

/// What the registry becomes when `outcome` comes of processing `q`.
pub open spec fn applied<T: PartialEq, E>(
    registry: Registry<T, E>,
    krate: &Crate,
    scope_id: ScopeId,
    q: QueueItem,
    outcome: Outcome<T, E>,
) -> Registry<T, E> {
    let item = krate.item(q.own_id());
    match outcome {
        Outcome::Skipped => registry,
        Outcome::Malformed { reason, source } => Registry {
            diagnostics: registry.diagnostics.push(malformed_annotation(reason, item, source)),
            ..registry
        },
        Outcome::Annotated { annotation, callable } => {
            let item_id = global_id(krate, q);
            let id = registry.aux.id_of(registry.aux.constructor_of(item_id));
            let aux = registry.aux.with_annotated(
                annotation,
                item_id,
                item.span->0,
                krate.crate_name@,
                definition_module(krate, q),
                scope_id,
            );
            match callable {
                Ok(callable) => Registry {
                    aux,
                    computations: with_computation(registry.computations, id, callable),
                    ..registry
                },
                Err(error) => Registry {
                    aux,
                    diagnostics: registry.diagnostics.push(
                        DiagnosticView::CannotResolveCallable { error, component_id: id },
                    ),
                    ..registry
                },
            }
        },
    }
}

/// Whether all that is read of `q` is there: the item itself, and where it is annotated, its
/// place, the path where it is defined, and the name of a method.
pub open spec fn is_documented<P: Fn(&Vec<String>) -> Result<Option<AnnotatedComponent>, String>>(
    parse: P,
    krate: &Crate,
    q: QueueItem,
) -> bool {
    let item = krate.item(q.own_id());
    &&& krate.has_item(q.own_id())
    &&& is_annotatable(krate, q) ==> forall|annotation: AnnotatedComponent| #[trigger]
        parses_to(parse, item, Ok(Some(annotation))) ==> {
            &&& item.span is Some
            &&& definition_path(krate, q) is Some
            &&& (definition_path(krate, q)->0)@.len() > 0
            &&& match q {
                QueueItem::ImplItem { .. } => item.name is Some,
                _ => krate.has_entry(item.id),
            }
        }
}

/// Whether all is there that is read of the items to process for `module`.
pub open spec fn is_well_documented<
    P: Fn(&Vec<String>) -> Result<Option<AnnotatedComponent>, String>,
>(parse: P, krate: &Crate, module: Seq<String>) -> bool {
    forall|q: QueueItem| #[trigger]
        is_reachable(krate, module, q) ==> is_documented(parse, krate, q)
}

/// The registry, as the tables hold it.
pub open spec fn registry_of<'a, T, E>(
    aux: AuxiliaryData,
    computation_db: ComputationDb<T>,
    diagnostics: DiagnosticSink<'a, E>,
) -> Registry<T, E> {
    Registry { aux: aux@, computations: computation_db@, diagnostics: diagnostics@ }
}

/// The path of the module where the item of `entry` is defined.
fn module_of(entry: &ImportIndexEntry) -> (res: String)
    requires
        entry.defined_at is Some,
        (entry.defined_at->0)@.len() > 0,
    ensures
        res@ == joined(views((entry.defined_at->0)@).drop_last(), "::"@),
{
    let path = entry.defined_at.as_ref().unwrap();
    let segments = vstd::slice::slice_subrange(path.as_slice(), 0, path.len() - 1);
    assert(views(segments@) =~= views(path@).drop_last());
    join(segments, "::")
}

/// Processes one item.
fn process_item<
    'a,
    T: PartialEq,
    E,
    P: Fn(&Vec<String>) -> Result<Option<AnnotatedComponent>, String>,
    S: Fn(&Registration, ComponentKind, &str) -> Option<AnnotatedSource>,
    R: Fn(&Type, &PackageId, &GenericBindings<T>) -> Result<T, E>,
>(
    queue_item: QueueItem,
    krate: &'a Crate,
    module: &Vec<String>,
    scope_id: ScopeId,
    aux: &mut AuxiliaryData,
    computation_db: &mut ComputationDb<T>,
    diagnostics: &mut DiagnosticSink<'a, E>,
    parse: &P,
    annotate: &S,
    resolve_type: &R,
) -> (outcome: Ghost<Outcome<T, E>>)
    requires
        is_reachable(krate, module@, queue_item),
        is_well_documented(*parse, krate, module@),
        parses_any(*parse),
        annotates_any(*annotate),
        resolves_any(*resolve_type),
        T::obeys_eq_spec(),
        may_be_annotated(*parse, krate, queue_item) ==> old(aux)@.annotations.contains(
            global_id(krate, queue_item),
        ) || old(aux)@.annotations.len() <= u32::MAX,
    ensures
        is_outcome(*parse, *annotate, *resolve_type, krate, queue_item, outcome@),
        registry_of(*final(aux), *final(computation_db), *final(diagnostics)) == applied(
            registry_of(*old(aux), *old(computation_db), *old(diagnostics)),
            krate,
            scope_id,
            queue_item,
            outcome@,
        ),
{
    let id = match queue_item {
        QueueItem::Standalone(id) => id,
        QueueItem::Impl { .. } => {
            return Ghost(Outcome::Skipped);
        },
        QueueItem::ImplItem { id, .. } => id,
    };
    let item = krate.get_item_by_local_type_id(&id);
    match &item.inner {
        ItemEnum::Function(_) => {},
        _ => {
            return Ghost(Outcome::Skipped);
        },
    }
    let annotation = match parse(&item.attrs) {
        Ok(Some(annotation)) => annotation,
        Ok(None) => {
            return Ghost(Outcome::Skipped);
        },
        Err(e) => {
            let ghost error = e;
            let ghost before = diagnostics@;
            assert(parses_to(*parse, *item, Err(error)));
            invalid_diagnostic_attribute(e, item, diagnostics, annotate);
            let ghost source = choose|source: Option<AnnotatedSource>|
                {
                    &&& #[trigger] is_source(*annotate, item.span, source)
                    &&& diagnostics@ == before.push(malformed_annotation(error@, *item, source))
                };
            return Ghost(Outcome::Malformed { reason: error@, source });
        },
    };
    let ghost said = annotation;
    assert(parses_to(*parse, *item, Ok(Some(said))));
    let entry = match queue_item {
        // The `impl` where this method is defined may not be within the same module
        // where `Self` is defined: the module of `Self` is the one that is known.
        QueueItem::ImplItem { self_, .. } => krate.get_entry(&self_),
        _ => krate.get_entry(&item.id),
    };
    let created_at = CreatedAt { crate_name: krate.crate_name.clone(), module: module_of(entry) };
    let user_component_id = intern_annotated(annotation, item, krate, &created_at, scope_id, aux);
    let callable = match queue_item {
        QueueItem::ImplItem { self_, impl_, .. } => {
            assert(is_reachable(krate, module@, QueueItem::Impl { self_, id: impl_ }));
            rustdoc_method2callable(self_, impl_, item, krate, resolve_type)
        },
        _ => rustdoc_free_fn2callable(item, krate, resolve_type),
    };
    let ghost result = outcome_view(callable);
    match callable {
        Ok(callable) => {
            computation_db.get_or_intern_with_id(callable, user_component_id);
        },
        Err(error) => {
            diagnostics.push(
                Diagnostic::CannotResolveCallable { error, component_id: user_component_id },
            );
        },
    }
    Ghost(Outcome::Annotated { annotation: said, callable: result })
}

/// What the registry becomes when `outcomes` come of processing the items `order`, one after the
/// other.
pub open spec fn module_applied<T: PartialEq, E>(
    registry: Registry<T, E>,
    krate: &Crate,
    scope_id: ScopeId,
    order: Seq<QueueItem>,
    outcomes: Seq<Outcome<T, E>>,
) -> Registry<T, E>
    decreases order.len(),
{
    if order.len() == 0 {
        registry
    } else {
        applied(
            module_applied(registry, krate, scope_id, order.drop_last(), outcomes.drop_last()),
            krate,
            scope_id,
            order.last(),
            outcomes.last(),
        )
    }
}

/// Whether `outcomes` can come of processing the items `order`.
pub open spec fn are_outcomes<
    T,
    E,
    P: Fn(&Vec<String>) -> Result<Option<AnnotatedComponent>, String>,
    S: Fn(&Registration, ComponentKind, &str) -> Option<AnnotatedSource>,
    R: Fn(&Type, &PackageId, &GenericBindings<T>) -> Result<T, E>,
>(
    parse: P,
    annotate: S,
    resolve: R,
    krate: &Crate,
    order: Seq<QueueItem>,
    outcomes: Seq<Outcome<T, E>>,
) -> bool {
    &&& outcomes.len() == order.len()
    &&& forall|i: int|
        0 <= i < order.len() ==> is_outcome(
            parse,
            annotate,
            resolve,
            krate,
            #[trigger] order[i],
            outcomes[i],
        )
}

/// The documentation of the crate of an import.
pub open spec fn crate_of_import(
    krate_collection: &CrateCollection,
    import: ResolvedImport,
) -> Crate {
    krate_collection.crate_of(import.package_id)->0
}

/// The items to process for an import, in order.
pub open spec fn order_of_import(
    krate_collection: &CrateCollection,
    import: ResolvedImport,
) -> Seq<QueueItem> {
    traversal(&crate_of_import(krate_collection, import), import.path@)
}

/// Whether `q` can turn out to be annotated.
pub open spec fn may_be_annotated<
    P: Fn(&Vec<String>) -> Result<Option<AnnotatedComponent>, String>,
>(parse: P, krate: &Crate, q: QueueItem) -> bool {
    is_annotatable(krate, q) && exists|annotation: AnnotatedComponent| #[trigger]
        parses_to(parse, krate.item(q.own_id()), Ok(Some(annotation)))
}

/// The annotated items among `order`.
pub open spec fn annotated_in<P: Fn(&Vec<String>) -> Result<Option<AnnotatedComponent>, String>>(
    parse: P,
    krate: &Crate,
    order: Seq<QueueItem>,
) -> Set<(u32, Seq<char>)> {
    order.filter(|q: QueueItem| may_be_annotated(parse, krate, q)).map_values(
        |q: QueueItem| global_id(krate, q),
    ).to_set()
}

proof fn lemma_annotated_in<P: Fn(&Vec<String>) -> Result<Option<AnnotatedComponent>, String>>(
    parse: P,
    krate: &Crate,
    order: Seq<QueueItem>,
)
    ensures
        annotated_in(parse, krate, order).finite(),
        forall|k: int|
            0 <= k < order.len() && may_be_annotated(parse, krate, #[trigger] order[k])
                ==> annotated_in(parse, krate, order).contains(global_id(krate, order[k])),
{
    broadcast use vstd::seq_lib::seq_to_set_is_finite;

    let p = |q: QueueItem| may_be_annotated(parse, krate, q);
    let f = |q: QueueItem| global_id(krate, q);
    let found = order.filter(p);
    assert forall|k: int|
        0 <= k < order.len() && may_be_annotated(
            parse,
            krate,
            #[trigger] order[k],
        ) implies annotated_in(parse, krate, order).contains(global_id(krate, order[k])) by {
        order.lemma_filter_contains(p, k);
        assert(found.contains(order[k]));
        let i = choose|i: int| 0 <= i < found.len() && found[i] == order[k];
        assert(found.map_values(f)[i] == global_id(krate, order[k]));
    }
}

/// The annotated items in the module of `import`.
pub open spec fn annotated_in_import<
    P: Fn(&Vec<String>) -> Result<Option<AnnotatedComponent>, String>,
>(parse: P, krate_collection: &CrateCollection, import: ResolvedImport) -> Set<(u32, Seq<char>)> {
    annotated_in(
        parse,
        &crate_of_import(krate_collection, import),
        order_of_import(krate_collection, import),
    )
}

/// The annotated items in the modules of `imports`.
pub open spec fn annotated_items<P: Fn(&Vec<String>) -> Result<Option<AnnotatedComponent>, String>>(
    parse: P,
    krate_collection: &CrateCollection,
    imports: Seq<(ResolvedImport, usize)>,
) -> Set<(u32, Seq<char>)> {
    Set::new(
        |id: (u32, Seq<char>)|
            exists|i: int|
                0 <= i < imports.len() && annotated_in_import(
                    parse,
                    krate_collection,
                    (#[trigger] imports[i]).0,
                ).contains(id),
    )
}

proof fn lemma_annotated_items<P: Fn(&Vec<String>) -> Result<Option<AnnotatedComponent>, String>>(
    parse: P,
    krate_collection: &CrateCollection,
    imports: Seq<(ResolvedImport, usize)>,
)
    ensures
        annotated_items(parse, krate_collection, imports).finite(),
        forall|i: int|
            0 <= i < imports.len() ==> annotated_in_import(
                parse,
                krate_collection,
                (#[trigger] imports[i]).0,
            ).subset_of(annotated_items(parse, krate_collection, imports)),
    decreases imports.len(),
{
    let all = annotated_items(parse, krate_collection, imports);
    if imports.len() == 0 {
        assert(all =~= Set::empty());
    } else {
        let n = imports.len() - 1;
        let front = imports.drop_last();
        let others = annotated_items(parse, krate_collection, front);
        let last = annotated_in_import(parse, krate_collection, imports[n].0);
        lemma_annotated_items(parse, krate_collection, front);
        lemma_annotated_in(
            parse,
            &crate_of_import(krate_collection, imports[n].0),
            order_of_import(krate_collection, imports[n].0),
        );
        assert forall|id: (u32, Seq<char>)| #[trigger] all.contains(id) implies others.union(
            last,
        ).contains(id) by {
            let i = choose|i: int|
                0 <= i < imports.len() && annotated_in_import(
                    parse,
                    krate_collection,
                    (#[trigger] imports[i]).0,
                ).contains(id);
            if i < n {
                assert(front[i] == imports[i]);
            }
        }
        assert(all.subset_of(others.union(last)));
        vstd::set_lib::lemma_len_subset(all, others.union(last));
    }
}

/// How many identifiers are given out when the items `items` are interned behind `known`.
pub open spec fn identifiers_needed<V>(known: Seq<V>, items: Set<V>) -> nat {
    known.len() + items.difference(known.to_set()).len()
}

/// What the registry becomes when `outcomes` come of processing the items of `imports`, one import
/// after the other. Each import is registered in its own scope.
pub open spec fn imports_applied<T: PartialEq, E>(
    registry: Registry<T, E>,
    krate_collection: &CrateCollection,
    imports: Seq<(ResolvedImport, usize)>,
    outcomes: Seq<Seq<Outcome<T, E>>>,
) -> Registry<T, E>
    decreases imports.len(),
{
    if imports.len() == 0 {
        registry
    } else {
        let (import, import_id) = imports.last();
        module_applied(
            imports_applied(registry, krate_collection, imports.drop_last(), outcomes.drop_last()),
            &crate_of_import(krate_collection, import),
            registry.aux.imports[import_id as int],
            order_of_import(krate_collection, import),
            outcomes.last(),
        )
    }
}

/// Whether `outcomes` can come of processing the items of `imports`.
pub open spec fn are_import_outcomes<
    T,
    E,
    P: Fn(&Vec<String>) -> Result<Option<AnnotatedComponent>, String>,
    S: Fn(&Registration, ComponentKind, &str) -> Option<AnnotatedSource>,
    R: Fn(&Type, &PackageId, &GenericBindings<T>) -> Result<T, E>,
>(
    parse: P,
    annotate: S,
    resolve: R,
    krate_collection: &CrateCollection,
    imports: Seq<(ResolvedImport, usize)>,
    outcomes: Seq<Seq<Outcome<T, E>>>,
) -> bool {
    &&& outcomes.len() == imports.len()
    &&& forall|i: int|
        0 <= i < imports.len() ==> are_outcomes(
            parse,
            annotate,
            resolve,
            &crate_of_import(krate_collection, (#[trigger] imports[i]).0),
            order_of_import(krate_collection, imports[i].0),
            outcomes[i],
        )
}

/// Whether `outcomes` has one outcome for each item to process for `imports`.
pub open spec fn covers<T, E>(
    krate_collection: &CrateCollection,
    imports: Seq<(ResolvedImport, usize)>,
    outcomes: Seq<Seq<Outcome<T, E>>>,
) -> bool {
    &&& imports.len() == outcomes.len()
    &&& forall|i: int|
        0 <= i < imports.len() ==> order_of_import(
            krate_collection,
            (#[trigger] imports[i]).0,
        ).len() == outcomes[i].len()
}

pub proof fn lemma_covers_front<T, E>(
    krate_collection: &CrateCollection,
    imports: Seq<(ResolvedImport, usize)>,
    outcomes: Seq<Seq<Outcome<T, E>>>,
)
    requires
        covers(krate_collection, imports, outcomes),
        imports.len() > 0,
    ensures
        covers(krate_collection, imports.drop_last(), outcomes.drop_last()),
        order_of_import(krate_collection, imports.last().0).len() == outcomes.last().len(),
{
    let front = imports.drop_last();
    assert forall|i: int| 0 <= i < front.len() implies order_of_import(
        krate_collection,
        (#[trigger] front[i]).0,
    ).len() == outcomes.drop_last()[i].len() by {
        assert(front[i] == imports[i]);
    }
    assert(imports[imports.len() - 1] == imports.last());
}

/// Whether the scope of an import is known, and all that is read of its module.
pub open spec fn is_import_documented<
    P: Fn(&Vec<String>) -> Result<Option<AnnotatedComponent>, String>,
>(
    parse: P,
    krate_collection: &CrateCollection,
    scopes: Seq<ScopeId>,
    import: (ResolvedImport, usize),
) -> bool {
    &&& import.1 < scopes.len()
    &&& krate_collection.crate_of(import.0.package_id) is Some
    &&& is_well_documented(
        parse,
        &crate_of_import(krate_collection, import.0),
        import.0.path@,
    )
}

/// The module of an annotated item is read back from the text that stands for it: paths that the
/// annotation gives are resolved from that module.
pub proof fn law_module_of_an_item_is_read_back(
    krate: &Crate,
    q: QueueItem,
    import_path: Seq<char>,
)
    requires
        definition_path(krate, q) is Some,
        (definition_path(krate, q)->0)@.len() > 1,
        forall|i: int|
            0 <= i < (definition_path(krate, q)->0)@.len() ==> is_segment(
                #[trigger] views((definition_path(krate, q)->0)@)[i],
            ),
    ensures
        ({
            let identifiers = RawIdentifiersView {
                crate_name: krate.crate_name@,
                module_text: definition_module(krate, q),
                import_path,
            };
            let module = views((definition_path(krate, q)->0)@).drop_last();
            &&& identifiers.module() == module
            &&& identifiers.fully_qualified_path() == resolve_segments(
                path_segments(import_path),
                krate.crate_name@,
                module,
            )
        }),
{
    let path = views((definition_path(krate, q)->0)@);
    let module = path.drop_last();
    assert forall|i: int| 0 <= i < module.len() implies is_segment(#[trigger] module[i]) by {
        assert(module[i] == path[i]);
    }
    law_split_undoes_join(module);
}

/// Whether the tables hold what `outcome` of processing `q` declares.
pub open spec fn is_outcome_registered<T, E>(
    aux: AuxiliaryDataView,
    krate: &Crate,
    q: QueueItem,
    outcome: Outcome<T, E>,
) -> bool {
    match outcome {
        Outcome::Annotated { annotation, .. } => is_registered(
            aux,
            annotation,
            (krate.item(q.own_id()).id.0, krate.package_id.0@),
            krate.crate_name@,
            definition_module(krate, q),
        ),
        _ => true,
    }
}

/// Processing an item registers what it declares, and only adds to the tables.
pub proof fn lemma_applied_tables<T: PartialEq, E>(
    registry: Registry<T, E>,
    krate: &Crate,
    scope_id: ScopeId,
    q: QueueItem,
    outcome: Outcome<T, E>,
)
    ensures
        ({
            let next = applied(registry, krate, scope_id, q, outcome);
            &&& is_outcome_registered(next.aux, krate, q, outcome)
            &&& tables_extend(registry.aux, next.aux)
            &&& is_outcome_registered(registry.aux, krate, q, outcome) ==> same_tables(
                registry.aux,
                next.aux,
            )
        }),
{
    if let Outcome::Annotated { annotation, .. } = outcome {
        let item = krate.item(q.own_id());
        law_annotations_are_registered(
            registry.aux,
            annotation,
            (item.id.0, krate.package_id.0@),
            item.span->0,
            krate.crate_name@,
            definition_module(krate, q),
            scope_id,
        );
    }
}

/// All that the annotations in a module declare is registered when the module has been processed.
pub proof fn law_modules_are_registered<T: PartialEq, E>(
    registry: Registry<T, E>,
    krate: &Crate,
    scope_id: ScopeId,
    order: Seq<QueueItem>,
    outcomes: Seq<Outcome<T, E>>,
)
    requires
        order.len() == outcomes.len(),
    ensures
        forall|i: int|
            0 <= i < order.len() ==> is_outcome_registered(
                module_applied(registry, krate, scope_id, order, outcomes).aux,
                krate,
                #[trigger] order[i],
                outcomes[i],
            ),
    decreases order.len(),
{
    if order.len() > 0 {
        let n = order.len() - 1;
        let before = module_applied(
            registry,
            krate,
            scope_id,
            order.drop_last(),
            outcomes.drop_last(),
        );
        let after = module_applied(registry, krate, scope_id, order, outcomes);
        law_modules_are_registered(
            registry,
            krate,
            scope_id,
            order.drop_last(),
            outcomes.drop_last(),
        );
        lemma_applied_tables(before, krate, scope_id, order.last(), outcomes.last());
        assert forall|i: int| 0 <= i < order.len() implies is_outcome_registered(
            after.aux,
            krate,
            #[trigger] order[i],
            outcomes[i],
        ) by {
            if i < n {
                assert(order.drop_last()[i] == order[i]);
                if let Outcome::Annotated { annotation, .. } = outcomes[i] {
                    law_registered_components_stay(
                        before.aux,
                        after.aux,
                        annotation,
                        (krate.item(order[i].own_id()).id.0, krate.package_id.0@),
                        krate.crate_name@,
                        definition_module(krate, order[i]),
                    );
                }
            }
        }
    }
}

/// Whether `after` holds all that `before` holds, unchanged and in the same places. Only what is
/// known of a component may have been replaced.
pub open spec fn extends<T, E>(before: Registry<T, E>, after: Registry<T, E>) -> bool {
    &&& tables_extend(before.aux, after.aux)
    &&& before.aux.imports == after.aux.imports
    &&& before.aux.scopes.dom().subset_of(after.aux.scopes.dom())
    &&& before.aux.lifecycles.dom().subset_of(after.aux.lifecycles.dom())
    &&& before.aux.registrations.dom().subset_of(after.aux.registrations.dom())
    &&& before.aux.cloning_strategies.dom().subset_of(after.aux.cloning_strategies.dom())
    &&& before.computations.is_prefix_of(after.computations)
    &&& before.diagnostics.is_prefix_of(after.diagnostics)
}

/// Processing an item only adds to the registry, and adds one annotated item at most.
pub proof fn law_processing_an_item_only_adds<T: PartialEq, E>(
    registry: Registry<T, E>,
    krate: &Crate,
    scope_id: ScopeId,
    q: QueueItem,
    outcome: Outcome<T, E>,
)
    ensures
        extends(registry, applied(registry, krate, scope_id, q, outcome)),
        applied(registry, krate, scope_id, q, outcome).aux.annotations.len()
            <= registry.aux.annotations.len() + 1,
{
}

/// Processing a module only adds to the registry.
pub proof fn law_processing_a_module_only_adds<T: PartialEq, E>(
    registry: Registry<T, E>,
    krate: &Crate,
    scope_id: ScopeId,
    order: Seq<QueueItem>,
    outcomes: Seq<Outcome<T, E>>,
)
    requires
        order.len() == outcomes.len(),
    ensures
        extends(registry, module_applied(registry, krate, scope_id, order, outcomes)),
        module_applied(registry, krate, scope_id, order, outcomes).aux.annotations.len()
            <= registry.aux.annotations.len() + order.len(),
    decreases order.len(),
{
    if order.len() > 0 {
        let before = module_applied(
            registry,
            krate,
            scope_id,
            order.drop_last(),
            outcomes.drop_last(),
        );
        law_processing_a_module_only_adds(
            registry,
            krate,
            scope_id,
            order.drop_last(),
            outcomes.drop_last(),
        );
        law_processing_an_item_only_adds(before, krate, scope_id, order.last(), outcomes.last());
    }
}

/// Registering imported components only adds to the registry.
pub proof fn law_registration_only_adds<T: PartialEq, E>(
    registry: Registry<T, E>,
    krate_collection: &CrateCollection,
    imports: Seq<(ResolvedImport, usize)>,
    outcomes: Seq<Seq<Outcome<T, E>>>,
)
    requires
        covers(krate_collection, imports, outcomes),
    ensures
        extends(registry, imports_applied(registry, krate_collection, imports, outcomes)),
    decreases imports.len(),
{
    if imports.len() > 0 {
        let before = imports.drop_last();
        lemma_covers_front(krate_collection, imports, outcomes);
        law_registration_only_adds(registry, krate_collection, before, outcomes.drop_last());
        let (import, import_id) = imports.last();
        assert(imports[imports.len() - 1] == imports.last());
        law_processing_a_module_only_adds(
            imports_applied(registry, krate_collection, before, outcomes.drop_last()),
            &crate_of_import(krate_collection, import),
            registry.aux.imports[import_id as int],
            order_of_import(krate_collection, import),
            outcomes.last(),
        );
    }
}

/// Whether the tables hold what `outcomes` of processing the items of `import` declare.
pub open spec fn is_import_registered<T, E>(
    aux: AuxiliaryDataView,
    krate_collection: &CrateCollection,
    import: ResolvedImport,
    outcomes: Seq<Outcome<T, E>>,
) -> bool {
    let order = order_of_import(krate_collection, import);
    forall|k: int|
        0 <= k < order.len() ==> is_outcome_registered(
            aux,
            &crate_of_import(krate_collection, import),
            #[trigger] order[k],
            outcomes[k],
        )
}

/// All that the annotations in imported modules declare is registered in the end.
pub proof fn law_imports_are_registered<T: PartialEq, E>(
    registry: Registry<T, E>,
    krate_collection: &CrateCollection,
    imports: Seq<(ResolvedImport, usize)>,
    outcomes: Seq<Seq<Outcome<T, E>>>,
)
    requires
        covers(krate_collection, imports, outcomes),
    ensures
        forall|i: int|
            0 <= i < imports.len() ==> is_import_registered(
                imports_applied(registry, krate_collection, imports, outcomes).aux,
                krate_collection,
                (#[trigger] imports[i]).0,
                outcomes[i],
            ),
    decreases imports.len(),
{
    if imports.len() > 0 {
        let n = imports.len() - 1;
        let front = imports.drop_last();
        lemma_covers_front(krate_collection, imports, outcomes);
        assert(imports[n] == imports.last());
        let (last, import_id) = imports.last();
        let before = imports_applied(registry, krate_collection, front, outcomes.drop_last());
        let after = imports_applied(registry, krate_collection, imports, outcomes);
        let scope_id = registry.aux.imports[import_id as int];
        let krate = crate_of_import(krate_collection, last);
        let order = order_of_import(krate_collection, last);
        law_imports_are_registered(registry, krate_collection, front, outcomes.drop_last());
        law_processing_a_module_only_adds(before, &krate, scope_id, order, outcomes.last());
        law_modules_are_registered(before, &krate, scope_id, order, outcomes.last());
        assert forall|i: int| 0 <= i < imports.len() implies is_import_registered(
            after.aux,
            krate_collection,
            (#[trigger] imports[i]).0,
            outcomes[i],
        ) by {
            if i < n {
                let import = imports[i].0;
                assert(front[i] == imports[i]);
                assert(is_import_registered(before.aux, krate_collection, import, outcomes[i]));
                lemma_registered_imports_stay(
                    before.aux,
                    after.aux,
                    krate_collection,
                    import,
                    outcomes[i],
                );
            }
        }
    }
}

proof fn lemma_registered_imports_stay<T, E>(
    before: AuxiliaryDataView,
    after: AuxiliaryDataView,
    krate_collection: &CrateCollection,
    import: ResolvedImport,
    outcomes: Seq<Outcome<T, E>>,
)
    requires
        is_import_registered(before, krate_collection, import, outcomes),
        tables_extend(before, after),
    ensures
        is_import_registered(after, krate_collection, import, outcomes),
{
    let krate = crate_of_import(krate_collection, import);
    let order = order_of_import(krate_collection, import);
    assert forall|k: int| 0 <= k < order.len() implies is_outcome_registered(
        after,
        &krate,
        #[trigger] order[k],
        outcomes[k],
    ) by {
        assert(is_outcome_registered(before, &krate, order[k], outcomes[k]));
        if let Outcome::Annotated { annotation, .. } = outcomes[k] {
            law_registered_components_stay(
                before,
                after,
                annotation,
                (krate.item(order[k].own_id()).id.0, krate.package_id.0@),
                krate.crate_name@,
                definition_module(&krate, order[k]),
            );
        }
    }
}

proof fn lemma_applied_is_consistent<T: PartialEq, E>(
    registry: Registry<T, E>,
    krate: &Crate,
    scope_id: ScopeId,
    q: QueueItem,
    outcome: Outcome<T, E>,
)
    requires
        registry.is_consistent(),
        applied(registry, krate, scope_id, q, outcome).aux.components.len() <= usize::MAX,
    ensures
        applied(registry, krate, scope_id, q, outcome).is_consistent(),
{
    let next = applied(registry, krate, scope_id, q, outcome);
    law_processing_an_item_only_adds(registry, krate, scope_id, q, outcome);
    if let Outcome::Annotated { annotation, .. } = outcome {
        let item = krate.item(q.own_id());
        let item_id = (item.id.0, krate.package_id.0@);
        let constructor = registry.aux.constructor_of(item_id);
        law_tables_stay_consistent(
            registry.aux,
            annotation,
            item_id,
            item.span->0,
            krate.crate_name@,
            definition_module(krate, q),
            scope_id,
        );
        lemma_position(registry.aux.components, constructor);
        law_interning(registry.aux.components, constructor, constructor);
        let AnnotatedComponent::Constructor { lifecycle, cloning_strategy, error_handler } =
            annotation;
        let first = registry.aux.with_constructor(
            item_id,
            scope_id,
            lifecycle,
            cloning_strategy,
            Registration::Attribute(item.span->0),
        );
        assert(first.components.is_prefix_of(next.aux.components));
        assert(next.aux.has_constructor(registry.aux.id_of(constructor)));
    }
    assert forall|id: usize| registry.aux.has_constructor(id) implies #[trigger]
    next.aux.has_constructor(id) by {}
    assert forall|i: int| 0 <= i < next.computations.len() implies next.aux.has_constructor(
        (#[trigger] next.computations[i]).0,
    ) by {
        if i < registry.computations.len() {
            assert(next.computations[i] == registry.computations[i]);
        }
    }
    assert forall|i: int| 0 <= i < next.diagnostics.len() implies match #[trigger] next.diagnostics[i] {
        DiagnosticView::CannotResolveCallable { component_id, .. } => next.aux.has_constructor(
            component_id,
        ),
        DiagnosticView::MalformedAnnotation { .. } => true,
    } by {
        if i < registry.diagnostics.len() {
            assert(next.diagnostics[i] == registry.diagnostics[i]);
        }
    }
}

/// A registry whose parts fit together still does when a module has been processed.
pub proof fn law_modules_keep_the_registry_consistent<T: PartialEq, E>(
    registry: Registry<T, E>,
    krate: &Crate,
    scope_id: ScopeId,
    order: Seq<QueueItem>,
    outcomes: Seq<Outcome<T, E>>,
)
    requires
        order.len() == outcomes.len(),
        registry.is_consistent(),
        module_applied(registry, krate, scope_id, order, outcomes).aux.components.len()
            <= usize::MAX,
    ensures
        module_applied(registry, krate, scope_id, order, outcomes).is_consistent(),
    decreases order.len(),
{
    if order.len() > 0 {
        let before = module_applied(
            registry,
            krate,
            scope_id,
            order.drop_last(),
            outcomes.drop_last(),
        );
        law_processing_an_item_only_adds(before, krate, scope_id, order.last(), outcomes.last());
        law_modules_keep_the_registry_consistent(
            registry,
            krate,
            scope_id,
            order.drop_last(),
            outcomes.drop_last(),
        );
        lemma_applied_is_consistent(before, krate, scope_id, order.last(), outcomes.last());
    }
}

/// A registry whose parts fit together still does when imported components have been registered.
pub proof fn law_registration_keeps_the_registry_consistent<T: PartialEq, E>(
    registry: Registry<T, E>,
    krate_collection: &CrateCollection,
    imports: Seq<(ResolvedImport, usize)>,
    outcomes: Seq<Seq<Outcome<T, E>>>,
)
    requires
        covers(krate_collection, imports, outcomes),
        registry.is_consistent(),
        imports_applied(registry, krate_collection, imports, outcomes).aux.components.len()
            <= usize::MAX,
    ensures
        imports_applied(registry, krate_collection, imports, outcomes).is_consistent(),
    decreases imports.len(),
{
    if imports.len() > 0 {
        let front = imports.drop_last();
        lemma_covers_front(krate_collection, imports, outcomes);
        let (import, import_id) = imports.last();
        assert(imports[imports.len() - 1] == imports.last());
        let before = imports_applied(registry, krate_collection, front, outcomes.drop_last());
        let krate = crate_of_import(krate_collection, import);
        let scope_id = registry.aux.imports[import_id as int];
        let order = order_of_import(krate_collection, import);
        law_processing_a_module_only_adds(before, &krate, scope_id, order, outcomes.last());
        law_registration_keeps_the_registry_consistent(
            registry,
            krate_collection,
            front,
            outcomes.drop_last(),
        );
        law_modules_keep_the_registry_consistent(before, &krate, scope_id, order, outcomes.last());
    }
}

/// Processes the items of a module.
fn register_module<
    'a,
    T: PartialEq,
    E,
    P: Fn(&Vec<String>) -> Result<Option<AnnotatedComponent>, String>,
    S: Fn(&Registration, ComponentKind, &str) -> Option<AnnotatedSource>,
    R: Fn(&Type, &PackageId, &GenericBindings<T>) -> Result<T, E>,
>(
    krate: &'a Crate,
    module: &Vec<String>,
    scope_id: ScopeId,
    aux: &mut AuxiliaryData,
    computation_db: &mut ComputationDb<T>,
    diagnostics: &mut DiagnosticSink<'a, E>,
    parse: &P,
    annotate: &S,
    resolve_type: &R,
) -> (outcomes: Ghost<Seq<Outcome<T, E>>>)
    requires
        is_well_documented(*parse, krate, module@),
        parses_any(*parse),
        annotates_any(*annotate),
        resolves_any(*resolve_type),
        T::obeys_eq_spec(),
        identifiers_needed(
            old(aux)@.annotations,
            annotated_in(*parse, krate, traversal(krate, module@)),
        ) <= u32::MAX + 1,
    ensures
        are_outcomes(*parse, *annotate, *resolve_type, krate, traversal(krate, module@), outcomes@),
        registry_of(*final(aux), *final(computation_db), *final(diagnostics)) == module_applied(
            registry_of(*old(aux), *old(computation_db), *old(diagnostics)),
            krate,
            scope_id,
            traversal(krate, module@),
            outcomes@,
        ),
        final(aux)@.imports == old(aux)@.imports,
        is_interning(
            old(aux)@.annotations,
            final(aux)@.annotations,
            annotated_in(*parse, krate, traversal(krate, module@)),
        ),
{
    proof {
        assert forall|q: QueueItem| #[trigger]
            is_reachable(krate, module@, q) implies krate.has_item(q.own_id()) by {
            assert(is_documented(*parse, krate, q));
        }
        law_each_item_is_processed_once(krate, module@);
    }
    let order = processing_order(krate, module);
    let ghost whole = traversal(krate, module@);
    let ghost start = registry_of(*aux, *computation_db, *diagnostics);
    let ghost items = annotated_in(*parse, krate, whole);
    let ghost mut outcomes: Seq<Outcome<T, E>> = seq![];
    let mut i: usize = 0;
    proof {
        assert(whole.take(0) =~= seq![]);
        lemma_no_interning(start.aux.annotations, items);
    }
    while i < order.len()
        invariant
            i <= order@.len(),
            order@ == whole,
            whole == traversal(krate, module@),
            forall|q: QueueItem| #[trigger]
                whole.contains(q) <==> is_reachable(krate, module@, q),
            is_well_documented(*parse, krate, module@),
            parses_any(*parse),
            annotates_any(*annotate),
            resolves_any(*resolve_type),
            T::obeys_eq_spec(),
            are_outcomes(*parse, *annotate, *resolve_type, krate, whole.take(i as int), outcomes),
            registry_of(*aux, *computation_db, *diagnostics) == module_applied(
                start,
                krate,
                scope_id,
                whole.take(i as int),
                outcomes,
            ),
            aux@.imports == start.aux.imports,
            items == annotated_in(*parse, krate, whole),
            is_interning(start.aux.annotations, aux@.annotations, items),
            identifiers_needed(start.aux.annotations, items) <= u32::MAX + 1,
        decreases order@.len() - i,
    {
        let ghost before = registry_of(*aux, *computation_db, *diagnostics);
        proof {
            assert(whole.contains(whole[i as int]));
            lemma_annotated_in(*parse, krate, whole);
            if may_be_annotated(*parse, krate, whole[i as int]) {
                lemma_room(
                    start.aux.annotations,
                    aux@.annotations,
                    items,
                    global_id(krate, whole[i as int]),
                );
            }
        }
        let outcome = process_item(
            order[i],
            krate,
            module,
            scope_id,
            aux,
            computation_db,
            diagnostics,
            parse,
            annotate,
            resolve_type,
        );
        proof {
            let short = whole.take(i as int);
            let long = whole.take(i + 1);
            let known = outcomes;
            let next = known.push(outcome@);
            assert(long.drop_last() =~= short);
            assert(next.drop_last() =~= known);
            assert forall|k: int| 0 <= k < long.len() implies is_outcome(
                *parse,
                *annotate,
                *resolve_type,
                krate,
                #[trigger] long[k],
                next[k],
            ) by {
                if k < i {
                    assert(short[k] == long[k]);
                }
            }
            if outcome@ is Annotated {
                assert(is_outcome(
                    *parse,
                    *annotate,
                    *resolve_type,
                    krate,
                    whole[i as int],
                    outcome@,
                ));
                lemma_interning_step(
                    start.aux.annotations,
                    before.aux.annotations,
                    items,
                    global_id(krate, whole[i as int]),
                );
            }
            outcomes = next;
        }
        i = i + 1;
    }
    assert(whole.take(i as int) =~= whole);
    Ghost(outcomes)
}

/// Whether `after` comes of interning some of the items `items` behind `before`.
pub open spec fn is_interning<V>(before: Seq<V>, after: Seq<V>, items: Set<V>) -> bool {
    &&& after.to_set().subset_of(before.to_set().union(items))
    &&& before.to_set().subset_of(after.to_set())
    &&& after.len() == before.len() + after.to_set().difference(before.to_set()).len()
}

proof fn lemma_no_interning<V>(known: Seq<V>, items: Set<V>)
    ensures
        is_interning(known, known, items),
{
    assert(known.to_set().difference(known.to_set()) =~= Set::empty());
}

/// One more item is interned.
proof fn lemma_interning_step<V>(start: Seq<V>, known: Seq<V>, items: Set<V>, item: V)
    requires
        is_interning(start, known, items),
        items.contains(item),
    ensures
        is_interning(start, interned(known, item), items),
{
    broadcast use vstd::seq_lib::seq_to_set_is_finite;

    let after = interned(known, item);
    if !known.contains(item) {
        assert forall|x: V| #[trigger] after.contains(x) <==> known.contains(x) || x == item by {
            if known.contains(x) {
                let k = choose|k: int| 0 <= k < known.len() && known[k] == x;
                assert(after[k] == x);
            }
            assert(after[known.len() as int] == item);
        }
        assert(after.to_set() =~= known.to_set().insert(item));
        assert(after.to_set().difference(start.to_set()) =~= known.to_set().difference(
            start.to_set(),
        ).insert(item));
    }
}

/// Where there are identifiers for all items, there is one for each that has none yet.
proof fn lemma_room<V>(start: Seq<V>, known: Seq<V>, items: Set<V>, item: V)
    requires
        is_interning(start, known, items),
        items.finite(),
        items.contains(item),
        identifiers_needed(start, items) <= u32::MAX + 1,
    ensures
        known.contains(item) || known.len() <= u32::MAX,
{
    if !known.contains(item) {
        let one = set![item];
        lemma_needed_later(start, known, items, one);
        assert(one.difference(known.to_set()) =~= one);
    }
}

/// The identifiers that are needed for some of the items, later on, are among those that were
/// needed for all.
proof fn lemma_needed_later<V>(start: Seq<V>, known: Seq<V>, items: Set<V>, part: Set<V>)
    requires
        is_interning(start, known, items),
        items.finite(),
        part.subset_of(items),
    ensures
        identifiers_needed(known, part) <= identifiers_needed(start, items),
{
    broadcast use vstd::seq_lib::seq_to_set_is_finite;

    let all = items.difference(start.to_set());
    let done = known.to_set().difference(start.to_set());
    let left = part.difference(known.to_set());
    vstd::set_lib::lemma_len_subset(part, items);
    vstd::set_lib::lemma_set_disjoint_lens(done, left);
    assert(done.union(left).subset_of(all));
    vstd::set_lib::lemma_len_subset(done.union(left), all);
}

/// Interning can be done in steps.
proof fn lemma_interning_steps<V>(
    start: Seq<V>,
    known: Seq<V>,
    after: Seq<V>,
    items: Set<V>,
    part: Set<V>,
)
    requires
        is_interning(start, known, items),
        is_interning(known, after, part),
        part.subset_of(items),
    ensures
        is_interning(start, after, items),
{
    broadcast use vstd::seq_lib::seq_to_set_is_finite;

    let first = known.to_set().difference(start.to_set());
    let second = after.to_set().difference(known.to_set());
    vstd::set_lib::lemma_set_disjoint_lens(first, second);
    assert(after.to_set().difference(start.to_set()) =~= first.union(second));
}

/// Process all annotated components.
///
/// `parse` tells what the attributes of an item declare, if anything, or why they cannot be
/// understood; `annotate` finds the source code of a component to show, if it can; `resolve_type`
/// resolves the types of signatures.
pub fn register_imported_components<
    'a,
    T: PartialEq,
    E,
    P: Fn(&Vec<String>) -> Result<Option<AnnotatedComponent>, String>,
    S: Fn(&Registration, ComponentKind, &str) -> Option<AnnotatedSource>,
    R: Fn(&Type, &PackageId, &GenericBindings<T>) -> Result<T, E>,
>(
    imported_modules: &Vec<(ResolvedImport, usize)>,
    aux: &mut AuxiliaryData,
    resolved_paths: &mut ResolvedPaths,
    computation_db: &mut ComputationDb<T>,
    krate_collection: &'a CrateCollection,
    diagnostics: &mut DiagnosticSink<'a, E>,
    parse: &P,
    annotate: &S,
    resolve_type: &R,
)
    requires
        forall|i: int|
            0 <= i < imported_modules@.len() ==> is_import_documented(
                *parse,
                krate_collection,
                old(aux)@.imports,
                #[trigger] imported_modules@[i],
            ),
        parses_any(*parse),
        annotates_any(*annotate),
        resolves_any(*resolve_type),
        T::obeys_eq_spec(),
        identifiers_needed(
            old(aux)@.annotations,
            annotated_items(*parse, krate_collection, imported_modules@),
        ) <= u32::MAX + 1,
    ensures
        exists|outcomes: Seq<Seq<Outcome<T, E>>>|
            {
                &&& #[trigger] are_import_outcomes(
                    *parse,
                    *annotate,
                    *resolve_type,
                    krate_collection,
                    imported_modules@,
                    outcomes,
                )
                &&& registry_of(*final(aux), *final(computation_db), *final(diagnostics))
                    == imports_applied(
                    registry_of(*old(aux), *old(computation_db), *old(diagnostics)),
                    krate_collection,
                    imported_modules@,
                    outcomes,
                )
            },
        final(resolved_paths).pending@ == old(resolved_paths).pending@ + new_components(
            old(aux)@,
            final(aux)@,
        ),
        registry_of(*old(aux), *old(computation_db), *old(diagnostics)).is_consistent()
            ==> registry_of(*final(aux), *final(computation_db), *final(diagnostics)).is_consistent(),
{
    let old_n_components: usize = aux.component_interner.len();
    let ghost all = imported_modules@;
    let ghost start = registry_of(*aux, *computation_db, *diagnostics);
    let ghost items = annotated_items(*parse, krate_collection, all);
    let ghost mut outcomes: Seq<Seq<Outcome<T, E>>> = seq![];
    let mut i: usize = 0;
    proof {
        assert(all.take(0) =~= seq![]);
        lemma_no_interning(start.aux.annotations, items);
    }
    while i < imported_modules.len()
        invariant
            i <= imported_modules@.len(),
            all == imported_modules@,
            forall|k: int|
                0 <= k < all.len() ==> is_import_documented(
                    *parse,
                    krate_collection,
                    start.aux.imports,
                    #[trigger] all[k],
                ),
            parses_any(*parse),
            annotates_any(*annotate),
            resolves_any(*resolve_type),
            T::obeys_eq_spec(),
            items == annotated_items(*parse, krate_collection, all),
            identifiers_needed(start.aux.annotations, items) <= u32::MAX + 1,
            are_import_outcomes(
                *parse,
                *annotate,
                *resolve_type,
                krate_collection,
                all.take(i as int),
                outcomes,
            ),
            registry_of(*aux, *computation_db, *diagnostics) == imports_applied(
                start,
                krate_collection,
                all.take(i as int),
                outcomes,
            ),
            aux@.imports == start.aux.imports,
            is_interning(start.aux.annotations, aux@.annotations, items),
        decreases imported_modules@.len() - i,
    {
        let import = &imported_modules[i].0;
        let import_id: usize = imported_modules[i].1;
        assert(is_import_documented(*parse, krate_collection, start.aux.imports, all[i as int]));
        let scope_id = aux.imports[import_id];
        let krate = krate_collection.get_crate_by_package_id(&import.package_id).unwrap();
        let ghost known = aux@.annotations;
        let ghost part = annotated_in(*parse, krate, traversal(krate, import.path@));
        proof {
            assert(all.take(i + 1).drop_last() =~= all.take(i as int));
            lemma_annotated_items(*parse, krate_collection, all);
            lemma_needed_later(start.aux.annotations, aux@.annotations, items, part);
        }
        let found = register_module(
            krate,
            &import.path,
            scope_id,
            aux,
            computation_db,
            diagnostics,
            parse,
            annotate,
            resolve_type,
        );
        proof {
            let short = all.take(i as int);
            let long = all.take(i + 1);
            let next = outcomes.push(found@);
            assert(next.drop_last() =~= outcomes);
            lemma_interning_steps(
                start.aux.annotations,
                known,
                aux@.annotations,
                items,
                part,
            );
            assert forall|k: int| 0 <= k < long.len() implies are_outcomes(
                *parse,
                *annotate,
                *resolve_type,
                &crate_of_import(krate_collection, (#[trigger] long[k]).0),
                order_of_import(krate_collection, long[k].0),
                next[k],
            ) by {
                if k < i {
                    assert(short[k] == long[k]);
                }
            }
            outcomes = next;
        }
        i = i + 1;
    }
    proof {
        assert(all.take(i as int) =~= all);
        assert(are_import_outcomes(*parse, *annotate, *resolve_type, krate_collection, all, outcomes));
        law_registration_only_adds(start, krate_collection, all, outcomes);
    }
    proof {
        aux.component_interner.lemma_len();
        if start.is_consistent() {
            law_registration_keeps_the_registry_consistent(start, krate_collection, all, outcomes);
        }
    }
    // We resolve identifiers for all new components.
    let n_components: usize = aux.component_interner.len();
    let ghost waiting = resolved_paths.pending@;
    let mut id: usize = old_n_components;
    while id < n_components
        invariant
            old_n_components <= id,
            id <= n_components,
            resolved_paths.pending@ == waiting + Seq::new(
                (id - old_n_components) as nat,
                |k: int| UserComponentId((old_n_components + k) as usize),
            ),
        decreases n_components - id,
    {
        resolved_paths.pending.push(UserComponentId(id));
        assert(resolved_paths.pending@ =~= waiting + Seq::new(
            (id + 1 - old_n_components) as nat,
            |k: int| UserComponentId((old_n_components + k) as usize),
        ));
        id = id + 1;
    }
    assert(resolved_paths.pending@ =~= waiting + new_components(old(aux)@, aux@));
}

/// The identifiers of the components that `after` has and `before` has not, in ascending order.
pub open spec fn new_components(
    before: AuxiliaryDataView,
    after: AuxiliaryDataView,
) -> Seq<UserComponentId> {
    let n = before.components.len();
    Seq::new(
        (after.components.len() - n) as nat,
        |k: int| UserComponentId((n + k) as usize),
    )
}

} // verus!
