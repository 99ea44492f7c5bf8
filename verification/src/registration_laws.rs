//! What the registration of imported components comes to, in the terms of the documentation, of the
//! attributes and of the tables.
use crate::annotations::{
    annotated_in_import, annotated_items, applied, are_import_outcomes, are_outcomes,
    crate_of_import, definition_module, definition_path, global_id, identifiers_needed,
    imports_applied, is_documented, is_import_documented, is_import_registered, is_outcome,
    is_outcome_registered, law_imports_are_registered, law_modules_are_registered,
    law_processing_an_item_only_adds, may_be_annotated,
    module_applied, new_components, order_of_import, parses_any, parses_to, registry_of, with_computation,
    ComputationDb, Outcome, Registry, ResolvedImport,
};
use crate::auxiliary::{
    law_constructor_is_registered, AnnotatedComponent, AuxiliaryData, AuxiliaryDataView,
    CloningStrategy, ComponentSourceView, Lifecycle, Registration, ScopeId, UserComponentView,
};
use crate::callable::{
    equals_itself, free_fn_outcome, method_outcome, resolves_any, same_callable,
    CallableResolutionErrorView, CallableView, GenericBindings,
};
use crate::completeness::{
    is_accounted_for, is_import_accounted_for, law_nothing_is_lost_of_imports,
    lemma_constructor_id_is_kept, lemma_constructor_id_stays,
};
use crate::component_order::{
    import_declares_at, law_an_item_leaves_other_components_alone,
    law_new_components_are_declared,
};
use crate::diagnostic::{
    annotates_any, is_source, malformed_annotation, malformed_help, AnnotatedSource, ComponentKind, Diagnostic, DiagnosticSink,
    DiagnosticView,
};
use crate::interner::{lemma_position, position};
use crate::order_laws::law_crates_are_found_by_package;
use crate::queue::QueueItem;
use crate::reflection::RawIdentifiersView;
use crate::rustdoc::{
    lies_in, Crate, CrateCollection, Id, Impl, Item, ItemEnum, PackageId, Type,
};
use crate::text::{joined, views};
use crate::traversal::{is_reachable, law_each_item_is_processed_once, traversal};
use vstd::prelude::*;

verus! {

/// What comes of an item rests on what it is and on what its attributes are parsed as: an item that
/// is no function is skipped, and a function, whatever its signature, only where its attributes are
/// parsed as no annotation; where they cannot be parsed, the error is kept with the source code of
/// the item; and where they are an annotation, the function is made into a callable. The error, if
/// there is one, comes with it.
pub proof fn law_outcomes_rest_on_the_attributes<
    T,
    E,
    P: Fn(&Vec<String>) -> Result<Option<AnnotatedComponent>, String>,
    S: Fn(&Registration, ComponentKind, &str) -> Option<AnnotatedSource>,
    R: Fn(&Type, &PackageId, &GenericBindings<T>) -> Result<T, E>,
>(
    parse: P,
    annotate: S,
    resolve: R,
    krate: &Crate,
    q: QueueItem,
    id: Id,
    item: Item,
    outcome: Outcome<T, E>,
) -> (error: String)
    requires
        is_outcome(parse, annotate, resolve, krate, q, outcome),
        id == match q {
            QueueItem::Standalone(id) => id,
            QueueItem::Impl { id, .. } => id,
            QueueItem::ImplItem { id, .. } => id,
        },
        item == krate.items@[id.0],
    ensures
        q is Impl || !(item.inner is Function) ==> outcome is Skipped,
        !(q is Impl) && item.inner is Function ==> match outcome {
            Outcome::Skipped => call_ensures(
                parse,
                (&item.attrs,),
                Ok::<Option<AnnotatedComponent>, String>(None),
            ),
            Outcome::Malformed { reason, source } => {
                &&& error@ == reason
                &&& call_ensures(
                    parse,
                    (&item.attrs,),
                    Err::<Option<AnnotatedComponent>, String>(error),
                )
                &&& item.span is None ==> source is None
                &&& item.span is Some ==> call_ensures(
                    annotate,
                    (
                        &Registration::Attribute(item.span->0),
                        ComponentKind::Constructor,
                        "The annotated item",
                    ),
                    source,
                )
            },
            Outcome::Annotated { annotation, callable } => {
                &&& call_ensures(
                    parse,
                    (&item.attrs,),
                    Ok::<Option<AnnotatedComponent>, String>(Some(annotation)),
                )
                &&& match q {
                    QueueItem::Standalone(_) => free_fn_outcome(resolve, item, krate, callable),
                    QueueItem::Impl { .. } => false,
                    QueueItem::ImplItem { self_, impl_, .. } => method_outcome(
                        resolve,
                        self_,
                        impl_,
                        item,
                        krate,
                        callable,
                    ),
                }
            },
        },
{
    match outcome {
        Outcome::Malformed { reason, .. } => choose|e: String|
            e@ == reason && #[trigger] parses_to(parse, item, Err(e)),
        _ => arbitrary(),
    }
}

/// Each item that is processed for each import has an outcome, and just one.
pub proof fn law_each_item_has_an_outcome<
    T,
    E,
    P: Fn(&Vec<String>) -> Result<Option<AnnotatedComponent>, String>,
    S: Fn(&Registration, ComponentKind, &str) -> Option<AnnotatedSource>,
    R: Fn(&Type, &PackageId, &GenericBindings<T>) -> Result<T, E>,
>(
    parse: P,
    annotate: S,
    resolve: R,
    krate_collection: &CrateCollection,
    imports: Seq<(ResolvedImport, usize)>,
    outcomes: Seq<Seq<Outcome<T, E>>>,
    i: int,
    c: int,
)
    requires
        are_import_outcomes(parse, annotate, resolve, krate_collection, imports, outcomes),
        0 <= i < imports.len(),
        0 <= c < krate_collection.crates@.len(),
        krate_collection.crates@[c].package_id.0@ == imports[i].0.package_id.0@,
        forall|j: int|
            0 <= j < c ==> (#[trigger] krate_collection.crates@[j]).package_id.0@
                != imports[i].0.package_id.0@,
    ensures
        outcomes.len() == imports.len(),
        outcomes[i].len() == traversal(&krate_collection.crates@[c], imports[i].0.path@).len(),
        forall|k: int|
            0 <= k < outcomes[i].len() ==> is_outcome(
                parse,
                annotate,
                resolve,
                &krate_collection.crates@[c],
                traversal(&krate_collection.crates@[c], imports[i].0.path@)[k],
                #[trigger] outcomes[i][k],
            ),
{
    law_crates_are_found_by_package(*krate_collection, imports[i].0.package_id, c);
    let krate = krate_collection.crates@[c];
    let order = traversal(&krate, imports[i].0.path@);
    assert(crate_of_import(krate_collection, imports[i].0) == krate);
    assert(are_outcomes(parse, annotate, resolve, &krate, order, outcomes[i]));
    assert forall|k: int| 0 <= k < outcomes[i].len() implies is_outcome(
        parse,
        annotate,
        resolve,
        &krate,
        order[k],
        #[trigger] outcomes[i][k],
    ) by {
        assert(is_outcome(parse, annotate, resolve, &krate, order[k], outcomes[i][k]));
    }
}

/// What the registration of one annotated item leaves behind.
pub ghost struct Trace<T, E> {
    /// What the attributes of the item are parsed as.
    pub annotation: AnnotatedComponent,
    /// What came of the item.
    pub callable: Result<CallableView<T>, CallableResolutionErrorView<E>>,
    /// The number of the item.
    pub item: int,
    /// The identifier of the constructor.
    pub constructor: usize,
    /// The identifier of the error handler, if there is one.
    pub handler: usize,
    /// The number of the path of the error handler, if there is one.
    pub path: int,
}

#[verifier::rlimit(40)]
proof fn lemma_trace<
    T: PartialEq,
    E,
    P: Fn(&Vec<String>) -> Result<Option<AnnotatedComponent>, String>,
    S: Fn(&Registration, ComponentKind, &str) -> Option<AnnotatedSource>,
    R: Fn(&Type, &PackageId, &GenericBindings<T>) -> Result<T, E>,
>(
    parse: P,
    annotate: S,
    resolve: R,
    registry: Registry<T, E>,
    krate_collection: &CrateCollection,
    imports: Seq<(ResolvedImport, usize)>,
    outcomes: Seq<Seq<Outcome<T, E>>>,
    i: int,
    c: int,
    q: QueueItem,
    item: Item,
) -> (trace: Trace<T, E>)
    requires
        are_import_outcomes(parse, annotate, resolve, krate_collection, imports, outcomes),
        0 <= i < imports.len(),
        0 <= c < krate_collection.crates@.len(),
        krate_collection.crates@[c].package_id.0@ == imports[i].0.package_id.0@,
        forall|j: int|
            0 <= j < c ==> (#[trigger] krate_collection.crates@[j]).package_id.0@
                != imports[i].0.package_id.0@,
        is_reachable(&krate_collection.crates@[c], imports[i].0.path@, q),
        !(q is Impl),
        item == krate_collection.crates@[c].item(q.own_id()),
        item.inner is Function,
        forall|o: Result<Option<AnnotatedComponent>, String>| #[trigger]
            call_ensures(parse, (&item.attrs,), o) ==> o is Ok && o->Ok_0 is Some,
        imports_applied(registry, krate_collection, imports, outcomes).aux.components.len()
            <= usize::MAX,
    ensures
        ({
            let krate = krate_collection.crates@[c];
            let next = imports_applied(registry, krate_collection, imports, outcomes);
            &&& call_ensures(
                parse,
                (&item.attrs,),
                Ok::<Option<AnnotatedComponent>, String>(Some(trace.annotation)),
            )
            &&& match q {
                QueueItem::ImplItem { self_, impl_, .. } => method_outcome(
                    resolve,
                    self_,
                    impl_,
                    item,
                    &krate,
                    trace.callable,
                ),
                _ => free_fn_outcome(resolve, item, &krate, trace.callable),
            }
            &&& 0 <= trace.item < next.aux.annotations.len()
            &&& next.aux.annotations[trace.item] == (item.id.0, krate.package_id.0@)
            &&& trace.constructor < next.aux.components.len()
            &&& next.aux.components[trace.constructor as int] == (UserComponentView::Constructor {
                source: ComponentSourceView::Annotation(trace.item),
            })
            &&& trace.annotation->error_handler is Some ==> {
                &&& trace.handler < next.aux.components.len()
                &&& next.aux.components[trace.handler as int] == (UserComponentView::ErrorHandler {
                    source: ComponentSourceView::Identifiers(trace.path),
                    fallible_id: trace.constructor as int,
                })
                &&& 0 <= trace.path < next.aux.identifiers.len()
                &&& next.aux.identifiers[trace.path].crate_name == krate.crate_name@
                &&& next.aux.identifiers[trace.path].module_text == definition_module(&krate, q)
                &&& next.aux.identifiers[trace.path].import_path
                    == trace.annotation->error_handler->0@
            }
            &&& equals_itself::<T>() ==> match trace.callable {
                Ok(callable) => exists|j: int|
                    {
                        &&& 0 <= j < next.computations.len()
                        &&& (#[trigger] next.computations[j]).0 == trace.constructor
                        &&& same_callable(next.computations[j].1, callable)
                    },
                Err(error) => next.diagnostics.contains(
                    DiagnosticView::CannotResolveCallable {
                        error,
                        component_id: trace.constructor,
                    },
                ),
            }
        }),
{
    let krate = krate_collection.crates@[c];
    let next = imports_applied(registry, krate_collection, imports, outcomes);
    let aux = next.aux;
    law_crates_are_found_by_package(*krate_collection, imports[i].0.package_id, c);
    law_each_item_has_an_outcome(
        parse,
        annotate,
        resolve,
        krate_collection,
        imports,
        outcomes,
        i,
        c,
    );
    let order = order_of_import(krate_collection, imports[i].0);
    law_each_item_is_processed_once(&krate, imports[i].0.path@);
    assert(order.contains(q));
    let k = choose|k: int| 0 <= k < order.len() && order[k] == q;
    let outcome = outcomes[i][k];
    assert(is_outcome(parse, annotate, resolve, &krate, q, outcome));
    law_outcomes_rest_on_the_attributes(
        parse,
        annotate,
        resolve,
        &krate,
        q,
        q.own_id(),
        item,
        outcome,
    );
    assert forall|j: int| 0 <= j < imports.len() implies order_of_import(
        krate_collection,
        (#[trigger] imports[j]).0,
    ).len() == outcomes[j].len() by {}
    law_imports_are_registered(registry, krate_collection, imports, outcomes);
    assert(is_import_registered(aux, krate_collection, imports[i].0, outcomes[i]));
    assert(is_outcome_registered(aux, &krate, order[k], outcome));
    if equals_itself::<T>() {
        law_nothing_is_lost_of_imports(registry, krate_collection, imports, outcomes);
        assert(is_import_accounted_for(next, krate_collection, imports[i].0, outcomes[i]));
        assert(is_accounted_for(next, &krate, order[k], outcome));
    }
    let item_id = global_id(&krate, q);
    let constructor = aux.constructor_of(item_id);
    lemma_position(aux.annotations, item_id);
    lemma_position(aux.components, constructor);
    let annotation = outcome->annotation;
    let identifiers = RawIdentifiersView {
        crate_name: krate.crate_name@,
        module_text: definition_module(&krate, q),
        import_path: annotation->error_handler->0@,
    };
    let handler = aux.error_handler_of(identifiers, aux.id_of(constructor));
    lemma_position(aux.identifiers, identifiers);
    lemma_position(aux.components, handler);
    Trace {
        annotation,
        callable: outcome->callable,
        item: position(aux.annotations, item_id),
        constructor: aux.id_of(constructor),
        handler: aux.id_of(handler),
        path: position(aux.identifiers, identifiers),
    }
}

/// The text of the module where an item is defined is its path without the last segment.
proof fn lemma_module_text(krate: &Crate, q: QueueItem)
    ensures
        ({
            let path = match q {
                QueueItem::ImplItem { self_, .. } => krate.import_index@[self_.0].defined_at->0@,
                QueueItem::Impl { id, .. } =>
                    krate.import_index@[krate.items@[id.0].id.0].defined_at->0@,
                QueueItem::Standalone(id) =>
                    krate.import_index@[krate.items@[id.0].id.0].defined_at->0@,
            };
            &&& path.len() == 1 ==> definition_module(krate, q) == Seq::<char>::empty()
            &&& path.len() > 1 ==> definition_module(krate, q) + "::"@ + path.last()@ == joined(
                views(path),
                "::"@,
            )
        }),
{
    let path = (definition_path(krate, q)->0)@;
    assert(views(path).len() == path.len());
    if path.len() > 0 {
        assert(views(path).last() == path.last()@);
    }
}

proof fn lemma_path_lies_in(path: Seq<String>, module: Seq<String>)
    requires
        path.len() >= module.len(),
        forall|j: int| 0 <= j < module.len() ==> #[trigger] path[j]@ == module[j]@,
    ensures
        lies_in(path, module),
{
    assert(views(path).len() == path.len());
    assert(views(module).len() == module.len());
    assert(views(module) =~= views(path).subrange(0, module.len() as int));
}

/// A public function that has a path in an imported module, and whose attributes are parsed as an
/// annotation, is registered, whatever its signature: there is a constructor that was made from it,
/// the error handler that the annotation declares for it, whose path was written in the module where
/// the function is defined, and its callable or the reason why it has none.
#[verifier::rlimit(40)]
pub proof fn law_annotated_functions_are_registered<
    T: PartialEq,
    E,
    P: Fn(&Vec<String>) -> Result<Option<AnnotatedComponent>, String>,
    S: Fn(&Registration, ComponentKind, &str) -> Option<AnnotatedSource>,
    R: Fn(&Type, &PackageId, &GenericBindings<T>) -> Result<T, E>,
>(
    parse: P,
    annotate: S,
    resolve: R,
    registry: Registry<T, E>,
    krate_collection: &CrateCollection,
    imports: Seq<(ResolvedImport, usize)>,
    outcomes: Seq<Seq<Outcome<T, E>>>,
    i: int,
    c: int,
    id: Id,
    p: int,
    item: Item,
) -> (trace: Trace<T, E>)
    requires
        are_import_outcomes(parse, annotate, resolve, krate_collection, imports, outcomes),
        0 <= i < imports.len(),
        0 <= c < krate_collection.crates@.len(),
        krate_collection.crates@[c].package_id.0@ == imports[i].0.package_id.0@,
        forall|j: int|
            0 <= j < c ==> (#[trigger] krate_collection.crates@[j]).package_id.0@
                != imports[i].0.package_id.0@,
        krate_collection.crates@[c].import_index@.contains_key(id.0),
        krate_collection.crates@[c].import_index@[id.0].is_public,
        0 <= p < krate_collection.crates@[c].import_index@[id.0].paths@.len(),
        krate_collection.crates@[c].import_index@[id.0].paths@[p]@.len() >= imports[i].0.path@.len(),
        forall|j: int|
            0 <= j < imports[i].0.path@.len()
                ==> #[trigger] krate_collection.crates@[c].import_index@[id.0].paths@[p]@[j]@
                == imports[i].0.path@[j]@,
        item == krate_collection.crates@[c].items@[id.0],
        item.inner is Function,
        forall|o: Result<Option<AnnotatedComponent>, String>| #[trigger]
            call_ensures(parse, (&item.attrs,), o) ==> o is Ok && o->Ok_0 is Some,
        imports_applied(registry, krate_collection, imports, outcomes).aux.components.len()
            <= usize::MAX,
    ensures
        ({
            let krate = krate_collection.crates@[c];
            let next = imports_applied(registry, krate_collection, imports, outcomes);
            &&& call_ensures(
                parse,
                (&item.attrs,),
                Ok::<Option<AnnotatedComponent>, String>(Some(trace.annotation)),
            )
            &&& free_fn_outcome(resolve, item, &krate, trace.callable)
            // The constructor.
            &&& 0 <= trace.item < next.aux.annotations.len()
            &&& next.aux.annotations[trace.item] == (item.id.0, krate.package_id.0@)
            &&& trace.constructor < next.aux.components.len()
            &&& next.aux.components[trace.constructor as int] == (UserComponentView::Constructor {
                source: ComponentSourceView::Annotation(trace.item),
            })
            // The error handler.
            &&& trace.annotation->error_handler is Some ==> {
                let path = krate.import_index@[item.id.0].defined_at->0@;
                let identifiers = next.aux.identifiers[trace.path];
                &&& trace.handler < next.aux.components.len()
                &&& next.aux.components[trace.handler as int] == (UserComponentView::ErrorHandler {
                    source: ComponentSourceView::Identifiers(trace.path),
                    fallible_id: trace.constructor as int,
                })
                &&& 0 <= trace.path < next.aux.identifiers.len()
                &&& identifiers.crate_name == krate.crate_name@
                &&& identifiers.import_path == trace.annotation->error_handler->0@
                &&& path.len() == 1 ==> identifiers.module_text == Seq::<char>::empty()
                &&& path.len() > 1 ==> identifiers.module_text + "::"@ + path.last()@ == joined(
                    views(path),
                    "::"@,
                )
            }
            // The callable, or why there is none.
            &&& equals_itself::<T>() ==> match trace.callable {
                Ok(callable) => exists|j: int|
                    {
                        &&& 0 <= j < next.computations.len()
                        &&& (#[trigger] next.computations[j]).0 == trace.constructor
                        &&& same_callable(next.computations[j].1, callable)
                    },
                Err(error) => next.diagnostics.contains(
                    DiagnosticView::CannotResolveCallable {
                        error,
                        component_id: trace.constructor,
                    },
                ),
            }
        }),
{
    let krate = krate_collection.crates@[c];
    let q = QueueItem::Standalone(id);
    lemma_path_lies_in(krate.import_index@[id.0].paths@[p]@, imports[i].0.path@);
    assert(krate.import_index@[id.0].is_exported_from(imports[i].0.path@));
    assert(is_reachable(&krate, imports[i].0.path@, q));
    lemma_module_text(&krate, q);
    lemma_trace(
        parse,
        annotate,
        resolve,
        registry,
        krate_collection,
        imports,
        outcomes,
        i,
        c,
        q,
        item,
    )
}

/// A method in an `impl` block of a public struct or enum that has a path in an imported module, and
/// whose attributes are parsed as an annotation, is registered, whatever its signature: there is a
/// constructor that was made from it, the error handler that the annotation declares for it, whose
/// path was written in the module where the type is defined, and its callable or the reason why it
/// has none.
#[verifier::rlimit(40)]
pub proof fn law_annotated_methods_are_registered<
    T: PartialEq,
    E,
    P: Fn(&Vec<String>) -> Result<Option<AnnotatedComponent>, String>,
    S: Fn(&Registration, ComponentKind, &str) -> Option<AnnotatedSource>,
    R: Fn(&Type, &PackageId, &GenericBindings<T>) -> Result<T, E>,
>(
    parse: P,
    annotate: S,
    resolve: R,
    registry: Registry<T, E>,
    krate_collection: &CrateCollection,
    imports: Seq<(ResolvedImport, usize)>,
    outcomes: Seq<Seq<Outcome<T, E>>>,
    i: int,
    c: int,
    self_: Id,
    impl_: Id,
    impls: Vec<Id>,
    block: Impl,
    id: Id,
    p: int,
    item: Item,
) -> (trace: Trace<T, E>)
    requires
        are_import_outcomes(parse, annotate, resolve, krate_collection, imports, outcomes),
        0 <= i < imports.len(),
        0 <= c < krate_collection.crates@.len(),
        krate_collection.crates@[c].package_id.0@ == imports[i].0.package_id.0@,
        forall|j: int|
            0 <= j < c ==> (#[trigger] krate_collection.crates@[j]).package_id.0@
                != imports[i].0.package_id.0@,
        krate_collection.crates@[c].import_index@.contains_key(self_.0),
        krate_collection.crates@[c].import_index@[self_.0].is_public,
        0 <= p < krate_collection.crates@[c].import_index@[self_.0].paths@.len(),
        krate_collection.crates@[c].import_index@[self_.0].paths@[p]@.len() >= imports[i].0.path@.len(),
        forall|j: int|
            0 <= j < imports[i].0.path@.len()
                ==> #[trigger] krate_collection.crates@[c].import_index@[self_.0].paths@[p]@[j]@
                == imports[i].0.path@[j]@,
        krate_collection.crates@[c].items@[self_.0].inner == (ItemEnum::Struct { impls })
            || krate_collection.crates@[c].items@[self_.0].inner == (ItemEnum::Enum { impls }),
        impls@.contains(impl_),
        krate_collection.crates@[c].items@[impl_.0].inner == ItemEnum::Impl(block),
        block.items@.contains(id),
        item == krate_collection.crates@[c].items@[id.0],
        item.inner is Function,
        forall|o: Result<Option<AnnotatedComponent>, String>| #[trigger]
            call_ensures(parse, (&item.attrs,), o) ==> o is Ok && o->Ok_0 is Some,
        imports_applied(registry, krate_collection, imports, outcomes).aux.components.len()
            <= usize::MAX,
    ensures
        ({
            let krate = krate_collection.crates@[c];
            let next = imports_applied(registry, krate_collection, imports, outcomes);
            &&& call_ensures(
                parse,
                (&item.attrs,),
                Ok::<Option<AnnotatedComponent>, String>(Some(trace.annotation)),
            )
            &&& method_outcome(
                resolve,
                self_,
                impl_,
                item,
                &krate,
                trace.callable,
            )
            // The constructor.
            &&& 0 <= trace.item < next.aux.annotations.len()
            &&& next.aux.annotations[trace.item] == (item.id.0, krate.package_id.0@)
            &&& trace.constructor < next.aux.components.len()
            &&& next.aux.components[trace.constructor as int] == (UserComponentView::Constructor {
                source: ComponentSourceView::Annotation(trace.item),
            })
            // The error handler.
            &&& trace.annotation->error_handler is Some ==> {
                let path = krate.import_index@[self_.0].defined_at->0@;
                let identifiers = next.aux.identifiers[trace.path];
                &&& trace.handler < next.aux.components.len()
                &&& next.aux.components[trace.handler as int] == (UserComponentView::ErrorHandler {
                    source: ComponentSourceView::Identifiers(trace.path),
                    fallible_id: trace.constructor as int,
                })
                &&& 0 <= trace.path < next.aux.identifiers.len()
                &&& identifiers.crate_name == krate.crate_name@
                &&& identifiers.import_path == trace.annotation->error_handler->0@
                &&& path.len() == 1 ==> identifiers.module_text == Seq::<char>::empty()
                &&& path.len() > 1 ==> identifiers.module_text + "::"@ + path.last()@ == joined(
                    views(path),
                    "::"@,
                )
            }
            // The callable, or why there is none.
            &&& equals_itself::<T>() ==> match trace.callable {
                Ok(callable) => exists|j: int|
                    {
                        &&& 0 <= j < next.computations.len()
                        &&& (#[trigger] next.computations[j]).0 == trace.constructor
                        &&& same_callable(next.computations[j].1, callable)
                    },
                Err(error) => next.diagnostics.contains(
                    DiagnosticView::CannotResolveCallable {
                        error,
                        component_id: trace.constructor,
                    },
                ),
            }
        }),
{
    let krate = krate_collection.crates@[c];
    let q = QueueItem::ImplItem { self_, impl_, id };
    lemma_path_lies_in(krate.import_index@[self_.0].paths@[p]@, imports[i].0.path@);
    assert(krate.import_index@[self_.0].is_exported_from(imports[i].0.path@));
    assert(is_reachable(&krate, imports[i].0.path@, q));
    lemma_module_text(&krate, q);
    lemma_trace(
        parse,
        annotate,
        resolve,
        registry,
        krate_collection,
        imports,
        outcomes,
        i,
        c,
        q,
        item,
    )
}

/// A function or method whose attributes cannot be parsed is reported, with the reason, the name of
/// the item, the source code of the item and the advice. The reason and the source come with it.
pub proof fn law_malformed_annotations_are_reported<
    T: PartialEq,
    E,
    P: Fn(&Vec<String>) -> Result<Option<AnnotatedComponent>, String>,
    S: Fn(&Registration, ComponentKind, &str) -> Option<AnnotatedSource>,
    R: Fn(&Type, &PackageId, &GenericBindings<T>) -> Result<T, E>,
>(
    parse: P,
    annotate: S,
    resolve: R,
    registry: Registry<T, E>,
    krate_collection: &CrateCollection,
    imports: Seq<(ResolvedImport, usize)>,
    outcomes: Seq<Seq<Outcome<T, E>>>,
    i: int,
    c: int,
    q: QueueItem,
    id: Id,
    item: Item,
) -> (report: (String, Option<AnnotatedSource>))
    requires
        equals_itself::<T>(),
        are_import_outcomes(parse, annotate, resolve, krate_collection, imports, outcomes),
        0 <= i < imports.len(),
        0 <= c < krate_collection.crates@.len(),
        krate_collection.crates@[c].package_id.0@ == imports[i].0.package_id.0@,
        forall|j: int|
            0 <= j < c ==> (#[trigger] krate_collection.crates@[j]).package_id.0@
                != imports[i].0.package_id.0@,
        traversal(&krate_collection.crates@[c], imports[i].0.path@).contains(q),
        q == QueueItem::Standalone(id) || (q matches QueueItem::ImplItem { id: own, .. } && own
            == id),
        item == krate_collection.crates@[c].items@[id.0],
        item.inner is Function,
        forall|o: Result<Option<AnnotatedComponent>, String>| #[trigger]
            call_ensures(parse, (&item.attrs,), o) ==> o is Err,
    ensures
        ({
            let (error, source) = report;
            let next = imports_applied(registry, krate_collection, imports, outcomes);
            &&& call_ensures(
                parse,
                (&item.attrs,),
                Err::<Option<AnnotatedComponent>, String>(error),
            )
            &&& item.span is None ==> source is None
            &&& item.span is Some ==> call_ensures(
                annotate,
                (
                    &Registration::Attribute(item.span->0),
                    ComponentKind::Constructor,
                    "The annotated item",
                ),
                source,
            )
            &&& next.diagnostics.contains(
                DiagnosticView::MalformedAnnotation {
                    reason: error@,
                    context: match item.name {
                        Some(name) => "`"@ + name@
                            + "` is annotated with a malformed `diagnostic::pavex::*` attribute."@,
                        None =>
                            "One of your items is annotated with a malformed `diagnostic::pavex::*` attribute."@,
                    },
                    source,
                    help: malformed_help(),
                },
            )
        }),
{
    let krate = krate_collection.crates@[c];
    let next = imports_applied(registry, krate_collection, imports, outcomes);
    law_crates_are_found_by_package(*krate_collection, imports[i].0.package_id, c);
    law_each_item_has_an_outcome(
        parse,
        annotate,
        resolve,
        krate_collection,
        imports,
        outcomes,
        i,
        c,
    );
    let order = order_of_import(krate_collection, imports[i].0);
    let k = choose|k: int| 0 <= k < order.len() && order[k] == q;
    let outcome = outcomes[i][k];
    assert(is_outcome(parse, annotate, resolve, &krate, q, outcome));
    let error = law_outcomes_rest_on_the_attributes(
        parse,
        annotate,
        resolve,
        &krate,
        q,
        id,
        item,
        outcome,
    );
    assert forall|j: int| 0 <= j < imports.len() implies order_of_import(
        krate_collection,
        (#[trigger] imports[j]).0,
    ).len() == outcomes[j].len() by {}
    law_nothing_is_lost_of_imports(registry, krate_collection, imports, outcomes);
    assert(is_import_accounted_for(next, krate_collection, imports[i].0, outcomes[i]));
    assert(is_accounted_for(next, &krate, order[k], outcome));
    (error, outcome->source)
}

/// Where no attributes are parsed as an annotation, and none are malformed, nothing changes.
pub proof fn law_nothing_changes_without_annotations<
    T: PartialEq,
    E,
    P: Fn(&Vec<String>) -> Result<Option<AnnotatedComponent>, String>,
    S: Fn(&Registration, ComponentKind, &str) -> Option<AnnotatedSource>,
    R: Fn(&Type, &PackageId, &GenericBindings<T>) -> Result<T, E>,
>(
    parse: P,
    annotate: S,
    resolve: R,
    registry: Registry<T, E>,
    krate_collection: &CrateCollection,
    imports: Seq<(ResolvedImport, usize)>,
    outcomes: Seq<Seq<Outcome<T, E>>>,
)
    requires
        are_import_outcomes(parse, annotate, resolve, krate_collection, imports, outcomes),
        forall|item: Item, o: Result<Option<AnnotatedComponent>, String>| #[trigger]
            call_ensures(parse, (&item.attrs,), o) ==> o is Ok && o->Ok_0 is None,
    ensures
        imports_applied(registry, krate_collection, imports, outcomes) == registry,
    decreases imports.len(),
{
    if imports.len() > 0 {
        let n = imports.len() - 1;
        let front = imports.drop_last();
        let known = outcomes.drop_last();
        assert forall|i: int| 0 <= i < front.len() implies are_outcomes(
            parse,
            annotate,
            resolve,
            &crate_of_import(krate_collection, (#[trigger] front[i]).0),
            order_of_import(krate_collection, front[i].0),
            known[i],
        ) by {
            assert(front[i] == imports[i]);
        }
        law_nothing_changes_without_annotations(
            parse,
            annotate,
            resolve,
            registry,
            krate_collection,
            front,
            known,
        );
        let (last, import_id) = imports[n];
        let krate = crate_of_import(krate_collection, last);
        let order = order_of_import(krate_collection, last);
        assert(are_outcomes(parse, annotate, resolve, &krate, order, outcomes[n]));
        assert forall|k: int| 0 <= k < order.len() implies (
        #[trigger] outcomes[n][k]) is Skipped by {
            let q = order[k];
            assert(is_outcome(parse, annotate, resolve, &krate, q, outcomes[n][k]));
            let item = krate.item(q.own_id());
            let error = law_outcomes_rest_on_the_attributes(
                parse,
                annotate,
                resolve,
                &krate,
                q,
                q.own_id(),
                item,
                outcomes[n][k],
            );
            if let Outcome::Malformed { .. } = outcomes[n][k] {
                assert(call_ensures(
                    parse,
                    (&item.attrs,),
                    Err::<Option<AnnotatedComponent>, String>(error),
                ));
            }
            if let Outcome::Annotated { annotation, .. } = outcomes[n][k] {
                assert(call_ensures(
                    parse,
                    (&item.attrs,),
                    Ok::<Option<AnnotatedComponent>, String>(Some(annotation)),
                ));
            }
        }
        lemma_skipped(
            registry,
            &krate,
            registry.aux.imports[import_id as int],
            order,
            outcomes[n],
        );
    }
}

proof fn lemma_skipped<T: PartialEq, E>(
    registry: Registry<T, E>,
    krate: &Crate,
    scope_id: ScopeId,
    order: Seq<QueueItem>,
    outcomes: Seq<Outcome<T, E>>,
)
    requires
        order.len() == outcomes.len(),
        forall|k: int| 0 <= k < outcomes.len() ==> (#[trigger] outcomes[k]) is Skipped,
    ensures
        module_applied(registry, krate, scope_id, order, outcomes) == registry,
    decreases order.len(),
{
    if order.len() > 0 {
        let known = outcomes.drop_last();
        assert forall|k: int| 0 <= k < known.len() implies (#[trigger] known[k]) is Skipped by {
            assert(known[k] == outcomes[k]);
        }
        lemma_skipped(registry, krate, scope_id, order.drop_last(), known);
        assert(outcomes[outcomes.len() - 1] is Skipped);
    }
}

/// Imports are processed in turn, and the items of each in turn: one more import is processed behind
/// the others, in the scope that the table of imports has for it, and one more item behind the
/// others.
pub proof fn law_imports_and_items_are_processed_in_turn<T: PartialEq, E>(
    registry: Registry<T, E>,
    krate_collection: &CrateCollection,
    imports: Seq<(ResolvedImport, usize)>,
    outcomes: Seq<Seq<Outcome<T, E>>>,
    import: ResolvedImport,
    import_id: usize,
    c: int,
    found: Seq<Outcome<T, E>>,
    krate: &Crate,
    scope_id: ScopeId,
    order: Seq<QueueItem>,
    known: Seq<Outcome<T, E>>,
    q: QueueItem,
    outcome: Outcome<T, E>,
)
    requires
        0 <= c < krate_collection.crates@.len(),
        krate_collection.crates@[c].package_id.0@ == import.package_id.0@,
        forall|j: int|
            0 <= j < c ==> (#[trigger] krate_collection.crates@[j]).package_id.0@
                != import.package_id.0@,
    ensures
        imports_applied(registry, krate_collection, seq![], seq![]) == registry,
        imports_applied(
            registry,
            krate_collection,
            imports.push((import, import_id)),
            outcomes.push(found),
        ) == module_applied(
            imports_applied(registry, krate_collection, imports, outcomes),
            &krate_collection.crates@[c],
            registry.aux.imports[import_id as int],
            traversal(&krate_collection.crates@[c], import.path@),
            found,
        ),
        module_applied(registry, krate, scope_id, seq![], seq![]) == registry,
        module_applied(registry, krate, scope_id, order.push(q), known.push(outcome)) == applied(
            module_applied(registry, krate, scope_id, order, known),
            krate,
            scope_id,
            q,
            outcome,
        ),
{
    law_crates_are_found_by_package(*krate_collection, import.package_id, c);
    assert(imports.push((import, import_id)).drop_last() =~= imports);
    assert(outcomes.push(found).drop_last() =~= outcomes);
    assert(order.push(q).drop_last() =~= order);
    assert(known.push(outcome).drop_last() =~= known);
}

/// Each outcome changes the registry in its own way: none where the item is skipped; a diagnostic
/// more where its annotation is malformed; and where it is annotated, the tables take up what the
/// annotation declares, and a callable or a diagnostic is added, but no callable that is there.
pub proof fn law_what_an_outcome_changes<T: PartialEq, E>(
    registry: Registry<T, E>,
    krate: &Crate,
    scope_id: ScopeId,
    q: QueueItem,
    id: Id,
    item: Item,
    outcome: Outcome<T, E>,
)
    requires
        id == match q {
            QueueItem::Standalone(id) => id,
            QueueItem::Impl { id, .. } => id,
            QueueItem::ImplItem { id, .. } => id,
        },
        item == krate.items@[id.0],
    ensures
        ({
            let next = applied(registry, krate, scope_id, q, outcome);
            match outcome {
                Outcome::Skipped => next == registry,
                Outcome::Malformed { reason, source } => {
                    &&& next.aux == registry.aux
                    &&& next.computations == registry.computations
                    &&& next.diagnostics.len() == registry.diagnostics.len() + 1
                    &&& registry.diagnostics.is_prefix_of(next.diagnostics)
                    &&& next.diagnostics.last() is MalformedAnnotation
                    &&& next.diagnostics.last()->reason == reason
                    &&& next.diagnostics.last()->source == source
                    &&& next.diagnostics.last()->help == malformed_help()
                    &&& next.diagnostics.last()->context == match item.name {
                        Some(name) => "`"@ + name@
                            + "` is annotated with a malformed `diagnostic::pavex::*` attribute."@,
                        None =>
                            "One of your items is annotated with a malformed `diagnostic::pavex::*` attribute."@,
                    }
                },
                Outcome::Annotated { annotation, callable } => {
                    let item_id = (item.id.0, krate.package_id.0@);
                    let constructor_id = position(
                        registry.aux.components,
                        UserComponentView::Constructor {
                            source: ComponentSourceView::Annotation(
                                position(registry.aux.annotations, item_id),
                            ),
                        },
                    ) as usize;
                    &&& next.aux == registry.aux.with_annotated(
                        annotation,
                        item_id,
                        item.span->0,
                        krate.crate_name@,
                        definition_module(krate, q),
                        scope_id,
                    )
                    &&& match callable {
                        Ok(callable) => {
                            &&& next.diagnostics == registry.diagnostics
                            &&& next.computations == if exists|j: int|
                                {
                                    &&& 0 <= j < registry.computations.len()
                                    &&& (#[trigger] registry.computations[j]).0 == constructor_id
                                    &&& same_callable(registry.computations[j].1, callable)
                                } {
                                registry.computations
                            } else {
                                registry.computations.push((constructor_id, callable))
                            }
                        },
                        Err(error) => {
                            &&& next.computations == registry.computations
                            &&& next.diagnostics == registry.diagnostics.push(
                                DiagnosticView::CannotResolveCallable {
                                    error,
                                    component_id: constructor_id,
                                },
                            )
                        },
                    }
                },
            }
        }),
{
}

/// The module where an annotation was written is that of the function, or of the type of the
/// method: its text, two colons and the last segment are the whole path.
pub proof fn law_module_of_an_annotation(krate: &Crate, q: QueueItem, path: Vec<String>)
    requires
        match q {
            QueueItem::ImplItem { self_, .. } => krate.import_index@[self_.0].defined_at == Some(
                path,
            ),
            QueueItem::Standalone(id) =>
                krate.import_index@[krate.items@[id.0].id.0].defined_at == Some(path),
            QueueItem::Impl { .. } => false,
        },
    ensures
        path@.len() == 1 ==> definition_module(krate, q) == Seq::<char>::empty(),
        path@.len() > 1 ==> definition_module(krate, q) + "::"@ + path@.last()@ == joined(
            views(path@),
            "::"@,
        ),
{
    lemma_module_text(krate, q);
}

/// Each component that is new comes from an item that is processed for one of the imports, that is
/// a function or a method, and whose attributes are parsed as an annotation: it is the constructor
/// that was made from that item, or the error handler of that constructor. The import, the item and
/// the annotation come with it.
#[verifier::rlimit(40)]
pub proof fn law_where_new_components_come_from<
    T: PartialEq,
    E,
    P: Fn(&Vec<String>) -> Result<Option<AnnotatedComponent>, String>,
    S: Fn(&Registration, ComponentKind, &str) -> Option<AnnotatedSource>,
    R: Fn(&Type, &PackageId, &GenericBindings<T>) -> Result<T, E>,
>(
    parse: P,
    annotate: S,
    resolve: R,
    registry: Registry<T, E>,
    krate_collection: &CrateCollection,
    imports: Seq<(ResolvedImport, usize)>,
    outcomes: Seq<Seq<Outcome<T, E>>>,
    number: int,
) -> (origin: (int, QueueItem, AnnotatedComponent))
    requires
        are_import_outcomes(parse, annotate, resolve, krate_collection, imports, outcomes),
        registry.aux.components.len() <= number < imports_applied(
            registry,
            krate_collection,
            imports,
            outcomes,
        ).aux.components.len(),
        imports_applied(registry, krate_collection, imports, outcomes).aux.components.len()
            <= usize::MAX,
    ensures
        ({
            let (i, q, annotation) = origin;
            let aux = imports_applied(registry, krate_collection, imports, outcomes).aux;
            let krate = crate_of_import(krate_collection, imports[i].0);
            let item = match q {
                QueueItem::Standalone(id) => krate.items@[id.0],
                QueueItem::Impl { id, .. } => krate.items@[id.0],
                QueueItem::ImplItem { id, .. } => krate.items@[id.0],
            };
            &&& 0 <= i < imports.len()
            &&& traversal(&krate, imports[i].0.path@).contains(q)
            &&& !(q is Impl)
            &&& item.inner is Function
            &&& call_ensures(
                parse,
                (&item.attrs,),
                Ok::<Option<AnnotatedComponent>, String>(Some(annotation)),
            )
            &&& match aux.components[number] {
                UserComponentView::Constructor { source } => {
                    &&& source is Annotation
                    &&& 0 <= source->Annotation_0 < aux.annotations.len()
                    &&& aux.annotations[source->Annotation_0] == (item.id.0, krate.package_id.0@)
                },
                UserComponentView::ErrorHandler { source, fallible_id } => {
                    let constructor = aux.components[fallible_id];
                    &&& annotation->error_handler is Some
                    &&& source is Identifiers
                    &&& 0 <= source->Identifiers_0 < aux.identifiers.len()
                    &&& aux.identifiers[source->Identifiers_0].crate_name == krate.crate_name@
                    &&& aux.identifiers[source->Identifiers_0].import_path
                        == annotation->error_handler->0@
                    &&& 0 <= fallible_id < aux.components.len()
                    &&& constructor is Constructor
                    &&& constructor->Constructor_source is Annotation
                    &&& aux.annotations[constructor->Constructor_source->Annotation_0] == (
                        item.id.0,
                        krate.package_id.0@,
                    )
                },
            }
        }),
{
    let aux = imports_applied(registry, krate_collection, imports, outcomes).aux;
    law_new_components_are_declared(
        parse,
        annotate,
        resolve,
        registry,
        krate_collection,
        imports,
        outcomes,
        number,
    );
    let (i, k) = choose|i: int, k: int|
        {
            let import = imports[i].0;
            let krate = crate_of_import(krate_collection, import);
            let q = order_of_import(krate_collection, import)[k];
            &&& #[trigger] import_declares_at(
                aux,
                krate_collection,
                imports,
                outcomes,
                i,
                k,
                aux.components[number],
            )
            &&& is_reachable(&krate, import.path@, q)
            &&& may_be_annotated(parse, &krate, q)
        };
    let import = imports[i].0;
    let krate = crate_of_import(krate_collection, import);
    let order = order_of_import(krate_collection, import);
    let q = order[k];
    law_each_item_is_processed_once(&krate, import.path@);
    assert(order.contains(q));
    assert(are_outcomes(parse, annotate, resolve, &krate, order, outcomes[i]));
    assert(is_outcome(parse, annotate, resolve, &krate, q, outcomes[i][k]));
    assert forall|j: int| 0 <= j < imports.len() implies order_of_import(
        krate_collection,
        (#[trigger] imports[j]).0,
    ).len() == outcomes[j].len() by {}
    law_imports_are_registered(registry, krate_collection, imports, outcomes);
    assert(is_import_registered(aux, krate_collection, imports[i].0, outcomes[i]));
    assert(is_outcome_registered(aux, &krate, order[k], outcomes[i][k]));
    let item_id = global_id(&krate, q);
    let constructor = aux.constructor_of(item_id);
    lemma_position(aux.annotations, item_id);
    lemma_position(aux.components, constructor);
    let annotation = outcomes[i][k]->annotation;
    lemma_position(
        aux.identifiers,
        RawIdentifiersView {
            crate_name: krate.crate_name@,
            module_text: definition_module(&krate, q),
            import_path: annotation->error_handler->0@,
        },
    );
    (i, q, annotation)
}

#[verifier::rlimit(40)]
proof fn lemma_last_visit_decides<T: PartialEq, E>(
    registry: Registry<T, E>,
    krate: &Crate,
    scope_id: ScopeId,
    order: Seq<QueueItem>,
    outcomes: Seq<Outcome<T, E>>,
    k: int,
    lifecycle: Lifecycle,
    cloning_strategy: Option<CloningStrategy>,
    error_handler: Option<String>,
)
    requires
        order.len() == outcomes.len(),
        0 <= k < order.len(),
        outcomes[k] is Annotated,
        outcomes[k]->annotation == (AnnotatedComponent::Constructor {
            lifecycle,
            cloning_strategy,
            error_handler,
        }),
        forall|j: int|
            k < j < order.len() && outcomes[j] is Annotated ==> global_id(krate, #[trigger] order[j])
                != global_id(krate, order[k]),
        module_applied(registry, krate, scope_id, order, outcomes).aux.components.len()
            < usize::MAX,
    ensures
        ({
            let aux = module_applied(registry, krate, scope_id, order, outcomes).aux;
            let id = aux.id_of(aux.constructor_of(global_id(krate, order[k])));
            &&& aux.scopes[id] == scope_id
            &&& aux.lifecycles[id] == lifecycle
            &&& aux.registrations[id] == Registration::Attribute(
                krate.item(order[k].own_id()).span->0,
            )
            &&& aux.cloning_strategies[id] == if cloning_strategy is Some {
                cloning_strategy->0
            } else {
                CloningStrategy::NeverClone
            }
        }),
    decreases order.len(),
{
    let n = order.len() - 1;
    let front = order.drop_last();
    let known = outcomes.drop_last();
    let before = module_applied(registry, krate, scope_id, front, known);
    let aux = module_applied(registry, krate, scope_id, order, outcomes).aux;
    let gid = global_id(krate, order[k]);
    law_processing_an_item_only_adds(before, krate, scope_id, order[n], outcomes[n]);
    if k == n {
        lemma_constructor_id_is_kept(before, krate, scope_id, order[n], outcomes[n]);
        law_constructor_is_registered(
            before.aux,
            outcomes[n]->annotation,
            gid,
            krate.item(order[n].own_id()).span->0,
            krate.crate_name@,
            definition_module(krate, order[n]),
            scope_id,
        );
    } else {
        assert(front[k] == order[k]);
        assert forall|j: int|
            k < j < front.len() && known[j] is Annotated implies global_id(
            krate,
            #[trigger] front[j],
        ) != global_id(krate, front[k]) by {
            assert(front[j] == order[j]);
        }
        lemma_last_visit_decides(
            registry,
            krate,
            scope_id,
            front,
            known,
            k,
            lifecycle,
            cloning_strategy,
            error_handler,
        );
        law_modules_are_registered(registry, krate, scope_id, front, known);
        assert(is_outcome_registered(before.aux, krate, front[k], known[k]));
        lemma_constructor_id_stays(before.aux, aux, krate, order[k], outcomes[k]);
        let constructor = before.aux.constructor_of(gid);
        let id = before.aux.id_of(constructor);
        lemma_position(before.aux.annotations, gid);
        lemma_position(before.aux.annotations, global_id(krate, order[n]));
        lemma_position(before.aux.components, constructor);
        law_an_item_leaves_other_components_alone(
            before,
            krate,
            scope_id,
            order[n],
            outcomes[n],
            id,
        );
    }
}

/// The import that is registered last decides what is known of the constructors of its items: the
/// scope is that of the import, and the lifecycle, the place and how it is cloned are what the
/// annotation says that is processed last for the item. The number of the item and the identifier
/// of the constructor come with it.
#[verifier::rlimit(40)]
pub proof fn law_last_import_decides<
    T: PartialEq,
    E,
    P: Fn(&Vec<String>) -> Result<Option<AnnotatedComponent>, String>,
    S: Fn(&Registration, ComponentKind, &str) -> Option<AnnotatedSource>,
    R: Fn(&Type, &PackageId, &GenericBindings<T>) -> Result<T, E>,
>(
    parse: P,
    annotate: S,
    resolve: R,
    registry: Registry<T, E>,
    krate_collection: &CrateCollection,
    imports: Seq<(ResolvedImport, usize)>,
    outcomes: Seq<Seq<Outcome<T, E>>>,
    c: int,
    k: int,
    item: Item,
    lifecycle: Lifecycle,
    cloning_strategy: Option<CloningStrategy>,
    error_handler: Option<String>,
) -> (numbers: (int, usize))
    requires
        are_import_outcomes(parse, annotate, resolve, krate_collection, imports, outcomes),
        imports.len() > 0,
        0 <= c < krate_collection.crates@.len(),
        krate_collection.crates@[c].package_id.0@ == imports.last().0.package_id.0@,
        forall|j: int|
            0 <= j < c ==> (#[trigger] krate_collection.crates@[j]).package_id.0@
                != imports.last().0.package_id.0@,
        ({
            let order = traversal(&krate_collection.crates@[c], imports.last().0.path@);
            &&& 0 <= k < order.len()
            &&& item == krate_collection.crates@[c].items@[match order[k] {
                QueueItem::Standalone(id) => id.0,
                QueueItem::Impl { id, .. } => id.0,
                QueueItem::ImplItem { id, .. } => id.0,
            }]
            &&& outcomes.last()[k] is Annotated
            &&& outcomes.last()[k]->annotation == (AnnotatedComponent::Constructor {
                lifecycle,
                cloning_strategy,
                error_handler,
            })
            &&& forall|j: int|
                k < j < order.len() ==> krate_collection.crates@[c].items@[match #[trigger] order[j] {
                    QueueItem::Standalone(id) => id.0,
                    QueueItem::Impl { id, .. } => id.0,
                    QueueItem::ImplItem { id, .. } => id.0,
                }].id.0 != item.id.0
        }),
        imports_applied(registry, krate_collection, imports, outcomes).aux.components.len()
            < usize::MAX,
    ensures
        ({
            let (n, id) = numbers;
            let aux = imports_applied(registry, krate_collection, imports, outcomes).aux;
            &&& 0 <= n < aux.annotations.len()
            &&& aux.annotations[n] == (item.id.0, krate_collection.crates@[c].package_id.0@)
            &&& id < aux.components.len()
            &&& aux.components[id as int] == (UserComponentView::Constructor {
                source: ComponentSourceView::Annotation(n),
            })
            &&& aux.scopes[id] == registry.aux.imports[imports.last().1 as int]
            &&& aux.lifecycles[id] == lifecycle
            &&& aux.registrations[id] == Registration::Attribute(item.span->0)
            &&& aux.cloning_strategies[id] == if cloning_strategy is Some {
                cloning_strategy->0
            } else {
                CloningStrategy::NeverClone
            }
        }),
{
    let last = imports.len() - 1;
    let (import, import_id) = imports[last];
    law_crates_are_found_by_package(*krate_collection, import.package_id, c);
    let krate = crate_of_import(krate_collection, import);
    let order = order_of_import(krate_collection, import);
    let before = imports_applied(
        registry,
        krate_collection,
        imports.drop_last(),
        outcomes.drop_last(),
    );
    let scope_id = registry.aux.imports[import_id as int];
    let aux = imports_applied(registry, krate_collection, imports, outcomes).aux;
    assert(are_outcomes(parse, annotate, resolve, &krate, order, outcomes[last]));
    lemma_last_visit_decides(
        before,
        &krate,
        scope_id,
        order,
        outcomes[last],
        k,
        lifecycle,
        cloning_strategy,
        error_handler,
    );
    law_modules_are_registered(before, &krate, scope_id, order, outcomes[last]);
    assert(is_outcome_registered(aux, &krate, order[k], outcomes[last][k]));
    let item_id = global_id(&krate, order[k]);
    lemma_position(aux.annotations, item_id);
    lemma_position(aux.components, aux.constructor_of(item_id));
    (position(aux.annotations, item_id), aux.id_of(aux.constructor_of(item_id)))
}

/// The components that are pending are the new ones, each once, in ascending order.
pub proof fn law_new_components_are_pending(before: AuxiliaryDataView, after: AuxiliaryDataView)
    requires
        before.components.len() <= after.components.len() <= usize::MAX,
    ensures
        new_components(before, after).len() == after.components.len() - before.components.len(),
        forall|k: int|
            0 <= k < new_components(before, after).len() ==> (#[trigger] new_components(
                before,
                after,
            )[k]).0 == before.components.len() + k,
{
}

/// An import can be registered where its scope is known, its crate is documented, the items that
/// are processed for it are there, and of each function among them the place, the name and the path
/// where it is defined, or its type.
pub proof fn law_documentation_that_suffices<
    P: Fn(&Vec<String>) -> Result<Option<AnnotatedComponent>, String>,
>(
    parse: P,
    krate_collection: &CrateCollection,
    scopes: Seq<ScopeId>,
    import: (ResolvedImport, usize),
    c: int,
)
    requires
        import.1 < scopes.len(),
        0 <= c < krate_collection.crates@.len(),
        krate_collection.crates@[c].package_id.0@ == import.0.package_id.0@,
        forall|j: int|
            0 <= j < c ==> (#[trigger] krate_collection.crates@[j]).package_id.0@
                != import.0.package_id.0@,
        forall|q: QueueItem| #[trigger]
            traversal(&krate_collection.crates@[c], import.0.path@).contains(q) ==> {
                let krate = krate_collection.crates@[c];
                let id = match q {
                    QueueItem::Standalone(id) => id,
                    QueueItem::Impl { id, .. } => id,
                    QueueItem::ImplItem { id, .. } => id,
                };
                let root = match q {
                    QueueItem::ImplItem { self_, .. } => self_,
                    _ => krate.items@[id.0].id,
                };
                &&& krate.items@.contains_key(id.0)
                &&& krate.items@[id.0].inner is Function ==> {
                    &&& krate.items@[id.0].span is Some
                    &&& krate.items@[id.0].name is Some
                    &&& krate.import_index@.contains_key(root.0)
                    &&& krate.import_index@[root.0].defined_at is Some
                    &&& (krate.import_index@[root.0].defined_at->0)@.len() > 0
                }
            },
    ensures
        is_import_documented(parse, krate_collection, scopes, import),
{
    law_crates_are_found_by_package(*krate_collection, import.0.package_id, c);
    let krate = krate_collection.crates@[c];
    law_each_item_is_processed_once(&krate, import.0.path@);
    assert forall|q: QueueItem| #[trigger]
        is_reachable(&krate, import.0.path@, q) implies is_documented(parse, &krate, q) by {
        assert(traversal(&krate, import.0.path@).contains(q));
    }
}

/// Functions that can be called on everything are admitted.
pub proof fn law_total_functions_are_admitted<
    T,
    E,
    P: Fn(&Vec<String>) -> Result<Option<AnnotatedComponent>, String>,
    S: Fn(&Registration, ComponentKind, &str) -> Option<AnnotatedSource>,
    R: Fn(&Type, &PackageId, &GenericBindings<T>) -> Result<T, E>,
>(parse: P, annotate: S, resolve: R)
    requires
        forall|attrs: &Vec<String>| #[trigger] call_requires(parse, (attrs,)),
        forall|registration: &Registration, kind: ComponentKind, label: &str| #[trigger]
            call_requires(annotate, (registration, kind, label)),
        forall|ty: &Type, package_id: &PackageId, bindings: &GenericBindings<T>| #[trigger]
            call_requires(resolve, (ty, package_id, bindings)),
    ensures
        parses_any(parse),
        annotates_any(annotate),
        resolves_any(resolve),
{
}

/// No identifier is needed for items that have one: where each annotated function or method that is
/// processed for the imports is known, no identifier is given out.
#[verifier::rlimit(40)]
pub proof fn law_known_items_need_no_identifier<
    P: Fn(&Vec<String>) -> Result<Option<AnnotatedComponent>, String>,
>(
    parse: P,
    krate_collection: &CrateCollection,
    imports: Seq<(ResolvedImport, usize)>,
    known: Seq<(u32, Seq<char>)>,
)
    requires
        forall|i: int, q: QueueItem|
            0 <= i < imports.len() && #[trigger] traversal(
                &crate_of_import(krate_collection, imports[i].0),
                imports[i].0.path@,
            ).contains(q) ==> {
                let krate = crate_of_import(krate_collection, imports[i].0);
                let item = krate.item(q.own_id());
                ||| q is Impl
                ||| !(item.inner is Function)
                ||| forall|o: Result<Option<AnnotatedComponent>, String>| #[trigger]
                    call_ensures(parse, (&item.attrs,), o) ==> !(o is Ok && o->Ok_0 is Some)
                ||| known.contains((item.id.0, krate.package_id.0@))
            },
    ensures
        identifiers_needed(known, annotated_items(parse, krate_collection, imports)) == known.len(),
{
    let items = annotated_items(parse, krate_collection, imports);
    assert forall|id: (u32, Seq<char>)| #[trigger] items.contains(id) implies known.contains(id) by {
        let i = choose|i: int|
            0 <= i < imports.len() && annotated_in_import(
                parse,
                krate_collection,
                (#[trigger] imports[i]).0,
            ).contains(id);
        let krate = crate_of_import(krate_collection, imports[i].0);
        let order = order_of_import(krate_collection, imports[i].0);
        let p = |q: QueueItem| may_be_annotated(parse, &krate, q);
        let f = |q: QueueItem| global_id(&krate, q);
        let found = order.filter(p);
        assert(found.map_values(f).contains(id));
        let k = choose|k: int| 0 <= k < found.len() && found.map_values(f)[k] == id;
        order.lemma_filter_pred(p, k);
        lemma_filter_within(order, p, k);
        let annotation = choose|annotation: AnnotatedComponent| #[trigger]
            parses_to(parse, krate.item(found[k].own_id()), Ok(Some(annotation)));
        let item = krate.item(found[k].own_id());
        assert(call_ensures(
            parse,
            (&item.attrs,),
            Ok::<Option<AnnotatedComponent>, String>(Some(annotation)),
        ));
        assert(traversal(&krate, imports[i].0.path@).contains(found[k]));
    }
    assert(items.difference(known.to_set()) =~= Set::empty());
}

/// One more item needs one more identifier at most, and none where it has one.
pub proof fn law_each_item_needs_one_identifier<V>(known: Seq<V>, items: Set<V>, item: V)
    requires
        items.finite(),
    ensures
        identifiers_needed(known, Set::empty()) == known.len(),
        identifiers_needed(known, items.insert(item)) == identifiers_needed(known, items) + if items.contains(
            item,
        ) || known.contains(item) {
            0int
        } else {
            1int
        },
{
    assert(Set::<V>::empty().difference(known.to_set()) =~= Set::empty());
    let before = items.difference(known.to_set());
    let after = items.insert(item).difference(known.to_set());
    if items.contains(item) || known.contains(item) {
        assert(after =~= before);
    } else {
        assert(after =~= before.insert(item));
    }
}

proof fn lemma_filter_within<A>(s: Seq<A>, p: spec_fn(A) -> bool, k: int)
    requires
        0 <= k < s.filter(p).len(),
    ensures
        s.contains(s.filter(p)[k]),
    decreases s.len(),
{
    reveal(Seq::filter);
    if s.len() > 0 {
        let front = s.drop_last();
        if k < front.filter(p).len() {
            lemma_filter_within(front, p, k);
            let i = choose|i: int| 0 <= i < front.len() && front[i] == front.filter(p)[k];
            assert(s[i] == s.filter(p)[k]);
        } else {
            assert(s[s.len() - 1] == s.filter(p)[k]);
        }
    }
}

/// A callable is added behind the others, just where no entry has the same component and an equal
/// callable.
pub proof fn law_callables_are_added_once<T: PartialEq>(
    computations: Seq<(usize, CallableView<T>)>,
    id: usize,
    callable: CallableView<T>,
)
    ensures
        (exists|j: int|
            0 <= j < computations.len() && (#[trigger] computations[j]).0 == id && same_callable(
                computations[j].1,
                callable,
            )) ==> with_computation(computations, id, callable) == computations,
        (forall|j: int|
            0 <= j < computations.len() && (#[trigger] computations[j]).0 == id ==> !same_callable(
                computations[j].1,
                callable,
            )) ==> with_computation(computations, id, callable) == computations.push(
            (id, callable),
        ),
{
}

/// The report on a malformed annotation says why it is malformed, names the item where it has a
/// name, shows what was found of its source code, and nothing where its place is not known.
pub proof fn law_report_on_a_malformed_annotation<
    E,
    S: Fn(&Registration, ComponentKind, &str) -> Option<AnnotatedSource>,
>(annotate: S, reason: Seq<char>, item: Item, source: Option<AnnotatedSource>)
    requires
        is_source(annotate, item.span, source),
    ensures
        item.span is None ==> source is None,
        item.span is Some ==> call_ensures(
            annotate,
            (
                &Registration::Attribute(item.span->0),
                ComponentKind::Constructor,
                "The annotated item",
            ),
            source,
        ),
        malformed_annotation::<E>(reason, item, source) == (
        DiagnosticView::<E>::MalformedAnnotation {
            reason,
            context: match item.name {
                Some(name) => "`"@ + name@
                    + "` is annotated with a malformed `diagnostic::pavex::*` attribute."@,
                None =>
                    "One of your items is annotated with a malformed `diagnostic::pavex::*` attribute."@,
            },
            source,
            help: malformed_help(),
        }),
{
}

/// A registry is seen as its parts are.
pub proof fn law_registry_is_seen_as_it_is<'a, T, E>(
    aux: AuxiliaryData,
    computation_db: ComputationDb<T>,
    sink: DiagnosticSink<'a, E>,
)
    ensures
        ({
            let registry = registry_of(aux, computation_db, sink);
            &&& registry.aux == aux@
            &&& registry.computations.len() == computation_db.callables@.len()
            &&& forall|i: int|
                0 <= i < computation_db.callables@.len() ==> {
                    &&& (#[trigger] registry.computations[i]).0 == computation_db.callables@[i].0.0
                    &&& registry.computations[i].1 == computation_db.callables@[i].1@
                }
            &&& registry.diagnostics.len() == sink.diagnostics@.len()
            &&& forall|i: int|
                0 <= i < sink.diagnostics@.len() ==> #[trigger] registry.diagnostics[i]
                    == sink.diagnostics@[i]@
        }),
{
}

/// A diagnostic is seen as it is.
pub proof fn law_diagnostics_are_seen_as_they_are<'a, E>(diagnostic: Diagnostic<'a, E>)
    ensures
        match diagnostic {
            Diagnostic::MalformedAnnotation(d) => diagnostic@ == (
            DiagnosticView::<E>::MalformedAnnotation {
                reason: d.error@,
                context: d.context@,
                source: d.source,
                help: d.help@,
            }),
            Diagnostic::CannotResolveCallable { error, component_id } => {
                &&& diagnostic@ is CannotResolveCallable
                &&& diagnostic@->component_id == component_id.0
                &&& diagnostic@->error == error@
            },
        },
{
}

/// The advice on a malformed annotation asks whether it was added by hand, and says why it should
/// not be.
pub proof fn law_advice_on_malformed_annotations()
    ensures
        malformed_help()
            == "Have you manually added the `diagnostic::pavex::*` attribute on the item? The syntax for `diagnostic::pavex::*` attributes is an implementation detail of Pavex's own macros,\n            which are guaranteed to output well-formed annotations."@,
{
}

} // verus!
