//! What the registration keeps of what comes of the items: all of it, and nothing twice.
use crate::annotations::{
    applied, covers, crate_of_import, definition_module, extends, global_id, has_computation,
    imports_applied, is_import_registered, is_outcome_registered, law_imports_are_registered,
    law_modules_are_registered, law_processing_a_module_only_adds,
    law_processing_an_item_only_adds, law_registration_only_adds, lemma_applied_tables,
    lemma_covers_front, module_applied, order_of_import, Outcome, Registry, ResolvedImport,
};
use crate::auxiliary::{
    law_registered_components_stay, same_tables, tables_extend, AuxiliaryDataView, ScopeId,
};
use crate::callable::{equals_itself, same_callable, CallableView};
use crate::diagnostic::{malformed_annotation, DiagnosticView};
use crate::interner::{interned, law_identifiers_are_stable, law_interning};
use crate::queue::QueueItem;
use crate::rustdoc::{Crate, CrateCollection};
use vstd::prelude::*;
use vstd::std_specs::cmp::PartialEqSpec;

verus! {

/// The identifier of the constructor of the item `q`.
pub open spec fn constructor_id(aux: AuxiliaryDataView, krate: &Crate, q: QueueItem) -> usize {
    aux.id_of(aux.constructor_of(global_id(krate, q)))
}

/// The callable that came of processing `q`, with the component that it belongs to.
pub open spec fn callable_of<T, E>(
    aux: AuxiliaryDataView,
    krate: &Crate,
    q: QueueItem,
    outcome: Outcome<T, E>,
) -> Option<(usize, CallableView<T>)> {
    match outcome {
        Outcome::Annotated { callable: Ok(callable), .. } => Some(
            (constructor_id(aux, krate, q), callable),
        ),
        _ => None,
    }
}

/// The diagnostic that came of processing `q`.
pub open spec fn diagnostic_of<T, E>(
    aux: AuxiliaryDataView,
    krate: &Crate,
    q: QueueItem,
    outcome: Outcome<T, E>,
) -> Option<DiagnosticView<E>> {
    match outcome {
        Outcome::Skipped => None,
        Outcome::Malformed { reason, source } => Some(
            malformed_annotation(reason, krate.item(q.own_id()), source),
        ),
        Outcome::Annotated { callable: Ok(_), .. } => None,
        Outcome::Annotated { callable: Err(error), .. } => Some(
            DiagnosticView::CannotResolveCallable {
                error,
                component_id: constructor_id(aux, krate, q),
            },
        ),
    }
}

/// Whether the registry holds the callable or the diagnostic that came of processing `q`.
pub open spec fn is_accounted_for<T: PartialEq, E>(
    registry: Registry<T, E>,
    krate: &Crate,
    q: QueueItem,
    outcome: Outcome<T, E>,
) -> bool {
    &&& callable_of(registry.aux, krate, q, outcome) matches Some(entry) ==> has_computation(
        registry.computations,
        entry.0,
        entry.1,
    )
    &&& diagnostic_of(registry.aux, krate, q, outcome) matches Some(diagnostic)
        ==> registry.diagnostics.contains(diagnostic)
}

/// How many diagnostics come of `outcomes`.
pub open spec fn failures<T, E>(outcomes: Seq<Outcome<T, E>>) -> nat
    decreases outcomes.len(),
{
    if outcomes.len() == 0 {
        0
    } else {
        failures(outcomes.drop_last()) + match outcomes.last() {
            Outcome::Skipped => 0nat,
            Outcome::Malformed { .. } => 1nat,
            Outcome::Annotated { callable, .. } => if callable is Err {
                1nat
            } else {
                0nat
            },
        }
    }
}

/// Processing an item does not change the identifier that its constructor has, or is to get.
pub proof fn lemma_constructor_id_is_kept<T: PartialEq, E>(
    registry: Registry<T, E>,
    krate: &Crate,
    scope_id: ScopeId,
    q: QueueItem,
    outcome: Outcome<T, E>,
)
    requires
        outcome is Annotated,
    ensures
        constructor_id(applied(registry, krate, scope_id, q, outcome).aux, krate, q)
            == constructor_id(registry.aux, krate, q),
{
    let constructor = registry.aux.constructor_of(global_id(krate, q));
    law_interning(registry.aux.annotations, global_id(krate, q), global_id(krate, q));
    law_interning(registry.aux.components, constructor, constructor);
    let next = applied(registry, krate, scope_id, q, outcome);
    let first = interned(registry.aux.components, constructor);
    assert(first.is_prefix_of(next.aux.components));
    law_identifiers_are_stable(first, next.aux.components, constructor);
}

/// What is registered keeps the identifier of its constructor when the tables grow.
pub proof fn lemma_constructor_id_stays<T, E>(
    before: AuxiliaryDataView,
    after: AuxiliaryDataView,
    krate: &Crate,
    q: QueueItem,
    outcome: Outcome<T, E>,
)
    requires
        outcome is Annotated,
        is_outcome_registered(before, krate, q, outcome),
        tables_extend(before, after),
    ensures
        constructor_id(after, krate, q) == constructor_id(before, krate, q),
{
    if let Outcome::Annotated { annotation, .. } = outcome {
        law_registered_components_stay(
            before,
            after,
            annotation,
            global_id(krate, q),
            krate.crate_name@,
            definition_module(krate, q),
        );
    }
}

/// What is accounted for stays so when the registry grows.
proof fn lemma_stays_accounted_for<T: PartialEq, E>(
    before: Registry<T, E>,
    after: Registry<T, E>,
    krate: &Crate,
    q: QueueItem,
    outcome: Outcome<T, E>,
)
    requires
        is_accounted_for(before, krate, q, outcome),
        is_outcome_registered(before.aux, krate, q, outcome),
        extends(before, after),
    ensures
        is_accounted_for(after, krate, q, outcome),
        callable_of(after.aux, krate, q, outcome) == callable_of(before.aux, krate, q, outcome),
        diagnostic_of(after.aux, krate, q, outcome) == diagnostic_of(before.aux, krate, q, outcome),
{
    if outcome is Annotated {
        lemma_constructor_id_stays(before.aux, after.aux, krate, q, outcome);
    }
    if let Some(entry) = callable_of(before.aux, krate, q, outcome) {
        let i = choose|i: int|
            0 <= i < before.computations.len() && (#[trigger] before.computations[i]).0 == entry.0
                && same_callable(before.computations[i].1, entry.1);
        assert(after.computations[i] == before.computations[i]);
    }
    if let Some(diagnostic) = diagnostic_of(before.aux, krate, q, outcome) {
        let i = choose|i: int|
            0 <= i < before.diagnostics.len() && before.diagnostics[i] == diagnostic;
        assert(after.diagnostics[i] == diagnostic);
    }
}

/// Processing an item accounts for what comes of it.
proof fn lemma_applied_is_accounted_for<T: PartialEq, E>(
    registry: Registry<T, E>,
    krate: &Crate,
    scope_id: ScopeId,
    q: QueueItem,
    outcome: Outcome<T, E>,
)
    requires
        equals_itself::<T>(),
    ensures
        is_accounted_for(applied(registry, krate, scope_id, q, outcome), krate, q, outcome),
{
    let next = applied(registry, krate, scope_id, q, outcome);
    if outcome is Annotated {
        lemma_constructor_id_is_kept(registry, krate, scope_id, q, outcome);
    }
    if let Some(entry) = callable_of(next.aux, krate, q, outcome) {
        if !has_computation(registry.computations, entry.0, entry.1) {
            let n = registry.computations.len() as int;
            assert(next.computations[n] == entry);
            assert(same_callable(entry.1, entry.1));
        }
    }
    if let Some(diagnostic) = diagnostic_of(next.aux, krate, q, outcome) {
        assert(next.diagnostics[registry.diagnostics.len() as int] == diagnostic);
    }
}

/// Nothing is lost: the registry holds what comes of each item of a module, a callable or a
/// diagnostic, and one diagnostic for each failure.
pub proof fn law_nothing_is_lost<T: PartialEq, E>(
    registry: Registry<T, E>,
    krate: &Crate,
    scope_id: ScopeId,
    order: Seq<QueueItem>,
    outcomes: Seq<Outcome<T, E>>,
)
    requires
        equals_itself::<T>(),
        order.len() == outcomes.len(),
    ensures
        ({
            let next = module_applied(registry, krate, scope_id, order, outcomes);
            &&& forall|k: int|
                0 <= k < order.len() ==> is_accounted_for(
                    next,
                    krate,
                    #[trigger] order[k],
                    outcomes[k],
                )
            &&& next.diagnostics.len() == registry.diagnostics.len() + failures(outcomes)
        }),
    decreases order.len(),
{
    if order.len() > 0 {
        let n = order.len() - 1;
        let front = order.drop_last();
        let known = outcomes.drop_last();
        let before = module_applied(registry, krate, scope_id, front, known);
        let after = module_applied(registry, krate, scope_id, order, outcomes);
        law_nothing_is_lost(registry, krate, scope_id, front, known);
        law_modules_are_registered(registry, krate, scope_id, front, known);
        law_processing_an_item_only_adds(before, krate, scope_id, order.last(), outcomes.last());
        lemma_applied_is_accounted_for(before, krate, scope_id, order.last(), outcomes.last());
        assert forall|k: int| 0 <= k < order.len() implies is_accounted_for(
            after,
            krate,
            #[trigger] order[k],
            outcomes[k],
        ) by {
            if k < n {
                assert(front[k] == order[k]);
                lemma_stays_accounted_for(before, after, krate, order[k], outcomes[k]);
            }
        }
    }
}

/// Nothing is made up: each callable and each diagnostic that a module adds came of one of its
/// items.
pub proof fn law_nothing_is_made_up<T: PartialEq, E>(
    registry: Registry<T, E>,
    krate: &Crate,
    scope_id: ScopeId,
    order: Seq<QueueItem>,
    outcomes: Seq<Outcome<T, E>>,
)
    requires
        order.len() == outcomes.len(),
    ensures
        ({
            let next = module_applied(registry, krate, scope_id, order, outcomes);
            &&& forall|i: int|
                registry.computations.len() <= i < next.computations.len() ==> exists|k: int|
                    0 <= k < order.len() && callable_of(
                        next.aux,
                        krate,
                        #[trigger] order[k],
                        outcomes[k],
                    ) == Some(#[trigger] next.computations[i])
            &&& forall|i: int|
                registry.diagnostics.len() <= i < next.diagnostics.len() ==> exists|k: int|
                    0 <= k < order.len() && diagnostic_of(
                        next.aux,
                        krate,
                        #[trigger] order[k],
                        outcomes[k],
                    ) == Some(#[trigger] next.diagnostics[i])
        }),
    decreases order.len(),
{
    if order.len() > 0 {
        let n = order.len() - 1;
        let front = order.drop_last();
        let known = outcomes.drop_last();
        let before = module_applied(registry, krate, scope_id, front, known);
        let next = module_applied(registry, krate, scope_id, order, outcomes);
        law_nothing_is_made_up(registry, krate, scope_id, front, known);
        law_modules_are_registered(registry, krate, scope_id, front, known);
        law_processing_an_item_only_adds(before, krate, scope_id, order.last(), outcomes.last());
        if outcomes.last() is Annotated {
            lemma_constructor_id_is_kept(before, krate, scope_id, order.last(), outcomes.last());
        }
        assert(order[n] == order.last());
        assert forall|k: int| 0 <= k < n && outcomes[k] is Annotated implies constructor_id(
            next.aux,
            krate,
            #[trigger] order[k],
        ) == constructor_id(before.aux, krate, order[k]) by {
            assert(front[k] == order[k]);
            lemma_constructor_id_stays(before.aux, next.aux, krate, order[k], outcomes[k]);
        }
        assert forall|i: int|
            registry.computations.len() <= i < next.computations.len() implies exists|k: int|
            0 <= k < order.len() && callable_of(
                next.aux,
                krate,
                #[trigger] order[k],
                outcomes[k],
            ) == Some(#[trigger] next.computations[i]) by {
            if i < before.computations.len() {
                assert(next.computations[i] == before.computations[i]);
                let k = choose|k: int|
                    0 <= k < front.len() && callable_of(
                        before.aux,
                        krate,
                        #[trigger] front[k],
                        known[k],
                    ) == Some(before.computations[i]);
                assert(front[k] == order[k]);
                assert(callable_of(next.aux, krate, order[k], outcomes[k]) == Some(
                    next.computations[i],
                ));
            } else {
                assert(callable_of(next.aux, krate, order[n], outcomes[n]) == Some(
                    next.computations[i],
                ));
            }
        }
        assert forall|i: int|
            registry.diagnostics.len() <= i < next.diagnostics.len() implies exists|k: int|
            0 <= k < order.len() && diagnostic_of(
                next.aux,
                krate,
                #[trigger] order[k],
                outcomes[k],
            ) == Some(#[trigger] next.diagnostics[i]) by {
            if i < before.diagnostics.len() {
                assert(next.diagnostics[i] == before.diagnostics[i]);
                let k = choose|k: int|
                    0 <= k < front.len() && diagnostic_of(
                        before.aux,
                        krate,
                        #[trigger] front[k],
                        known[k],
                    ) == Some(before.diagnostics[i]);
                assert(front[k] == order[k]);
                assert(diagnostic_of(next.aux, krate, order[k], outcomes[k]) == Some(
                    next.diagnostics[i],
                ));
            } else {
                assert(diagnostic_of(next.aux, krate, order[n], outcomes[n]) == Some(
                    next.diagnostics[i],
                ));
            }
        }
    }
}

/// A module can be imported any number of times: to process it again, in whatever scope, adds no
/// component and no callable.
pub proof fn law_components_are_registered_once<T: PartialEq, E>(
    registry: Registry<T, E>,
    krate: &Crate,
    scope_id: ScopeId,
    other_scope_id: ScopeId,
    order: Seq<QueueItem>,
    outcomes: Seq<Outcome<T, E>>,
)
    requires
        equals_itself::<T>(),
        order.len() == outcomes.len(),
    ensures
        ({
            let once = module_applied(registry, krate, scope_id, order, outcomes);
            let twice = module_applied(once, krate, other_scope_id, order, outcomes);
            &&& same_tables(once.aux, twice.aux)
            &&& once.computations == twice.computations
        }),
{
    law_modules_are_registered(registry, krate, scope_id, order, outcomes);
    law_nothing_is_lost(registry, krate, scope_id, order, outcomes);
    lemma_nothing_to_add(
        module_applied(registry, krate, scope_id, order, outcomes),
        krate,
        other_scope_id,
        order,
        outcomes,
    );
}

proof fn lemma_nothing_to_add<T: PartialEq, E>(
    registry: Registry<T, E>,
    krate: &Crate,
    scope_id: ScopeId,
    order: Seq<QueueItem>,
    outcomes: Seq<Outcome<T, E>>,
)
    requires
        order.len() == outcomes.len(),
        forall|i: int|
            0 <= i < order.len() ==> {
                &&& is_outcome_registered(registry.aux, krate, #[trigger] order[i], outcomes[i])
                &&& is_accounted_for(registry, krate, order[i], outcomes[i])
            },
    ensures
        ({
            let next = module_applied(registry, krate, scope_id, order, outcomes);
            &&& same_tables(registry.aux, next.aux)
            &&& registry.computations == next.computations
        }),
    decreases order.len(),
{
    if order.len() > 0 {
        let n = order.len() - 1;
        let front = order.drop_last();
        let known = outcomes.drop_last();
        let before = module_applied(registry, krate, scope_id, front, known);
        assert forall|i: int| 0 <= i < n implies {
            &&& is_outcome_registered(registry.aux, krate, #[trigger] front[i], known[i])
            &&& is_accounted_for(registry, krate, front[i], known[i])
        } by {
            assert(front[i] == order[i]);
        }
        lemma_nothing_to_add(registry, krate, scope_id, front, known);
        let q = order[n];
        assert(is_outcome_registered(registry.aux, krate, q, outcomes[n]));
        assert(is_accounted_for(registry, krate, q, outcomes[n]));
        assert(is_outcome_registered(before.aux, krate, q, outcomes[n]));
        lemma_applied_tables(before, krate, scope_id, q, outcomes[n]);
    }
}

/// Whether the registry holds what came of processing the items of `import`.
pub open spec fn is_import_accounted_for<T: PartialEq, E>(
    registry: Registry<T, E>,
    krate_collection: &CrateCollection,
    import: ResolvedImport,
    outcomes: Seq<Outcome<T, E>>,
) -> bool {
    let order = order_of_import(krate_collection, import);
    forall|k: int|
        0 <= k < order.len() ==> is_accounted_for(
            registry,
            &crate_of_import(krate_collection, import),
            #[trigger] order[k],
            outcomes[k],
        )
}

proof fn lemma_import_stays_accounted_for<T: PartialEq, E>(
    before: Registry<T, E>,
    after: Registry<T, E>,
    krate_collection: &CrateCollection,
    import: ResolvedImport,
    outcomes: Seq<Outcome<T, E>>,
)
    requires
        is_import_accounted_for(before, krate_collection, import, outcomes),
        is_import_registered(before.aux, krate_collection, import, outcomes),
        extends(before, after),
    ensures
        is_import_accounted_for(after, krate_collection, import, outcomes),
{
    let krate = crate_of_import(krate_collection, import);
    let order = order_of_import(krate_collection, import);
    assert forall|k: int| 0 <= k < order.len() implies is_accounted_for(
        after,
        &krate,
        #[trigger] order[k],
        outcomes[k],
    ) by {
        assert(is_accounted_for(before, &krate, order[k], outcomes[k]));
        assert(is_outcome_registered(before.aux, &krate, order[k], outcomes[k]));
        lemma_stays_accounted_for(before, after, &krate, order[k], outcomes[k]);
    }
}

/// Nothing is lost of imported modules: the registry holds what comes of each item of each import.
pub proof fn law_nothing_is_lost_of_imports<T: PartialEq, E>(
    registry: Registry<T, E>,
    krate_collection: &CrateCollection,
    imports: Seq<(ResolvedImport, usize)>,
    outcomes: Seq<Seq<Outcome<T, E>>>,
)
    requires
        equals_itself::<T>(),
        covers(krate_collection, imports, outcomes),
    ensures
        forall|i: int|
            0 <= i < imports.len() ==> is_import_accounted_for(
                imports_applied(registry, krate_collection, imports, outcomes),
                krate_collection,
                (#[trigger] imports[i]).0,
                outcomes[i],
            ),
    decreases imports.len(),
{
    if imports.len() > 0 {
        let n = imports.len() - 1;
        let front = imports.drop_last();
        let known = outcomes.drop_last();
        let (last, import_id) = imports.last();
        let before = imports_applied(registry, krate_collection, front, known);
        let after = imports_applied(registry, krate_collection, imports, outcomes);
        let krate = crate_of_import(krate_collection, last);
        let order = order_of_import(krate_collection, last);
        let scope_id = registry.aux.imports[import_id as int];
        lemma_covers_front(krate_collection, imports, outcomes);
        law_nothing_is_lost_of_imports(registry, krate_collection, front, known);
        law_imports_are_registered(registry, krate_collection, front, known);
        law_processing_a_module_only_adds(before, &krate, scope_id, order, outcomes.last());
        law_nothing_is_lost(before, &krate, scope_id, order, outcomes.last());
        assert(imports[n] == imports.last());
        assert forall|i: int| 0 <= i < imports.len() implies is_import_accounted_for(
            after,
            krate_collection,
            (#[trigger] imports[i]).0,
            outcomes[i],
        ) by {
            if i < n {
                assert(front[i] == imports[i]);
                lemma_import_stays_accounted_for(
                    before,
                    after,
                    krate_collection,
                    imports[i].0,
                    outcomes[i],
                );
            }
        }
    }
}

/// Imports can be registered any number of times: to register them again adds no component and no
/// callable.
pub proof fn law_imports_are_registered_once<T: PartialEq, E>(
    registry: Registry<T, E>,
    krate_collection: &CrateCollection,
    imports: Seq<(ResolvedImport, usize)>,
    outcomes: Seq<Seq<Outcome<T, E>>>,
)
    requires
        equals_itself::<T>(),
        covers(krate_collection, imports, outcomes),
    ensures
        ({
            let once = imports_applied(registry, krate_collection, imports, outcomes);
            let twice = imports_applied(once, krate_collection, imports, outcomes);
            &&& same_tables(once.aux, twice.aux)
            &&& once.computations == twice.computations
        }),
{
    law_imports_are_registered(registry, krate_collection, imports, outcomes);
    law_nothing_is_lost_of_imports(registry, krate_collection, imports, outcomes);
    lemma_no_import_to_add(
        imports_applied(registry, krate_collection, imports, outcomes),
        krate_collection,
        imports,
        outcomes,
    );
}

proof fn lemma_no_import_to_add<T: PartialEq, E>(
    registry: Registry<T, E>,
    krate_collection: &CrateCollection,
    imports: Seq<(ResolvedImport, usize)>,
    outcomes: Seq<Seq<Outcome<T, E>>>,
)
    requires
        covers(krate_collection, imports, outcomes),
        forall|i: int|
            0 <= i < imports.len() ==> {
                &&& is_import_registered(
                    registry.aux,
                    krate_collection,
                    (#[trigger] imports[i]).0,
                    outcomes[i],
                )
                &&& is_import_accounted_for(
                    registry,
                    krate_collection,
                    imports[i].0,
                    outcomes[i],
                )
            },
    ensures
        ({
            let next = imports_applied(registry, krate_collection, imports, outcomes);
            &&& same_tables(registry.aux, next.aux)
            &&& registry.computations == next.computations
        }),
    decreases imports.len(),
{
    if imports.len() > 0 {
        let n = imports.len() - 1;
        let front = imports.drop_last();
        let known = outcomes.drop_last();
        let (last, import_id) = imports.last();
        let before = imports_applied(registry, krate_collection, front, known);
        let krate = crate_of_import(krate_collection, last);
        let order = order_of_import(krate_collection, last);
        lemma_covers_front(krate_collection, imports, outcomes);
        assert forall|i: int| 0 <= i < front.len() implies {
            &&& is_import_registered(
                registry.aux,
                krate_collection,
                (#[trigger] front[i]).0,
                known[i],
            )
            &&& is_import_accounted_for(registry, krate_collection, front[i].0, known[i])
        } by {
            assert(front[i] == imports[i]);
        }
        lemma_no_import_to_add(registry, krate_collection, front, known);
        law_registration_only_adds(registry, krate_collection, front, known);
        assert(imports[n] == imports.last());
        lemma_import_stays_accounted_for(
            registry,
            before,
            krate_collection,
            last,
            outcomes.last(),
        );
        assert forall|k: int| 0 <= k < order.len() implies {
            &&& is_outcome_registered(
                before.aux,
                &krate,
                #[trigger] order[k],
                outcomes.last()[k],
            )
            &&& is_accounted_for(before, &krate, order[k], outcomes.last()[k])
        } by {
            assert(is_outcome_registered(registry.aux, &krate, order[k], outcomes.last()[k]));
        }
        lemma_nothing_to_add(
            before,
            &krate,
            registry.aux.imports[import_id as int],
            order,
            outcomes.last(),
        );
    }
}

} // verus!
