//! Which identifiers the components get, where new components come from, and which components the
//! registration leaves alone.
use crate::annotations::{
    applied, are_import_outcomes, are_outcomes, covers, crate_of_import, definition_module, global_id,
    imports_applied, is_annotatable, is_import_registered, is_outcome, is_outcome_registered,
    law_imports_are_registered, law_modules_are_registered, law_processing_a_module_only_adds,
    law_processing_an_item_only_adds, law_registration_only_adds, lemma_covers_front, may_be_annotated,
    module_applied, order_of_import, Outcome, Registry, ResolvedImport,
};
use crate::auxiliary::{
    tables_extend, AnnotatedComponent, AuxiliaryDataView, Registration, ScopeId, UserComponentView,
};
use crate::callable::GenericBindings;
use crate::completeness::lemma_constructor_id_is_kept;
use crate::diagnostic::{AnnotatedSource, ComponentKind};
use crate::interner::{law_identifiers_are_stable, law_interning, lemma_position};
use crate::queue::QueueItem;
use crate::reflection::RawIdentifiersView;
use crate::rustdoc::{Crate, CrateCollection, PackageId, Type};
use crate::traversal::{
    is_reachable, law_each_item_is_processed_once, law_processing_order, may_follow, traversal,
};
use vstd::prelude::*;

verus! {

/// Of two items on which annotations are looked for, the greater is processed first.
pub proof fn law_functions_are_processed_in_descending_order(
    krate: &Crate,
    module: Seq<String>,
    i: int,
    j: int,
)
    requires
        0 <= i < traversal(krate, module).len(),
        0 <= j < traversal(krate, module).len(),
        is_annotatable(krate, traversal(krate, module)[i]),
        is_annotatable(krate, traversal(krate, module)[j]),
    ensures
        i < j <==> traversal(krate, module)[j].precedes(traversal(krate, module)[i]),
{
    let order = traversal(krate, module);
    law_each_item_is_processed_once(krate, module);
    law_processing_order(krate, module);
    assert(order.contains(order[i]));
    assert(order.contains(order[j]));
    assert(is_reachable(krate, module, order[i]));
    assert(is_reachable(krate, module, order[j]));
    if i < j {
        assert(may_follow(order[i], order[j]));
    } else if j < i {
        assert(may_follow(order[j], order[i]));
    }
}

/// Whether the constructor that gets the identifier `id` when the items `order` are processed is new
/// then, and is registered by the item at position `k`.
pub open spec fn registers_constructor<T: PartialEq, E>(
    registry: Registry<T, E>,
    krate: &Crate,
    scope_id: ScopeId,
    order: Seq<QueueItem>,
    outcomes: Seq<Outcome<T, E>>,
    k: int,
    id: int,
) -> bool {
    let before = module_applied(registry, krate, scope_id, order.take(k), outcomes.take(k)).aux;
    let constructor = before.constructor_of(global_id(krate, order[k]));
    &&& 0 <= k < order.len()
    &&& outcomes[k] is Annotated
    &&& !before.components.contains(constructor)
    &&& id == before.components.len()
}

/// An annotated item whose constructor is new gives it the next identifier, and adds no other
/// constructor; one whose constructor is known adds none.
proof fn lemma_applied_constructors<T: PartialEq, E>(
    registry: Registry<T, E>,
    krate: &Crate,
    scope_id: ScopeId,
    q: QueueItem,
    outcome: Outcome<T, E>,
)
    ensures
        ({
            let before = registry.aux;
            let after = applied(registry, krate, scope_id, q, outcome).aux;
            let constructor = before.constructor_of(global_id(krate, q));
            let n = before.components.len();
            let is_new = outcome is Annotated && !before.components.contains(constructor);
            &&& is_new ==> n < after.components.len() && after.components[n as int] == constructor
            &&& forall|id: int|
                n <= id < after.components.len() && (#[trigger] after.components[id]) is Constructor
                    ==> is_new && id == n
            &&& outcome is Annotated ==> after.annotations.contains(global_id(krate, q))
                && after.constructor_of(global_id(krate, q)) == constructor
        }),
{
    if outcome is Annotated {
        law_interning(registry.aux.annotations, global_id(krate, q), global_id(krate, q));
    }
}

/// What is processed first is registered first: the tables after some items hold those after fewer.
proof fn lemma_module_prefix<T: PartialEq, E>(
    registry: Registry<T, E>,
    krate: &Crate,
    scope_id: ScopeId,
    order: Seq<QueueItem>,
    outcomes: Seq<Outcome<T, E>>,
    i: int,
    j: int,
)
    requires
        order.len() == outcomes.len(),
        0 <= i <= j <= order.len(),
    ensures
        tables_extend(
            module_applied(registry, krate, scope_id, order.take(i), outcomes.take(i)).aux,
            module_applied(registry, krate, scope_id, order.take(j), outcomes.take(j)).aux,
        ),
    decreases j - i,
{
    if i < j {
        let before = module_applied(
            registry,
            krate,
            scope_id,
            order.take(j - 1),
            outcomes.take(j - 1),
        );
        lemma_module_prefix(registry, krate, scope_id, order, outcomes, i, j - 1);
        assert(order.take(j).drop_last() =~= order.take(j - 1));
        assert(outcomes.take(j).drop_last() =~= outcomes.take(j - 1));
        law_processing_an_item_only_adds(before, krate, scope_id, order[j - 1], outcomes[j - 1]);
    }
}

/// A constructor that is new when an item is processed is found under its identifier from then on.
proof fn lemma_new_constructor<T: PartialEq, E>(
    registry: Registry<T, E>,
    krate: &Crate,
    scope_id: ScopeId,
    order: Seq<QueueItem>,
    outcomes: Seq<Outcome<T, E>>,
    k: int,
    id: int,
    n: int,
)
    requires
        order.len() == outcomes.len(),
        registers_constructor(registry, krate, scope_id, order, outcomes, k, id),
        k < n <= order.len(),
    ensures
        ({
            let aux = module_applied(
                registry,
                krate,
                scope_id,
                order.take(n),
                outcomes.take(n),
            ).aux;
            &&& registry.aux.components.len() <= id < aux.components.len()
            &&& aux.annotations.contains(global_id(krate, order[k]))
            &&& aux.components[id] == aux.constructor_of(global_id(krate, order[k]))
        }),
{
    let before = module_applied(registry, krate, scope_id, order.take(k), outcomes.take(k));
    let after = module_applied(registry, krate, scope_id, order.take(k + 1), outcomes.take(k + 1));
    let last = module_applied(registry, krate, scope_id, order.take(n), outcomes.take(n));
    assert(order.take(0) =~= seq![]);
    lemma_module_prefix(registry, krate, scope_id, order, outcomes, 0, k);
    assert(order.take(k + 1).drop_last() =~= order.take(k));
    assert(outcomes.take(k + 1).drop_last() =~= outcomes.take(k));
    lemma_applied_constructors(before, krate, scope_id, order[k], outcomes[k]);
    lemma_module_prefix(registry, krate, scope_id, order, outcomes, k + 1, n);
    law_identifiers_are_stable(
        after.aux.annotations,
        last.aux.annotations,
        global_id(krate, order[k]),
    );
}

/// Each new constructor is registered by some item.
proof fn lemma_each_new_constructor_is_registered<T: PartialEq, E>(
    registry: Registry<T, E>,
    krate: &Crate,
    scope_id: ScopeId,
    order: Seq<QueueItem>,
    outcomes: Seq<Outcome<T, E>>,
    n: int,
    id: int,
)
    requires
        order.len() == outcomes.len(),
        0 <= n <= order.len(),
        ({
            let aux = module_applied(
                registry,
                krate,
                scope_id,
                order.take(n),
                outcomes.take(n),
            ).aux;
            &&& registry.aux.components.len() <= id < aux.components.len()
            &&& aux.components[id] is Constructor
        }),
    ensures
        exists|k: int| registers_constructor(registry, krate, scope_id, order, outcomes, k, id),
    decreases n,
{
    assert(order.take(0) =~= seq![]);
    if n > 0 {
        let before = module_applied(
            registry,
            krate,
            scope_id,
            order.take(n - 1),
            outcomes.take(n - 1),
        );
        assert(order.take(n).drop_last() =~= order.take(n - 1));
        assert(outcomes.take(n).drop_last() =~= outcomes.take(n - 1));
        law_processing_an_item_only_adds(before, krate, scope_id, order[n - 1], outcomes[n - 1]);
        lemma_applied_constructors(before, krate, scope_id, order[n - 1], outcomes[n - 1]);
        if id < before.aux.components.len() {
            lemma_each_new_constructor_is_registered(
                registry,
                krate,
                scope_id,
                order,
                outcomes,
                n - 1,
                id,
            );
        } else {
            assert(registers_constructor(
                registry,
                krate,
                scope_id,
                order,
                outcomes,
                n - 1,
                id,
            ));
        }
    }
}

/// The constructors that are new when a module is processed get ascending identifiers in strictly
/// descending order of the items that register them, by the identifiers of the type, the `impl`
/// block and the item: each of them is registered by an item of the module, is found under its
/// identifier in the end, and of two of them the one of the greater item has the smaller
/// identifier.
pub proof fn law_identifiers_follow_the_processing_order<
    T: PartialEq,
    E,
    P: Fn(&Vec<String>) -> Result<Option<AnnotatedComponent>, String>,
    S: Fn(&Registration, ComponentKind, &str) -> Option<AnnotatedSource>,
    R: Fn(&Type, &PackageId, &GenericBindings<T>) -> Result<T, E>,
>(
    parse: P,
    annotate: S,
    resolve: R,
    registry: Registry<T, E>,
    krate: &Crate,
    scope_id: ScopeId,
    module: Seq<String>,
    outcomes: Seq<Outcome<T, E>>,
)
    requires
        are_outcomes(parse, annotate, resolve, krate, traversal(krate, module), outcomes),
    ensures
        ({
            let order = traversal(krate, module);
            let first = registry.aux.components.len();
            let aux = module_applied(registry, krate, scope_id, order, outcomes).aux;
            &&& forall|id: int|
                first <= id < aux.components.len() && (#[trigger] aux.components[id]) is Constructor
                    ==> exists|k: int| #[trigger]
                    registers_constructor(registry, krate, scope_id, order, outcomes, k, id)
            &&& forall|k: int, id: int| #[trigger]
                registers_constructor(registry, krate, scope_id, order, outcomes, k, id) ==> {
                    &&& first <= id < aux.components.len()
                    &&& aux.annotations.contains(global_id(krate, order[k]))
                    &&& aux.components[id] == aux.constructor_of(global_id(krate, order[k]))
                }
            &&& forall|i: int, j: int, a: int, b: int|
                #[trigger] registers_constructor(registry, krate, scope_id, order, outcomes, i, a)
                    && #[trigger] registers_constructor(
                    registry,
                    krate,
                    scope_id,
                    order,
                    outcomes,
                    j,
                    b,
                ) ==> (a < b <==> order[j].precedes(order[i]))
        }),
{
    let order = traversal(krate, module);
    let n = order.len() as int;
    let aux = module_applied(registry, krate, scope_id, order, outcomes).aux;
    assert(order.take(n) =~= order);
    assert(outcomes.take(n) =~= outcomes);
    assert forall|id: int|
        registry.aux.components.len() <= id < aux.components.len() && (
        #[trigger] aux.components[id]) is Constructor implies exists|k: int| #[trigger]
        registers_constructor(registry, krate, scope_id, order, outcomes, k, id) by {
        lemma_each_new_constructor_is_registered(
            registry,
            krate,
            scope_id,
            order,
            outcomes,
            n,
            id,
        );
    }
    assert forall|k: int, id: int| #[trigger]
        registers_constructor(registry, krate, scope_id, order, outcomes, k, id) implies {
        &&& registry.aux.components.len() <= id < aux.components.len()
        &&& aux.annotations.contains(global_id(krate, order[k]))
        &&& aux.components[id] == aux.constructor_of(global_id(krate, order[k]))
    } by {
        lemma_new_constructor(registry, krate, scope_id, order, outcomes, k, id, n);
    }
    assert forall|i: int, j: int, a: int, b: int|
        #[trigger] registers_constructor(registry, krate, scope_id, order, outcomes, i, a)
            && #[trigger] registers_constructor(
            registry,
            krate,
            scope_id,
            order,
            outcomes,
            j,
            b,
        ) implies (a < b <==> order[j].precedes(order[i])) by {
        assert(is_outcome(parse, annotate, resolve, krate, order[i], outcomes[i]));
        assert(is_outcome(parse, annotate, resolve, krate, order[j], outcomes[j]));
        law_functions_are_processed_in_descending_order(krate, module, i, j);
        if i < j {
            lemma_new_constructor(registry, krate, scope_id, order, outcomes, i, a, j);
        } else if j < i {
            lemma_new_constructor(registry, krate, scope_id, order, outcomes, j, b, i);
        }
    }
}

/// The path of the error handler at `path` that is declared for the item `q`.
pub open spec fn handler_path(krate: &Crate, q: QueueItem, path: Seq<char>) -> RawIdentifiersView {
    RawIdentifiersView {
        crate_name: krate.crate_name@,
        module_text: definition_module(krate, q),
        import_path: path,
    }
}

/// Whether the component `component` is the constructor that `outcome` of processing `q` declares,
/// or its error handler.
pub open spec fn declares<T, E>(
    aux: AuxiliaryDataView,
    krate: &Crate,
    q: QueueItem,
    outcome: Outcome<T, E>,
    component: UserComponentView,
) -> bool {
    match outcome {
        Outcome::Annotated { annotation, .. } => {
            let constructor = aux.constructor_of(global_id(krate, q));
            ||| component == constructor
            ||| match annotation->error_handler {
                Some(path) => component == aux.error_handler_of(
                    handler_path(krate, q, path@),
                    aux.id_of(constructor),
                ),
                None => false,
            }
        },
        _ => false,
    }
}

/// Whether the same is known of the component `id` in `a` and in `b`.
pub open spec fn known_alike(a: AuxiliaryDataView, b: AuxiliaryDataView, id: usize) -> bool {
    &&& a.scopes.contains_key(id) == b.scopes.contains_key(id)
    &&& a.scopes[id] == b.scopes[id]
    &&& a.lifecycles.contains_key(id) == b.lifecycles.contains_key(id)
    &&& a.lifecycles[id] == b.lifecycles[id]
    &&& a.registrations.contains_key(id) == b.registrations.contains_key(id)
    &&& a.registrations[id] == b.registrations[id]
    &&& a.cloning_strategies.contains_key(id) == b.cloning_strategies.contains_key(id)
    &&& a.cloning_strategies[id] == b.cloning_strategies[id]
}

/// Processing an item changes nothing that is known of a registered component, unless the item
/// declares that component again.
pub proof fn law_an_item_leaves_other_components_alone<T: PartialEq, E>(
    registry: Registry<T, E>,
    krate: &Crate,
    scope_id: ScopeId,
    q: QueueItem,
    outcome: Outcome<T, E>,
    id: usize,
)
    requires
        registry.aux.has_component(id),
        !declares(registry.aux, krate, q, outcome, registry.aux.components[id as int]),
        applied(registry, krate, scope_id, q, outcome).aux.components.len() <= usize::MAX,
    ensures
        known_alike(registry.aux, applied(registry, krate, scope_id, q, outcome).aux, id),
{
    if let Outcome::Annotated { annotation, .. } = outcome {
        let AnnotatedComponent::Constructor { lifecycle, cloning_strategy, error_handler } =
            annotation;
        let constructor = registry.aux.constructor_of(global_id(krate, q));
        lemma_position(registry.aux.components, constructor);
        if let Some(path) = error_handler {
            let first = registry.aux.with_constructor(
                global_id(krate, q),
                scope_id,
                lifecycle,
                cloning_strategy,
                Registration::Attribute(krate.item(q.own_id()).span->0),
            );
            let handler = first.error_handler_of(
                handler_path(krate, q, path@),
                registry.aux.id_of(constructor),
            );
            lemma_position(first.components, handler);
            assert(first.components[id as int] == registry.aux.components[id as int]);
        }
    }
}

/// Processing an item does not change which components it declares.
proof fn lemma_declarations_are_kept<T: PartialEq, E>(
    registry: Registry<T, E>,
    krate: &Crate,
    scope_id: ScopeId,
    q: QueueItem,
    outcome: Outcome<T, E>,
    component: UserComponentView,
)
    ensures
        declares(
            applied(registry, krate, scope_id, q, outcome).aux,
            krate,
            q,
            outcome,
            component,
        ) == declares(registry.aux, krate, q, outcome, component),
{
    if let Outcome::Annotated { annotation, .. } = outcome {
        lemma_applied_constructors(registry, krate, scope_id, q, outcome);
        lemma_constructor_id_is_kept(registry, krate, scope_id, q, outcome);
        if let Some(path) = annotation->error_handler {
            let identifiers = handler_path(krate, q, path@);
            law_interning(registry.aux.identifiers, identifiers, identifiers);
        }
    }
}

/// Which components an item declares does not change when the tables grow.
proof fn lemma_declarations_stay<T, E>(
    before: AuxiliaryDataView,
    after: AuxiliaryDataView,
    krate: &Crate,
    q: QueueItem,
    outcome: Outcome<T, E>,
    component: UserComponentView,
)
    requires
        is_outcome_registered(before, krate, q, outcome),
        tables_extend(before, after),
    ensures
        declares(after, krate, q, outcome, component) == declares(
            before,
            krate,
            q,
            outcome,
            component,
        ),
{
    if let Outcome::Annotated { annotation, .. } = outcome {
        let item = global_id(krate, q);
        law_identifiers_are_stable(before.annotations, after.annotations, item);
        law_identifiers_are_stable(
            before.components,
            after.components,
            before.constructor_of(item),
        );
        if let Some(path) = annotation->error_handler {
            law_identifiers_are_stable(
                before.identifiers,
                after.identifiers,
                handler_path(krate, q, path@),
            );
        }
    }
}

/// The components that an item adds are those that it declares.
proof fn lemma_new_components_of_an_item<T: PartialEq, E>(
    registry: Registry<T, E>,
    krate: &Crate,
    scope_id: ScopeId,
    q: QueueItem,
    outcome: Outcome<T, E>,
    id: int,
)
    requires
        registry.aux.components.len() <= id < applied(
            registry,
            krate,
            scope_id,
            q,
            outcome,
        ).aux.components.len(),
    ensures
        ({
            let after = applied(registry, krate, scope_id, q, outcome).aux;
            declares(after, krate, q, outcome, after.components[id])
        }),
{
    let after = applied(registry, krate, scope_id, q, outcome).aux;
    lemma_declarations_are_kept(registry, krate, scope_id, q, outcome, after.components[id]);
}

/// Whether the item at position `k` of `order` declares `component`.
pub open spec fn declares_at<T, E>(
    aux: AuxiliaryDataView,
    krate: &Crate,
    order: Seq<QueueItem>,
    outcomes: Seq<Outcome<T, E>>,
    k: int,
    component: UserComponentView,
) -> bool {
    0 <= k < order.len() && declares(aux, krate, order[k], outcomes[k], component)
}

/// Each component that a module adds is the constructor that one of its items declares, or the
/// error handler of that constructor.
pub proof fn law_new_components_of_a_module<T: PartialEq, E>(
    registry: Registry<T, E>,
    krate: &Crate,
    scope_id: ScopeId,
    order: Seq<QueueItem>,
    outcomes: Seq<Outcome<T, E>>,
    id: int,
)
    requires
        order.len() == outcomes.len(),
        registry.aux.components.len() <= id < module_applied(
            registry,
            krate,
            scope_id,
            order,
            outcomes,
        ).aux.components.len(),
    ensures
        ({
            let after = module_applied(registry, krate, scope_id, order, outcomes).aux;
            exists|k: int| #[trigger]
                declares_at(after, krate, order, outcomes, k, after.components[id])
        }),
    decreases order.len(),
{
    if order.len() > 0 {
        let n = order.len() - 1;
        let front = order.drop_last();
        let known = outcomes.drop_last();
        let before = module_applied(registry, krate, scope_id, front, known);
        let after = module_applied(registry, krate, scope_id, order, outcomes).aux;
        let component = after.components[id];
        law_modules_are_registered(registry, krate, scope_id, front, known);
        law_processing_an_item_only_adds(before, krate, scope_id, order.last(), outcomes.last());
        if id < before.aux.components.len() {
            law_new_components_of_a_module(registry, krate, scope_id, front, known, id);
            assert(component == before.aux.components[id]);
            let k = choose|k: int| #[trigger]
                declares_at(before.aux, krate, front, known, k, component);
            assert(front[k] == order[k]);
            lemma_declarations_stay(before.aux, after, krate, order[k], outcomes[k], component);
            assert(declares_at(after, krate, order, outcomes, k, component));
        } else {
            lemma_new_components_of_an_item(
                before,
                krate,
                scope_id,
                order.last(),
                outcomes.last(),
                id,
            );
            assert(declares_at(after, krate, order, outcomes, n, component));
        }
    }
}

/// Whether the item at position `k` of those to process for the import at position `i` declares
/// `component`.
pub open spec fn import_declares_at<T, E>(
    aux: AuxiliaryDataView,
    krate_collection: &CrateCollection,
    imports: Seq<(ResolvedImport, usize)>,
    outcomes: Seq<Seq<Outcome<T, E>>>,
    i: int,
    k: int,
    component: UserComponentView,
) -> bool {
    0 <= i < imports.len() && declares_at(
        aux,
        &crate_of_import(krate_collection, imports[i].0),
        order_of_import(krate_collection, imports[i].0),
        outcomes[i],
        k,
        component,
    )
}

/// What the items of earlier imports declare does not change when one more import is processed.
proof fn lemma_import_declarations_stay<T: PartialEq, E>(
    registry: Registry<T, E>,
    krate_collection: &CrateCollection,
    imports: Seq<(ResolvedImport, usize)>,
    outcomes: Seq<Seq<Outcome<T, E>>>,
    i: int,
    k: int,
    component: UserComponentView,
)
    requires
        covers(krate_collection, imports, outcomes),
        0 <= i < imports.len() - 1,
    ensures
        ({
            let front = imports.drop_last();
            let known = outcomes.drop_last();
            let before = imports_applied(registry, krate_collection, front, known).aux;
            let after = imports_applied(registry, krate_collection, imports, outcomes).aux;
            import_declares_at(after, krate_collection, imports, outcomes, i, k, component)
                == import_declares_at(before, krate_collection, front, known, i, k, component)
        }),
{
    let front = imports.drop_last();
    let known = outcomes.drop_last();
    let before = imports_applied(registry, krate_collection, front, known);
    let after = imports_applied(registry, krate_collection, imports, outcomes);
    let (last, import_id) = imports.last();
    lemma_covers_front(krate_collection, imports, outcomes);
    law_imports_are_registered(registry, krate_collection, front, known);
    law_processing_a_module_only_adds(
        before,
        &crate_of_import(krate_collection, last),
        registry.aux.imports[import_id as int],
        order_of_import(krate_collection, last),
        outcomes.last(),
    );
    assert(front[i] == imports[i]);
    let krate = crate_of_import(krate_collection, imports[i].0);
    let order = order_of_import(krate_collection, imports[i].0);
    assert(is_import_registered(before.aux, krate_collection, front[i].0, known[i]));
    if 0 <= k < order.len() {
        assert(is_outcome_registered(before.aux, &krate, order[k], known[i][k]));
        lemma_declarations_stay(
            before.aux,
            after.aux,
            &krate,
            order[k],
            outcomes[i][k],
            component,
        );
    }
}

proof fn lemma_new_components_of_imports<T: PartialEq, E>(
    registry: Registry<T, E>,
    krate_collection: &CrateCollection,
    imports: Seq<(ResolvedImport, usize)>,
    outcomes: Seq<Seq<Outcome<T, E>>>,
    id: int,
)
    requires
        covers(krate_collection, imports, outcomes),
        registry.aux.components.len() <= id < imports_applied(
            registry,
            krate_collection,
            imports,
            outcomes,
        ).aux.components.len(),
    ensures
        ({
            let after = imports_applied(registry, krate_collection, imports, outcomes).aux;
            exists|i: int, k: int| #[trigger]
                import_declares_at(
                    after,
                    krate_collection,
                    imports,
                    outcomes,
                    i,
                    k,
                    after.components[id],
                )
        }),
    decreases imports.len(),
{
    if imports.len() > 0 {
        let n = imports.len() - 1;
        let front = imports.drop_last();
        let known = outcomes.drop_last();
        let before = imports_applied(registry, krate_collection, front, known);
        let after = imports_applied(registry, krate_collection, imports, outcomes).aux;
        let component = after.components[id];
        let (last, import_id) = imports.last();
        let krate = crate_of_import(krate_collection, last);
        let order = order_of_import(krate_collection, last);
        let scope_id = registry.aux.imports[import_id as int];
        lemma_covers_front(krate_collection, imports, outcomes);
        law_processing_a_module_only_adds(before, &krate, scope_id, order, outcomes.last());
        if id < before.aux.components.len() {
            lemma_new_components_of_imports(registry, krate_collection, front, known, id);
            assert(component == before.aux.components[id]);
            let (i, k) = choose|i: int, k: int| #[trigger]
                import_declares_at(
                    before.aux,
                    krate_collection,
                    front,
                    known,
                    i,
                    k,
                    component,
                );
            lemma_import_declarations_stay(
                registry,
                krate_collection,
                imports,
                outcomes,
                i,
                k,
                component,
            );
            assert(import_declares_at(
                after,
                krate_collection,
                imports,
                outcomes,
                i,
                k,
                component,
            ));
        } else {
            law_new_components_of_a_module(before, &krate, scope_id, order, outcomes.last(), id);
            let k = choose|k: int| #[trigger]
                declares_at(after, &krate, order, outcomes.last(), k, component);
            assert(imports[n] == imports.last());
            assert(import_declares_at(
                after,
                krate_collection,
                imports,
                outcomes,
                n,
                k,
                component,
            ));
        }
    }
}

/// Each component that the registration of imported components adds is the constructor of an
/// annotated function or method that is reached from one of the imported modules, or the error
/// handler that the annotation declares for that constructor.
pub proof fn law_new_components_are_declared<
    T: PartialEq,
    E,
    P: Fn(&Vec<String>) -> Result<Option<AnnotatedComponent>, String>,
    S: Fn(&Registration, ComponentKind, &str) -> Option<AnnotatedSource>,
    R: Fn(&Type, &PackageId, &GenericBindings<T>) -> Result<T, E>,
>(
    parse: P,
    annotate: S,
    resolve: R,
    registry: Registry<T, E>,
    krate_collection: &CrateCollection,
    imports: Seq<(ResolvedImport, usize)>,
    outcomes: Seq<Seq<Outcome<T, E>>>,
    id: int,
)
    requires
        are_import_outcomes(parse, annotate, resolve, krate_collection, imports, outcomes),
        registry.aux.components.len() <= id < imports_applied(
            registry,
            krate_collection,
            imports,
            outcomes,
        ).aux.components.len(),
    ensures
        ({
            let after = imports_applied(registry, krate_collection, imports, outcomes).aux;
            exists|i: int, k: int|
                {
                    let import = imports[i].0;
                    let krate = crate_of_import(krate_collection, import);
                    let q = order_of_import(krate_collection, import)[k];
                    &&& #[trigger] import_declares_at(
                        after,
                        krate_collection,
                        imports,
                        outcomes,
                        i,
                        k,
                        after.components[id],
                    )
                    &&& is_reachable(&krate, import.path@, q)
                    &&& may_be_annotated(parse, &krate, q)
                }
        }),
{
    let after = imports_applied(registry, krate_collection, imports, outcomes).aux;
    let component = after.components[id];
    assert forall|i: int| 0 <= i < imports.len() implies order_of_import(
        krate_collection,
        (#[trigger] imports[i]).0,
    ).len() == outcomes[i].len() by {}
    lemma_new_components_of_imports(registry, krate_collection, imports, outcomes, id);
    let (i, k) = choose|i: int, k: int| #[trigger]
        import_declares_at(after, krate_collection, imports, outcomes, i, k, component);
    let import = imports[i].0;
    let krate = crate_of_import(krate_collection, import);
    let order = order_of_import(krate_collection, import);
    law_each_item_is_processed_once(&krate, import.path@);
    assert(order.contains(order[k]));
    assert(are_outcomes(parse, annotate, resolve, &krate, order, outcomes[i]));
    assert(is_outcome(parse, annotate, resolve, &krate, order[k], outcomes[i][k]));
}

/// Processing a module changes nothing that is known of a component that was registered before,
/// unless an item of the module declares that component again.
pub proof fn law_a_module_leaves_other_components_alone<T: PartialEq, E>(
    registry: Registry<T, E>,
    krate: &Crate,
    scope_id: ScopeId,
    order: Seq<QueueItem>,
    outcomes: Seq<Outcome<T, E>>,
    id: usize,
)
    requires
        order.len() == outcomes.len(),
        registry.aux.has_component(id),
        forall|k: int|
            !#[trigger] declares_at(
                module_applied(registry, krate, scope_id, order, outcomes).aux,
                krate,
                order,
                outcomes,
                k,
                registry.aux.components[id as int],
            ),
        module_applied(registry, krate, scope_id, order, outcomes).aux.components.len()
            <= usize::MAX,
    ensures
        known_alike(
            registry.aux,
            module_applied(registry, krate, scope_id, order, outcomes).aux,
            id,
        ),
    decreases order.len(),
{
    if order.len() > 0 {
        let n = order.len() - 1;
        let front = order.drop_last();
        let known = outcomes.drop_last();
        let component = registry.aux.components[id as int];
        let before = module_applied(registry, krate, scope_id, front, known);
        let after = module_applied(registry, krate, scope_id, order, outcomes).aux;
        law_modules_are_registered(registry, krate, scope_id, front, known);
        law_processing_an_item_only_adds(before, krate, scope_id, order.last(), outcomes.last());
        assert forall|k: int|
            !#[trigger] declares_at(before.aux, krate, front, known, k, component) by {
            if 0 <= k < n {
                assert(front[k] == order[k]);
                lemma_declarations_stay(
                    before.aux,
                    after,
                    krate,
                    order[k],
                    outcomes[k],
                    component,
                );
                assert(!declares_at(after, krate, order, outcomes, k, component));
            }
        }
        law_a_module_leaves_other_components_alone(registry, krate, scope_id, front, known, id);
        law_processing_a_module_only_adds(registry, krate, scope_id, front, known);
        assert(!declares_at(after, krate, order, outcomes, n, component));
        lemma_declarations_are_kept(
            before,
            krate,
            scope_id,
            order.last(),
            outcomes.last(),
            component,
        );
        law_an_item_leaves_other_components_alone(
            before,
            krate,
            scope_id,
            order.last(),
            outcomes.last(),
            id,
        );
    }
}

/// The registration of imported components changes nothing that is known of a component that was
/// registered before, unless an item of one of the imports declares that component again.
pub proof fn law_imports_leave_other_components_alone<T: PartialEq, E>(
    registry: Registry<T, E>,
    krate_collection: &CrateCollection,
    imports: Seq<(ResolvedImport, usize)>,
    outcomes: Seq<Seq<Outcome<T, E>>>,
    id: usize,
)
    requires
        covers(krate_collection, imports, outcomes),
        registry.aux.has_component(id),
        forall|i: int, k: int|
            !#[trigger] import_declares_at(
                imports_applied(registry, krate_collection, imports, outcomes).aux,
                krate_collection,
                imports,
                outcomes,
                i,
                k,
                registry.aux.components[id as int],
            ),
        imports_applied(registry, krate_collection, imports, outcomes).aux.components.len()
            <= usize::MAX,
    ensures
        known_alike(
            registry.aux,
            imports_applied(registry, krate_collection, imports, outcomes).aux,
            id,
        ),
    decreases imports.len(),
{
    if imports.len() > 0 {
        let n = imports.len() - 1;
        let front = imports.drop_last();
        let known = outcomes.drop_last();
        let component = registry.aux.components[id as int];
        let before = imports_applied(registry, krate_collection, front, known);
        let after = imports_applied(registry, krate_collection, imports, outcomes).aux;
        let (last, import_id) = imports.last();
        let krate = crate_of_import(krate_collection, last);
        let order = order_of_import(krate_collection, last);
        let scope_id = registry.aux.imports[import_id as int];
        lemma_covers_front(krate_collection, imports, outcomes);
        law_registration_only_adds(registry, krate_collection, front, known);
        law_processing_a_module_only_adds(before, &krate, scope_id, order, outcomes.last());
        assert forall|i: int, k: int|
            !#[trigger] import_declares_at(
                before.aux,
                krate_collection,
                front,
                known,
                i,
                k,
                component,
            ) by {
            if 0 <= i < n {
                lemma_import_declarations_stay(
                    registry,
                    krate_collection,
                    imports,
                    outcomes,
                    i,
                    k,
                    component,
                );
                assert(!import_declares_at(
                    after,
                    krate_collection,
                    imports,
                    outcomes,
                    i,
                    k,
                    component,
                ));
            }
        }
        law_imports_leave_other_components_alone(registry, krate_collection, front, known, id);
        assert(imports[n] == imports.last());
        assert forall|k: int|
            !#[trigger] declares_at(after, &krate, order, outcomes.last(), k, component) by {
            assert(!import_declares_at(
                after,
                krate_collection,
                imports,
                outcomes,
                n,
                k,
                component,
            ));
        }
        law_a_module_leaves_other_components_alone(
            before,
            &krate,
            scope_id,
            order,
            outcomes.last(),
            id,
        );
    }
}

} // verus!
