//! What the registration of components rests on: what the documentation says, and nothing else.
use crate::annotations::{
    are_import_outcomes, are_outcomes, crate_of_import, imports_applied, is_annotatable,
    is_outcome, module_applied, order_of_import, parses_to, Outcome, Registry, ResolvedImport,
};
use crate::auxiliary::{AnnotatedComponent, Registration, ScopeId};
use crate::callable::{
    is_deterministic, law_free_functions_have_one_outcome, law_methods_have_one_outcome, path_of,
    GenericBindings,
};
use crate::diagnostic::{annotates_to, AnnotatedSource, ComponentKind};
use crate::queue::QueueItem;
use crate::rustdoc::{Crate, CrateCollection, Item, PackageId, Span, Type};
use crate::traversal::law_order_rests_on_the_documentation;
use vstd::prelude::*;

verus! {

/// Whether `parse` gives the same outcome each time it is called on the same attributes.
pub open spec fn parses_deterministically<
    P: Fn(&Vec<String>) -> Result<Option<AnnotatedComponent>, String>,
>(parse: P) -> bool {
    forall|
        item: Item,
        a: Result<Option<AnnotatedComponent>, String>,
        b: Result<Option<AnnotatedComponent>, String>,
    |
        #[trigger] parses_to(parse, item, a) && #[trigger] parses_to(parse, item, b) ==> a == b
}

/// Whether `annotate` gives the same source each time it is called on the same place.
pub open spec fn annotates_deterministically<
    S: Fn(&Registration, ComponentKind, &str) -> Option<AnnotatedSource>,
>(annotate: S) -> bool {
    forall|span: Span, a: Option<AnnotatedSource>, b: Option<AnnotatedSource>|
        #[trigger] annotates_to(annotate, span, a) && #[trigger] annotates_to(annotate, span, b)
            ==> a == b
}

proof fn lemma_outcome_is_determined<
    T,
    E,
    P: Fn(&Vec<String>) -> Result<Option<AnnotatedComponent>, String>,
    S: Fn(&Registration, ComponentKind, &str) -> Option<AnnotatedSource>,
    R: Fn(&Type, &PackageId, &GenericBindings<T>) -> Result<T, E>,
>(parse: P, annotate: S, resolve: R, krate: &Crate, q: QueueItem, a: Outcome<T, E>, b: Outcome<T, E>)
    requires
        parses_deterministically(parse),
        annotates_deterministically(annotate),
        is_deterministic(resolve),
        is_outcome(parse, annotate, resolve, krate, q, a),
        is_outcome(parse, annotate, resolve, krate, q, b),
    ensures
        a == b,
{
    let item = krate.item(q.own_id());
    if is_annotatable(krate, q) {
        let x = parsed_as(parse, item, a);
        let y = parsed_as(parse, item, b);
        assert(parses_to(parse, item, x) && parses_to(parse, item, y));
        if let (Outcome::Annotated { callable: x, .. }, Outcome::Annotated { callable: y, .. }) = (
            a,
            b,
        ) {
            match q {
                QueueItem::ImplItem { self_, impl_, .. } => {
                    law_methods_have_one_outcome(resolve, self_, impl_, item, krate, x, y);
                },
                _ => {
                    law_free_functions_have_one_outcome(resolve, item, krate, x, y);
                },
            }
        }
    }
}

/// What the attributes of `item` were parsed as when `outcome` came of it.
spec fn parsed_as<
    T,
    E,
    P: Fn(&Vec<String>) -> Result<Option<AnnotatedComponent>, String>,
>(parse: P, item: Item, outcome: Outcome<T, E>) -> Result<Option<AnnotatedComponent>, String> {
    match outcome {
        Outcome::Skipped => Ok(None),
        Outcome::Malformed { reason, .. } => Err(
            choose|e: String| e@ == reason && #[trigger] parses_to(parse, item, Err(e)),
        ),
        Outcome::Annotated { annotation, .. } => Ok(Some(annotation)),
    }
}

/// What can come of processing an item rests on what the documentation says alone.
proof fn lemma_same_outcomes<
    T,
    E,
    P: Fn(&Vec<String>) -> Result<Option<AnnotatedComponent>, String>,
    S: Fn(&Registration, ComponentKind, &str) -> Option<AnnotatedSource>,
    R: Fn(&Type, &PackageId, &GenericBindings<T>) -> Result<T, E>,
>(
    parse: P,
    annotate: S,
    resolve: R,
    a: &Crate,
    b: &Crate,
    q: QueueItem,
    outcome: Outcome<T, E>,
)
    requires
        a.same_as(b),
        is_outcome(parse, annotate, resolve, a, q, outcome),
    ensures
        is_outcome(parse, annotate, resolve, b, q, outcome),
{
    let item = a.item(q.own_id());
    assert(path_of(a, item.id, seq![]) == path_of(b, item.id, seq![]));
    if let QueueItem::ImplItem { self_, .. } = q {
        assert(path_of(a, self_, seq![item.name->0@]) == path_of(b, self_, seq![item.name->0@]));
    }
}

proof fn lemma_same_module<T: PartialEq, E>(
    a: &Crate,
    b: &Crate,
    registry: Registry<T, E>,
    scope_id: ScopeId,
    order: Seq<QueueItem>,
    outcomes: Seq<Outcome<T, E>>,
)
    requires
        a.same_as(b),
    ensures
        module_applied(registry, a, scope_id, order, outcomes) == module_applied(
            registry,
            b,
            scope_id,
            order,
            outcomes,
        ),
    decreases order.len(),
{
    if order.len() > 0 {
        lemma_same_module(a, b, registry, scope_id, order.drop_last(), outcomes.drop_last());
    }
}

proof fn lemma_same_import(a: &CrateCollection, b: &CrateCollection, import: ResolvedImport)
    requires
        a.same_as(b),
    ensures
        crate_of_import(a, import).same_as(&crate_of_import(b, import)),
        order_of_import(a, import) == order_of_import(b, import),
{
    a.lemma_same_position(b, import.package_id, 0);
    law_order_rests_on_the_documentation(
        &crate_of_import(a, import),
        &crate_of_import(b, import),
        import.path@,
    );
}

proof fn lemma_same_imports<T: PartialEq, E>(
    a: &CrateCollection,
    b: &CrateCollection,
    registry: Registry<T, E>,
    imports: Seq<(ResolvedImport, usize)>,
    outcomes: Seq<Seq<Outcome<T, E>>>,
)
    requires
        a.same_as(b),
    ensures
        imports_applied(registry, a, imports, outcomes) == imports_applied(
            registry,
            b,
            imports,
            outcomes,
        ),
    decreases imports.len(),
{
    if imports.len() > 0 {
        let (import, import_id) = imports.last();
        lemma_same_imports(a, b, registry, imports.drop_last(), outcomes.drop_last());
        lemma_same_import(a, b, import);
        lemma_same_module(
            &crate_of_import(a, import),
            &crate_of_import(b, import),
            imports_applied(registry, a, imports.drop_last(), outcomes.drop_last()),
            registry.aux.imports[import_id as int],
            order_of_import(a, import),
            outcomes.last(),
        );
    }
}

/// Where attributes are parsed, source code found and types resolved deterministically, the
/// registration of imported components is deterministic: for documentation that says the same,
/// however its tables are laid out, it can come to one registry only.
pub proof fn law_registration_is_deterministic<
    T: PartialEq,
    E,
    P: Fn(&Vec<String>) -> Result<Option<AnnotatedComponent>, String>,
    S: Fn(&Registration, ComponentKind, &str) -> Option<AnnotatedSource>,
    R: Fn(&Type, &PackageId, &GenericBindings<T>) -> Result<T, E>,
>(
    parse: P,
    annotate: S,
    resolve: R,
    registry: Registry<T, E>,
    krate_collection: &CrateCollection,
    other_collection: &CrateCollection,
    imports: Seq<(ResolvedImport, usize)>,
    outcomes: Seq<Seq<Outcome<T, E>>>,
    other_outcomes: Seq<Seq<Outcome<T, E>>>,
)
    requires
        parses_deterministically(parse),
        annotates_deterministically(annotate),
        is_deterministic(resolve),
        krate_collection.same_as(other_collection),
        are_import_outcomes(parse, annotate, resolve, krate_collection, imports, outcomes),
        are_import_outcomes(parse, annotate, resolve, other_collection, imports, other_outcomes),
    ensures
        imports_applied(registry, krate_collection, imports, outcomes) == imports_applied(
            registry,
            other_collection,
            imports,
            other_outcomes,
        ),
{
    assert forall|i: int| 0 <= i < imports.len() implies outcomes[i] == other_outcomes[i] by {
        let import = imports[i].0;
        let a = crate_of_import(krate_collection, import);
        let b = crate_of_import(other_collection, import);
        let order = order_of_import(krate_collection, import);
        lemma_same_import(krate_collection, other_collection, import);
        assert(are_outcomes(parse, annotate, resolve, &a, order, outcomes[i]));
        assert(are_outcomes(parse, annotate, resolve, &b, order, other_outcomes[i]));
        assert forall|k: int| 0 <= k < order.len() implies outcomes[i][k] == other_outcomes[i][k] by {
            let q = order[k];
            assert(is_outcome(parse, annotate, resolve, &a, q, outcomes[i][k]));
            assert(is_outcome(parse, annotate, resolve, &b, q, other_outcomes[i][k]));
            lemma_same_outcomes(parse, annotate, resolve, &a, &b, q, outcomes[i][k]);
            lemma_outcome_is_determined(
                parse,
                annotate,
                resolve,
                &b,
                q,
                outcomes[i][k],
                other_outcomes[i][k],
            );
        }
        assert(outcomes[i] =~= other_outcomes[i]);
    }
    assert(outcomes =~= other_outcomes);
    lemma_same_imports(krate_collection, other_collection, registry, imports, outcomes);
}

} // verus!
