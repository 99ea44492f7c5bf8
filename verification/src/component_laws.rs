//! What the tables hold when an annotation has been processed, entry by entry.
use crate::arena::raw_index;
use crate::auxiliary::{
    AnnotatedComponent, AuxiliaryData, CloningStrategy, ComponentSource, ComponentSourceView,
    Lifecycle, Registration, ScopeId, UserComponent, UserComponentId, UserComponentView,
};
use crate::interner::{
    interned, law_identifiers_are_stable, law_interning, lemma_position, position,
};
use crate::reflection::{CreatedAt, RawIdentifiers, RawIdentifiersView};
use crate::rustdoc::{Crate, GlobalItemId, Item, Span};
use vstd::prelude::*;

verus! {

/// Identifiers are told apart by the name of the crate, the text of the module and the import
/// path, each of which is seen as it is.
pub proof fn law_identifiers_are_seen_as_they_are(a: RawIdentifiers, b: RawIdentifiers)
    ensures
        a@.crate_name == a.created_at.crate_name@,
        a@.module_text == a.created_at.module@,
        a@.import_path == a.import_path@,
        a@ == b@ <==> {
            &&& a.created_at.crate_name@ == b.created_at.crate_name@
            &&& a.created_at.module@ == b.created_at.module@
            &&& a.import_path@ == b.import_path@
        },
{
}

/// Annotated items are told apart by their number and their package.
pub proof fn law_items_are_seen_as_they_are(a: GlobalItemId, b: GlobalItemId)
    ensures
        a@.0 == a.rustdoc_item_id.0,
        a@.1 == a.package_id.0@,
        a@ == b@ <==> a.rustdoc_item_id.0 == b.rustdoc_item_id.0 && a.package_id.0@
            == b.package_id.0@,
{
}

/// A component is seen by what it is, by the number of what it was made from, and, an error
/// handler, by the number of the component whose errors it handles.
pub proof fn law_components_are_seen_as_they_are(component: UserComponent)
    ensures
        match component {
            UserComponent::Constructor { source: ComponentSource::Annotation(id) } => component@ == (
            UserComponentView::Constructor {
                source: ComponentSourceView::Annotation(raw_index(id) as int),
            }),
            UserComponent::Constructor { source: ComponentSource::Identifiers(id) } => component@ == (
            UserComponentView::Constructor {
                source: ComponentSourceView::Identifiers(id as int),
            }),
            UserComponent::ErrorHandler {
                source: ComponentSource::Annotation(id),
                fallible_id,
            } => component@ == (UserComponentView::ErrorHandler {
                source: ComponentSourceView::Annotation(raw_index(id) as int),
                fallible_id: fallible_id.0 as int,
            }),
            UserComponent::ErrorHandler {
                source: ComponentSource::Identifiers(id),
                fallible_id,
            } => component@ == (UserComponentView::ErrorHandler {
                source: ComponentSourceView::Identifiers(id as int),
                fallible_id: fallible_id.0 as int,
            }),
        },
{
}

/// The tables are seen as they are.
pub proof fn law_tables_are_seen_as_they_are(aux: AuxiliaryData)
    ensures
        aux@.components == aux.component_interner@,
        aux@.identifiers == aux.identifiers_interner@,
        aux@.annotations == aux.annotation_interner@,
        aux@.imports == aux.imports@,
        aux@.scopes == aux.id2scope_id@,
        aux@.lifecycles == aux.id2lifecycle@,
        aux@.registrations == aux.id2registration@,
        aux@.cloning_strategies == aux.id2cloning_strategy@,
{
}

/// Interning adds a value just where it is not there, and nothing else; its identifier is where it
/// is found first.
pub proof fn law_interning_adds_one_value<V>(s: Seq<V>, v: V)
    ensures
        s.contains(v) ==> interned(s, v) == s,
        !s.contains(v) ==> interned(s, v) == s.push(v),
        0 <= position(s, v) < interned(s, v).len(),
        interned(s, v)[position(s, v)] == v,
        forall|i: int| 0 <= i < position(s, v) ==> interned(s, v)[i] != v,
{
    lemma_position(s, v);
}

/// Interning a component gives back the identifier under which it is found, records of it the scope,
/// the lifecycle and the place, and changes nothing else.
pub proof fn law_component_is_interned(
    before: AuxiliaryData,
    after: AuxiliaryData,
    component: UserComponent,
    scope_id: ScopeId,
    lifecycle: Lifecycle,
    registration: Registration,
    res: UserComponentId,
)
    requires
        res.0 == position(before@.components, component@),
        after@ == before@.with_component(component@, scope_id, lifecycle, registration),
    ensures
        after.component_interner@ == if before.component_interner@.contains(component@) {
            before.component_interner@
        } else {
            before.component_interner@.push(component@)
        },
        res.0 < after.component_interner@.len(),
        after.component_interner@[res.0 as int] == component@,
        after.id2scope_id@ == before.id2scope_id@.insert(res.0, scope_id),
        after.id2lifecycle@ == before.id2lifecycle@.insert(res.0, lifecycle),
        after.id2registration@ == before.id2registration@.insert(res.0, registration),
        after.id2cloning_strategy@ == before.id2cloning_strategy@,
        after.identifiers_interner@ == before.identifiers_interner@,
        after.annotation_interner@ == before.annotation_interner@,
        after.imports@ == before.imports@,
{
    lemma_position(before@.components, component@);
}

/// Interning an annotation on an item gives back the identifier of a constructor that was made
/// from that very item, and records of it the scope, the lifecycle, the place and how it is cloned;
/// an error handler is registered for it where the annotation has one, and nothing else is changed.
/// The numbers that come with it are those of the item, of the error handler and of its path.
#[verifier::rlimit(40)]
pub proof fn law_annotation_is_interned(
    before: AuxiliaryData,
    after: AuxiliaryData,
    lifecycle: Lifecycle,
    cloning_strategy: Option<CloningStrategy>,
    error_handler: Option<String>,
    item: Item,
    span: Span,
    krate: &Crate,
    created_at: CreatedAt,
    scope_id: ScopeId,
    res: UserComponentId,
) -> (numbers: (int, usize, int))
    requires
        res.0 == position(
            before@.components,
            before@.constructor_of((item.id.0, krate.package_id.0@)),
        ),
        after@ == before@.with_annotated(
            AnnotatedComponent::Constructor { lifecycle, cloning_strategy, error_handler },
            (item.id.0, krate.package_id.0@),
            span,
            created_at.crate_name@,
            created_at.module@,
            scope_id,
        ),
    ensures
        ({
            let (n, handler, m) = numbers;
            let items = after.annotation_interner@;
            let components = after.component_interner@;
            let constructor = UserComponentView::Constructor {
                source: ComponentSourceView::Annotation(n),
            };
            // The item.
            &&& 0 <= n < items.len()
            &&& items[n] == (item.id.0, krate.package_id.0@)
            &&& items == if before.annotation_interner@.contains(
                (item.id.0, krate.package_id.0@),
            ) {
                before.annotation_interner@
            } else {
                before.annotation_interner@.push((item.id.0, krate.package_id.0@))
            }
            // The constructor.
            &&& res.0 < components.len()
            &&& components[res.0 as int] == constructor
            &&& before.component_interner@.contains(constructor) ==> res.0
                < before.component_interner@.len()
            &&& !before.component_interner@.contains(constructor) ==> res.0
                == before.component_interner@.len()
            &&& after.id2scope_id@.contains_key(res.0) && after.id2scope_id@[res.0] == scope_id
            &&& after.id2lifecycle@.contains_key(res.0) && after.id2lifecycle@[res.0] == lifecycle
            &&& after.id2registration@.contains_key(res.0) && after.id2registration@[res.0]
                == Registration::Attribute(span)
            &&& after.id2cloning_strategy@ == before.id2cloning_strategy@.insert(
                res.0,
                if cloning_strategy is Some {
                    cloning_strategy->0
                } else {
                    CloningStrategy::NeverClone
                },
            )
            // The error handler.
            &&& match error_handler {
                None => {
                    &&& after.identifiers_interner@ == before.identifiers_interner@
                    &&& components == if before.component_interner@.contains(constructor) {
                        before.component_interner@
                    } else {
                        before.component_interner@.push(constructor)
                    }
                    &&& handler == res.0
                },
                Some(path) => {
                    &&& handler < components.len()
                    &&& handler != res.0
                    &&& components[handler as int] == (UserComponentView::ErrorHandler {
                        source: ComponentSourceView::Identifiers(m),
                        fallible_id: res.0 as int,
                    })
                    &&& 0 <= m < after.identifiers_interner@.len()
                    &&& after.identifiers_interner@[m].crate_name == created_at.crate_name@
                    &&& after.identifiers_interner@[m].module_text == created_at.module@
                    &&& after.identifiers_interner@[m].import_path == path@
                    &&& after.id2scope_id@.contains_key(handler) && after.id2scope_id@[handler]
                        == scope_id
                    &&& after.id2lifecycle@.contains_key(handler) && after.id2lifecycle@[handler]
                        == lifecycle
                    &&& after.id2registration@.contains_key(handler)
                        && after.id2registration@[handler] == Registration::Attribute(span)
                    &&& components.len() <= before.component_interner@.len() + 2
                    &&& after.identifiers_interner@.len() <= before.identifiers_interner@.len() + 1
                },
            }
            // The rest.
            &&& before.component_interner@.is_prefix_of(components)
            &&& before.identifiers_interner@.is_prefix_of(after.identifiers_interner@)
            &&& after.imports@ == before.imports@
            &&& forall|id: usize|
                id != res.0 && id != handler ==> {
                    &&& #[trigger] after.id2scope_id@.contains_key(id)
                        == before.id2scope_id@.contains_key(id)
                    &&& after.id2scope_id@[id] == before.id2scope_id@[id]
                    &&& after.id2lifecycle@.contains_key(id)
                        == before.id2lifecycle@.contains_key(id)
                    &&& after.id2lifecycle@[id] == before.id2lifecycle@[id]
                    &&& after.id2registration@.contains_key(id)
                        == before.id2registration@.contains_key(id)
                    &&& after.id2registration@[id] == before.id2registration@[id]
                }
        }),
{
    after.component_interner.lemma_len();
    let item_id = (item.id.0, krate.package_id.0@);
    let n = position(before@.annotations, item_id);
    let constructor = before@.constructor_of(item_id);
    lemma_position(before@.annotations, item_id);
    lemma_position(before@.components, constructor);
    law_interning(before@.annotations, item_id, item_id);
    law_interning(before@.components, constructor, constructor);
    match error_handler {
        None => (n, res.0, 0),
        Some(path) => {
            let first = before@.with_constructor(
                item_id,
                scope_id,
                lifecycle,
                cloning_strategy,
                Registration::Attribute(span),
            );
            let identifiers = RawIdentifiersView {
                crate_name: created_at.crate_name@,
                module_text: created_at.module@,
                import_path: path@,
            };
            let handler = first.error_handler_of(identifiers, res.0);
            lemma_position(before@.identifiers, identifiers);
            law_interning(before@.identifiers, identifiers, identifiers);
            lemma_position(first.components, handler);
            law_interning(first.components, handler, handler);
            law_interning(first.components, handler, constructor);
            (n, first.id_of(handler), position(before@.identifiers, identifiers))
        },
    }
}

/// Two annotations, processed one after the other, give back the same identifier where they are on
/// the same item, and different ones where they are not; in the latter case the first constructor
/// keeps all that is known of it.
#[verifier::rlimit(40)]
pub proof fn law_items_do_not_share_constructors(
    before: AuxiliaryData,
    between: AuxiliaryData,
    after: AuxiliaryData,
    annotations: (AnnotatedComponent, AnnotatedComponent),
    items: (Item, Item),
    spans: (Span, Span),
    krates: (Crate, Crate),
    places: (CreatedAt, CreatedAt),
    scopes: (ScopeId, ScopeId),
    first: UserComponentId,
    second: UserComponentId,
)
    requires
        first.0 == position(
            before@.components,
            before@.constructor_of((items.0.id.0, krates.0.package_id.0@)),
        ),
        between@ == before@.with_annotated(
            annotations.0,
            (items.0.id.0, krates.0.package_id.0@),
            spans.0,
            places.0.crate_name@,
            places.0.module@,
            scopes.0,
        ),
        second.0 == position(
            between@.components,
            between@.constructor_of((items.1.id.0, krates.1.package_id.0@)),
        ),
        after@ == between@.with_annotated(
            annotations.1,
            (items.1.id.0, krates.1.package_id.0@),
            spans.1,
            places.1.crate_name@,
            places.1.module@,
            scopes.1,
        ),
    ensures
        ({
            let same = items.0.id.0 == items.1.id.0 && krates.0.package_id.0@
                == krates.1.package_id.0@;
            &&& first.0 == second.0 <==> same
            &&& !same ==> {
                &&& after.id2scope_id@[first.0] == scopes.0
                &&& after.id2registration@[first.0] == Registration::Attribute(spans.0)
                &&& after.id2lifecycle@[first.0] == between.id2lifecycle@[first.0]
                &&& after.id2cloning_strategy@[first.0] == between.id2cloning_strategy@[first.0]
            }
            &&& after.component_interner@[first.0 as int]
                == between.component_interner@[first.0 as int]
        }),
{
    let AnnotatedComponent::Constructor { lifecycle, cloning_strategy, error_handler } =
        annotations.0;
    let (m, _, _) = law_annotation_is_interned(
        before,
        between,
        lifecycle,
        cloning_strategy,
        error_handler,
        items.0,
        spans.0,
        &krates.0,
        places.0,
        scopes.0,
        first,
    );
    let AnnotatedComponent::Constructor { lifecycle, cloning_strategy, error_handler } =
        annotations.1;
    let (n, handler, _) = law_annotation_is_interned(
        between,
        after,
        lifecycle,
        cloning_strategy,
        error_handler,
        items.1,
        spans.1,
        &krates.1,
        places.1,
        scopes.1,
        second,
    );
    let item = (items.0.id.0, krates.0.package_id.0@);
    let constructor = before@.constructor_of(item);
    lemma_position(between@.annotations, item);
    lemma_position(before@.annotations, item);
    law_interning(before@.annotations, item, item);
    law_interning(before@.components, constructor, constructor);
    lemma_position(before@.components, constructor);
    let known = interned(before@.components, constructor);
    assert(known.is_prefix_of(between@.components));
    law_identifiers_are_stable(known, between@.components, constructor);
    assert(after@.components[first.0 as int] == between@.components[first.0 as int]);
    assert(after@.annotations[m] == between@.annotations[m]);
    let same = item == (items.1.id.0, krates.1.package_id.0@);
    if same {
        assert(between@.constructor_of(item) == constructor);
        assert(first.0 == second.0);
    } else {
        assert(m != n);
        assert(first.0 != second.0);
        assert(first.0 != handler);
        assert(after.id2scope_id@.contains_key(first.0) == between.id2scope_id@.contains_key(
            first.0,
        ));
    }
}

} // verus!
