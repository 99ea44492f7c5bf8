//! The components that the user has registered, and what is known of each.
use crate::arena::{idx_into_u32, raw_index, AnnotatedItemId};
use crate::interner::{
    interned, law_identifiers_are_stable, law_identifiers_are_unique, law_interning,
    lemma_position, position, AnnotationInterner, Internable, Interner,
};
use crate::reflection::{CreatedAt, RawIdentifiers, RawIdentifiersView};
use crate::rustdoc::{Crate, GlobalItemId, Item, Span};
use std::collections::HashMap;
use vstd::prelude::*;

verus! {

/// The scope in which a component is registered.
#[derive(Debug, Copy, Clone, PartialEq, Eq, Hash, Structural)]
pub struct ScopeId(pub u32);

/// How often a component is built.
#[derive(Debug, Copy, Clone, PartialEq, Eq, Hash, Structural)]
pub enum Lifecycle {
    /// Once, before the application starts.
    Singleton,
    /// Once for each request.
    RequestScoped,
    /// Each time it is needed.
    Transient,
}

/// Whether a component may be cloned where its users ask for it more than once.
#[derive(Debug, Copy, Clone, PartialEq, Eq, Hash, Structural)]
pub enum CloningStrategy {
    NeverClone,
    CloneIfNecessary,
}

/// What an annotation on an item says.
#[derive(Debug, PartialEq, Eq, Hash)]
pub enum AnnotatedComponent {
    Constructor {
        lifecycle: Lifecycle,
        cloning_strategy: Option<CloningStrategy>,
        /// The path of the function that handles the errors of the constructor.
        error_handler: Option<String>,
    },
}

/// Where a component was registered.
#[derive(Debug, PartialEq, Eq, Hash)]
pub enum Registration {
    /// Through an attribute on the item that stands there.
    Attribute(Span),
}

impl Clone for Registration {
    fn clone(&self) -> (res: Self)
        ensures
            res == *self,
    {
        match self {
            Registration::Attribute(span) => Registration::Attribute(span.clone()),
        }
    }
}

impl Registration {
    /// The registration of the item that stands at `span`, through an attribute.
    pub fn attribute(span: &Span) -> (res: Self)
        ensures
            res == Registration::Attribute(*span),
    {
        Registration::Attribute(span.clone())
    }
}

/// The identifier of a component.
#[derive(Debug, Copy, Clone, PartialEq, Eq, Hash, Structural)]
pub struct UserComponentId(pub usize);

/// What a component was made from.
#[derive(Debug, PartialEq, Eq, Hash)]
pub enum ComponentSource {
    /// An annotated item.
    Annotation(AnnotatedItemId),
    /// The path of an item: the identifier of the interned `RawIdentifiers`.
    Identifiers(usize),
}

/// What a component was made from, by its number in the table of its kind.
pub ghost enum ComponentSourceView {
    Annotation(int),
    Identifiers(int),
}

impl View for ComponentSource {
    type V = ComponentSourceView;

    open spec fn view(&self) -> ComponentSourceView {
        match self {
            ComponentSource::Annotation(id) => ComponentSourceView::Annotation(
                raw_index(*id) as int,
            ),
            ComponentSource::Identifiers(id) => ComponentSourceView::Identifiers(*id as int),
        }
    }
}

impl ComponentSource {
    fn same(&self, other: &Self) -> (res: bool)
        ensures
            res == (self@ == other@),
    {
        match (self, other) {
            (ComponentSource::Annotation(a), ComponentSource::Annotation(b)) => idx_into_u32(*a)
                == idx_into_u32(*b),
            (ComponentSource::Identifiers(a), ComponentSource::Identifiers(b)) => *a == *b,
            _ => false,
        }
    }
}

/// A component that the user has registered.
#[derive(Debug, PartialEq, Eq, Hash)]
pub enum UserComponent {
    Constructor { source: ComponentSource },
    ErrorHandler {
        source: ComponentSource,
        /// The component whose errors are handled.
        fallible_id: UserComponentId,
    },
}

/// A component, by the numbers of what it refers to.
pub ghost enum UserComponentView {
    Constructor { source: ComponentSourceView },
    ErrorHandler { source: ComponentSourceView, fallible_id: int },
}

impl View for UserComponent {
    type V = UserComponentView;

    open spec fn view(&self) -> UserComponentView {
        match self {
            UserComponent::Constructor { source } => UserComponentView::Constructor {
                source: source@,
            },
            UserComponent::ErrorHandler { source, fallible_id } => UserComponentView::ErrorHandler {
                source: source@,
                fallible_id: fallible_id.0 as int,
            },
        }
    }
}

impl Internable for UserComponent {
    fn same(&self, other: &Self) -> (res: bool) {
        match (self, other) {
            (
                UserComponent::Constructor { source: a },
                UserComponent::Constructor { source: b },
            ) => a.same(b),
            (
                UserComponent::ErrorHandler { source: a, fallible_id: m },
                UserComponent::ErrorHandler { source: b, fallible_id: n },
            ) => a.same(b) && m.0 == n.0,
            _ => false,
        }
    }
}

/// The registered components, and what is known of each.
#[derive(Debug)]
pub struct AuxiliaryData {
    pub component_interner: Interner<UserComponent>,
    pub identifiers_interner: Interner<RawIdentifiers>,
    pub annotation_interner: AnnotationInterner,
    /// The scope of each import.
    pub imports: Vec<ScopeId>,
    pub id2scope_id: HashMap<usize, ScopeId>,
    pub id2lifecycle: HashMap<usize, Lifecycle>,
    pub id2registration: HashMap<usize, Registration>,
    pub id2cloning_strategy: HashMap<usize, CloningStrategy>,
}

/// The registered components, and what is known of each.
#[verifier::ext_equal]
pub ghost struct AuxiliaryDataView {
    pub components: Seq<UserComponentView>,
    pub identifiers: Seq<RawIdentifiersView>,
    pub annotations: Seq<(u32, Seq<char>)>,
    pub imports: Seq<ScopeId>,
    pub scopes: Map<usize, ScopeId>,
    pub lifecycles: Map<usize, Lifecycle>,
    pub registrations: Map<usize, Registration>,
    pub cloning_strategies: Map<usize, CloningStrategy>,
}

impl View for AuxiliaryData {
    type V = AuxiliaryDataView;

    open spec fn view(&self) -> AuxiliaryDataView {
        AuxiliaryDataView {
            components: self.component_interner@,
            identifiers: self.identifiers_interner@,
            annotations: self.annotation_interner@,
            imports: self.imports@,
            scopes: self.id2scope_id@,
            lifecycles: self.id2lifecycle@,
            registrations: self.id2registration@,
            cloning_strategies: self.id2cloning_strategy@,
        }
    }
}

impl AuxiliaryDataView {
    /// Whether what `source` refers to is there.
    pub open spec fn knows(self, source: ComponentSourceView) -> bool {
        match source {
            ComponentSourceView::Annotation(n) => 0 <= n < self.annotations.len(),
            ComponentSourceView::Identifiers(n) => 0 <= n < self.identifiers.len(),
        }
    }

    /// Whether all that the component with the identifier `id` refers to is there. An error
    /// handler refers to a constructor that was registered before it.
    pub open spec fn is_grounded(self, id: int) -> bool {
        match self.components[id] {
            UserComponentView::Constructor { source } => self.knows(source),
            UserComponentView::ErrorHandler { source, fallible_id } => {
                &&& self.knows(source)
                &&& 0 <= fallible_id < id
                &&& self.components[fallible_id] is Constructor
            },
        }
    }

    /// Whether `id` is the identifier of a component.
    pub open spec fn has_component(self, id: usize) -> bool {
        id < self.components.len()
    }

    /// Whether `id` is the identifier of a constructor.
    pub open spec fn has_constructor(self, id: usize) -> bool {
        self.has_component(id) && self.components[id as int] is Constructor
    }

    /// Whether the tables fit together: no value has two identifiers, all that a component refers
    /// to is there, and of the components, and of nothing else, the scope, the lifecycle and the
    /// place are known, and of the constructors how they are cloned.
    pub open spec fn is_consistent(self) -> bool {
        &&& self.components.no_duplicates()
        &&& self.identifiers.no_duplicates()
        &&& self.annotations.no_duplicates()
        &&& forall|i: int| 0 <= i < self.components.len() ==> #[trigger] self.is_grounded(i)
        &&& forall|id: usize| #[trigger]
            self.scopes.contains_key(id) <==> self.has_component(id)
        &&& forall|id: usize| #[trigger]
            self.lifecycles.contains_key(id) <==> self.has_component(id)
        &&& forall|id: usize| #[trigger]
            self.registrations.contains_key(id) <==> self.has_component(id)
        &&& forall|id: usize| #[trigger]
            self.cloning_strategies.contains_key(id) <==> self.has_constructor(id)
    }

    /// The identifier of `component`, or the one that it will get.
    pub open spec fn id_of(self, component: UserComponentView) -> usize {
        position(self.components, component) as usize
    }

    /// The components with `component` among them. What is known of it replaces what was known
    /// before.
    pub open spec fn with_component(
        self,
        component: UserComponentView,
        scope_id: ScopeId,
        lifecycle: Lifecycle,
        registration: Registration,
    ) -> AuxiliaryDataView {
        let id = self.id_of(component);
        AuxiliaryDataView {
            components: interned(self.components, component),
            scopes: self.scopes.insert(id, scope_id),
            lifecycles: self.lifecycles.insert(id, lifecycle),
            registrations: self.registrations.insert(id, registration),
            ..self
        }
    }

    /// The constructor that the annotated item `item` stands for.
    pub open spec fn constructor_of(self, item: (u32, Seq<char>)) -> UserComponentView {
        UserComponentView::Constructor {
            source: ComponentSourceView::Annotation(position(self.annotations, item)),
        }
    }

    /// The components with the constructor that the annotated item `item` stands for.
    pub open spec fn with_constructor(
        self,
        item: (u32, Seq<char>),
        scope_id: ScopeId,
        lifecycle: Lifecycle,
        cloning_strategy: Option<CloningStrategy>,
        registration: Registration,
    ) -> AuxiliaryDataView {
        let constructor = self.constructor_of(item);
        let strategy = match cloning_strategy {
            Some(strategy) => strategy,
            None => CloningStrategy::NeverClone,
        };
        let next = AuxiliaryDataView {
            annotations: interned(self.annotations, item),
            ..self
        }.with_component(constructor, scope_id, lifecycle, registration);
        AuxiliaryDataView {
            cloning_strategies: next.cloning_strategies.insert(self.id_of(constructor), strategy),
            ..next
        }
    }

    /// The error handler at the path `identifiers` for the component `fallible_id`.
    pub open spec fn error_handler_of(
        self,
        identifiers: RawIdentifiersView,
        fallible_id: usize,
    ) -> UserComponentView {
        UserComponentView::ErrorHandler {
            source: ComponentSourceView::Identifiers(position(self.identifiers, identifiers)),
            fallible_id: fallible_id as int,
        }
    }

    /// The components with the error handler at the path `identifiers` for the component
    /// `fallible_id`.
    pub open spec fn with_error_handler(
        self,
        identifiers: RawIdentifiersView,
        fallible_id: usize,
        scope_id: ScopeId,
        lifecycle: Lifecycle,
        registration: Registration,
    ) -> AuxiliaryDataView {
        let handler = self.error_handler_of(identifiers, fallible_id);
        AuxiliaryDataView {
            identifiers: interned(self.identifiers, identifiers),
            ..self
        }.with_component(handler, scope_id, lifecycle, registration)
    }

    /// The components with those that `annotation` on the item `item` declares: the constructor,
    /// and its error handler where there is one. The path of the error handler was written in
    /// the module `module_text` of the crate `crate_name`.
    pub open spec fn with_annotated(
        self,
        annotation: AnnotatedComponent,
        item: (u32, Seq<char>),
        span: Span,
        crate_name: Seq<char>,
        module_text: Seq<char>,
        scope_id: ScopeId,
    ) -> AuxiliaryDataView {
        let registration = Registration::Attribute(span);
        match annotation {
            AnnotatedComponent::Constructor { lifecycle, cloning_strategy, error_handler } => {
                let next = self.with_constructor(
                    item,
                    scope_id,
                    lifecycle,
                    cloning_strategy,
                    registration,
                );
                match error_handler {
                    Some(path) => next.with_error_handler(
                        RawIdentifiersView { crate_name, module_text, import_path: path@ },
                        self.id_of(self.constructor_of(item)),
                        scope_id,
                        lifecycle,
                        registration,
                    ),
                    None => next,
                }
            },
        }
    }
}

impl AuxiliaryData {
    /// No components.
    pub fn new(imports: Vec<ScopeId>) -> (res: Self)
        ensures
            res@ == (AuxiliaryDataView {
                components: seq![],
                identifiers: seq![],
                annotations: seq![],
                imports: imports@,
                scopes: Map::empty(),
                lifecycles: Map::empty(),
                registrations: Map::empty(),
                cloning_strategies: Map::empty(),
            }),
            res@.is_consistent(),
    {
        AuxiliaryData {
            component_interner: Interner::new(),
            identifiers_interner: Interner::new(),
            annotation_interner: AnnotationInterner::new(),
            imports,
            id2scope_id: HashMap::new(),
            id2lifecycle: HashMap::new(),
            id2registration: HashMap::new(),
            id2cloning_strategy: HashMap::new(),
        }
    }

    /// Interns `component` and records what is known of it.
    pub fn intern_component(
        &mut self,
        component: UserComponent,
        scope_id: ScopeId,
        lifecycle: Lifecycle,
        registration: Registration,
    ) -> (res: UserComponentId)
        ensures
            res.0 == position(old(self)@.components, component@),
            final(self)@ == old(self)@.with_component(
                component@,
                scope_id,
                lifecycle,
                registration,
            ),
    {
        broadcast use vstd::std_specs::hash::group_hash_axioms;

        let id: usize = self.component_interner.get_or_intern(component);
        self.id2scope_id.insert(id, scope_id);
        self.id2lifecycle.insert(id, lifecycle);
        self.id2registration.insert(id, registration);
        UserComponentId(id)
    }
}

/// Process the annotation and intern the associated component(s).
/// Returns the identifier of the newly interned component.
pub fn intern_annotated(
    annotation: AnnotatedComponent,
    item: &Item,
    krate: &Crate,
    created_at: &CreatedAt,
    scope_id: ScopeId,
    aux: &mut AuxiliaryData,
) -> (res: UserComponentId)
    requires
        item.span is Some,
        old(aux)@.annotations.contains((item.id.0, krate.package_id.0@))
            || old(aux)@.annotations.len() <= u32::MAX,
    ensures
        ({
            let item_id = (item.id.0, krate.package_id.0@);
            &&& res.0 == position(
                old(aux)@.components,
                old(aux)@.constructor_of(item_id),
            )
            &&& final(aux)@ == old(aux)@.with_annotated(
                annotation,
                item_id,
                item.span->0,
                created_at.crate_name@,
                created_at.module@,
                scope_id,
            )
        }),
        old(aux)@.is_consistent() ==> final(aux)@.is_consistent(),
{
    broadcast use vstd::std_specs::hash::group_hash_axioms;

    let ghost said = annotation;
    let id = match annotation {
        AnnotatedComponent::Constructor { lifecycle, cloning_strategy, error_handler } => {
            let constructor = UserComponent::Constructor {
                source: ComponentSource::Annotation(
                    aux.annotation_interner.get_or_intern(
                        GlobalItemId {
                            rustdoc_item_id: item.id,
                            package_id: krate.package_id.clone(),
                        },
                    ),
                ),
            };
            let registration = Registration::attribute(item.span.as_ref().unwrap());
            let constructor_id = aux.intern_component(
                constructor,
                scope_id,
                lifecycle,
                registration.clone(),
            );
            let strategy = match cloning_strategy {
                Some(strategy) => strategy,
                None => CloningStrategy::NeverClone,
            };
            aux.id2cloning_strategy.insert(constructor_id.0, strategy);
            if let Some(path) = error_handler {
                let identifiers = RawIdentifiers {
                    created_at: created_at.clone(),
                    import_path: path,
                };
                let identifiers_id: usize = aux.identifiers_interner.get_or_intern(identifiers);
                let handler = UserComponent::ErrorHandler {
                    source: ComponentSource::Identifiers(identifiers_id),
                    fallible_id: constructor_id,
                };
                aux.intern_component(handler, scope_id, lifecycle, registration);
            }
            constructor_id
        },
    };
    proof {
        aux.component_interner.lemma_len();
        if old(aux)@.is_consistent() {
            law_tables_stay_consistent(
                old(aux)@,
                said,
                (item.id.0, krate.package_id.0@),
                item.span->0,
                created_at.crate_name@,
                created_at.module@,
                scope_id,
            );
        }
    }
    id
}

/// What an annotation declares is registered: the constructor under the identifier that
/// `intern_annotated` returns, in the scope, with the lifecycle and at the place that go with the
/// annotation, and not to be cloned unless the annotation says so.
pub proof fn law_constructor_is_registered(
    aux: AuxiliaryDataView,
    annotation: AnnotatedComponent,
    item: (u32, Seq<char>),
    span: Span,
    crate_name: Seq<char>,
    module_text: Seq<char>,
    scope_id: ScopeId,
)
    requires
        aux.components.len() < usize::MAX,
    ensures
        ({
            let AnnotatedComponent::Constructor { lifecycle, cloning_strategy, .. } = annotation;
            let constructor = aux.constructor_of(item);
            let id = aux.id_of(constructor);
            let next = aux.with_annotated(
                annotation,
                item,
                span,
                crate_name,
                module_text,
                scope_id,
            );
            &&& id < next.components.len()
            &&& next.components[id as int] == constructor
            &&& next.annotations[position(aux.annotations, item)] == item
            &&& next.scopes[id] == scope_id
            &&& next.lifecycles[id] == lifecycle
            &&& next.registrations[id] == Registration::Attribute(span)
            &&& next.cloning_strategies[id] == match cloning_strategy {
                Some(strategy) => strategy,
                None => CloningStrategy::NeverClone,
            }
        }),
{
    let constructor = aux.constructor_of(item);
    law_interning(aux.annotations, item, item);
    law_interning(aux.components, constructor, constructor);
    lemma_position(aux.components, constructor);
    let AnnotatedComponent::Constructor { lifecycle, cloning_strategy, error_handler } = annotation;
    if let Some(path) = error_handler {
        let registration = Registration::Attribute(span);
        let first = aux.with_constructor(
            item,
            scope_id,
            lifecycle,
            cloning_strategy,
            registration,
        );
        let identifiers = RawIdentifiersView { crate_name, module_text, import_path: path@ };
        let handler = first.error_handler_of(identifiers, aux.id_of(constructor));
        lemma_position(first.components, handler);
        law_interning(first.components, handler, constructor);
        law_identifiers_are_unique(interned(first.components, handler), handler, constructor);
    }
}

/// An error handler that an annotation declares is registered for the constructor of the same
/// annotation, at the path that the annotation gives, and shares the scope, the lifecycle and the
/// place of the constructor.
pub proof fn law_error_handler_is_registered(
    aux: AuxiliaryDataView,
    annotation: AnnotatedComponent,
    item: (u32, Seq<char>),
    span: Span,
    crate_name: Seq<char>,
    module_text: Seq<char>,
    scope_id: ScopeId,
)
    requires
        annotation->error_handler is Some,
        aux.components.len() + 1 < usize::MAX,
    ensures
        ({
            let constructor_id = aux.id_of(aux.constructor_of(item));
            let identifiers = RawIdentifiersView {
                crate_name,
                module_text,
                import_path: (annotation->error_handler->0)@,
            };
            let path_id = position(aux.identifiers, identifiers);
            let handler = UserComponentView::ErrorHandler {
                source: ComponentSourceView::Identifiers(path_id),
                fallible_id: constructor_id as int,
            };
            let next = aux.with_annotated(
                annotation,
                item,
                span,
                crate_name,
                module_text,
                scope_id,
            );
            let id = next.id_of(handler);
            &&& next.components.contains(handler)
            &&& next.components[id as int] == handler
            &&& next.identifiers[path_id] == identifiers
            &&& id != constructor_id
            &&& next.scopes[id] == scope_id
            &&& next.scopes[constructor_id] == scope_id
            &&& next.lifecycles[id] == next.lifecycles[constructor_id]
            &&& next.registrations[id] == next.registrations[constructor_id]
        }),
{
    law_constructor_is_registered(
        aux,
        annotation,
        item,
        span,
        crate_name,
        module_text,
        scope_id,
    );
    let constructor = aux.constructor_of(item);
    law_interning(aux.components, constructor, constructor);
    lemma_position(aux.components, constructor);
    let AnnotatedComponent::Constructor { lifecycle, cloning_strategy, error_handler } = annotation;
    if let Some(path) = error_handler {
        let registration = Registration::Attribute(span);
        let first = aux.with_constructor(
            item,
            scope_id,
            lifecycle,
            cloning_strategy,
            registration,
        );
        let identifiers = RawIdentifiersView { crate_name, module_text, import_path: path@ };
        let handler = first.error_handler_of(identifiers, aux.id_of(constructor));
        law_interning(aux.identifiers, identifiers, identifiers);
        lemma_position(first.components, handler);
        law_interning(first.components, handler, constructor);
        law_identifiers_are_unique(interned(first.components, handler), handler, constructor);
    }
}

/// Whether the tables hold what `annotation` on the item `item` declares.
pub open spec fn is_registered(
    aux: AuxiliaryDataView,
    annotation: AnnotatedComponent,
    item: (u32, Seq<char>),
    crate_name: Seq<char>,
    module_text: Seq<char>,
) -> bool {
    let constructor = aux.constructor_of(item);
    &&& aux.annotations.contains(item)
    &&& aux.components.contains(constructor)
    &&& match annotation->error_handler {
        Some(path) => {
            let identifiers = RawIdentifiersView { crate_name, module_text, import_path: path@ };
            &&& aux.identifiers.contains(identifiers)
            &&& aux.components.contains(
                aux.error_handler_of(identifiers, aux.id_of(constructor)),
            )
        },
        None => true,
    }
}

/// Whether the tables of `after` hold those of `before`, with more values behind them or not.
pub open spec fn tables_extend(before: AuxiliaryDataView, after: AuxiliaryDataView) -> bool {
    &&& before.components.is_prefix_of(after.components)
    &&& before.identifiers.is_prefix_of(after.identifiers)
    &&& before.annotations.is_prefix_of(after.annotations)
}

/// Whether `a` and `b` hold the same values under the same identifiers.
pub open spec fn same_tables(a: AuxiliaryDataView, b: AuxiliaryDataView) -> bool {
    &&& a.components == b.components
    &&& a.identifiers == b.identifiers
    &&& a.annotations == b.annotations
}

/// What is registered stays registered when the tables grow.
pub proof fn law_registered_components_stay(
    before: AuxiliaryDataView,
    after: AuxiliaryDataView,
    annotation: AnnotatedComponent,
    item: (u32, Seq<char>),
    crate_name: Seq<char>,
    module_text: Seq<char>,
)
    requires
        is_registered(before, annotation, item, crate_name, module_text),
        tables_extend(before, after),
    ensures
        is_registered(after, annotation, item, crate_name, module_text),
        after.id_of(after.constructor_of(item)) == before.id_of(before.constructor_of(item)),
{
    let constructor = before.constructor_of(item);
    law_identifiers_are_stable(before.annotations, after.annotations, item);
    law_identifiers_are_stable(before.components, after.components, constructor);
    if let Some(path) = annotation->error_handler {
        let identifiers = RawIdentifiersView { crate_name, module_text, import_path: path@ };
        law_identifiers_are_stable(before.identifiers, after.identifiers, identifiers);
        law_identifiers_are_stable(
            before.components,
            after.components,
            before.error_handler_of(identifiers, before.id_of(constructor)),
        );
    }
}

/// Processing an annotation registers what it declares, and only adds to the tables; where it is
/// registered already, nothing is added.
pub proof fn law_annotations_are_registered(
    aux: AuxiliaryDataView,
    annotation: AnnotatedComponent,
    item: (u32, Seq<char>),
    span: Span,
    crate_name: Seq<char>,
    module_text: Seq<char>,
    scope_id: ScopeId,
)
    ensures
        ({
            let next = aux.with_annotated(
                annotation,
                item,
                span,
                crate_name,
                module_text,
                scope_id,
            );
            &&& is_registered(next, annotation, item, crate_name, module_text)
            &&& tables_extend(aux, next)
            &&& is_registered(aux, annotation, item, crate_name, module_text) ==> same_tables(
                aux,
                next,
            )
        }),
{
    let constructor = aux.constructor_of(item);
    law_interning(aux.annotations, item, item);
    law_interning(aux.components, constructor, constructor);
    let AnnotatedComponent::Constructor { lifecycle, cloning_strategy, error_handler } = annotation;
    if let Some(path) = error_handler {
        let first = aux.with_constructor(
            item,
            scope_id,
            lifecycle,
            cloning_strategy,
            Registration::Attribute(span),
        );
        let identifiers = RawIdentifiersView { crate_name, module_text, import_path: path@ };
        let handler = first.error_handler_of(identifiers, aux.id_of(constructor));
        law_interning(aux.identifiers, identifiers, identifiers);
        law_interning(first.components, handler, constructor);
    }
}

/// An annotation can be processed any number of times: to process it again in the same scope
/// changes nothing.
pub proof fn law_processing_an_annotation_is_idempotent(
    aux: AuxiliaryDataView,
    annotation: AnnotatedComponent,
    item: (u32, Seq<char>),
    span: Span,
    crate_name: Seq<char>,
    module_text: Seq<char>,
    scope_id: ScopeId,
)
    requires
        aux.components.len() + 1 < usize::MAX,
    ensures
        ({
            let once = aux.with_annotated(
                annotation,
                item,
                span,
                crate_name,
                module_text,
                scope_id,
            );
            once.with_annotated(annotation, item, span, crate_name, module_text, scope_id) == once
        }),
{
    let once = aux.with_annotated(annotation, item, span, crate_name, module_text, scope_id);
    let twice = once.with_annotated(annotation, item, span, crate_name, module_text, scope_id);
    law_annotations_are_registered(
        aux,
        annotation,
        item,
        span,
        crate_name,
        module_text,
        scope_id,
    );
    law_annotations_are_registered(
        once,
        annotation,
        item,
        span,
        crate_name,
        module_text,
        scope_id,
    );
    law_constructor_is_registered(
        aux,
        annotation,
        item,
        span,
        crate_name,
        module_text,
        scope_id,
    );
    let constructor = aux.constructor_of(item);
    law_interning(aux.annotations, item, item);
    law_interning(aux.components, constructor, constructor);
    lemma_position(aux.components, constructor);
    let AnnotatedComponent::Constructor { lifecycle, cloning_strategy, error_handler } = annotation;
    if let Some(path) = error_handler {
        let first = aux.with_constructor(
            item,
            scope_id,
            lifecycle,
            cloning_strategy,
            Registration::Attribute(span),
        );
        let identifiers = RawIdentifiersView { crate_name, module_text, import_path: path@ };
        let handler = first.error_handler_of(identifiers, aux.id_of(constructor));
        law_interning(aux.identifiers, identifiers, identifiers);
        law_interning(first.components, handler, constructor);
        law_interning(first.components, handler, handler);
    }
    assert(twice.scopes =~= once.scopes);
    assert(twice.lifecycles =~= once.lifecycles);
    assert(twice.registrations =~= once.registrations);
    assert(twice.cloning_strategies =~= once.cloning_strategies);
}

/// Tables that fit together still do when an annotation has been processed.
pub proof fn law_tables_stay_consistent(
    aux: AuxiliaryDataView,
    annotation: AnnotatedComponent,
    item: (u32, Seq<char>),
    span: Span,
    crate_name: Seq<char>,
    module_text: Seq<char>,
    scope_id: ScopeId,
)
    requires
        aux.is_consistent(),
        aux.with_annotated(
            annotation,
            item,
            span,
            crate_name,
            module_text,
            scope_id,
        ).components.len() <= usize::MAX,
    ensures
        aux.with_annotated(
            annotation,
            item,
            span,
            crate_name,
            module_text,
            scope_id,
        ).is_consistent(),
{
    let AnnotatedComponent::Constructor { lifecycle, cloning_strategy, error_handler } = annotation;
    let registration = Registration::Attribute(span);
    let first = aux.with_constructor(item, scope_id, lifecycle, cloning_strategy, registration);
    lemma_constructor_is_consistent(
        aux,
        item,
        scope_id,
        lifecycle,
        cloning_strategy,
        registration,
    );
    if let Some(path) = error_handler {
        let constructor = aux.constructor_of(item);
        let identifiers = RawIdentifiersView { crate_name, module_text, import_path: path@ };
        lemma_position(aux.components, constructor);
        law_interning(aux.components, constructor, constructor);
        lemma_error_handler_is_consistent(
            first,
            identifiers,
            aux.id_of(constructor),
            scope_id,
            lifecycle,
            registration,
        );
    }
}

proof fn lemma_constructor_is_consistent(
    aux: AuxiliaryDataView,
    item: (u32, Seq<char>),
    scope_id: ScopeId,
    lifecycle: Lifecycle,
    cloning_strategy: Option<CloningStrategy>,
    registration: Registration,
)
    requires
        aux.is_consistent(),
        aux.with_constructor(
            item,
            scope_id,
            lifecycle,
            cloning_strategy,
            registration,
        ).components.len() <= usize::MAX,
    ensures
        aux.with_constructor(
            item,
            scope_id,
            lifecycle,
            cloning_strategy,
            registration,
        ).is_consistent(),
{
    let next = aux.with_constructor(item, scope_id, lifecycle, cloning_strategy, registration);
    let constructor = aux.constructor_of(item);
    law_interning(aux.annotations, item, item);
    law_interning(aux.components, constructor, constructor);
    lemma_position(aux.annotations, item);
    lemma_position(aux.components, constructor);
    assert forall|i: int| 0 <= i < next.components.len() implies #[trigger] next.is_grounded(i) by {
        if i < aux.components.len() {
            assert(aux.is_grounded(i));
        }
    }
}

proof fn lemma_error_handler_is_consistent(
    aux: AuxiliaryDataView,
    identifiers: RawIdentifiersView,
    fallible_id: usize,
    scope_id: ScopeId,
    lifecycle: Lifecycle,
    registration: Registration,
)
    requires
        aux.is_consistent(),
        aux.has_constructor(fallible_id),
        aux.with_error_handler(
            identifiers,
            fallible_id,
            scope_id,
            lifecycle,
            registration,
        ).components.len() <= usize::MAX,
    ensures
        aux.with_error_handler(
            identifiers,
            fallible_id,
            scope_id,
            lifecycle,
            registration,
        ).is_consistent(),
{
    let next = aux.with_error_handler(identifiers, fallible_id, scope_id, lifecycle, registration);
    let handler = aux.error_handler_of(identifiers, fallible_id);
    law_interning(aux.identifiers, identifiers, identifiers);
    law_interning(aux.components, handler, handler);
    lemma_position(aux.identifiers, identifiers);
    lemma_position(aux.components, handler);
    assert forall|i: int| 0 <= i < next.components.len() implies #[trigger] next.is_grounded(i) by {
        if i < aux.components.len() {
            assert(aux.is_grounded(i));
        }
    }
}

} // verus!
