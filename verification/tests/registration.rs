use pavex_reflection::annotations::{
    register_imported_components, ComputationDb, ResolvedImport, ResolvedPaths,
};
use pavex_reflection::auxiliary::{
    intern_annotated, AnnotatedComponent, AuxiliaryData, CloningStrategy, ComponentSource,
    Lifecycle, Registration, ScopeId, UserComponent, UserComponentId,
};
use pavex_reflection::callable::{
    Callable, CallableResolutionError, GenericBindings, InvocationStyle, ResolvedPath,
    ResolvedPathSegment,
};
use pavex_reflection::diagnostic::{
    invalid_diagnostic_attribute, AnnotatedSource, CompilerDiagnostic, ComponentKind, Diagnostic,
    DiagnosticSink,
};
use pavex_reflection::rustdoc::{
    Crate, CrateCollection, Function, FunctionSignature, GlobalItemId, Id, Impl, ImportIndexEntry,
    Item, ItemEnum, PackageId, Span, Type,
};
use pavex_reflection::CreatedAt;
use std::collections::HashMap;

fn strings(segments: &[&str]) -> Vec<String> {
    segments.iter().map(|s| s.to_string()).collect()
}

fn span(line: usize) -> Span {
    Span {
        filename: "src/lib.rs".to_string(),
        begin: (line, 1),
        end: (line, 9),
    }
}

fn function(id: u32, attr: &str, input: Option<usize>) -> Item {
    Item {
        id: Id(id),
        name: Some(format!("f{id}")),
        span: Some(span(id as usize)),
        attrs: strings(&[attr]),
        inner: ItemEnum::Function(Function {
            sig: FunctionSignature {
                inputs: input
                    .into_iter()
                    .map(|n| ("p".to_string(), Type::Other(n)))
                    .collect(),
                output: Some(Type::Generic("Self".to_string())),
            },
            is_async: false,
        }),
    }
}

fn other(id: u32, inner: ItemEnum) -> Item {
    Item {
        id: Id(id),
        name: None,
        span: None,
        attrs: strings(&["constructor"]),
        inner,
    }
}

fn entry(path: &[&str]) -> ImportIndexEntry {
    ImportIndexEntry {
        is_public: true,
        paths: vec![strings(path)],
        defined_at: Some(strings(path)),
        canonical_path: strings(path),
    }
}

/// A crate with the functions 1 (a constructor with an error handler), 2 (malformed), 3 (not
/// annotated), 5 (a constructor with a type that cannot be resolved) and a struct, 4, with a
/// method, 41, that is a constructor.
fn collection() -> CrateCollection {
    let items = vec![
        function(1, "fallible", Some(1)),
        function(2, "malformed", None),
        function(3, "", None),
        other(
            4,
            ItemEnum::Struct {
                impls: vec![Id(40)],
            },
        ),
        other(
            40,
            ItemEnum::Impl(Impl {
                for_: Type::Other(7),
                items: vec![Id(41), Id(42)],
            }),
        ),
        function(41, "constructor", None),
        other(42, ItemEnum::Other),
        function(5, "constructor", Some(100)),
        other(6, ItemEnum::Trait),
    ];
    let entries = vec![
        (1, entry(&["app", "m", "f1"])),
        (2, entry(&["app", "m", "f2"])),
        (3, entry(&["app", "m", "f3"])),
        (4, entry(&["app", "m", "n", "S"])),
        (5, entry(&["app", "k", "f5"])),
        (6, entry(&["app", "m", "T"])),
    ];
    CrateCollection {
        crates: vec![Crate {
            crate_name: "my-app".to_string(),
            package_id: PackageId("app".to_string()),
            items: items.into_iter().map(|i| (i.id.0, i)).collect(),
            import_index: entries.into_iter().collect::<HashMap<_, _>>(),
        }],
    }
}

fn parse(attrs: &Vec<String>) -> Result<Option<AnnotatedComponent>, String> {
    match attrs[0].as_str() {
        "constructor" => Ok(Some(AnnotatedComponent::Constructor {
            lifecycle: Lifecycle::Singleton,
            cloning_strategy: Some(CloningStrategy::CloneIfNecessary),
            error_handler: None,
        })),
        "fallible" => Ok(Some(AnnotatedComponent::Constructor {
            lifecycle: Lifecycle::RequestScoped,
            cloning_strategy: None,
            error_handler: Some("self::handle".to_string()),
        })),
        "malformed" => Err("unknown field `x`".to_string()),
        _ => Ok(None),
    }
}

/// Shows the source code of all components but those in the first line.
fn annotate(
    registration: &Registration,
    kind: ComponentKind,
    label: &str,
) -> Option<AnnotatedSource> {
    let Registration::Attribute(span) = registration;
    assert_eq!(kind, ComponentKind::Constructor);
    if span.begin.0 == 1 {
        return None;
    }
    Some(AnnotatedSource {
        filename: span.filename.clone(),
        code: format!("line {}", span.begin.0),
        span: (span.begin.1, span.end.1),
        label: label.to_string(),
    })
}

fn resolve(
    ty: &Type,
    _package_id: &PackageId,
    bindings: &GenericBindings<String>,
) -> Result<String, usize> {
    match ty {
        Type::Generic(_) => Ok(bindings.self_.clone().unwrap_or("Self".to_string())),
        Type::Other(n) if *n >= 100 => Err(*n),
        Type::Other(n) => Ok(format!("t{n}")),
        Type::BorrowedRef { .. } => Ok("&".to_string()),
    }
}

fn import(path: &[&str], import_id: usize) -> (ResolvedImport, usize) {
    (
        ResolvedImport {
            path: strings(path),
            package_id: PackageId("app".to_string()),
        },
        import_id,
    )
}

struct World<'a> {
    aux: AuxiliaryData,
    resolved_paths: ResolvedPaths,
    computation_db: ComputationDb<String>,
    diagnostics: DiagnosticSink<'a, usize>,
}

impl<'a> World<'a> {
    fn new() -> Self {
        World {
            aux: AuxiliaryData::new(vec![ScopeId(10), ScopeId(11)]),
            resolved_paths: ResolvedPaths { pending: vec![] },
            computation_db: ComputationDb::new(),
            diagnostics: DiagnosticSink::new(),
        }
    }

    fn register(&mut self, collection: &'a CrateCollection, imports: Vec<(ResolvedImport, usize)>) {
        register_imported_components(
            &imports,
            &mut self.aux,
            &mut self.resolved_paths,
            &mut self.computation_db,
            collection,
            &mut self.diagnostics,
            &parse,
            &annotate,
            &resolve,
        );
    }

    fn annotated(&self, id: usize) -> u32 {
        match self.aux.component_interner.get(id) {
            UserComponent::Constructor {
                source: ComponentSource::Annotation(id),
            } => self.aux.annotation_interner.get(*id).rustdoc_item_id.0,
            other => panic!("{other:?}"),
        }
    }
}

#[test]
fn annotated_items_of_a_module_are_registered() {
    let collection = collection();
    let mut world = World::new();
    world.register(&collection, vec![import(&["app", "m"], 1)]);

    // The method is processed first: its type has the greatest identifier.
    assert_eq!(world.aux.component_interner.len(), 3);
    assert_eq!(world.annotated(0), 41);
    assert_eq!(world.annotated(1), 1);
    assert_eq!(
        world.aux.component_interner.get(2),
        &UserComponent::ErrorHandler {
            source: ComponentSource::Identifiers(0),
            fallible_id: UserComponentId(1),
        }
    );
    for id in 0..3 {
        assert_eq!(world.aux.id2scope_id[&id], ScopeId(11));
    }
    assert_eq!(world.aux.id2lifecycle[&0], Lifecycle::Singleton);
    assert_eq!(world.aux.id2lifecycle[&1], Lifecycle::RequestScoped);
    assert_eq!(world.aux.id2lifecycle[&2], Lifecycle::RequestScoped);
    assert_eq!(
        world.aux.id2registration[&2],
        Registration::Attribute(span(1))
    );
    assert_eq!(
        world.aux.id2cloning_strategy[&0],
        CloningStrategy::CloneIfNecessary
    );
    assert_eq!(
        world.aux.id2cloning_strategy[&1],
        CloningStrategy::NeverClone
    );
    assert!(!world.aux.id2cloning_strategy.contains_key(&2));

    // The path of the error handler is relative to the module of the constructor.
    let handler = world.aux.identifiers_interner.get(0);
    assert_eq!(handler.created_at.crate_name, "my-app");
    assert_eq!(handler.created_at.module, "app::m");
    assert_eq!(handler.fully_qualified_path(), vec!["app", "m", "handle"]);

    // Both callables are there, and the malformed annotation is reported.
    let callables: Vec<(usize, Vec<String>, Option<String>)> = world
        .computation_db
        .callables
        .iter()
        .map(|(id, c)| {
            let path = c.path.segments.iter().map(|s| s.ident.clone()).collect();
            (id.0, path, c.output.clone())
        })
        .collect();
    assert_eq!(
        callables,
        vec![
            (0, strings(&["app", "m", "n", "S", "f41"]), Some("t7".to_string())),
            (1, strings(&["app", "m", "f1"]), Some("Self".to_string())),
        ]
    );
    assert_eq!(world.diagnostics.diagnostics.len(), 1);
    assert!(matches!(
        &world.diagnostics.diagnostics[0],
        Diagnostic::MalformedAnnotation(d) if d.error == "unknown field `x`"
            && d.source.as_ref().map(|s| s.code.as_str()) == Some("line 2")
    ));
    assert_eq!(
        world.resolved_paths.pending,
        vec![UserComponentId(0), UserComponentId(1), UserComponentId(2)]
    );
}

#[test]
fn callable_that_cannot_be_made_is_reported() {
    let collection = collection();
    let mut world = World::new();
    world.register(&collection, vec![import(&["app", "k"], 0)]);
    // The component is registered all the same.
    assert_eq!(world.aux.component_interner.len(), 1);
    assert_eq!(world.aux.id2scope_id[&0], ScopeId(10));
    assert!(world.computation_db.callables.is_empty());
    assert_eq!(world.diagnostics.diagnostics.len(), 1);
    match &world.diagnostics.diagnostics[0] {
        Diagnostic::CannotResolveCallable {
            error:
                CallableResolutionError::InputParameterResolutionError {
                    callable_item,
                    parameter_index,
                    source,
                    ..
                },
            component_id,
        } => {
            assert_eq!(callable_item.id, Id(5));
            assert_eq!((*parameter_index, *source), (0, 100));
            assert_eq!(*component_id, UserComponentId(0));
        }
        other => panic!("{other:?}"),
    }
}

#[test]
fn each_import_is_registered_in_its_own_scope() {
    let collection = collection();
    let mut world = World::new();
    world.register(
        &collection,
        vec![import(&["app", "k"], 1), import(&["app", "m", "n"], 0)],
    );
    assert_eq!(world.annotated(0), 5);
    assert_eq!(world.annotated(1), 41);
    assert_eq!(world.aux.id2scope_id[&0], ScopeId(11));
    assert_eq!(world.aux.id2scope_id[&1], ScopeId(10));
}

#[test]
fn component_is_registered_once_however_often_it_is_imported() {
    let collection = collection();
    let mut world = World::new();
    world.register(
        &collection,
        vec![import(&["app", "m"], 0), import(&["app", "m"], 1)],
    );
    assert_eq!(world.aux.component_interner.len(), 3);
    assert_eq!(world.aux.annotation_interner.len(), 2);
    assert_eq!(world.aux.identifiers_interner.len(), 1);
    // What is known of a component is what the last import said.
    assert_eq!(world.aux.id2scope_id[&0], ScopeId(11));
    // So is its callable. The diagnostics come once for each import.
    assert_eq!(world.computation_db.callables.len(), 2);
    assert_eq!(world.diagnostics.diagnostics.len(), 2);
    assert_eq!(world.resolved_paths.pending.len(), 3);
}

#[test]
fn only_new_components_are_pending() {
    let collection = collection();
    let mut world = World::new();
    world.register(&collection, vec![import(&["app", "k"], 0)]);
    world.resolved_paths.pending.clear();
    world.register(
        &collection,
        vec![import(&["app", "k"], 0), import(&["app", "m", "n"], 0)],
    );
    assert_eq!(world.resolved_paths.pending, vec![UserComponentId(1)]);
}

#[test]
fn nothing_is_registered_without_imports() {
    let collection = collection();
    let mut world = World::new();
    world.register(&collection, vec![]);
    world.register(&collection, vec![import(&["elsewhere"], 0)]);
    assert_eq!(world.aux.component_interner.len(), 0);
    assert!(world.computation_db.callables.is_empty());
    assert!(world.diagnostics.diagnostics.is_empty());
    assert!(world.resolved_paths.pending.is_empty());
}

#[test]
fn annotation_can_be_interned_again() {
    let collection = collection();
    let krate = &collection.crates[0];
    let created_at = CreatedAt {
        crate_name: "my-app".to_string(),
        module: "app::m".to_string(),
    };
    let mut aux = AuxiliaryData::new(vec![]);
    for _ in 0..2 {
        let annotation = parse(&strings(&["fallible"])).unwrap().unwrap();
        let id = intern_annotated(
            annotation,
            &function(1, "", None),
            krate,
            &created_at,
            ScopeId(3),
            &mut aux,
        );
        assert_eq!(id, UserComponentId(0));
        assert_eq!(aux.component_interner.len(), 2);
        assert_eq!(aux.identifiers_interner.len(), 1);
        assert_eq!(aux.annotation_interner.len(), 1);
        assert_eq!(aux.id2scope_id.len(), 2);
        assert_eq!(aux.id2cloning_strategy.len(), 1);
    }
    let UserComponent::Constructor {
        source: ComponentSource::Annotation(id),
    } = aux.component_interner.get(0)
    else {
        panic!("not an annotated constructor")
    };
    assert_eq!(
        aux.annotation_interner.get(*id),
        &GlobalItemId {
            rustdoc_item_id: Id(1),
            package_id: PackageId("app".to_string()),
        }
    );
}

const HELP: &str = "Have you manually added the `diagnostic::pavex::*` attribute on the item? \
            The syntax for `diagnostic::pavex::*` attributes is an implementation detail of Pavex's own macros,
            which are guaranteed to output well-formed annotations.";

#[test]
fn malformed_annotation_is_reported_with_its_place() {
    let mut diagnostics: DiagnosticSink<usize> = DiagnosticSink::new();
    invalid_diagnostic_attribute(
        "why".to_string(),
        &function(9, "", None),
        &mut diagnostics,
        &annotate,
    );
    assert_eq!(
        diagnostics.diagnostics,
        vec![Diagnostic::MalformedAnnotation(CompilerDiagnostic {
            error: "why".to_string(),
            context: "`f9` is annotated with a malformed `diagnostic::pavex::*` attribute."
                .to_string(),
            source: Some(AnnotatedSource {
                filename: "src/lib.rs".to_string(),
                code: "line 9".to_string(),
                span: (1, 9),
                label: "The annotated item".to_string(),
            }),
            help: HELP.to_string(),
        })]
    );
}

#[test]
fn malformed_annotation_is_reported_without_source_code_where_none_is_found() {
    let mut diagnostics: DiagnosticSink<usize> = DiagnosticSink::new();
    let item = function(1, "", None);
    invalid_diagnostic_attribute("why".to_string(), &item, &mut diagnostics, &annotate);
    match &diagnostics.diagnostics[..] {
        [Diagnostic::MalformedAnnotation(d)] => {
            assert_eq!(d.source, None);
            assert_eq!(
                d.context,
                "`f1` is annotated with a malformed `diagnostic::pavex::*` attribute."
            );
        }
        other => panic!("{other:?}"),
    }
}

#[test]
fn malformed_annotation_is_reported_without_a_name_and_a_place() {
    let mut diagnostics: DiagnosticSink<usize> = DiagnosticSink::new();
    let item = other(9, ItemEnum::Other);
    invalid_diagnostic_attribute("why".to_string(), &item, &mut diagnostics, &annotate);
    assert_eq!(
        diagnostics.diagnostics,
        vec![Diagnostic::MalformedAnnotation(CompilerDiagnostic {
            error: "why".to_string(),
            context:
                "One of your items is annotated with a malformed `diagnostic::pavex::*` attribute."
                    .to_string(),
            source: None,
            help: HELP.to_string(),
        })]
    );
}

#[test]
fn item_at_the_root_has_an_empty_module() {
    let item = function(1, "fallible", None);
    let collection = CrateCollection {
        crates: vec![Crate {
            crate_name: "app".to_string(),
            package_id: PackageId("app".to_string()),
            items: HashMap::from([(1, item)]),
            import_index: HashMap::from([(1, entry(&["f1"]))]),
        }],
    };
    let mut world = World::new();
    world.register(&collection, vec![import(&[], 0)]);
    assert_eq!(world.aux.identifiers_interner.get(0).created_at.module, "");
}

#[test]
fn tables_fit_together() {
    let collection = collection();
    let mut world = World::new();
    world.register(
        &collection,
        vec![import(&["app", "m"], 0), import(&["app"], 1)],
    );
    let n = world.aux.component_interner.len();
    assert_eq!(n, 4);
    let mut n_constructors = 0;
    for id in 0..n {
        assert!(world.aux.id2scope_id.contains_key(&id));
        assert!(world.aux.id2lifecycle.contains_key(&id));
        assert!(world.aux.id2registration.contains_key(&id));
        match world.aux.component_interner.get(id) {
            UserComponent::Constructor {
                source: ComponentSource::Annotation(source),
            } => {
                let raw = source.into_raw().into_u32() as usize;
                assert!(raw < world.aux.annotation_interner.len());
                assert!(world.aux.id2cloning_strategy.contains_key(&id));
                n_constructors += 1;
            }
            UserComponent::ErrorHandler {
                source: ComponentSource::Identifiers(source),
                fallible_id,
            } => {
                assert!(*source < world.aux.identifiers_interner.len());
                assert!(fallible_id.0 < id);
                assert!(matches!(
                    world.aux.component_interner.get(fallible_id.0),
                    UserComponent::Constructor { .. }
                ));
            }
            other => panic!("{other:?}"),
        }
    }
    assert_eq!(world.aux.id2scope_id.len(), n);
    assert_eq!(world.aux.id2lifecycle.len(), n);
    assert_eq!(world.aux.id2registration.len(), n);
    assert_eq!(world.aux.id2cloning_strategy.len(), n_constructors);
    for (id, _) in &world.computation_db.callables {
        assert!(world.aux.id2cloning_strategy.contains_key(&id.0));
    }
}

#[test]
fn registration_is_deterministic() {
    let (first, second) = (collection(), collection());
    let imports = || vec![import(&["app", "k"], 0), import(&["app"], 1)];
    let (mut a, mut b) = (World::new(), World::new());
    a.register(&first, imports());
    b.register(&second, imports());
    assert_eq!(a.aux.component_interner.len(), b.aux.component_interner.len());
    for id in 0..a.aux.component_interner.len() {
        assert_eq!(
            a.aux.component_interner.get(id),
            b.aux.component_interner.get(id)
        );
    }
    assert_eq!(a.aux.id2scope_id, b.aux.id2scope_id);
    assert_eq!(a.computation_db, b.computation_db);
    assert_eq!(a.diagnostics, b.diagnostics);
    assert_eq!(a.resolved_paths, b.resolved_paths);
}

#[test]
fn each_annotated_item_gives_a_callable_or_a_diagnostic() {
    let collection = collection();
    let mut world = World::new();
    world.register(&collection, vec![import(&["app"], 0)]);
    // Of the five functions, one is not annotated.
    assert_eq!(world.computation_db.callables.len(), 2);
    assert_eq!(world.diagnostics.diagnostics.len(), 2);
}

#[test]
fn new_constructors_get_ascending_identifiers_in_descending_order() {
    let collection = collection();
    let mut world = World::new();
    world.register(&collection, vec![import(&["app", "k"], 0)]);
    assert_eq!(world.annotated(0), 5);
    // The constructor that is known keeps its identifier. Of the new ones, that of the method
    // comes first: its type has the greater identifier.
    world.register(&collection, vec![import(&["app"], 1)]);
    let constructors: Vec<u32> = (0..world.aux.component_interner.len())
        .filter(|id| world.aux.id2cloning_strategy.contains_key(id))
        .map(|id| world.annotated(id))
        .collect();
    assert_eq!(constructors, vec![5, 41, 1]);
}

#[test]
fn other_components_are_left_alone() {
    let collection = collection();
    let mut world = World::new();
    world.register(&collection, vec![import(&["app", "k"], 0)]);
    world.register(&collection, vec![import(&["app", "m"], 1)]);
    assert_eq!(world.annotated(0), 5);
    assert_eq!(world.aux.id2scope_id[&0], ScopeId(10));
    assert_eq!(world.aux.id2lifecycle[&0], Lifecycle::Singleton);
    assert_eq!(
        world.aux.id2registration[&0],
        Registration::Attribute(span(5))
    );
    assert_eq!(world.aux.id2scope_id[&1], ScopeId(11));
}

#[test]
fn callable_is_known_once_for_each_component() {
    let build = |name: &str, output: &str| Callable {
        is_async: false,
        takes_self_as_ref: false,
        output: Some(output.to_string()),
        path: ResolvedPath {
            segments: vec![ResolvedPathSegment::new(name.to_string())],
            qualified_self: Some(Type::BorrowedRef {
                lifetime: Some("a".to_string()),
                is_mutable: false,
                type_: Box::new(Type::Generic(name.to_string())),
            }),
            package_id: PackageId("app".to_string()),
        },
        inputs: strings(&["t1", "t2"]),
        invocation_style: InvocationStyle::FunctionCall,
        source_coordinates: None,
    };
    let mut db = ComputationDb::new();
    db.get_or_intern_with_id(build("f", "t"), UserComponentId(0));
    db.get_or_intern_with_id(build("f", "t"), UserComponentId(0));
    assert_eq!(db.callables, vec![(UserComponentId(0), build("f", "t"))]);
    db.get_or_intern_with_id(build("f", "t"), UserComponentId(1));
    db.get_or_intern_with_id(build("g", "t"), UserComponentId(0));
    db.get_or_intern_with_id(build("f", "u"), UserComponentId(0));
    let mut other_inputs = build("f", "t");
    other_inputs.inputs[1] = "t3".to_string();
    db.get_or_intern_with_id(other_inputs, UserComponentId(0));
    let mut other_source = build("f", "t");
    other_source.source_coordinates = Some(GlobalItemId {
        rustdoc_item_id: Id(1),
        package_id: PackageId("app".to_string()),
    });
    db.get_or_intern_with_id(other_source, UserComponentId(0));
    assert_eq!(db.callables.len(), 6);
    db.get_or_intern_with_id(build("f", "u"), UserComponentId(0));
    db.get_or_intern_with_id(build("f", "t"), UserComponentId(1));
    assert_eq!(db.callables.len(), 6);
}

#[test]
fn imports_can_be_registered_again() {
    let collection = collection();
    let imports = || vec![import(&["app", "k"], 0), import(&["app"], 1)];
    let mut world = World::new();
    world.register(&collection, imports());
    let n_components = world.aux.component_interner.len();
    let n_callables = world.computation_db.callables.len();
    world.register(&collection, imports());
    assert_eq!(world.aux.component_interner.len(), n_components);
    assert_eq!(world.computation_db.callables.len(), n_callables);
    assert_eq!(world.resolved_paths.pending.len(), n_components);
}

#[test]
fn new_components_come_from_the_imports() {
    let collection = collection();
    let mut world = World::new();
    world.register(
        &collection,
        vec![import(&["app", "k"], 0), import(&["app", "m"], 1)],
    );
    let mut items = vec![];
    for id in 0..world.aux.component_interner.len() {
        match world.aux.component_interner.get(id) {
            UserComponent::Constructor { .. } => items.push(world.annotated(id)),
            UserComponent::ErrorHandler { fallible_id, .. } => {
                assert_eq!(world.annotated(fallible_id.0), 1);
            }
        }
    }
    assert_eq!(items, vec![5, 41, 1]);
}
