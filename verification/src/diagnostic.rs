//! What is reported to the user.
use crate::auxiliary::{Registration, UserComponentId};
use crate::callable::{CallableResolutionError, CallableResolutionErrorView};
use crate::rustdoc::{Item, Span};
use vstd::prelude::*;
use vstd::string::*;

verus! {

/// The kind of a component.
#[derive(Debug, Copy, Clone, PartialEq, Eq, Structural)]
pub enum ComponentKind {
    Constructor,
}

/// A piece of source code that a diagnostic shows.
#[derive(Debug, PartialEq, Eq)]
pub struct AnnotatedSource {
    pub filename: String,
    /// The code of the file.
    pub code: String,
    /// The part of the code to point at: the byte where it begins, and how many bytes it has.
    pub span: (usize, usize),
    /// What to say about that part.
    pub label: String,
}

/// An error, with advice on it.
#[derive(Debug, PartialEq, Eq)]
pub struct CompilerDiagnostic {
    /// What went wrong.
    pub error: String,
    /// What was being done when it went wrong.
    pub context: String,
    /// Where it went wrong.
    pub source: Option<AnnotatedSource>,
    pub help: String,
}

/// Something to report to the user.
#[derive(Debug, PartialEq, Eq)]
pub enum Diagnostic<'a, E> {
    /// The annotation on an item cannot be understood.
    MalformedAnnotation(CompilerDiagnostic),
    /// An annotated item cannot be made into a callable.
    CannotResolveCallable {
        error: CallableResolutionError<'a, E>,
        component_id: UserComponentId,
    },
}

/// Something to report to the user.
pub ghost enum DiagnosticView<E> {
    MalformedAnnotation {
        reason: Seq<char>,
        context: Seq<char>,
        source: Option<AnnotatedSource>,
        help: Seq<char>,
    },
    CannotResolveCallable { error: CallableResolutionErrorView<E>, component_id: usize },
}

impl<'a, E> View for Diagnostic<'a, E> {
    type V = DiagnosticView<E>;

    open spec fn view(&self) -> DiagnosticView<E> {
        match *self {
            Diagnostic::MalformedAnnotation(d) => DiagnosticView::MalformedAnnotation {
                reason: d.error@,
                context: d.context@,
                source: d.source,
                help: d.help@,
            },
            Diagnostic::CannotResolveCallable {
                error,
                component_id,
            } => DiagnosticView::CannotResolveCallable {
                error: error@,
                component_id: component_id.0,
            },
        }
    }
}

/// The diagnostics, in the order in which they were emitted.
#[derive(Debug, PartialEq, Eq)]
pub struct DiagnosticSink<'a, E> {
    pub diagnostics: Vec<Diagnostic<'a, E>>,
}

impl<'a, E> View for DiagnosticSink<'a, E> {
    type V = Seq<DiagnosticView<E>>;

    open spec fn view(&self) -> Seq<DiagnosticView<E>> {
        self.diagnostics@.map_values(|d: Diagnostic<'a, E>| d@)
    }
}

impl<'a, E> DiagnosticSink<'a, E> {
    /// No diagnostics.
    pub fn new() -> (res: Self)
        ensures
            res@ == Seq::<DiagnosticView<E>>::empty(),
    {
        let res = DiagnosticSink { diagnostics: Vec::new() };
        assert(res@ =~= Seq::<DiagnosticView<E>>::empty());
        res
    }

    /// Adds a diagnostic behind the others.
    pub fn push(&mut self, diagnostic: Diagnostic<'a, E>)
        ensures
            final(self)@ == old(self)@.push(diagnostic@),
    {
        let ghost before = self@;
        self.diagnostics.push(diagnostic);
        assert(self@ =~= before.push(diagnostic@));
    }
}

/// What is said of an item, by its name where it has one, whose annotation cannot be understood.
pub open spec fn malformed_context(name: Option<String>) -> Seq<char> {
    match name {
        Some(name) => "`"@ + name@
            + "` is annotated with a malformed `diagnostic::pavex::*` attribute."@,
        None => "One of your items is annotated with a malformed `diagnostic::pavex::*` attribute."@,
    }
}

/// The advice on an annotation that cannot be understood.
pub open spec fn malformed_help() -> Seq<char> {
    "Have you manually added the `diagnostic::pavex::*` attribute on the item? The syntax for `diagnostic::pavex::*` attributes is an implementation detail of Pavex's own macros,\n            which are guaranteed to output well-formed annotations."@
}

/// Whether `annotate` can give `source` for the item that stands at `span`.
pub open spec fn annotates_to<
    S: Fn(&Registration, ComponentKind, &str) -> Option<AnnotatedSource>,
>(annotate: S, span: Span, source: Option<AnnotatedSource>) -> bool {
    call_ensures(
        annotate,
        (&Registration::Attribute(span), ComponentKind::Constructor, "The annotated item"),
        source,
    )
}

/// Whether `annotate` can be called on every place.
pub open spec fn annotates_any<
    S: Fn(&Registration, ComponentKind, &str) -> Option<AnnotatedSource>,
>(annotate: S) -> bool {
    forall|registration: &Registration, kind: ComponentKind, label: &str|
        call_requires(annotate, (registration, kind, label))
}

/// Whether `source` can be shown of an item: what `annotate` gives for its place, and nothing where
/// the place is not known.
pub open spec fn is_source<S: Fn(&Registration, ComponentKind, &str) -> Option<AnnotatedSource>>(
    annotate: S,
    span: Option<Span>,
    source: Option<AnnotatedSource>,
) -> bool {
    match span {
        Some(span) => annotates_to(annotate, span, source),
        None => source is None,
    }
}

/// What is reported where the annotation on `item` cannot be understood, for `reason`.
pub open spec fn malformed_annotation<E>(
    reason: Seq<char>,
    item: Item,
    source: Option<AnnotatedSource>,
) -> DiagnosticView<E> {
    DiagnosticView::MalformedAnnotation {
        reason,
        context: malformed_context(item.name),
        source,
        help: malformed_help(),
    }
}

/// Reports that the annotation on `item` cannot be understood.
///
/// `annotate` finds the source code of a component to show, if it can.
pub fn invalid_diagnostic_attribute<
    'a,
    E,
    S: Fn(&Registration, ComponentKind, &str) -> Option<AnnotatedSource>,
>(e: String, item: &Item, diagnostics: &mut DiagnosticSink<'a, E>, annotate: &S)
    requires
        annotates_any(*annotate),
    ensures
        exists|source: Option<AnnotatedSource>|
            {
                &&& #[trigger] is_source(*annotate, item.span, source)
                &&& final(diagnostics)@ == old(diagnostics)@.push(
                    malformed_annotation(e@, *item, source),
                )
            },
{
    let source = match &item.span {
        Some(s) => annotate(
            &Registration::attribute(s),
            ComponentKind::Constructor,
            "The annotated item",
        ),
        None => None,
    };
    assert(is_source(*annotate, item.span, source));
    let context = match &item.name {
        Some(name) => "`".to_owned().concat(name.as_str()).concat(
            "` is annotated with a malformed `diagnostic::pavex::*` attribute.",
        ),
        None => "One of your items is annotated with a malformed `diagnostic::pavex::*` attribute.".to_owned(),
    };
    let help =
        "Have you manually added the `diagnostic::pavex::*` attribute on the item? The syntax for `diagnostic::pavex::*` attributes is an implementation detail of Pavex's own macros,\n            which are guaranteed to output well-formed annotations.".to_owned();
    diagnostics.push(
        Diagnostic::MalformedAnnotation(CompilerDiagnostic { error: e, context, source, help }),
    );
}

} // verus!
