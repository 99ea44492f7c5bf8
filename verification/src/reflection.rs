//! Where a component was created, and the path under which its author refers to it.
use crate::text::{leading, path_segments, replace_hyphens, split_path, underscored, views};
use vstd::prelude::*;

verus! {

/// A set of coordinates to identify a precise spot in a source file.
#[derive(Debug, Eq, PartialEq, Hash)]
pub struct Location {
    /// The line number.
    ///
    /// Lines are 1-indexed (i.e. the first line is numbered as 1, not 0).
    pub line: u32,
    /// The column number.
    ///
    /// Columns are 1-indexed (i.e. the first column is numbered as 1, not 0).
    pub column: u32,
    /// The name of the source file.
    pub file: String,
}

impl Clone for Location {
    fn clone(&self) -> (res: Self)
        ensures
            res == *self,
    {
        Location { line: self.line, column: self.column, file: self.file.clone() }
    }
}

/// Information on the crate/module where the component was created.
///
/// It may be different from the location where the component was registered.
#[derive(Debug, Eq, PartialEq, Hash)]
pub struct CreatedAt {
    /// The name of the crate that created the component, as it appears in the `package.name` field
    /// of its `Cargo.toml`.
    ///
    /// In particular, the name has *not* been normalised: hyphens are not replaced with
    /// underscores.
    pub crate_name: String,
    /// The path to the module where the component was created.
    pub module: String,
}

impl Clone for CreatedAt {
    fn clone(&self) -> (res: Self)
        ensures
            res == *self,
    {
        CreatedAt { crate_name: self.crate_name.clone(), module: self.module.clone() }
    }
}

/// All the information required to identify a component registered against a `Blueprint`.
#[derive(Debug, Eq, PartialEq, Hash)]
pub struct RawIdentifiers {
    /// Information on the location where the component was created: either the place that gave
    /// its import path or a macro annotation on the definition of the item itself.
    pub created_at: CreatedAt,
    /// An unambiguous path to the type/callable.
    pub import_path: String,
}

impl Clone for RawIdentifiers {
    fn clone(&self) -> (res: Self)
        ensures
            res == *self,
    {
        RawIdentifiers {
            created_at: self.created_at.clone(),
            import_path: self.import_path.clone(),
        }
    }
}

/// What `RawIdentifiers` say, as text.
pub ghost struct RawIdentifiersView {
    pub crate_name: Seq<char>,
    pub module_text: Seq<char>,
    pub import_path: Seq<char>,
}

impl View for RawIdentifiers {
    type V = RawIdentifiersView;

    open spec fn view(&self) -> RawIdentifiersView {
        RawIdentifiersView {
            crate_name: self.created_at.crate_name@,
            module_text: self.created_at.module@,
            import_path: self.import_path@,
        }
    }
}

/// The number of `super` segments that `segments` starts with.
pub open spec fn leading_supers(segments: Seq<Seq<char>>) -> nat {
    leading(segments, "super"@)
}

/// How many modules up from the module where they are written `segments` lead: one for each
/// `super` at their start, or right after a `self` at their start.
pub open spec fn climbs(segments: Seq<Seq<char>>) -> nat {
    if segments[0] == "self"@ {
        leading_supers(segments.skip(1))
    } else {
        leading_supers(segments)
    }
}

/// The absolute path that `segments` stand for in the module `module` of the crate
/// `crate_name`:
/// - `crate` is the crate itself, under the name that import paths use;
/// - `self` is the module;
/// - each `super`, at the start or after a `self` at the start, goes one module up;
/// - any other path is absolute already.
pub open spec fn resolve_segments(
    segments: Seq<Seq<char>>,
    crate_name: Seq<char>,
    module: Seq<Seq<char>>,
) -> Seq<Seq<char>> {
    if segments[0] == "crate"@ {
        seq![underscored(crate_name)] + segments.skip(1)
    } else if segments[0] == "self"@ {
        let n = leading_supers(segments.skip(1));
        module.take(module.len() - n) + segments.skip((1 + n) as int)
    } else {
        let n = leading_supers(segments);
        if n > 0 {
            module.take(module.len() - n) + segments.skip(n as int)
        } else {
            segments
        }
    }
}

impl RawIdentifiersView {
    /// The segments of the import path.
    pub open spec fn segments(self) -> Seq<Seq<char>> {
        path_segments(self.import_path)
    }

    /// The segments of the path of the module where the component was created.
    pub open spec fn module(self) -> Seq<Seq<char>> {
        path_segments(self.module_text)
    }

    /// The absolute path of the component.
    pub open spec fn fully_qualified_path(self) -> Seq<Seq<char>> {
        resolve_segments(self.segments(), self.crate_name, self.module())
    }
}

impl RawIdentifiers {
    pub fn from_raw_parts(import_path: String, registered_at: CreatedAt) -> (res: Self)
        ensures
            res.created_at == registered_at,
            res.import_path == import_path,
    {
        Self { created_at: registered_at, import_path }
    }

    /// Return an unambiguous fully-qualified path pointing at the item.
    ///
    /// The returned path should be a valid Rust import path.
    ///
    /// A path that climbs more modules than its own module has segments leads nowhere.
    pub fn fully_qualified_path(&self) -> (res: Vec<String>)
        requires
            climbs(self@.segments()) <= self@.module().len(),
        ensures
            views(res@) == self@.fully_qualified_path(),
    {
        let mut segments = split_path(self.import_path.as_str());
        proof {
            crate::text::lemma_path_has_a_segment(self.import_path@);
            assert(self@.segments()[0] == segments@[0]@);
        }
        // Replace the relative portion of the path (`crate`) with the actual crate name.
        if segments[0] == "crate".to_owned() {
            // Hyphens are allowed in crate names, but the Rust compiler doesn't
            // allow them in actual import paths.
            // They are "transparently" replaced with underscores.
            let crate_name = replace_hyphens(self.created_at.crate_name.as_str());
            let ghost before = segments@;
            segments.set(0, crate_name);
            assert(views(segments@) =~= seq![underscored(self.created_at.crate_name@)]
                + views(before).skip(1));
            return segments;
        }
        let n_self: usize = if segments[0] == "self".to_owned() {
            1
        } else {
            0
        };
        let mut relative = segments.split_off(n_self);
        let n_super = crate::text::count_leading(&relative, "super");
        assert(views(relative@) =~= self@.segments().skip(n_self as int));
        assert(self@.segments().skip(0) =~= self@.segments());
        if n_self == 0 && n_super == 0 {
            return relative;
        }
        // The path is relative to the current module.
        // We "rebase" it to get an absolute path.
        let mut new_segments = split_path(self.created_at.module.as_str());
        let n_module_segments: usize = new_segments.len();
        new_segments.truncate(n_module_segments - n_super);
        let mut tail = relative.split_off(n_super);
        let ghost rest = tail@;
        let ghost ancestor = new_segments@;
        new_segments.append(&mut tail);
        assert(views(new_segments@) =~= views(ancestor) + views(rest));
        assert(views(ancestor) =~= self@.module().take(n_module_segments - n_super));
        assert(views(rest) =~= self@.segments().skip(n_self + n_super));
        new_segments
    }

    /// The path provided by the user, unaltered.
    pub fn raw_path(&self) -> (res: &str)
        ensures
            res@ == self.import_path@,
    {
        self.import_path.as_str()
    }

    pub fn created_at(&self) -> (res: &CreatedAt)
        ensures
            *res == self.created_at,
    {
        &self.created_at
    }
}

/// Whether `segment` makes a path that starts with it relative to a crate or to a module.
pub open spec fn is_relative(segment: Seq<char>) -> bool {
    segment == "crate"@ || segment == "self"@ || segment == "super"@
}

/// A path that starts with none of `crate`, `self` and `super` is absolute: it stands for itself,
/// wherever it was written.
pub proof fn law_absolute_paths_are_kept(
    segments: Seq<Seq<char>>,
    crate_name: Seq<char>,
    module: Seq<Seq<char>>,
)
    requires
        segments.len() > 0,
        !is_relative(segments[0]),
    ensures
        resolve_segments(segments, crate_name, module) == segments,
{
}

/// A path that starts with `self`, and then with no `super`, is the path that goes from the crate
/// through the module.
pub proof fn law_self_is_the_module(
    crate_name: Seq<char>,
    module: Seq<Seq<char>>,
    rest: Seq<Seq<char>>,
    elsewhere: Seq<Seq<char>>,
)
    requires
        leading_supers(rest) == 0,
    ensures
        resolve_segments(
            seq!["self"@] + rest,
            crate_name,
            seq![underscored(crate_name)] + module,
        ) == resolve_segments(seq!["crate"@] + module + rest, crate_name, elsewhere),
{
    lemma_keywords_differ();
    let here = seq![underscored(crate_name)] + module;
    assert((seq!["self"@] + rest).skip(1) =~= rest);
    assert(here.take(here.len() as int) =~= here);
    assert((seq!["crate"@] + module + rest).skip(1) =~= module + rest);
    assert((seq!["crate"@] + module + rest)[0] == "crate"@);
    assert(here + rest =~= seq![underscored(crate_name)] + (module + rest));
}

/// A `self` in front of a path that starts with `super` changes nothing.
pub proof fn law_self_before_super_changes_nothing(
    segments: Seq<Seq<char>>,
    crate_name: Seq<char>,
    module: Seq<Seq<char>>,
)
    requires
        leading_supers(segments) > 0,
    ensures
        climbs(seq!["self"@] + segments) == climbs(segments),
        resolve_segments(seq!["self"@] + segments, crate_name, module) == resolve_segments(
            segments,
            crate_name,
            module,
        ),
{
    lemma_keywords_differ();
    let path = seq!["self"@] + segments;
    let n = leading_supers(segments);
    crate::text::lemma_leading(segments, "super"@);
    assert(segments[0] == "super"@);
    assert(path.skip(1) =~= segments);
    assert(path.skip((1 + n) as int) =~= segments.skip(n as int));
}

/// A `super` in front of a path is the path as it would be written, after `self`, in the module
/// above.
pub proof fn law_super_is_the_module_above(
    crate_name: Seq<char>,
    parent: Seq<Seq<char>>,
    name: Seq<char>,
    rest: Seq<Seq<char>>,
)
    requires
        leading_supers(rest) <= parent.len(),
    ensures
        resolve_segments(seq!["super"@] + rest, crate_name, parent.push(name))
            == resolve_segments(seq!["self"@] + rest, crate_name, parent),
{
    lemma_keywords_differ();
    let path = seq!["super"@] + rest;
    let module = parent.push(name);
    let n = leading_supers(rest);
    crate::text::lemma_leading(rest, "super"@);
    assert(path.drop_first() =~= rest);
    assert(leading_supers(path) == n + 1);
    assert(path.skip((n + 1) as int) =~= rest.skip(n as int));
    assert(module.take(module.len() - (n + 1)) =~= parent.take(parent.len() - n));
    assert((seq!["self"@] + rest).skip(1) =~= rest);
    assert((seq!["self"@] + rest).skip((1 + n) as int) =~= rest.skip(n as int));
}

pub proof fn lemma_keywords_differ()
    ensures
        "self"@ != "crate"@,
        "super"@ != "crate"@,
        "super"@ != "self"@,
{
    reveal_strlit("self");
    reveal_strlit("crate");
    reveal_strlit("super");
    assert("self"@.len() == 4);
    assert("crate"@[0] == 'c');
    assert("super"@[0] == 's');
}

/// Whether `segments` are relative to the module where they are written.
pub open spec fn is_module_relative(segments: Seq<Seq<char>>) -> bool {
    segments[0] == "self"@ || segments[0] == "super"@
}

/// Whether what `segments` are relative to is there, and is absolute: the name of the crate for a
/// path that starts with `crate`, the module that the path climbs to for one that starts with
/// `self` or `super`.
pub open spec fn has_absolute_base(
    segments: Seq<Seq<char>>,
    crate_name: Seq<char>,
    module: Seq<Seq<char>>,
) -> bool {
    &&& segments[0] == "crate"@ ==> !is_relative(underscored(crate_name))
    &&& is_module_relative(segments) ==> climbs(segments) < module.len() && !is_relative(module[0])
}

/// A path becomes absolute: it starts with none of `crate`, `self` and `super` any more, and to
/// resolve it again, anywhere, changes nothing.
pub proof fn law_resolved_paths_are_absolute(
    segments: Seq<Seq<char>>,
    crate_name: Seq<char>,
    module: Seq<Seq<char>>,
    other_name: Seq<char>,
    other_module: Seq<Seq<char>>,
)
    requires
        segments.len() > 0,
        has_absolute_base(segments, crate_name, module),
    ensures
        ({
            let resolved = resolve_segments(segments, crate_name, module);
            &&& resolved.len() > 0
            &&& !is_relative(resolved[0])
            &&& resolve_segments(resolved, other_name, other_module) == resolved
        }),
{
    let resolved = resolve_segments(segments, crate_name, module);
    lemma_keywords_differ();
    if segments[0] == "super"@ {
        assert(leading_supers(segments) > 0);
    }
    assert(!is_relative(resolved[0]));
}

/// Where the part of `segments` ends that makes them relative: after `crate`, or after `self` and
/// the `super`s.
pub open spec fn relative_part(segments: Seq<Seq<char>>) -> nat {
    if segments[0] == "crate"@ {
        1
    } else if segments[0] == "self"@ {
        1 + climbs(segments)
    } else {
        climbs(segments)
    }
}

/// Whether `crate`, `self` and `super` stand in `segments` only where Rust admits them: `crate` and
/// `self` at the start, `super` at the start or after `self` and other `super`s.
pub open spec fn keywords_are_in_place(segments: Seq<Seq<char>>) -> bool {
    forall|i: int|
        relative_part(segments) <= i < segments.len() ==> !is_relative(#[trigger] segments[i])
}

/// A path that Rust admits becomes one that Rust admits, whatever it is relative to: no segment of
/// it is `crate`, `self` or `super`.
pub proof fn law_resolved_paths_hold_no_keyword(
    segments: Seq<Seq<char>>,
    crate_name: Seq<char>,
    module: Seq<Seq<char>>,
)
    requires
        segments.len() > 0,
        keywords_are_in_place(segments),
        segments[0] == "crate"@ ==> !is_relative(underscored(crate_name)),
        is_module_relative(segments) ==> climbs(segments) <= module.len(),
        is_module_relative(segments) ==> forall|i: int|
            0 <= i < module.len() - climbs(segments) ==> !is_relative(#[trigger] module[i]),
    ensures
        forall|i: int|
            0 <= i < resolve_segments(segments, crate_name, module).len() ==> !is_relative(
                #[trigger] resolve_segments(segments, crate_name, module)[i],
            ),
{
    lemma_keywords_differ();
    let resolved = resolve_segments(segments, crate_name, module);
    let n = relative_part(segments);
    crate::text::lemma_leading(segments, "super"@);
    crate::text::lemma_leading(segments.skip(1), "super"@);
    if leading_supers(segments) > 0 {
        assert(segments[0] == "super"@);
    }
    let base = resolved.len() - (segments.len() - n);
    assert forall|i: int| 0 <= i < resolved.len() implies !is_relative(#[trigger] resolved[i]) by {
        if i >= base {
            assert(resolved[i] == segments[i - base + n]);
        } else if is_module_relative(segments) {
            assert(resolved[i] == module[i]);
        }
    }
}

/// The name of a crate stands in its paths without hyphens, and as long as it was.
pub proof fn law_crate_names_have_no_hyphens(
    rest: Seq<Seq<char>>,
    crate_name: Seq<char>,
    module: Seq<Seq<char>>,
)
    ensures
        ({
            let resolved = resolve_segments(seq!["crate"@] + rest, crate_name, module);
            &&& !resolved[0].contains('-')
            &&& resolved[0].len() == crate_name.len()
            &&& !crate_name.contains('-') ==> resolved[0] == crate_name
        }),
{
    let name = underscored(crate_name);
    assert((seq!["crate"@] + rest)[0] == "crate"@);
    assert(!name.contains('-'));
    if !crate_name.contains('-') {
        assert forall|i: int| 0 <= i < crate_name.len() implies crate_name[i] != '-' by {
            assert(crate_name.contains(crate_name[i]));
        }
        assert(name =~= crate_name);
    }
}

} // verus!
