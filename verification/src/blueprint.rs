//! What an application registers, in order.
use crate::reflection::{CreatedAt, RawIdentifiers, RawIdentifiersView};
use vstd::prelude::*;

verus! {

/// The method of the requests that a route answers.
#[derive(Debug, Copy, Clone, PartialEq, Eq, Structural)]
pub enum Method {
    Get,
}

/// Something that an application registers.
#[derive(Debug, PartialEq, Eq)]
pub enum Component {
    /// A type whose values the application is given.
    PrebuiltType(RawIdentifiers),
    /// The handler of the requests with this method and this path.
    Route { method: Method, path: String, handler: RawIdentifiers },
    /// The handler of the requests that no route answers.
    Fallback(RawIdentifiers),
    /// Another application, for the requests whose path starts with the prefix.
    Nested { prefix: String, blueprint: Blueprint },
}

impl Component {
    /// Whether this is the prebuilt type that `ids` identify.
    pub open spec fn is_prebuilt(self, ids: RawIdentifiersView) -> bool {
        self matches Component::PrebuiltType(found) && found@ == ids
    }

    /// Whether this is a route for `method` and `path` to the handler that `ids` identify.
    pub open spec fn is_route(self, method: Method, path: Seq<char>, ids: RawIdentifiersView) -> bool {
        self matches Component::Route { method: m, path: p, handler } && m == method && p@ == path
            && handler@ == ids
    }

    /// Whether this is a fallback to the handler that `ids` identify.
    pub open spec fn is_fallback(self, ids: RawIdentifiersView) -> bool {
        self matches Component::Fallback(found) && found@ == ids
    }

    /// What the application that is nested under `prefix` registers; nothing for any other
    /// component.
    pub open spec fn nested_under(self, prefix: Seq<char>) -> Seq<Component> {
        match self {
            Component::Nested { prefix: p, blueprint } if p@ == prefix => blueprint.components@,
            _ => seq![],
        }
    }
}

/// What an application registers, in order.
#[derive(Debug, PartialEq, Eq)]
pub struct Blueprint {
    pub components: Vec<Component>,
}

/// The item at `import_path`, as referred to in `created_at`.
pub open spec fn referred_to(import_path: Seq<char>, created_at: CreatedAt) -> RawIdentifiersView {
    RawIdentifiersView {
        crate_name: created_at.crate_name@,
        module_text: created_at.module@,
        import_path,
    }
}

/// The item at `import_path`, as referred to in `created_at`.
pub fn refer_to(import_path: &str, created_at: &CreatedAt) -> (res: RawIdentifiers)
    ensures
        res@ == referred_to(import_path@, *created_at),
        res.import_path@ == import_path@,
        res.created_at == *created_at,
{
    RawIdentifiers::from_raw_parts(import_path.to_owned(), created_at.clone())
}

} // verus!
