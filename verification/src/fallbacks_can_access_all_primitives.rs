//! An application whose fallbacks take all that the framework offers for a request.
use crate::blueprint::{refer_to, referred_to, Blueprint, Component};
use crate::reflection::CreatedAt;
use vstd::prelude::*;

verus! {

/// Registers a nested application with a fallback of its own, and a fallback.
pub fn blueprint(created_at: &CreatedAt) -> (bp: Blueprint)
    ensures
        ({
            let registered = bp.components@;
            let nested = registered[0].nested_under("/nested"@);
            let handler = referred_to("crate::handler"@, *created_at);
            &&& registered.len() == 2
            &&& nested.len() == 1
            &&& nested[0].is_fallback(handler)
            &&& registered[1].is_fallback(handler)
        }),
        bp.components@[0] is Nested,
        bp.components@[0]->prefix@ == "/nested"@,
        bp.components@[0]->blueprint.components@.len() == 1,
        bp.components@[0]->blueprint.components@[0] is Fallback,
        bp.components@[0]->blueprint.components@[0]->Fallback_0.created_at == *created_at,
        bp.components@[0]->blueprint.components@[0]->Fallback_0.import_path@ == "crate::handler"@,
        bp.components@[1] is Fallback,
        bp.components@[1]->Fallback_0.created_at == *created_at,
        bp.components@[1]->Fallback_0.import_path@ == "crate::handler"@,
{
    let mut nested: Vec<Component> = Vec::new();
    nested.push(Component::Fallback(refer_to("crate::handler", created_at)));
    let mut components: Vec<Component> = Vec::new();
    components.push(
        Component::Nested {
            prefix: "/nested".to_owned(),
            blueprint: Blueprint { components: nested },
        },
    );
    components.push(Component::Fallback(refer_to("crate::handler", created_at)));
    Blueprint { components }
}

} // verus!
