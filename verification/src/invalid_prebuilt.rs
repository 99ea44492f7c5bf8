//! An application that is given values of types with generic and lifetime parameters.
use crate::blueprint::{refer_to, referred_to, Blueprint, Component, Method};
use crate::reflection::CreatedAt;
use vstd::prelude::*;

verus! {

#[derive(Clone)]
pub struct B<T>(T);

#[derive(Clone)]
pub struct D<T, S, Z>(T, S, Z);

#[derive(Clone)]
pub struct A<'a> {
    pub a: &'a str,
}

#[derive(Clone)]
pub struct C<'a, 'b, 'c> {
    pub a: &'a str,
    pub b: &'b str,
    pub c: &'c str,
}

/// Registers the four types, and a route at the root.
pub fn blueprint(created_at: &CreatedAt) -> (bp: Blueprint)
    ensures
        ({
            let registered = bp.components@;
            &&& registered.len() == 5
            &&& registered[0].is_prebuilt(referred_to("crate::A"@, *created_at))
            &&& registered[1].is_prebuilt(referred_to("crate::B"@, *created_at))
            &&& registered[2].is_prebuilt(referred_to("crate::C"@, *created_at))
            &&& registered[3].is_prebuilt(referred_to("crate::D"@, *created_at))
            &&& registered[4].is_route(
                Method::Get,
                "/"@,
                referred_to("crate::handler"@, *created_at),
            )
        }),
        forall|i: int|
            0 <= i < 4 ==> {
                &&& (#[trigger] bp.components@[i]) is PrebuiltType
                &&& bp.components@[i]->PrebuiltType_0.created_at == *created_at
                &&& bp.components@[i]->PrebuiltType_0.import_path@ == seq![
                    "crate::A"@,
                    "crate::B"@,
                    "crate::C"@,
                    "crate::D"@,
                ][i]
            },
        bp.components@[4] is Route,
        bp.components@[4]->method == Method::Get,
        bp.components@[4]->path@ == "/"@,
        bp.components@[4]->handler.created_at == *created_at,
        bp.components@[4]->handler.import_path@ == "crate::handler"@,
{
    let mut components: Vec<Component> = Vec::new();
    components.push(Component::PrebuiltType(refer_to("crate::A", created_at)));
    components.push(Component::PrebuiltType(refer_to("crate::B", created_at)));
    components.push(Component::PrebuiltType(refer_to("crate::C", created_at)));
    components.push(Component::PrebuiltType(refer_to("crate::D", created_at)));
    components.push(
        Component::Route {
            method: Method::Get,
            path: "/".to_owned(),
            handler: refer_to("crate::handler", created_at),
        },
    );
    Blueprint { components }
}

} // verus!
