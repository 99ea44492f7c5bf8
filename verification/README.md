# pavex_reflection

How a web application refers to its components, and how the components that a crate declares
through annotations are registered. The logic is written in Verus: each function states what it
returns or changes, and the statements are proved.

- `src/reflection.rs`: where a component was created, and the absolute path that a relative path
  (`crate::..`, `self::..`, `super::..`) stands for there.
- `src/annotations.rs`: the registration of the annotated components of imported modules, which only
  adds to the tables and keeps them fitting together.
- `src/completeness.rs`: nothing is lost, nothing is made up, and no component or callable is
  registered twice.
- `src/component_order.rs`: which identifiers the components get, where new components come from, and
  which components are left alone.
- `src/determinism.rs`: the registration rests on what the documentation says alone.
- `src/traversal.rs`, `src/queue.rs`: which items are processed, and in which order.
- `src/auxiliary.rs`, `src/interner.rs`, `src/arena.rs`: the tables of components.
- `src/callable.rs`: functions and methods as callables.
- `src/diagnostic.rs`: what is reported to the user.
- `src/rustdoc.rs`: the documentation of crates, as far as the registration reads it.
- `src/text.rs`: paths as text.
- `src/blueprint.rs` and the two modules that use it: sample applications.

What is taken on trust is in two places: `src/arena.rs` describes the arena of `la_arena`, and
`text::join` describes `join` of `itertools`.

`app/` is ordinary Rust around the library: the place of a caller, serialised forms, the conversion
of what `rustdoc` emits, and errors as the command line shows them.
