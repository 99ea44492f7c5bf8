//! How an application refers to its components, and how the components that a crate declares
//! through annotations are registered.
//!
//! - [`reflection`]: where a component was created, and the absolute path that a relative one
//!   stands for there.
//! - [`annotations`]: the registration of the annotated components of imported modules. It goes
//!   through the items of a module in the order of [`traversal`], which rests on [`queue`]; interns
//!   what the annotations declare ([`auxiliary`], [`interner`], [`arena`]); makes functions and
//!   methods into callables ([`callable`]); and reports what goes wrong ([`diagnostic`]).
//! - [`completeness`], [`component_order`], [`determinism`]: what the registration keeps, which
//!   identifiers the components get, and what the registration rests on.
//! - [`path_laws`], [`order_laws`], [`callable_laws`], [`component_laws`], [`registration_laws`]: what
//!   the paths, the processing order, the callables, the tables and the registration as a whole come
//!   to, entry by entry.
//! - [`rustdoc`]: the documentation of crates, as far as the registration reads it.
//! - [`text`]: paths as text.
//! - [`blueprint`]: what an application registers, with two applications that are used to try the
//!   framework, [`invalid_prebuilt`] and [`fallbacks_can_access_all_primitives`].
pub mod annotations;
pub mod arena;
pub mod auxiliary;
pub mod blueprint;
pub mod callable;
pub mod callable_laws;
pub mod completeness;
pub mod component_laws;
pub mod component_order;
pub mod determinism;
pub mod diagnostic;
pub mod fallbacks_can_access_all_primitives;
pub mod interner;
pub mod invalid_prebuilt;
pub mod order_laws;
pub mod path_laws;
pub mod queue;
pub mod reflection;
pub mod registration_laws;
pub mod rustdoc;
pub mod text;
pub mod traversal;

pub use crate::reflection::{CreatedAt, Location, RawIdentifiers};
