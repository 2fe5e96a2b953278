//! Category theory adjunctions, computed on concrete objects: lists under
//! concatenation, graphs and their path categories, and group presentations.
//!
//! - [`adjunction`]: an adjunction given by its unit, counit and functors,
//!   with a check of the triangle identities on sample objects
//! - [`unit`]: unit transformations and the morphisms of a path category
//! - [`counit`]: counit transformations, list monoids, graphs, path categories
//! - [`free`]: the free monoid and free category constructions
//! - [`forgetful`]: the functors that forget algebraic structure
//! - [`reflective`]: group presentations and their abelianization

pub mod adjunction;
pub mod counit;
pub mod decimal;
pub mod forgetful;
pub mod free;
pub mod reflective;
pub mod unit;
mod vecs;
