//! Estimating and drafting core for building-automation proposals.
//!
//! The crate holds the project data model, the object hierarchy with its
//! structural rules, template synchronisation, the labor-hour estimator, the
//! overlay edit log and the project file container.  Decimal quantities are
//! held as integers in hundredths, so every figure the estimator returns is
//! exact.

pub mod model;
pub mod text;
pub mod idset;
pub mod graph;
pub mod catalog;
pub mod templates;
pub mod estimate;
pub mod settings;
pub mod overlay;
pub mod codec;
pub mod repair;
pub mod studio;
pub mod search;
pub mod health;
pub mod invariants;
