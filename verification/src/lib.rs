//! Interval-workout plans: the phase model, the expansion of repeated
//! interval blocks into a flat phase sequence, the fixed catalog of plans,
//! and the storage rules (upsert by identifier, listing by display order).

pub mod arrangement;
pub mod catalog;
pub mod document;
pub mod expander;
pub mod ident;
pub mod label;
pub mod model;
pub mod repository;
pub mod routes;
pub mod store;
