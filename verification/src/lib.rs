//! A star-system store and jump-route planner for Elite Dangerous telemetry.
//!
//! The crate keeps star systems as points on an integer grid, answers range
//! queries over them, and plans fewest-jump routes between two systems for a
//! given jump range. Every operation carries a machine-checked contract.

pub mod error;
pub mod geometry;
pub mod jumps;
pub mod page;
pub mod route;
pub mod store;
pub mod systems;

pub use crate::error::Error;
pub use crate::page::Page;
pub use crate::store::Database;
