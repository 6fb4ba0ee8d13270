//! A single-focus task queue engine: ordered tasks grouped into lists, a
//! one-way Active -> Completed state machine, manual ordering by sparse
//! integer positions, and a trailing visibility window for recently
//! completed work.
//!
//! The [`store::Store`] is the authoritative record of tasks and lists; the
//! [`tasks::TaskStack`] enforces ordering and state-transition rules on top
//! of it and scopes every operation to a selected list.

pub mod clock;
pub mod error;
pub mod idgen;
pub mod laws;
pub mod model;
pub mod order;
pub mod store;
pub mod tasks;
pub mod text;
pub mod types;
