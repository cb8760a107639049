//! A deferred-call scheduling engine: callers register calls to be dispatched
//! at a later execution point, optionally repeating, and may cancel them
//! before they fire.
//!
//! - `task`: the data shape of a task.
//! - `model`: the registry as mathematics, and its invariant.
//! - `registry`: the ordered store of pending tasks.
//! - `auth`: to whom a dispatch is attributed.
//! - `extension`: the operations that callers and the driver use.
//! - `wire`: requests as bytes, responses as outcomes.
//! - `error`: the error kinds and their status codes.
//! - `drive`: what reaching execution points does to the registry.
//! - `laws`: what holds of the whole.

pub mod auth;
pub mod drive;
pub mod error;
pub mod extension;
pub mod laws;
pub mod model;
pub mod registry;
pub mod task;
pub mod wire;

pub use error::SchedulerError;
pub use extension::SchedulerExtension;
pub use task::{ContractCallInput, Origin};
