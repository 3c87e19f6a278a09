//! Song identity, score reconciliation and rivalry engine for a
//! vehicle-racing rhythm game backend.
//!
//! The durable store (songs, players, scores, rivalries) and the skill-point
//! aggregate cache are modelled by [`store::Store`]; the engines operate on it
//! and are verified against contracts stated over its mathematical view.

pub mod merge;
pub mod metadata;
pub mod gameplay;
pub mod parse;
pub mod reconcile;
pub mod resolver;
pub mod rivalry;
pub mod store;
pub mod text;
pub mod types;
