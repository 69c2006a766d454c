//! Verified core of the unibot desktop simulator: data model, database codecs,
//! migration script splitting, window naming rules, log queries and the user registry.
use vstd::prelude::*;

pub mod codecs;
pub mod commands;
pub mod registry;
pub mod repo;
pub mod rows;
pub mod error;
pub mod json_layer;
pub mod logging;
pub mod migrator;
pub mod models;
pub mod text;
pub mod window;

verus! {
} // verus!
