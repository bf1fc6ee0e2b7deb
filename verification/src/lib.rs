//! The logic of the XOS desktop applications: the rules, data structures
//! and decisions behind the file manager, archive tool, notes, notification
//! center, control center, automation builder, software center and
//! screenshot tool, each function verified against its contract.
use vstd::prelude::*;

pub mod appstore;
pub mod archive;
pub mod breadcrumb;
pub mod config;
pub mod errors;
pub mod notes;
pub mod notifications;
pub mod operations;
pub mod order;
pub mod preview;
pub mod screenshot;
pub mod search;
pub mod settings;
pub mod text;

verus! {
} // verus!
