//! Verified core of a project-scaffolding tool.
//!
//! A user browses a tree of template files in a terminal UI, selects a
//! subset, and the tool materializes the selection into a new project
//! directory, substituting placeholder tokens with identifier-derived
//! values.  This crate holds the verified logic: the tree/selection
//! model behind the browser, the identifier deriver, the interpolation
//! context builder, the template renderer and the materialization
//! planner.  Terminal drawing, key polling, filesystem access and the
//! `git config` subprocess live outside, in the unverified shell, which
//! hands plain values in and takes plain values back.

use vstd::prelude::*;

pub mod browser;
pub mod chars;
pub mod config;
pub mod interpolation_config;
pub mod materialize;
pub mod naming;
pub mod order;
pub mod selection;
pub mod template_rendering;
pub mod tree;

verus! {

pub use crate::chars::capitalize;

} // verus!
