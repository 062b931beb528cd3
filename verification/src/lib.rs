//! Verified core of a Cargo-like manager for C/C++ projects: configuration, flags,
//! dependency and workspace resolution, build planning and IDE file generation.
use vstd::prelude::*;

pub mod cli;
pub mod platform;
pub mod profile;
pub mod templates;
pub mod project;
pub mod utils;

verus! {
} // verus!
