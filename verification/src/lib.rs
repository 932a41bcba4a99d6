//! Spec viewer core: mermaid diagram parsing and terminal layout, Hangul
//! composition, spec-directory metadata, and the small text utilities they
//! share.

use vstd::prelude::*;

pub mod text;
pub mod app;
pub mod cli;
pub mod markdown;
pub mod order;
pub mod path;
pub mod spec;
pub mod width;

verus! {
}
