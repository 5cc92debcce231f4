//! Verified core of a document-publishing backend: bounded-concurrency job
//! orchestration for rendering and import pipelines, plus the markup
//! normalization that the import pipeline applies around an external
//! document converter.

use vstd::prelude::*;

pub mod api;
pub mod bib;
pub mod citations;
pub mod content;
pub mod html;
pub mod importing;
pub mod postprocess;
pub mod preprocess;
pub mod project;
pub mod rendering;
pub mod text;
pub mod tree;

verus! {

/// A queued or archived job is identified by a token that the owning store
/// hands out; tokens are never reused by the same store.
pub type JobId = u64;

} // verus!
