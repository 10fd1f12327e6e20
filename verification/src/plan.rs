use vstd::prelude::*;

use std::sync::Arc;

use crate::classmap::Mapping;
use crate::env::BuildEnvironment;
use crate::metadata::Metadata;

verus! {

/// What to build for one module: its metadata, where its sources are and where the output
/// goes, the classmap and the build flags.
#[derive(Debug, Clone)]
pub struct Plan {
    pub metadata: Metadata,
    pub source_dir: String,
    pub output_dir: String,
    pub classmap: Arc<Mapping>,
    pub env: Arc<BuildEnvironment>,
}

impl Plan {
    /// Whether the module declares a script entry.
    pub fn has_js(&self) -> (r: bool)
        ensures
            r == self.metadata.entries.js is Some,
    {
        self.metadata.has_js()
    }

    /// Whether the module declares a stylesheet entry.
    pub fn has_css(&self) -> (r: bool)
        ensures
            r == self.metadata.entries.css is Some,
    {
        self.metadata.has_css()
    }
}

} // verus!
