//! A library for building C4-model architecture diagrams: a typed element
//! graph with referential integrity, canvas interaction state, text
//! persistence, and exporters to PlantUML and Mermaid notations.

pub mod canvas;
pub mod codec;
pub mod diagram;
pub mod elements;
pub mod geometry;
pub mod ids;
pub mod relationship;
pub mod export;
pub mod mermaid;
pub mod plantuml;
pub mod style;
pub mod text;

use vstd::prelude::*;
use vstd::string::StringExecFns;

verus! {

/// The version tag written into persisted diagrams.
pub fn default_version() -> (v: String)
    ensures
        v@ == "1.0"@,
{
    String::from_str("1.0")
}

} // verus!
