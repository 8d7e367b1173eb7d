use vstd::prelude::*;

pub mod text;
pub mod labels;
pub mod order;
pub mod track;
pub mod cover;
pub mod library;
pub mod groups;
pub mod runs;
pub mod context;
pub mod queue;
pub mod style;
pub mod laws;

verus! {
} // verus!
