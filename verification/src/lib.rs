//! Collapses call-stack paths into the folded-stack text format and drives an
//! external rendering engine to produce SVG flamegraphs from them.

pub mod costs;
pub mod error;
pub mod flamegraph;
pub mod laws;
pub mod num;
pub mod output;
pub mod stack;
pub mod stacks;
