//! Benchmark bookkeeping for web servers under load: reading the load
//! driver's output into metrics, grouping and ordering them by load level,
//! rendering the result tables and the report, and sequencing the life of
//! each server under test.
use vstd::prelude::*;

pub mod text;
pub mod scan;
pub mod extract;
pub mod config;
pub mod aggregate;
pub mod render;
pub mod sequencer;

verus! {

} // verus!
