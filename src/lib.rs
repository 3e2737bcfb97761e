//! Ingestion of OpenStreetMap extracts into a spatial index: the record
//! model, the quad store's record bytes, the denormalisation of records with
//! their dependencies into index rows, and the bookkeeping of both phases.
use vstd::prelude::*;

pub mod ids;
pub mod record;
pub mod deps;
pub mod bbox;
pub mod process;
pub mod laws;
pub mod progress;
pub mod load;
pub mod monitor;
pub mod cli;
pub mod ingest;
pub mod codec;
pub mod area;

verus! {

} // verus!
