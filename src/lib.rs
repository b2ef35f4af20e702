//! Aggregation of fault-management error reports into per-device summaries,
//! with optional enrichment from a hardware inventory snapshot.
use vstd::prelude::*;

pub mod day;
pub mod detector;
pub mod event;
pub mod histogram;
pub mod hwgrok;
pub mod pipeline;
pub mod report;
pub mod table;

verus! {

/// Where the inputs of a run are: the event log, and the inventory
/// snapshot if one is given.
#[derive(Debug)]
pub struct Config {
    pub fmlog_path: String,
    pub hwgrok_path: Option<String>,
}

impl Config {
    pub fn new(fmlog_path: String, hwgrok_path: Option<String>) -> (r: Config)
        ensures
            r.fmlog_path == fmlog_path,
            r.hwgrok_path == hwgrok_path,
    {
        Config { fmlog_path, hwgrok_path }
    }
}

} // verus!
