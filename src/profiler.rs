use vstd::prelude::*;
use crate::table::MetricTable;

verus! {

/// A parsed profile: the totals of the whole run, and the rows that are shown with
/// their function names, row `i` paired with name `i`.
pub enum Profiler {
    /// The cache simulator's report: nine counts per function.
    CacheGrind {
        /// Total instruction references.
        ir: u128,
        /// Total first-level instruction-cache read misses.
        i1mr: u128,
        /// Total last-level instruction-cache read misses.
        ilmr: u128,
        /// Total data reads.
        dr: u128,
        /// Total first-level data-cache read misses.
        d1mr: u128,
        /// Total last-level data-cache read misses.
        dlmr: u128,
        /// Total data writes.
        dw: u128,
        /// Total first-level data-cache write misses.
        d1mw: u128,
        /// Total last-level data-cache write misses.
        dlmw: u128,
        /// The shown rows, nine counts each.
        data: MetricTable,
        /// The function name of each shown row.
        functs: Vec<String>,
    },
    /// The call-graph tool's report: an instruction count per function.
    CallGrind {
        total_instructions: u128,
        instructions: Vec<u64>,
        functs: Vec<String>,
    },
}

impl Profiler {
    /// An empty cache report, to parse into.
    pub fn new_cachegrind() -> (r: Profiler)
        ensures
            r matches Profiler::CacheGrind { ir, i1mr, ilmr, dr, d1mr, dlmr, dw, d1mw, dlmw, data, functs }
                && ir == 0 && i1mr == 0 && ilmr == 0 && dr == 0 && d1mr == 0 && dlmr == 0 && dw == 0
                && d1mw == 0 && dlmw == 0 && data@.len() == 0 && functs@.len() == 0,
    {
        Profiler::CacheGrind {
            ir: 0,
            i1mr: 0,
            ilmr: 0,
            dr: 0,
            d1mr: 0,
            dlmr: 0,
            dw: 0,
            d1mw: 0,
            dlmw: 0,
            data: MetricTable::empty(9),
            functs: Vec::new(),
        }
    }

    /// An empty call report, to parse into.
    pub fn new_callgrind() -> (r: Profiler)
        ensures
            r matches Profiler::CallGrind { total_instructions, instructions, functs }
                && total_instructions == 0 && instructions@.len() == 0 && functs@.len() == 0,
    {
        Profiler::CallGrind { total_instructions: 0, instructions: Vec::new(), functs: Vec::new() }
    }
}

} // verus!
