//! Per-warehouse demand-during-lead-time (DDLT) statistics and safety-stock
//! projections for a single inventory item, computed from raw shipment and
//! job-consumption records.
use vstd::prelude::*;

pub mod date;
pub mod records;
pub mod resolve;
pub mod aggregate;
pub mod rolling;
pub mod stats;
pub mod safety;
pub mod table;
pub mod text;

verus! {

/// State of the interactive front end: the item being searched, the lookback
/// window in years, and the most recently computed result table.
pub struct DdltApp {
    pub name: String,
    pub years: usize,
    pub table: Vec<Vec<String>>,
}

impl Default for DdltApp {
    /// A fresh session: empty search, three-year lookback, no results yet.
    fn default() -> (r: Self)
        ensures
            r.name@.len() == 0,
            r.years == 3usize,
            r.table@.len() == 0,
    {
        DdltApp { name: String::new(), years: 3, table: Vec::new() }
    }
}

} // verus!
