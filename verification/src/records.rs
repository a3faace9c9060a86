//! The raw transactional records the pipeline consumes, and the item catalog
//! attributes joined into the result. Quantities are Q4 fixed point; numeric
//! catalog fields arrive as the raw text of the data source.
use crate::date::Date;
use vstd::prelude::*;

verus! {

/// A customer shipment of `qty` (Q4) of `item` out of `warehouse` on `date`.
pub struct Shipment {
    pub item: String,
    pub warehouse: String,
    pub date: Date,
    pub qty: u64,
}

/// Material consumption of `qty` (Q4) of `item` by the job `job_id`.
pub struct JobMatl {
    pub job_id: String,
    pub item: String,
    pub qty: u64,
}

/// A manufacturing job, tied to a warehouse and a date.
pub struct Job {
    pub job_id: String,
    pub warehouse: String,
    pub date: Date,
}

/// Catalog attributes of the item; numeric fields keep their source text.
pub struct ItemInfo {
    pub item: String,
    pub description: String,
    pub plan_code: String,
    pub lead_time: u32,
    pub order_max: String,
    pub order_min: String,
    pub order_mult: String,
}

/// The existing reorder quantity of one warehouse, as source text.
pub struct WhseReorder {
    pub warehouse: String,
    pub qty_reorder: String,
}

/// One cell of the dense (warehouse, day) usage grid.
#[derive(Clone, Copy, PartialEq, Eq, Structural, Debug)]
pub struct Cell {
    pub usage: u64,
    pub hits: u64,
}

/// The per-item lead time, in days: the catalog value when the item was
/// found, and 0 otherwise (a deliberate fail-open default).
pub open spec fn lead_time_spec(info: Option<ItemInfo>) -> int {
    match info {
        Option::Some(fo) => fo.lead_time as int,
        Option::None => 0,
    }
}

/// Resolves the lead time from the catalog lookup result.
pub fn resolve_lead_time(info: &Option<ItemInfo>) -> (r: u32)
    ensures
        r as int == lead_time_spec(*info),
{
    match info {
        Option::Some(fo) => fo.lead_time,
        Option::None => 0,
    }
}

} // verus!
