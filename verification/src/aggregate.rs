//! The usage aggregator: merges shipment quantities and job-material
//! consumption into one dense (warehouse, day) grid of daily usage and hits.
use crate::date::Date;
use crate::records::{Cell, Job, JobMatl, Shipment};
use crate::resolve::job_of;
use vstd::prelude::*;

verus! {

/// The largest admissible combined quantity (Q4) over all records: keeps
/// every cell, window sum and square inside machine arithmetic.
pub const QTY_CAP: u64 = 0x10_0000_0000;

pub open spec fn ship_matches(sh: Shipment, item: Seq<char>, w: Seq<char>, d: Date) -> bool {
    sh.item@ == item && sh.warehouse@ == w && sh.date == d
}

pub open spec fn jm_matches(
    jm: JobMatl,
    jobs: Seq<Job>,
    item: Seq<char>,
    w: Seq<char>,
    d: Date,
) -> bool {
    jm.item@ == item && match job_of(jobs, jm.job_id@) {
        Option::Some(j) => j.warehouse@ == w && j.date == d,
        Option::None => false,
    }
}

/// Shipment quantity contributed to cell (w, d) by the first `k` records.
pub open spec fn ship_usage_upto(
    ships: Seq<Shipment>,
    k: int,
    item: Seq<char>,
    w: Seq<char>,
    d: Date,
) -> int
    decreases k,
{
    if k <= 0 {
        0
    } else {
        ship_usage_upto(ships, k - 1, item, w, d) + if ship_matches(ships[k - 1], item, w, d) {
            ships[k - 1].qty as int
        } else {
            0
        }
    }
}

pub open spec fn ship_hits_upto(
    ships: Seq<Shipment>,
    k: int,
    item: Seq<char>,
    w: Seq<char>,
    d: Date,
) -> int
    decreases k,
{
    if k <= 0 {
        0
    } else {
        ship_hits_upto(ships, k - 1, item, w, d) + if ship_matches(ships[k - 1], item, w, d) {
            1int
        } else {
            0int
        }
    }
}

/// Job-material quantity contributed to cell (w, d) by the first `k` records.
pub open spec fn jm_usage_upto(
    jms: Seq<JobMatl>,
    k: int,
    jobs: Seq<Job>,
    item: Seq<char>,
    w: Seq<char>,
    d: Date,
) -> int
    decreases k,
{
    if k <= 0 {
        0
    } else {
        jm_usage_upto(jms, k - 1, jobs, item, w, d) + if jm_matches(jms[k - 1], jobs, item, w, d) {
            jms[k - 1].qty as int
        } else {
            0
        }
    }
}

pub open spec fn jm_hits_upto(
    jms: Seq<JobMatl>,
    k: int,
    jobs: Seq<Job>,
    item: Seq<char>,
    w: Seq<char>,
    d: Date,
) -> int
    decreases k,
{
    if k <= 0 {
        0
    } else {
        jm_hits_upto(jms, k - 1, jobs, item, w, d) + if jm_matches(jms[k - 1], jobs, item, w, d) {
            1int
        } else {
            0int
        }
    }
}

/// The combined quantity of the first `k` shipment records, matching or not.
pub open spec fn total_ship_qty_upto(ships: Seq<Shipment>, k: int) -> int
    decreases k,
{
    if k <= 0 {
        0
    } else {
        total_ship_qty_upto(ships, k - 1) + ships[k - 1].qty as int
    }
}

pub open spec fn total_jm_qty_upto(jms: Seq<JobMatl>, k: int) -> int
    decreases k,
{
    if k <= 0 {
        0
    } else {
        total_jm_qty_upto(jms, k - 1) + jms[k - 1].qty as int
    }
}

pub open spec fn total_ship_qty(ships: Seq<Shipment>) -> int {
    total_ship_qty_upto(ships, ships.len() as int)
}

pub open spec fn total_jm_qty(jms: Seq<JobMatl>) -> int {
    total_jm_qty_upto(jms, jms.len() as int)
}

/// Daily usage of cell (w, d): shipments plus job consumption, zero when
/// no record matches.
pub open spec fn cell_usage(
    ships: Seq<Shipment>,
    jms: Seq<JobMatl>,
    jobs: Seq<Job>,
    item: Seq<char>,
    w: Seq<char>,
    d: Date,
) -> int {
    ship_usage_upto(ships, ships.len() as int, item, w, d) + jm_usage_upto(
        jms,
        jms.len() as int,
        jobs,
        item,
        w,
        d,
    )
}

/// Transaction count of cell (w, d).
pub open spec fn cell_hits(
    ships: Seq<Shipment>,
    jms: Seq<JobMatl>,
    jobs: Seq<Job>,
    item: Seq<char>,
    w: Seq<char>,
    d: Date,
) -> int {
    ship_hits_upto(ships, ships.len() as int, item, w, d) + jm_hits_upto(
        jms,
        jms.len() as int,
        jobs,
        item,
        w,
        d,
    )
}

pub proof fn lemma_ship_usage_le(ships: Seq<Shipment>, k: int, item: Seq<char>, w: Seq<char>, d: Date)
    ensures
        0 <= ship_usage_upto(ships, k, item, w, d) <= total_ship_qty_upto(ships, k),
        0 <= total_ship_qty_upto(ships, k),
        0 <= ship_hits_upto(ships, k, item, w, d) <= (if k >= 0 {
            k
        } else {
            0
        }),
    decreases k,
{
    if k > 0 {
        lemma_ship_usage_le(ships, k - 1, item, w, d);
    }
}

pub proof fn lemma_ship_total_mono(ships: Seq<Shipment>, k: int)
    requires
        0 <= k <= ships.len(),
    ensures
        total_ship_qty_upto(ships, k) <= total_ship_qty(ships),
    decreases ships.len() - k,
{
    if k < ships.len() {
        lemma_ship_total_mono(ships, k + 1);
    }
}

pub proof fn lemma_jm_usage_le(
    jms: Seq<JobMatl>,
    k: int,
    jobs: Seq<Job>,
    item: Seq<char>,
    w: Seq<char>,
    d: Date,
)
    ensures
        0 <= jm_usage_upto(jms, k, jobs, item, w, d) <= total_jm_qty_upto(jms, k),
        0 <= total_jm_qty_upto(jms, k),
        0 <= jm_hits_upto(jms, k, jobs, item, w, d) <= (if k >= 0 {
            k
        } else {
            0
        }),
    decreases k,
{
    if k > 0 {
        lemma_jm_usage_le(jms, k - 1, jobs, item, w, d);
    }
}

pub proof fn lemma_jm_total_mono(jms: Seq<JobMatl>, k: int)
    requires
        0 <= k <= jms.len(),
    ensures
        total_jm_qty_upto(jms, k) <= total_jm_qty(jms),
    decreases jms.len() - k,
{
    if k < jms.len() {
        lemma_jm_total_mono(jms, k + 1);
    }
}

/// The dense usage row of one warehouse: one cell per calendar day, each
/// holding the merged daily usage and hit count of the two record sources.
pub fn usage_row(
    ships: &Vec<Shipment>,
    jms: &Vec<JobMatl>,
    jobs: &Vec<Job>,
    item: &String,
    w: &String,
    cal: &Vec<Date>,
) -> (row: Vec<Cell>)
    requires
        total_ship_qty(ships@) + total_jm_qty(jms@) <= QTY_CAP,
        ships@.len() + jms@.len() < 0x1000_0000_0000_0000,
    ensures
        row@.len() == cal@.len(),
        forall|i: int|
            0 <= i < cal@.len() ==> (#[trigger] row@[i]).usage as int == cell_usage(
                ships@,
                jms@,
                jobs@,
                item@,
                w@,
                cal@[i],
            ) && row@[i].hits as int == cell_hits(ships@, jms@, jobs@, item@, w@, cal@[i]),
{
    let nd = cal.len();
    let mut row: Vec<Cell> = Vec::new();
    let mut di: usize = 0;
    while di < nd
        invariant
            nd == cal@.len(),
            0 <= di <= nd,
            row@.len() == di,
            total_ship_qty(ships@) + total_jm_qty(jms@) <= QTY_CAP,
            ships@.len() + jms@.len() < 0x1000_0000_0000_0000,
            forall|i: int|
                0 <= i < di ==> (#[trigger] row@[i]).usage as int == cell_usage(
                    ships@,
                    jms@,
                    jobs@,
                    item@,
                    w@,
                    cal@[i],
                ) && row@[i].hits as int == cell_hits(ships@, jms@, jobs@, item@, w@, cal@[i]),
        decreases nd - di,
    {
        let d = cal[di];
        let ns = ships.len();
        let mut su: u64 = 0;
        let mut sh: u64 = 0;
        let mut k: usize = 0;
        while k < ns
            invariant
                ns == ships@.len(),
                0 <= k <= ns,
                total_ship_qty(ships@) + total_jm_qty(jms@) <= QTY_CAP,
                ships@.len() + jms@.len() < 0x1000_0000_0000_0000,
                su as int == ship_usage_upto(ships@, k as int, item@, w@, d),
                sh as int == ship_hits_upto(ships@, k as int, item@, w@, d),
            decreases ns - k,
        {
            proof {
                lemma_ship_usage_le(ships@, k as int + 1, item@, w@, d);
                lemma_ship_total_mono(ships@, k as int + 1);
                lemma_jm_usage_le(jms@, jms@.len() as int, jobs@, item@, w@, d);
            }
            if ships[k].item.eq(item) && ships[k].warehouse.eq(w) && ships[k].date == d {
                su = su + ships[k].qty;
                sh = sh + 1;
            }
            k = k + 1;
        }
        let nj = jms.len();
        let mut ju: u64 = 0;
        let mut jh: u64 = 0;
        let mut l: usize = 0;
        while l < nj
            invariant
                nj == jms@.len(),
                0 <= l <= nj,
                total_ship_qty(ships@) + total_jm_qty(jms@) <= QTY_CAP,
                ships@.len() + jms@.len() < 0x1000_0000_0000_0000,
                ju as int == jm_usage_upto(jms@, l as int, jobs@, item@, w@, d),
                jh as int == jm_hits_upto(jms@, l as int, jobs@, item@, w@, d),
            decreases nj - l,
        {
            proof {
                lemma_jm_usage_le(jms@, l as int + 1, jobs@, item@, w@, d);
                lemma_jm_total_mono(jms@, l as int + 1);
                lemma_ship_usage_le(ships@, ships@.len() as int, item@, w@, d);
            }
            if jms[l].item.eq(item) {
                match crate::resolve::find_job(jobs, &jms[l].job_id) {
                    Some(jb) => {
                        if jb.warehouse.eq(w) && jb.date == d {
                            proof {
                                assert(jm_matches(jms@[l as int], jobs@, item@, w@, d));
                                assert(jm_usage_upto(jms@, l as int + 1, jobs@, item@, w@, d)
                                    == ju as int + jms@[l as int].qty as int);
                            }
                            ju = ju + jms[l].qty;
                            jh = jh + 1;
                        }
                    },
                    None => {},
                }
            }
            l = l + 1;
        }
        proof {
            lemma_ship_usage_le(ships@, ships@.len() as int, item@, w@, d);
            lemma_jm_usage_le(jms@, jms@.len() as int, jobs@, item@, w@, d);
        }
        row.push(Cell { usage: su + ju, hits: sh + jh });
        di = di + 1;
    }
    row
}

/// The dense grid: one usage row per resolved warehouse, each row one cell
/// per calendar day, every cell defined (possibly zero).
pub fn aggregate_grid(
    ships: &Vec<Shipment>,
    jms: &Vec<JobMatl>,
    jobs: &Vec<Job>,
    item: &String,
    whs: &Vec<String>,
    cal: &Vec<Date>,
) -> (grid: Vec<Vec<Cell>>)
    requires
        total_ship_qty(ships@) + total_jm_qty(jms@) <= QTY_CAP,
        ships@.len() + jms@.len() < 0x1000_0000_0000_0000,
    ensures
        grid@.len() == whs@.len(),
        forall|wi: int| 0 <= wi < whs@.len() ==> (#[trigger] grid@[wi])@.len() == cal@.len(),
        forall|wi: int, i: int|
            0 <= wi < whs@.len() && 0 <= i < cal@.len() ==> ((#[trigger] grid@[wi]@[i]).usage as int
                == cell_usage(ships@, jms@, jobs@, item@, whs@[wi]@, cal@[i]) && grid@[wi]@[i].hits
                as int == cell_hits(ships@, jms@, jobs@, item@, whs@[wi]@, cal@[i])),
{
    let nw = whs.len();
    let mut grid: Vec<Vec<Cell>> = Vec::new();
    let mut wi: usize = 0;
    while wi < nw
        invariant
            nw == whs@.len(),
            0 <= wi <= nw,
            grid@.len() == wi,
            total_ship_qty(ships@) + total_jm_qty(jms@) <= QTY_CAP,
            ships@.len() + jms@.len() < 0x1000_0000_0000_0000,
            forall|v: int| 0 <= v < wi ==> (#[trigger] grid@[v])@.len() == cal@.len(),
            forall|v: int, i: int|
                0 <= v < wi && 0 <= i < cal@.len() ==> ((#[trigger] grid@[v]@[i]).usage as int
                    == cell_usage(ships@, jms@, jobs@, item@, whs@[v]@, cal@[i])
                    && grid@[v]@[i].hits as int == cell_hits(
                    ships@,
                    jms@,
                    jobs@,
                    item@,
                    whs@[v]@,
                    cal@[i],
                )),
        decreases nw - wi,
    {
        let row = usage_row(ships, jms, jobs, item, &whs[wi], cal);
        grid.push(row);
        wi = wi + 1;
    }
    grid
}

} // verus!
