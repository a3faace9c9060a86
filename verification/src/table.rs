//! The result assembler and the pipeline entry point: joins catalog
//! attributes with per-warehouse statistics into the display table.
use crate::aggregate::{cell_usage, total_jm_qty, total_ship_qty, usage_row, QTY_CAP};
use crate::date::{
    build_calendar, calendar_from, lemma_calendar_len_bound, lemma_years_back, valid_date,
    years_back_spec, Date,
};
use crate::records::{lead_time_spec, resolve_lead_time, ItemInfo, Job, JobMatl, Shipment, WhseReorder};
use crate::resolve::{resolve_warehouses, resolved_spec};
use crate::rolling::{lemma_win_clamp, rolling_sums, win_sum};
use crate::safety::{project_safety, safety_stock_spec, Z95, Z97, Z98, Z99, Z999};
use crate::stats::{max_seq, mean_q4_spec, min_seq, reduce_stats, stdev_q4_spec};
use crate::text::{fmt_q4, fmt_q4_signed, fmt_q4_signed_spec, fmt_q4_spec, parse_q4, parse_q4_spec};
use vstd::prelude::*;

verus! {

pub open spec fn desc_of(info: Option<ItemInfo>) -> Seq<char> {
    match info {
        Option::Some(f) => f.description@,
        Option::None => Seq::empty(),
    }
}

pub open spec fn plan_of(info: Option<ItemInfo>) -> Seq<char> {
    match info {
        Option::Some(f) => f.plan_code@,
        Option::None => Seq::empty(),
    }
}

pub open spec fn order_max_of(info: Option<ItemInfo>) -> Seq<char> {
    match info {
        Option::Some(f) => f.order_max@,
        Option::None => Seq::empty(),
    }
}

pub open spec fn order_min_of(info: Option<ItemInfo>) -> Seq<char> {
    match info {
        Option::Some(f) => f.order_min@,
        Option::None => Seq::empty(),
    }
}

pub open spec fn order_mult_of(info: Option<ItemInfo>) -> Seq<char> {
    match info {
        Option::Some(f) => f.order_mult@,
        Option::None => Seq::empty(),
    }
}

/// The reorder quantity text of warehouse `w`: the first matching record,
/// or empty (read as 0) when the warehouse has no catalog row.
pub open spec fn reorder_of(rs: Seq<WhseReorder>, w: Seq<char>) -> Seq<char>
    decreases rs.len(),
{
    if rs.len() == 0 {
        Seq::empty()
    } else if rs[0].warehouse@ == w {
        rs[0].qty_reorder@
    } else {
        reorder_of(rs.skip(1), w)
    }
}

/// The header row: the thirteen joined columns, then the five service
/// levels.
pub open spec fn header_spec() -> Seq<Seq<char>> {
    seq![
        "Warehouse"@,
        "Planner Code"@,
        "item"@,
        "description"@,
        "Lead time"@,
        "Order Max"@,
        "Order Min"@,
        "Order Multiple"@,
        "Safety Stock"@,
        "Average DDLT"@,
        "STDEV DDLT"@,
        "MAX DDLT"@,
        "MIN DDLT"@,
        "95%"@,
        "97%"@,
        "98%"@,
        "99%"@,
        "99.9%"@,
    ]
}

/// The dense daily-usage series of one warehouse over the calendar.
pub open spec fn series_spec(
    ships: Seq<Shipment>,
    jms: Seq<JobMatl>,
    jobs: Seq<Job>,
    item: Seq<char>,
    w: Seq<char>,
    cal: Seq<Date>,
) -> Seq<u64> {
    Seq::new(cal.len(), |i: int| cell_usage(ships, jms, jobs, item, w, cal[i]) as u64)
}

/// The rolling-sum series of one warehouse.
pub open spec fn roll_spec(
    ships: Seq<Shipment>,
    jms: Seq<JobMatl>,
    jobs: Seq<Job>,
    item: Seq<char>,
    w: Seq<char>,
    cal: Seq<Date>,
    lt: int,
) -> Seq<u64> {
    let series = series_spec(ships, jms, jobs, item, w, cal);
    Seq::new(series.len(), |i: int| win_sum(series, i, lt) as u64)
}

/// One result row: warehouse, catalog attributes, the DDLT statistics, and
/// the five projected safety-stock figures, all as display text.
#[verifier::opaque]
pub open spec fn row_spec(
    item: Seq<char>,
    info: Option<ItemInfo>,
    rs: Seq<WhseReorder>,
    w: Seq<char>,
    roll: Seq<u64>,
) -> Seq<Seq<char>> {
    seq![
        w,
        plan_of(info),
        item,
        desc_of(info),
        fmt_q4_spec(lead_time_spec(info) * 10000),
        fmt_q4_signed_spec(parse_q4_spec(order_max_of(info))),
        fmt_q4_signed_spec(parse_q4_spec(order_min_of(info))),
        fmt_q4_signed_spec(parse_q4_spec(order_mult_of(info))),
        fmt_q4_signed_spec(parse_q4_spec(reorder_of(rs, w))),
        fmt_q4_spec(mean_q4_spec(roll)),
        fmt_q4_spec(stdev_q4_spec(roll)),
        fmt_q4_spec(max_seq(roll)),
        fmt_q4_spec(min_seq(roll)),
        fmt_q4_spec(safety_stock_spec(stdev_q4_spec(roll), Z95 as int)),
        fmt_q4_spec(safety_stock_spec(stdev_q4_spec(roll), Z97 as int)),
        fmt_q4_spec(safety_stock_spec(stdev_q4_spec(roll), Z98 as int)),
        fmt_q4_spec(safety_stock_spec(stdev_q4_spec(roll), Z99 as int)),
        fmt_q4_spec(safety_stock_spec(stdev_q4_spec(roll), Z999 as int)),
    ]
}

/// The whole result table: the header, then one row per resolved warehouse,
/// in resolver order. A deterministic function of the inputs alone.
#[verifier::opaque]
pub open spec fn table_spec(
    item: Seq<char>,
    years: int,
    today: Date,
    info: Option<ItemInfo>,
    rs: Seq<WhseReorder>,
    ships: Seq<Shipment>,
    jms: Seq<JobMatl>,
    jobs: Seq<Job>,
) -> Seq<Seq<Seq<char>>> {
    let cal = calendar_from(years_back_spec(today, years), today);
    let whs = resolved_spec(ships, jms, jobs, item, cal);
    seq![header_spec()] + Seq::new(
        whs.len(),
        |k: int|
            row_spec(
                item,
                info,
                rs,
                whs[k],
                roll_spec(ships, jms, jobs, item, whs[k], cal, lead_time_spec(info)),
            ),
    )
}

/// The table's shape: a header and one row per resolved warehouse.
pub proof fn lemma_table_shape(
    item: Seq<char>,
    years: int,
    today: Date,
    info: Option<ItemInfo>,
    rs: Seq<WhseReorder>,
    ships: Seq<Shipment>,
    jms: Seq<JobMatl>,
    jobs: Seq<Job>,
)
    ensures
        ({
            let cal = calendar_from(years_back_spec(today, years), today);
            let whs = resolved_spec(ships, jms, jobs, item, cal);
            let t = table_spec(item, years, today, info, rs, ships, jms, jobs);
            &&& t.len() == 1 + whs.len()
            &&& t[0] == header_spec()
            &&& forall|k: int|
                0 <= k < whs.len() ==> #[trigger] t[k + 1] == row_spec(
                    item,
                    info,
                    rs,
                    whs[k],
                    roll_spec(ships, jms, jobs, item, whs[k], cal, lead_time_spec(info)),
                )
        }),
{
    reveal(table_spec);
}

/// Repeated invocation with identical inputs yields an identical table:
/// the table is a function of the inputs, with no hidden state.
pub proof fn lemma_idempotent(
    item: Seq<char>,
    years: int,
    today: Date,
    info: Option<ItemInfo>,
    rs: Seq<WhseReorder>,
    ships: Seq<Shipment>,
    jms: Seq<JobMatl>,
    jobs: Seq<Job>,
    t1: Seq<Seq<Seq<char>>>,
    t2: Seq<Seq<Seq<char>>>,
)
    requires
        t1 == table_spec(item, years, today, info, rs, ships, jms, jobs),
        t2 == table_spec(item, years, today, info, rs, ships, jms, jobs),
    ensures
        t1 == t2,
{
}

/// Looks up the reorder-quantity text of warehouse `w`.
pub fn find_reorder(rs: &Vec<WhseReorder>, w: &String) -> (r: String)
    ensures
        r@ == reorder_of(rs@, w@),
{
    let n = rs.len();
    let mut i: usize = 0;
    proof {
        assert(rs@.skip(0) =~= rs@);
    }
    while i < n
        invariant
            n == rs@.len(),
            0 <= i <= n,
            reorder_of(rs@, w@) == reorder_of(rs@.skip(i as int), w@),
        decreases n - i,
    {
        proof {
            assert(rs@.skip(i as int)[0] == rs@[i as int]);
            assert(rs@.skip(i as int).skip(1) =~= rs@.skip(i as int + 1));
        }
        if rs[i].warehouse.eq(w) {
            return rs[i].qty_reorder.clone();
        }
        i = i + 1;
    }
    String::new()
}

/// Builds the header row.
pub fn header_row() -> (r: Vec<String>)
    ensures
        r.deep_view() == header_spec(),
{
    let mut r: Vec<String> = Vec::new();
    r.push("Warehouse".to_owned());
    r.push("Planner Code".to_owned());
    r.push("item".to_owned());
    r.push("description".to_owned());
    r.push("Lead time".to_owned());
    r.push("Order Max".to_owned());
    r.push("Order Min".to_owned());
    r.push("Order Multiple".to_owned());
    r.push("Safety Stock".to_owned());
    r.push("Average DDLT".to_owned());
    r.push("STDEV DDLT".to_owned());
    r.push("MAX DDLT".to_owned());
    r.push("MIN DDLT".to_owned());
    r.push("95%".to_owned());
    r.push("97%".to_owned());
    r.push("98%".to_owned());
    r.push("99%".to_owned());
    r.push("99.9%".to_owned());
    proof {
        assert(r.deep_view() =~= header_spec());
    }
    r
}

/// Builds one result row from a warehouse's rolling-sum series.
fn make_row(
    item: &String,
    info: &Option<ItemInfo>,
    rs: &Vec<WhseReorder>,
    w: &String,
    roll: &Vec<u64>,
) -> (r: Vec<String>)
    requires
        1 <= roll@.len() <= 6000,
        forall|i: int| 0 <= i < roll@.len() ==> (#[trigger] roll@[i]) as int <= 0x2_0000_0000_0000,
    ensures
        r.deep_view() == row_spec(item@, *info, rs@, w@, roll@),
{
    let mut r: Vec<String> = Vec::new();
    r.push(w.clone());
    match info {
        Option::Some(f) => r.push(f.plan_code.clone()),
        Option::None => r.push(String::new()),
    }
    r.push(item.clone());
    match info {
        Option::Some(f) => r.push(f.description.clone()),
        Option::None => r.push(String::new()),
    }
    let lt = resolve_lead_time(info);
    r.push(fmt_q4((lt as u64) * 10000));
    proof {
        reveal_strlit("");
        assert(""@ =~= Seq::<char>::empty());
    }
    let om: i64 = match info {
        Option::Some(f) => parse_q4(f.order_max.as_str()),
        Option::None => parse_q4(""),
    };
    r.push(fmt_q4_signed(om));
    let omin: i64 = match info {
        Option::Some(f) => parse_q4(f.order_min.as_str()),
        Option::None => parse_q4(""),
    };
    r.push(fmt_q4_signed(omin));
    let omult: i64 = match info {
        Option::Some(f) => parse_q4(f.order_mult.as_str()),
        Option::None => parse_q4(""),
    };
    r.push(fmt_q4_signed(omult));
    let reorder = find_reorder(rs, w);
    let rq = parse_q4(reorder.as_str());
    r.push(fmt_q4_signed(rq));
    let st = reduce_stats(roll);
    r.push(fmt_q4(st.mean));
    r.push(fmt_q4(st.stdev));
    r.push(fmt_q4(st.max));
    r.push(fmt_q4(st.min));
    let ss = project_safety(st.stdev);
    r.push(fmt_q4(ss.s95));
    r.push(fmt_q4(ss.s97));
    r.push(fmt_q4(ss.s98));
    r.push(fmt_q4(ss.s99));
    r.push(fmt_q4(ss.s999));
    proof {
        reveal(row_spec);
        assert(r.deep_view() =~= row_spec(item@, *info, rs@, w@, roll@));
    }
    r
}

/// Builds one warehouse's result row from the raw records: dense usage
/// series, rolling window, statistics, projection, formatting.
#[verifier::rlimit(100)]
#[verifier::spinoff_prover]
fn warehouse_row(
    item: &String,
    info: &Option<ItemInfo>,
    reorders: &Vec<WhseReorder>,
    w: &String,
    cal: &Vec<Date>,
    lt: usize,
    lt_eff: usize,
    ships: &Vec<Shipment>,
    jms: &Vec<JobMatl>,
    jobs: &Vec<Job>,
) -> (rowv: Vec<String>)
    requires
        total_ship_qty(ships@) + total_jm_qty(jms@) <= QTY_CAP,
        ships@.len() + jms@.len() < 0x1000_0000_0000_0000,
        1 <= cal@.len() <= 6000,
        lt as int == lead_time_spec(*info),
        lt_eff == (if lt <= cal@.len() {
            lt as int
        } else {
            cal@.len() as int
        }),
    ensures
        rowv.deep_view() == row_spec(
            item@,
            *info,
            reorders@,
            w@,
            roll_spec(ships@, jms@, jobs@, item@, w@, cal@, lead_time_spec(*info)),
        ),
{
    let cells = usage_row(ships, jms, jobs, item, w, cal);
    let nd = cal.len();
    let mut series: Vec<u64> = Vec::new();
    let mut i: usize = 0;
    while i < nd
        invariant
            nd == cal@.len(),
            cells@.len() == nd,
            0 <= i <= nd,
            series@.len() == i,
            forall|j: int| 0 <= j < i ==> (#[trigger] series@[j]) == cells@[j].usage,
        decreases nd - i,
    {
        series.push(cells[i].usage);
        i = i + 1;
    }
    let ghost gseries = series_spec(ships@, jms@, jobs@, item@, w@, cal@);
    proof {
        assert forall|j: int| 0 <= j < nd implies (#[trigger] series@[j]) == gseries[j]
            && series@[j] as int <= 0x10_0000_0000 by {
            crate::aggregate::lemma_ship_usage_le(ships@, ships@.len() as int, item@, w@, cal@[j]);
            crate::aggregate::lemma_jm_usage_le(
                jms@,
                jms@.len() as int,
                jobs@,
                item@,
                w@,
                cal@[j],
            );
            crate::aggregate::lemma_ship_total_mono(ships@, ships@.len() as int);
            crate::aggregate::lemma_jm_total_mono(jms@, jms@.len() as int);
            assert(series@[j] == cells@[j].usage);
        }
        assert(series@ =~= gseries);
    }
    let roll = rolling_sums(&series, lt_eff);
    let ghost groll = roll_spec(ships@, jms@, jobs@, item@, w@, cal@, lead_time_spec(*info));
    proof {
        assert forall|j: int| 0 <= j < nd implies (#[trigger] roll@[j]) == groll[j] by {
            if lt > cal@.len() {
                lemma_win_clamp(gseries, j, lt as int);
            }
        }
        assert(roll@ =~= groll);
    }
    make_row(item, info, reorders, w, &roll)
}

/// The pipeline entry point: from the raw records, the catalog lookup and
/// the lookback window to the display table. An item with no in-window
/// activity yields an empty table; otherwise the table is the header row
/// followed by one row per resolved warehouse.
#[verifier::rlimit(100)]
#[verifier::spinoff_prover]
pub fn compute(
    item: &String,
    years: u8,
    today: Date,
    info: &Option<ItemInfo>,
    reorders: &Vec<WhseReorder>,
    ships: &Vec<Shipment>,
    jms: &Vec<JobMatl>,
    jobs: &Vec<Job>,
) -> (t: Vec<Vec<String>>)
    requires
        valid_date(today),
        1 <= years <= 15,
        today.year > years as i32,
        total_ship_qty(ships@) + total_jm_qty(jms@) <= QTY_CAP,
        ships@.len() + jms@.len() < 0x1000_0000_0000_0000,
    ensures
        ({
            let cal = calendar_from(years_back_spec(today, years as int), today);
            let whs = resolved_spec(ships@, jms@, jobs@, item@, cal);
            &&& (whs.len() == 0 ==> t@.len() == 0)
            &&& (whs.len() > 0 ==> t.deep_view() == table_spec(
                item@,
                years as int,
                today,
                *info,
                reorders@,
                ships@,
                jms@,
                jobs@,
            ))
        }),
{
    let ghost gcal = calendar_from(years_back_spec(today, years as int), today);
    let ghost gwhs = resolved_spec(ships@, jms@, jobs@, item@, gcal);
    let ghost tspec = table_spec(
        item@,
        years as int,
        today,
        *info,
        reorders@,
        ships@,
        jms@,
        jobs@,
    );
    let cal = build_calendar(today, years);
    proof {
        lemma_years_back(today, years as int);
        lemma_calendar_len_bound(years_back_spec(today, years as int), today);
        assert(cal@.len() <= 6000);
    }
    let whs = resolve_warehouses(ships, jms, jobs, item, &cal);
    if whs.len() == 0 {
        return Vec::new();
    }
    let lt32 = resolve_lead_time(info);
    let lt: usize = lt32 as usize;
    let lt_eff: usize = if lt <= cal.len() {
        lt
    } else {
        cal.len()
    };
    let mut t: Vec<Vec<String>> = Vec::new();
    t.push(header_row());
    proof {
        lemma_table_shape(item@, years as int, today, *info, reorders@, ships@, jms@, jobs@);
        assert(t.deep_view() =~= tspec.take(1));
    }
    let nw = whs.len();
    let mut k: usize = 0;
    while k < nw
        invariant
            nw == whs@.len(),
            0 <= k <= nw,
            total_ship_qty(ships@) + total_jm_qty(jms@) <= QTY_CAP,
            ships@.len() + jms@.len() < 0x1000_0000_0000_0000,
            gcal == calendar_from(years_back_spec(today, years as int), today),
            gwhs == resolved_spec(ships@, jms@, jobs@, item@, gcal),
            tspec == table_spec(item@, years as int, today, *info, reorders@, ships@, jms@, jobs@),
            tspec.len() == 1 + gwhs.len(),
            cal@ == gcal,
            1 <= cal@.len() <= 6000,
            whs.deep_view() == gwhs,
            lt as int == lead_time_spec(*info),
            lt_eff == (if lt <= cal@.len() {
                lt as int
            } else {
                cal@.len() as int
            }),
            t.deep_view() == tspec.take(k as int + 1),
        decreases nw - k,
    {
        let rowv = warehouse_row(item, info, reorders, &whs[k], &cal, lt, lt_eff, ships, jms, jobs);
        let ghost pre = t.deep_view();
        let ghost rowdv = rowv.deep_view();
        t.push(rowv);
        proof {
            lemma_table_shape(item@, years as int, today, *info, reorders@, ships@, jms@, jobs@);
            assert(whs.deep_view()[k as int] == whs@[k as int]@);
            assert(gwhs[k as int] == whs@[k as int]@);
            assert(rowdv == row_spec(
                item@,
                *info,
                reorders@,
                gwhs[k as int],
                roll_spec(
                    ships@,
                    jms@,
                    jobs@,
                    item@,
                    gwhs[k as int],
                    gcal,
                    lead_time_spec(*info),
                ),
            ));
            assert(rowdv == tspec[k as int + 1]);
            assert(t.deep_view() =~= pre.push(rowdv));
            assert(tspec[k as int + 1] == row_spec(
                item@,
                *info,
                reorders@,
                gwhs[k as int],
                roll_spec(
                    ships@,
                    jms@,
                    jobs@,
                    item@,
                    gwhs[k as int],
                    gcal,
                    lead_time_spec(*info),
                ),
            ));
            assert(t.deep_view() =~= tspec.take(k as int + 2));
        }
        k = k + 1;
    }
    proof {
        lemma_table_shape(item@, years as int, today, *info, reorders@, ships@, jms@, jobs@);
        assert(tspec.take(nw as int + 1) =~= tspec);
    }
    t
}

} // verus!
