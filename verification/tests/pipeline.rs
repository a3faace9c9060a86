use ddlt::aggregate::aggregate_grid;
use ddlt::date::{build_calendar, Date};
use ddlt::records::{ItemInfo, Job, JobMatl, Shipment, WhseReorder};
use ddlt::resolve::resolve_warehouses;
use ddlt::rolling::{rolling_sums, window_sum_naive};
use ddlt::table::compute;
use ddlt::DdltApp;

fn d(year: i32, month: u8, day: u8) -> Date {
    Date { year, month, day }
}

fn ship(item: &str, warehouse: &str, date: Date, qty: u64) -> Shipment {
    Shipment { item: item.to_owned(), warehouse: warehouse.to_owned(), date, qty }
}

#[test]
fn app_state_defaults() {
    let app = DdltApp::default();
    assert_eq!(app.name, "");
    assert_eq!(app.years, 3);
    assert!(app.table.is_empty());
}

#[test]
fn calendar_one_year() {
    let cal = build_calendar(d(2026, 10, 11), 1);
    assert_eq!(cal.len(), 366);
    assert_eq!(cal[0], d(2025, 10, 11));
    assert_eq!(cal[cal.len() - 1], d(2026, 10, 11));
    for w in cal.windows(2) {
        assert!((w[0].year, w[0].month, w[0].day) < (w[1].year, w[1].month, w[1].day));
    }
}

#[test]
fn calendar_three_years_spans_leap_day() {
    let cal = build_calendar(d(2026, 10, 11), 3);
    // 3 * 365 days back, plus one leap day (2024-02-29), plus the inclusive end
    assert_eq!(cal.len(), 3 * 365 + 1 + 1);
    assert_eq!(cal[0], d(2023, 10, 11));
}

#[test]
fn calendar_clamps_leap_day_start() {
    let cal = build_calendar(d(2024, 2, 29), 1);
    assert_eq!(cal[0], d(2023, 2, 28));
    assert_eq!(cal[cal.len() - 1], d(2024, 2, 29));
    assert_eq!(cal.len(), 367);
}

#[test]
fn resolver_takes_union_of_sources() {
    let cal = build_calendar(d(2026, 10, 11), 1);
    let ships = vec![
        ship("A100", "WH1", d(2026, 3, 1), 10000),
        ship("A100", "WH1", d(2026, 3, 2), 10000),
        ship("OTHER", "WH2", d(2026, 3, 1), 10000),
        ship("A100", "WH3", d(2020, 3, 1), 10000), // outside the window
    ];
    let jms = vec![JobMatl { job_id: "J1".to_owned(), item: "A100".to_owned(), qty: 5000 }];
    let jobs = vec![Job {
        job_id: "J1".to_owned(),
        warehouse: "WH9".to_owned(),
        date: d(2026, 4, 1),
    }];
    let whs = resolve_warehouses(&ships, &jms, &jobs, &"A100".to_owned(), &cal);
    assert_eq!(whs, vec!["WH1".to_owned(), "WH9".to_owned()]);
}

#[test]
fn job_only_warehouse_reaches_final_result() {
    let jms = vec![JobMatl { job_id: "J7".to_owned(), item: "A100".to_owned(), qty: 30000 }];
    let jobs = vec![Job {
        job_id: "J7".to_owned(),
        warehouse: "WHJ".to_owned(),
        date: d(2026, 5, 5),
    }];
    let t = compute(
        &"A100".to_owned(),
        1,
        d(2026, 10, 11),
        &None,
        &Vec::new(),
        &Vec::new(),
        &jms,
        &jobs,
    );
    assert_eq!(t.len(), 2);
    assert_eq!(t[1][0], "WHJ");
}

#[test]
fn dense_grid_covers_every_cell() {
    let cal = build_calendar(d(2026, 10, 11), 1);
    let ships = vec![ship("A100", "WH1", d(2026, 3, 1), 25000)];
    let jms = vec![JobMatl { job_id: "J1".to_owned(), item: "A100".to_owned(), qty: 30000 }];
    let jobs = vec![Job {
        job_id: "J1".to_owned(),
        warehouse: "WH1".to_owned(),
        date: d(2026, 3, 1),
    }];
    let whs = vec!["WH1".to_owned(), "WH2".to_owned()];
    let grid = aggregate_grid(&ships, &jms, &jobs, &"A100".to_owned(), &whs, &cal);
    assert_eq!(grid.len(), 2);
    for row in &grid {
        assert_eq!(row.len(), cal.len());
    }
    let day_idx = cal.iter().position(|x| *x == d(2026, 3, 1)).unwrap();
    // both sources merge into one cell: 2.5 shipped + 3.0 consumed, two hits
    assert_eq!(grid[0][day_idx].usage, 55000);
    assert_eq!(grid[0][day_idx].hits, 2);
    // every other cell of WH1, and all of WH2, is zero-filled
    for (i, c) in grid[0].iter().enumerate() {
        if i != day_idx {
            assert_eq!((c.usage, c.hits), (0, 0));
        }
    }
    for c in &grid[1] {
        assert_eq!((c.usage, c.hits), (0, 0));
    }
}

#[test]
fn rolling_with_zero_lead_time_is_identity() {
    let u: Vec<u64> = vec![10000, 20000, 30000];
    assert_eq!(rolling_sums(&u, 0), u);
}

#[test]
fn rolling_truncates_at_series_end() {
    let u: Vec<u64> = vec![10000, 20000, 30000];
    // windows of two days; the last window has only the final day
    assert_eq!(rolling_sums(&u, 1), vec![30000, 50000, 30000]);
}

#[test]
fn running_sum_matches_naive_resummation() {
    // a fixed pseudo-random series
    let mut x: u64 = 12345;
    let mut u: Vec<u64> = Vec::new();
    for _ in 0..200 {
        x = x.wrapping_mul(6364136223846793005).wrapping_add(1442695040888963407);
        u.push(x % 100000);
    }
    for lt in [0usize, 1, 3, 7, 30, 250] {
        let fast = rolling_sums(&u, lt);
        for i in 0..u.len() {
            assert_eq!(fast[i], window_sum_naive(&u, i, lt));
        }
    }
}

fn constant_usage_inputs() -> (Vec<Shipment>, Option<ItemInfo>, Vec<WhseReorder>) {
    let cal = build_calendar(d(2026, 10, 11), 1);
    let mut ships = Vec::new();
    for day in cal {
        ships.push(ship("A100", "WH1", day, 100000));
    }
    let info = Some(ItemInfo {
        item: "A100".to_owned(),
        description: "Test item".to_owned(),
        plan_code: "P".to_owned(),
        lead_time: 5,
        order_max: "100".to_owned(),
        order_min: "1".to_owned(),
        order_mult: "2.5".to_owned(),
    });
    let reorders = vec![WhseReorder { warehouse: "WH1".to_owned(), qty_reorder: "7".to_owned() }];
    (ships, info, reorders)
}

#[test]
fn end_to_end_constant_usage() {
    let (ships, info, reorders) = constant_usage_inputs();
    let t = compute(
        &"A100".to_owned(),
        1,
        d(2026, 10, 11),
        &info,
        &reorders,
        &ships,
        &Vec::new(),
        &Vec::new(),
    );
    assert_eq!(t.len(), 2);
    assert_eq!(
        t[0],
        vec![
            "Warehouse", "Planner Code", "item", "description", "Lead time", "Order Max",
            "Order Min", "Order Multiple", "Safety Stock", "Average DDLT", "STDEV DDLT",
            "MAX DDLT", "MIN DDLT", "95%", "97%", "98%", "99%", "99.9%",
        ]
    );
    let row = &t[1];
    assert_eq!(row[0], "WH1");
    assert_eq!(row[1], "P");
    assert_eq!(row[2], "A100");
    assert_eq!(row[3], "Test item");
    assert_eq!(row[4], "5.00");
    assert_eq!(row[5], "100.00");
    assert_eq!(row[6], "1.00");
    assert_eq!(row[7], "2.50");
    assert_eq!(row[8], "7.00");
    let mean: f64 = row[9].parse().unwrap();
    assert!((mean - 59.59).abs() < 0.02, "mean {mean}");
    let sd: f64 = row[10].parse().unwrap();
    assert!(sd > 3.0 && sd < 4.5, "stdev {sd}");
    assert_eq!(row[11], "60.00");
    assert_eq!(row[12], "10.00");
    let s95: f64 = row[13].parse().unwrap();
    assert!((s95 - sd * 1.6449).abs() < 0.02, "s95 {s95}");
}

#[test]
fn repeated_invocation_is_identical() {
    let (ships, info, reorders) = constant_usage_inputs();
    let run = || {
        compute(
            &"A100".to_owned(),
            1,
            d(2026, 10, 11),
            &info,
            &reorders,
            &ships,
            &Vec::new(),
            &Vec::new(),
        )
    };
    assert_eq!(run(), run());
}

#[test]
fn unknown_item_yields_empty_table() {
    let (ships, info, reorders) = constant_usage_inputs();
    let t = compute(
        &"NOPE".to_owned(),
        1,
        d(2026, 10, 11),
        &info,
        &reorders,
        &ships,
        &Vec::new(),
        &Vec::new(),
    );
    assert!(t.is_empty());
}
