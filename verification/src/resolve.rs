//! The warehouse resolver: the set of warehouses with recorded activity for
//! the item inside the lookback window, in first-appearance order.
use crate::date::Date;
use crate::records::{Job, JobMatl, Shipment};
use vstd::prelude::*;

verus! {

/// The first job with the given id, if any.
pub open spec fn job_of(jobs: Seq<Job>, id: Seq<char>) -> Option<Job>
    decreases jobs.len(),
{
    if jobs.len() == 0 {
        Option::None
    } else if jobs[0].job_id@ == id {
        Option::Some(jobs[0])
    } else {
        job_of(jobs.skip(1), id)
    }
}

/// Appends `w` unless it is already present.
pub open spec fn push_unique(acc: Seq<Seq<char>>, w: Seq<char>) -> Seq<Seq<char>> {
    if acc.contains(w) {
        acc
    } else {
        acc.push(w)
    }
}

/// Whether a shipment record is in-window evidence for its warehouse.
pub open spec fn ship_in_window(sh: Shipment, item: Seq<char>, cal: Seq<Date>) -> bool {
    sh.item@ == item && cal.contains(sh.date)
}

/// Whether a job-consumption record is in-window evidence: it names the
/// item and its job resolves to a warehouse and an in-window date.
pub open spec fn jm_in_window(jm: JobMatl, jobs: Seq<Job>, item: Seq<char>, cal: Seq<Date>) -> bool {
    jm.item@ == item && match job_of(jobs, jm.job_id@) {
        Option::Some(j) => cal.contains(j.date),
        Option::None => false,
    }
}

/// Folds shipment evidence into the accumulator, in record order.
pub open spec fn resolve_ships(
    acc: Seq<Seq<char>>,
    ships: Seq<Shipment>,
    item: Seq<char>,
    cal: Seq<Date>,
) -> Seq<Seq<char>>
    decreases ships.len(),
{
    if ships.len() == 0 {
        acc
    } else {
        let acc2 = if ship_in_window(ships[0], item, cal) {
            push_unique(acc, ships[0].warehouse@)
        } else {
            acc
        };
        resolve_ships(acc2, ships.skip(1), item, cal)
    }
}

/// The warehouse a job-consumption record resolves to through its job.
pub open spec fn jm_warehouse(jm: JobMatl, jobs: Seq<Job>) -> Seq<char> {
    match job_of(jobs, jm.job_id@) {
        Option::Some(j) => j.warehouse@,
        Option::None => Seq::empty(),
    }
}

/// Folds job-consumption evidence into the accumulator, in record order.
pub open spec fn resolve_jms(
    acc: Seq<Seq<char>>,
    jms: Seq<JobMatl>,
    jobs: Seq<Job>,
    item: Seq<char>,
    cal: Seq<Date>,
) -> Seq<Seq<char>>
    decreases jms.len(),
{
    if jms.len() == 0 {
        acc
    } else {
        let acc2 = if jm_in_window(jms[0], jobs, item, cal) {
            push_unique(acc, jm_warehouse(jms[0], jobs))
        } else {
            acc
        };
        resolve_jms(acc2, jms.skip(1), jobs, item, cal)
    }
}

/// The resolved warehouse sequence: shipment evidence first, then job
/// evidence, duplicates collapsed, first appearance fixing the order.
pub open spec fn resolved_spec(
    ships: Seq<Shipment>,
    jms: Seq<JobMatl>,
    jobs: Seq<Job>,
    item: Seq<char>,
    cal: Seq<Date>,
) -> Seq<Seq<char>> {
    resolve_jms(resolve_ships(Seq::empty(), ships, item, cal), jms, jobs, item, cal)
}

pub proof fn lemma_push_unique_contains(acc: Seq<Seq<char>>, w: Seq<char>)
    ensures
        push_unique(acc, w).contains(w),
{
    if !acc.contains(w) {
        assert(push_unique(acc, w)[acc.len() as int] == w);
    }
}

pub proof fn lemma_push_unique_keeps(acc: Seq<Seq<char>>, w: Seq<char>, v: Seq<char>)
    requires
        acc.contains(v),
    ensures
        push_unique(acc, w).contains(v),
{
    let i = choose|i: int| 0 <= i < acc.len() && acc[i] == v;
    assert(push_unique(acc, w)[i] == v);
}

/// Whatever the accumulator already holds survives the job-evidence fold.
pub proof fn lemma_resolve_jms_mono(
    acc: Seq<Seq<char>>,
    jms: Seq<JobMatl>,
    jobs: Seq<Job>,
    item: Seq<char>,
    cal: Seq<Date>,
    v: Seq<char>,
)
    requires
        acc.contains(v),
    ensures
        resolve_jms(acc, jms, jobs, item, cal).contains(v),
    decreases jms.len(),
{
    if jms.len() > 0 {
        if jm_in_window(jms[0], jobs, item, cal) {
            lemma_push_unique_keeps(acc, jm_warehouse(jms[0], jobs), v);
            lemma_resolve_jms_mono(
                push_unique(acc, jm_warehouse(jms[0], jobs)),
                jms.skip(1),
                jobs,
                item,
                cal,
                v,
            );
        } else {
            lemma_resolve_jms_mono(acc, jms.skip(1), jobs, item, cal, v);
        }
    }
}

/// An in-window job-consumption record puts its warehouse into the fold's
/// result, whatever the accumulator held.
pub proof fn lemma_resolve_jms_evidence(
    acc: Seq<Seq<char>>,
    jms: Seq<JobMatl>,
    jobs: Seq<Job>,
    item: Seq<char>,
    cal: Seq<Date>,
    k: int,
)
    requires
        0 <= k < jms.len(),
        jm_in_window(jms[k], jobs, item, cal),
    ensures
        resolve_jms(acc, jms, jobs, item, cal).contains(jm_warehouse(jms[k], jobs)),
    decreases k,
{
    if k == 0 {
        let acc2 = push_unique(acc, jm_warehouse(jms[0], jobs));
        lemma_push_unique_contains(acc, jm_warehouse(jms[0], jobs));
        lemma_resolve_jms_mono(acc2, jms.skip(1), jobs, item, cal, jm_warehouse(jms[0], jobs));
    } else {
        let acc2 = if jm_in_window(jms[0], jobs, item, cal) {
            push_unique(acc, jm_warehouse(jms[0], jobs))
        } else {
            acc
        };
        assert(jms.skip(1)[k - 1] == jms[k]);
        lemma_resolve_jms_evidence(acc2, jms.skip(1), jobs, item, cal, k - 1);
    }
}

/// A warehouse seen only in job-consumption records still reaches the
/// resolved set: in-window job evidence alone suffices, shipments or none.
pub proof fn lemma_job_only_warehouse_included(
    ships: Seq<Shipment>,
    jms: Seq<JobMatl>,
    jobs: Seq<Job>,
    item: Seq<char>,
    cal: Seq<Date>,
    k: int,
)
    requires
        0 <= k < jms.len(),
        jm_in_window(jms[k], jobs, item, cal),
    ensures
        resolved_spec(ships, jms, jobs, item, cal).contains(jm_warehouse(jms[k], jobs)),
{
    lemma_resolve_jms_evidence(
        resolve_ships(Seq::empty(), ships, item, cal),
        jms,
        jobs,
        item,
        cal,
        k,
    );
}

/// Whether `d` occurs in the calendar.
pub fn cal_contains(cal: &Vec<Date>, d: Date) -> (r: bool)
    ensures
        r == cal@.contains(d),
{
    let n = cal.len();
    let mut i: usize = 0;
    while i < n
        invariant
            n == cal@.len(),
            0 <= i <= n,
            forall|k: int| 0 <= k < i ==> cal@[k] != d,
        decreases n - i,
    {
        if cal[i] == d {
            return true;
        }
        i = i + 1;
    }
    false
}

/// Whether some entry of `v` holds the same characters as `s`.
pub fn vec_contains_string(v: &Vec<String>, s: &String) -> (r: bool)
    ensures
        r == v.deep_view().contains(s@),
{
    let n = v.len();
    let mut i: usize = 0;
    while i < n
        invariant
            n == v@.len(),
            0 <= i <= n,
            forall|k: int| 0 <= k < i ==> v.deep_view()[k] != s@,
        decreases n - i,
    {
        if v[i].eq(s) {
            proof {
                assert(v.deep_view()[i as int] == v@[i as int]@);
            }
            return true;
        }
        proof {
            assert(v.deep_view()[i as int] == v@[i as int]@);
        }
        i = i + 1;
    }
    false
}

/// Looks up the first job with the given id.
pub fn find_job(jobs: &Vec<Job>, id: &String) -> (r: Option<Job>)
    ensures
        match r {
            Option::Some(j) => job_of(jobs@, id@) == Option::Some(j),
            Option::None => job_of(jobs@, id@) is None,
        },
{
    let n = jobs.len();
    let mut i: usize = 0;
    proof {
        assert(jobs@.skip(0) =~= jobs@);
    }
    while i < n
        invariant
            n == jobs@.len(),
            0 <= i <= n,
            job_of(jobs@, id@) == job_of(jobs@.skip(i as int), id@),
        decreases n - i,
    {
        if jobs[i].job_id.eq(id) {
            proof {
                assert(jobs@.skip(i as int)[0] == jobs@[i as int]);
            }
            return Some(Job {
                job_id: jobs[i].job_id.clone(),
                warehouse: jobs[i].warehouse.clone(),
                date: jobs[i].date,
            });
        }
        proof {
            assert(jobs@.skip(i as int)[0] == jobs@[i as int]);
            assert(jobs@.skip(i as int).skip(1) =~= jobs@.skip(i as int + 1));
        }
        i = i + 1;
    }
    None
}

/// Resolves the warehouses relevant to the item: those seen in in-window
/// shipment records, united with those of in-window jobs that consumed the
/// item; first appearance fixes the order, and no warehouse repeats.
pub fn resolve_warehouses(
    ships: &Vec<Shipment>,
    jms: &Vec<JobMatl>,
    jobs: &Vec<Job>,
    item: &String,
    cal: &Vec<Date>,
) -> (r: Vec<String>)
    ensures
        r.deep_view() == resolved_spec(ships@, jms@, jobs@, item@, cal@),
        forall|k: int, l: int| 0 <= k < l < r@.len() ==> r.deep_view()[k] != r.deep_view()[l],
{
    let mut acc: Vec<String> = Vec::new();
    let ghost acc0 = resolve_ships(Seq::empty(), ships@, item@, cal@);
    let n = ships.len();
    let mut i: usize = 0;
    proof {
        assert(acc.deep_view() =~= Seq::<Seq<char>>::empty());
        assert(ships@.skip(0) =~= ships@);
    }
    while i < n
        invariant
            n == ships@.len(),
            0 <= i <= n,
            resolve_ships(acc.deep_view(), ships@.skip(i as int), item@, cal@) == acc0,
            forall|k: int, l: int|
                0 <= k < l < acc@.len() ==> acc.deep_view()[k] != acc.deep_view()[l],
        decreases n - i,
    {
        let ghost pre = acc.deep_view();
        proof {
            assert(ships@.skip(i as int)[0] == ships@[i as int]);
            assert(ships@.skip(i as int).skip(1) =~= ships@.skip(i as int + 1));
        }
        if ships[i].item.eq(item) {
            if cal_contains(cal, ships[i].date) {
                if !vec_contains_string(&acc, &ships[i].warehouse) {
                    acc.push(ships[i].warehouse.clone());
                    proof {
                        assert(acc.deep_view() =~= pre.push(ships@[i as int].warehouse@));
                    }
                }
            }
        }
        i = i + 1;
    }
    let ghost acc1 = acc.deep_view();
    let m = jms.len();
    let mut j: usize = 0;
    proof {
        assert(jms@.skip(0) =~= jms@);
    }
    while j < m
        invariant
            m == jms@.len(),
            0 <= j <= m,
            resolve_jms(acc.deep_view(), jms@.skip(j as int), jobs@, item@, cal@) == resolve_jms(
                acc1,
                jms@,
                jobs@,
                item@,
                cal@,
            ),
            forall|k: int, l: int|
                0 <= k < l < acc@.len() ==> acc.deep_view()[k] != acc.deep_view()[l],
        decreases m - j,
    {
        let ghost pre = acc.deep_view();
        proof {
            assert(jms@.skip(j as int)[0] == jms@[j as int]);
            assert(jms@.skip(j as int).skip(1) =~= jms@.skip(j as int + 1));
        }
        if jms[j].item.eq(item) {
            match find_job(jobs, &jms[j].job_id) {
                Some(jb) => {
                    if cal_contains(cal, jb.date) {
                        if !vec_contains_string(&acc, &jb.warehouse) {
                            acc.push(jb.warehouse.clone());
                            proof {
                                assert(acc.deep_view() =~= pre.push(jb.warehouse@));
                            }
                        }
                    }
                },
                None => {},
            }
        }
        j = j + 1;
    }
    proof {
        assert(jms@.skip(m as int) =~= Seq::<JobMatl>::empty());
        assert(ships@.skip(n as int) =~= Seq::<Shipment>::empty());
    }
    acc
}

} // verus!
