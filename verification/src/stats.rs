//! Watch statistics derived from the daily activity log: streaks, the
//! seven-day window and active days. The log is read from the database
//! outside the library; watch seconds are compared with the thresholds there
//! too, and each day arrives here with the outcome.

use vstd::prelude::*;
use vstd::set_lib::{lemma_int_range, lemma_len_subset, lemma_map_size, set_int_range};
use std::collections::HashMap;

verus! {

broadcast use vstd::std_specs::hash::group_hash_axioms;

/// One row of the daily activity log.
#[derive(Debug, Clone, Copy, PartialEq, Eq, Structural)]
pub struct DayRecord {
    /// Julian day number of the day.
    pub jd: i64,
    /// At least 15 minutes were watched that day (the streak threshold).
    pub qualifies: bool,
    /// Anything at all was watched that day.
    pub active: bool,
    /// Lectures completed that day.
    pub completed: i64,
}

// ---------------------------------------------------------------------------
// Looking days up
// ---------------------------------------------------------------------------

/// Index of the last row among the first `n` whose day is `jd`, or -1. Rows
/// are keyed by day; a later row for the same day replaces an earlier one.
pub open spec fn last_index(rows: Seq<DayRecord>, jd: int, n: int) -> int
    decreases n,
{
    if n <= 0 || n > rows.len() {
        -1
    } else if rows[n - 1].jd == jd {
        n - 1
    } else {
        last_index(rows, jd, n - 1)
    }
}

/// The index of the row recorded for day `jd`, or -1.
pub open spec fn day_index(rows: Seq<DayRecord>, jd: int) -> int {
    last_index(rows, jd, rows.len() as int)
}

/// Whether day `jd` counts towards a streak.
pub open spec fn qualifies(rows: Seq<DayRecord>, jd: int) -> bool {
    day_index(rows, jd) >= 0 && rows[day_index(rows, jd)].qualifies
}

pub proof fn lemma_last_index(rows: Seq<DayRecord>, jd: int, n: int)
    requires
        0 <= n <= rows.len(),
    ensures
        -1 <= last_index(rows, jd, n) < n,
        last_index(rows, jd, n) >= 0 ==> rows[last_index(rows, jd, n)].jd == jd,
        forall|k: int| last_index(rows, jd, n) < k < n ==> rows[k].jd != jd,
    decreases n,
{
    if n > 0 && rows[n - 1].jd != jd {
        lemma_last_index(rows, jd, n - 1);
    }
}

/// `m` maps each day of the log to the index of its row.
pub open spec fn indexes_days(rows: Seq<DayRecord>, m: Map<i64, usize>) -> bool {
    &&& forall|jd: i64| #[trigger] m.contains_key(jd) <==> day_index(rows, jd as int) >= 0
    &&& forall|jd: i64| #[trigger] m.contains_key(jd) ==> m[jd] as int == day_index(rows, jd as int)
}

/// The log keyed by day: each day maps to the index of its (last) row.
fn day_map(rows: &Vec<DayRecord>) -> (m: HashMap<i64, usize>)
    ensures
        indexes_days(rows@, m@),
{
    let mut m: HashMap<i64, usize> = HashMap::new();
    let mut i: usize = 0;
    while i < rows.len()
        invariant
            i <= rows@.len(),
            forall|jd: i64| #[trigger] m@.contains_key(jd) <==> last_index(rows@, jd as int, i as int) >= 0,
            forall|jd: i64|
                #[trigger] m@.contains_key(jd) ==> m@[jd] as int == last_index(rows@, jd as int, i as int),
        decreases rows@.len() - i,
    {
        let d = rows[i].jd;
        m.insert(d, i);
        i += 1;
        assert forall|jd: i64| #[trigger] m@.contains_key(jd) <==> last_index(rows@, jd as int, i as int) >= 0 by {
            if jd != d {
                assert(last_index(rows@, jd as int, i as int) == last_index(rows@, jd as int, i - 1));
            }
        }
        assert forall|jd: i64|
            #[trigger] m@.contains_key(jd) implies m@[jd] as int == last_index(rows@, jd as int, i as int) by {
            if jd != d {
                assert(last_index(rows@, jd as int, i as int) == last_index(rows@, jd as int, i - 1));
            }
        }
    }
    m
}

fn find_day(rows: &Vec<DayRecord>, days: &HashMap<i64, usize>, jd: i128) -> (r: Option<usize>)
    requires
        indexes_days(rows@, days@),
    ensures
        match r {
            Some(i) => i < rows@.len() && day_index(rows@, jd as int) == i,
            None => day_index(rows@, jd as int) == -1,
        },
{
    proof {
        lemma_last_index(rows@, jd as int, rows@.len() as int);
    }
    if jd < i64::MIN as i128 || jd > i64::MAX as i128 {
        return None;
    }
    let key = jd as i64;
    match days.get(&key) {
        Some(i) => Some(*i),
        None => None,
    }
}

fn qualifies_exec(rows: &Vec<DayRecord>, days: &HashMap<i64, usize>, jd: i128) -> (r: bool)
    requires
        indexes_days(rows@, days@),
    ensures
        r == qualifies(rows@, jd as int),
{
    match find_day(rows, days, jd) {
        Some(i) => rows[i].qualifies,
        None => false,
    }
}

// ---------------------------------------------------------------------------
// Runs of qualifying days
// ---------------------------------------------------------------------------

/// Whether the day `i` days before `jd` qualifies.
pub open spec fn qualifies_back(rows: Seq<DayRecord>, jd: int, i: int) -> bool {
    qualifies(rows, jd - i)
}

/// Consecutive qualifying days ending at `jd` (`jd`, `jd - 1`, ...), counted
/// up to `cap`.
pub open spec fn run_back(rows: Seq<DayRecord>, jd: int, cap: nat) -> nat
    decreases cap,
{
    if cap == 0 || !qualifies(rows, jd) {
        0
    } else {
        1 + run_back(rows, jd - 1, (cap - 1) as nat)
    }
}

/// The streak ending at day `jd`: the number of consecutive qualifying days
/// `jd`, `jd - 1`, ... (a run can be no longer than the log, so the cap of
/// one more than the log's length is never reached).
pub open spec fn streak_ending(rows: Seq<DayRecord>, jd: int) -> nat {
    run_back(rows, jd, (rows.len() + 1) as nat)
}

proof fn lemma_run_back_days(rows: Seq<DayRecord>, jd: int, cap: nat)
    ensures
        run_back(rows, jd, cap) <= cap,
        forall|i: int| 0 <= i < run_back(rows, jd, cap) ==> #[trigger] qualifies_back(rows, jd, i),
        run_back(rows, jd, cap) < cap ==> !qualifies(rows, jd - run_back(rows, jd, cap)),
    decreases cap,
{
    if cap > 0 && qualifies(rows, jd) {
        lemma_run_back_days(rows, jd - 1, (cap - 1) as nat);
        let r = run_back(rows, jd - 1, (cap - 1) as nat);
        assert forall|i: int| 0 <= i < run_back(rows, jd, cap) implies #[trigger] qualifies_back(rows, jd, i) by {
            if i > 0 {
                assert(qualifies_back(rows, jd - 1, i - 1));
            }
        }
        if run_back(rows, jd, cap) < cap {
            assert(!qualifies(rows, (jd - 1) - r));
            assert(jd - run_back(rows, jd, cap) == (jd - 1) - r);
        }
    }
}

/// A run of `c` consecutive qualifying days takes `c` distinct rows.
pub proof fn lemma_run_fits_log(rows: Seq<DayRecord>, jd: int, c: int)
    requires
        0 <= c,
        forall|i: int| 0 <= i < c ==> #[trigger] qualifies_back(rows, jd, i),
    ensures
        c <= rows.len(),
{
    let x = set_int_range(0, c);
    let f = |i: int| day_index(rows, jd - i);
    lemma_int_range(0, c);
    lemma_int_range(0, rows.len() as int);
    assert forall|i: int| 0 <= i < c implies 0 <= #[trigger] f(i) < rows.len() && rows[f(i)].jd
        == jd - i by {
        assert(qualifies_back(rows, jd, i));
        lemma_last_index(rows, jd - i, rows.len() as int);
    }
    assert(vstd::relations::injective_on(f, x)) by {
        assert forall|a: int, b: int| x.contains(a) && x.contains(b) && #[trigger] f(a) == #[trigger] f(
            b,
        ) implies a == b by {
            assert(rows[f(a)].jd == jd - a);
            assert(rows[f(b)].jd == jd - b);
        }
    }
    let y = x.map(f);
    lemma_map_size(x, y, f);
    assert(y.subset_of(set_int_range(0, rows.len() as int))) by {
        assert forall|v: int| y.contains(v) implies set_int_range(0, rows.len() as int).contains(
            v,
        ) by {
            let i = choose|i: int| x.contains(i) && f(i) == v;
            assert(0 <= f(i) < rows.len());
        }
    }
    lemma_len_subset(y, set_int_range(0, rows.len() as int));
}

/// `streak_ending` is the exact run length: every day of the run qualifies
/// and the day before it does not.
pub proof fn lemma_streak_ending(rows: Seq<DayRecord>, jd: int)
    ensures
        streak_ending(rows, jd) <= rows.len(),
        forall|i: int| 0 <= i < streak_ending(rows, jd) ==> #[trigger] qualifies_back(rows, jd, i),
        !qualifies(rows, jd - streak_ending(rows, jd)),
{
    lemma_run_back_days(rows, jd, (rows.len() + 1) as nat);
    let r = streak_ending(rows, jd);
    if r == rows.len() + 1 {
        lemma_run_fits_log(rows, jd, r as int);
    }
}

/// A qualifying day extends the streak ending the day before by one.
proof fn lemma_streak_step(rows: Seq<DayRecord>, jd: int)
    requires
        qualifies(rows, jd),
    ensures
        streak_ending(rows, jd) == 1 + streak_ending(rows, jd - 1),
{
    let n = rows.len() as nat;
    lemma_run_back_days(rows, jd - 1, n);
    lemma_streak_ending(rows, jd - 1);
    lemma_streak_ending(rows, jd);
    let a = run_back(rows, jd - 1, n);
    assert(streak_ending(rows, jd) == 1 + a);
    if a == n {
        assert forall|i: int| 0 <= i < n + 1 implies #[trigger] qualifies_back(rows, jd, i) by {
            if i > 0 {
                assert(qualifies_back(rows, jd - 1, i - 1));
            }
        }
        lemma_run_fits_log(rows, jd, (n + 1) as int);
    }
    assert(a < n);
    assert(!qualifies(rows, jd - 1 - a));
    // the capped and uncapped runs from jd - 1 agree
    lemma_run_back_agree(rows, jd - 1, n, a);
}

proof fn lemma_run_back_agree(rows: Seq<DayRecord>, jd: int, cap: nat, a: nat)
    requires
        run_back(rows, jd, cap) == a,
        a < cap,
    ensures
        run_back(rows, jd, cap + 1) == a,
    decreases cap,
{
    if qualifies(rows, jd) {
        lemma_run_back_agree(rows, jd - 1, (cap - 1) as nat, (a - 1) as nat);
        assert(run_back(rows, jd, cap + 1) == 1 + run_back(rows, jd - 1, cap));
    }
}

// ---------------------------------------------------------------------------
// Streaks
// ---------------------------------------------------------------------------

/// The current streak: the run ending today, or, while today does not
/// qualify yet, the run ending yesterday; zero when neither qualifies.
pub open spec fn current_streak_spec(rows: Seq<DayRecord>, today: int) -> int {
    if qualifies(rows, today) {
        streak_ending(rows, today) as int
    } else if qualifies(rows, today - 1) {
        streak_ending(rows, today - 1) as int
    } else {
        0
    }
}

/// `best` is the longest streak in the log: no run ending on a qualifying
/// day is longer, and it is zero or the length of one of them.
pub open spec fn is_best_streak(rows: Seq<DayRecord>, best: int) -> bool {
    &&& forall|k: int|
        0 <= k < rows.len() && qualifies(rows, #[trigger] rows[k].jd as int) ==> streak_ending(
            rows,
            rows[k].jd as int,
        ) <= best
    &&& (best == 0 || exists|k: int|
        0 <= k < rows.len() && qualifies(rows, #[trigger] rows[k].jd as int) && streak_ending(
            rows,
            rows[k].jd as int,
        ) == best)
}

/// Current streak of days with at least 15 minutes watched.
pub fn current_streak(rows: &Vec<DayRecord>, today: i64) -> (r: i64)
    requires
        rows@.len() <= i64::MAX,
    ensures
        r == current_streak_spec(rows@, today as int),
{
    let days = day_map(rows);
    let t = today as i128;
    let anchor: i128 = if qualifies_exec(rows, &days, t) {
        t
    } else if qualifies_exec(rows, &days, t - 1) {
        t - 1
    } else {
        return 0;
    };
    let mut count: usize = 0;
    let mut jd = anchor;
    while qualifies_exec(rows, &days, jd)
        invariant
            indexes_days(rows@, days@),
            count <= rows@.len() <= i64::MAX,
            rows@.len() == rows.len(),
            jd == anchor - count,
            anchor >= i64::MIN - 1,
            forall|i: int| 0 <= i < count ==> #[trigger] qualifies_back(rows@, anchor as int, i),
        decreases rows@.len() - count,
    {
        proof {
            assert forall|i: int| 0 <= i < count + 1 implies #[trigger] qualifies_back(
                rows@,
                anchor as int,
                i,
            ) by {
                if i == count {
                    assert(qualifies(rows@, jd as int));
                }
            }
            lemma_run_fits_log(rows@, anchor as int, count + 1);
        }
        count += 1;
        jd -= 1;
    }
    proof {
        lemma_streak_ending(rows@, anchor as int);
        let s = streak_ending(rows@, anchor as int);
        if s < count {
            assert(qualifies_back(rows@, anchor as int, s as int));
        }
        if s > count {
            assert(qualifies_back(rows@, anchor as int, count as int));
        }
    }
    count as i64
}

/// Day numbers of the qualifying days, ascending, each once.
pub open spec fn strictly_increasing(s: Seq<i64>) -> bool {
    forall|a: int, b: int| 0 <= a < b < s.len() ==> s[a] < s[b]
}

/// Whether row `k` is the one recorded for its day and that day qualifies.
pub open spec fn counts_row(rows: Seq<DayRecord>, k: int) -> bool {
    day_index(rows, rows[k].jd as int) == k && rows[k].qualifies
}

fn qualifying_days(rows: &Vec<DayRecord>) -> (days: Vec<i64>)
    ensures
        strictly_increasing(days@),
        days@.len() <= rows@.len(),
        forall|x: i64| days@.contains(x) <==> qualifies(rows@, x as int),
{
    let index = day_map(rows);
    let mut days: Vec<i64> = Vec::new();
    let mut i: usize = 0;
    while i < rows.len()
        invariant
            indexes_days(rows@, index@),
            i <= rows@.len(),
            strictly_increasing(days@),
            days@.len() <= i,
            forall|x: i64|
                days@.contains(x) <==> exists|k: int|
                    0 <= k < i && #[trigger] counts_row(rows@, k) && rows@[k].jd == x,
        decreases rows@.len() - i,
    {
        let v = rows[i].jd;
        let last = find_day(rows, &index, v as i128);
        if rows[i].qualifies && last == Some(i) {
            assert(counts_row(rows@, i as int));
            // v is not yet present: its only counting row is i
            assert(!days@.contains(v)) by {
                if days@.contains(v) {
                    let k = choose|k: int| 0 <= k < i && #[trigger] counts_row(rows@, k) && rows@[k].jd == v;
                    assert(day_index(rows@, v as int) == k);
                }
            }
            let mut p: usize = 0;
            while p < days.len() && days[p] < v
                invariant
                    p <= days@.len(),
                    strictly_increasing(days@),
                    forall|a: int| 0 <= a < p ==> days@[a] < v,
                decreases days@.len() - p,
            {
                p += 1;
            }
            let ghost old_days = days@;
            assert(p < old_days.len() ==> old_days[p as int] > v) by {
                if p < old_days.len() {
                    assert(old_days[p as int] != v) by {
                        assert(old_days.contains(old_days[p as int]));
                    }
                }
            }
            days.insert(p, v);
            assert(days@ == old_days.insert(p as int, v));
            assert(strictly_increasing(days@)) by {
                assert forall|a: int, b: int| 0 <= a < b < days@.len() implies days@[a] < days@[b] by {
                    if b < p {
                    } else if b == p {
                    } else if a < p {
                        assert(days@[b] == old_days[b - 1]);
                        if p < old_days.len() {
                            assert(old_days[p as int] <= old_days[b - 1]);
                        }
                    } else if a == p {
                        assert(days@[b] == old_days[b - 1]);
                        assert(old_days[p as int] <= old_days[b - 1]);
                    } else {
                        assert(days@[a] == old_days[a - 1] && days@[b] == old_days[b - 1]);
                    }
                }
            }
            assert forall|x: i64|
                days@.contains(x) <==> exists|k: int|
                    0 <= k < i + 1 && #[trigger] counts_row(rows@, k) && rows@[k].jd == x by {
                if days@.contains(x) {
                    let w = choose|w: int| 0 <= w < days@.len() && days@[w] == x;
                    if w != p {
                        let w2 = if w < p { w } else { w - 1 };
                        assert(old_days[w2] == x);
                        assert(old_days.contains(x));
                    }
                }
                if exists|k: int| 0 <= k < i + 1 && #[trigger] counts_row(rows@, k) && rows@[k].jd == x {
                    let k = choose|k: int| 0 <= k < i + 1 && #[trigger] counts_row(rows@, k) && rows@[k].jd == x;
                    if k < i {
                        assert(old_days.contains(x));
                        let w = choose|w: int| 0 <= w < old_days.len() && old_days[w] == x;
                        let w2 = if w < p { w } else { w + 1 };
                        assert(days@[w2] == x);
                    } else {
                        assert(days@[p as int] == x);
                    }
                }
            }
        } else {
            assert forall|x: i64|
                days@.contains(x) <==> exists|k: int|
                    0 <= k < i + 1 && #[trigger] counts_row(rows@, k) && rows@[k].jd == x by {
                if exists|k: int| 0 <= k < i + 1 && #[trigger] counts_row(rows@, k) && rows@[k].jd == x {
                    let k = choose|k: int| 0 <= k < i + 1 && #[trigger] counts_row(rows@, k) && rows@[k].jd == x;
                    if k == i {
                        assert(false);
                    }
                }
            }
        }
        i += 1;
    }
    assert forall|x: i64| days@.contains(x) <==> qualifies(rows@, x as int) by {
        if qualifies(rows@, x as int) {
            let k = day_index(rows@, x as int);
            lemma_last_index(rows@, x as int, rows@.len() as int);
            assert(counts_row(rows@, k));
        }
        if days@.contains(x) {
            let k = choose|k: int| 0 <= k < rows@.len() && #[trigger] counts_row(rows@, k) && rows@[k].jd == x;
        }
    }
    days
}

/// The day before a qualifying day in the ascending list qualifies exactly
/// when it is the previous entry.
proof fn lemma_prev_day(rows: Seq<DayRecord>, days: Seq<i64>, j: int)
    requires
        strictly_increasing(days),
        forall|x: i64| days.contains(x) <==> qualifies(rows, x as int),
        0 <= j < days.len(),
    ensures
        qualifies(rows, days[j] - 1) <==> (j > 0 && days[j - 1] == days[j] - 1),
{
    if qualifies(rows, days[j] - 1) {
        let k = day_index(rows, days[j] - 1);
        lemma_last_index(rows, days[j] - 1, rows.len() as int);
        let x = rows[k].jd;
        assert(qualifies(rows, x as int));
        assert(days.contains(x));
        let m = choose|m: int| 0 <= m < days.len() && days[m] == x;
        if m >= j {
            assert(days[m] >= days[j]);
        }
        if m < j - 1 {
            assert(days[m] < days[j - 1] < days[j]);
        }
    }
    if j > 0 && days[j - 1] == days[j] - 1 {
        assert(days.contains(days[j - 1]));
    }
}

/// Longest streak of days with at least 15 minutes watched.
pub fn best_streak(rows: &Vec<DayRecord>) -> (r: i64)
    requires
        rows@.len() <= i64::MAX,
    ensures
        is_best_streak(rows@, r as int),
{
    let days = qualifying_days(rows);
    let mut best: usize = 0;
    let mut run: usize = 0;
    let mut j: usize = 0;
    while j < days.len()
        invariant
            j <= days@.len() <= rows@.len() <= i64::MAX,
            rows@.len() == rows.len(),
            strictly_increasing(days@),
            forall|x: i64| days@.contains(x) <==> qualifies(rows@, x as int),
            j > 0 ==> run == streak_ending(rows@, days@[j - 1] as int),
            forall|k: int| 0 <= k < j ==> streak_ending(rows@, #[trigger] days@[k] as int) <= best,
            best == 0 || exists|k: int| 0 <= k < j && streak_ending(rows@, #[trigger] days@[k] as int) == best,
            best <= rows@.len(),
        decreases days@.len() - j,
    {
        let d = days[j];
        proof {
            assert(days@.contains(d));
            lemma_prev_day(rows@, days@, j as int);
            lemma_streak_step(rows@, d as int);
            lemma_streak_ending(rows@, d as int);
        }
        if j > 0 && days[j - 1] as i128 == d as i128 - 1 {
            run = run + 1;
        } else {
            assert(run_back(rows@, d - 1, (rows@.len() + 1) as nat) == 0);
            run = 1;
        }
        assert(run == streak_ending(rows@, d as int));
        if run > best {
            best = run;
        }
        j += 1;
    }
    proof {
        assert forall|k: int|
            0 <= k < rows@.len() && qualifies(rows@, #[trigger] rows@[k].jd as int) implies streak_ending(
            rows@,
            rows@[k].jd as int,
        ) <= best by {
            let x = rows@[k].jd;
            assert(days@.contains(x));
            let w = choose|w: int| 0 <= w < days@.len() && days@[w] == x;
            assert(streak_ending(rows@, days@[w] as int) <= best);
        }
        if best != 0 {
            let w = choose|w: int| 0 <= w < j && streak_ending(rows@, #[trigger] days@[w] as int) == best;
            let x = days@[w];
            assert(days@.contains(x));
            assert(qualifies(rows@, x as int));
            let k = day_index(rows@, x as int);
            lemma_last_index(rows@, x as int, rows@.len() as int);
            assert(rows@[k].jd == x);
            assert(qualifies(rows@, rows@[k].jd as int) && streak_ending(rows@, rows@[k].jd as int) == best);
        }
    }
    best as i64
}

/// The current streak never exceeds the best streak.
pub proof fn law_current_streak_within_best(rows: Seq<DayRecord>, today: int, best: int)
    requires
        is_best_streak(rows, best),
    ensures
        0 <= current_streak_spec(rows, today) <= best,
{
    let anchor = if qualifies(rows, today) {
        today
    } else {
        today - 1
    };
    if qualifies(rows, anchor) {
        let k = day_index(rows, anchor);
        lemma_last_index(rows, anchor, rows.len() as int);
        assert(rows[k].jd == anchor);
        assert(qualifies(rows, rows[k].jd as int));
    }
}

/// No streak is longer than the number of days in the log.
pub proof fn law_streaks_fit_the_log(rows: Seq<DayRecord>, jd: int)
    ensures
        streak_ending(rows, jd) <= rows.len(),
{
    lemma_streak_ending(rows, jd);
}

// ---------------------------------------------------------------------------
// Windows and counts
// ---------------------------------------------------------------------------

/// Lectures completed on day `jd` (zero for a day without a row).
pub open spec fn completed_on(rows: Seq<DayRecord>, jd: int) -> int {
    if day_index(rows, jd) >= 0 {
        rows[day_index(rows, jd)].completed as int
    } else {
        0
    }
}

/// Lectures completed on the `n` days starting at `start`.
pub open spec fn completed_from(rows: Seq<DayRecord>, start: int, n: nat) -> int
    decreases n,
{
    if n == 0 {
        0
    } else {
        completed_from(rows, start, (n - 1) as nat) + completed_on(rows, start + n - 1)
    }
}

/// Every running total of the seven-day window fits an `i64`.
pub open spec fn window_fits(rows: Seq<DayRecord>, today: int) -> bool {
    forall|n: nat|
        n <= 7 ==> i64::MIN <= #[trigger] completed_from(rows, today - 6, n) <= i64::MAX
}

/// Whether `lectures_last_7` can be asked about `today`: the window's
/// start and every running total fit an `i64`.
pub fn window_fits_check(rows: &Vec<DayRecord>, today: i64) -> (r: bool)
    ensures
        r == (today - 6 >= i64::MIN && window_fits(rows@, today as int)),
{
    let days = day_map(rows);
    let start = today as i128 - 6;
    let mut total: i128 = 0;
    let mut n: i128 = 0;
    let mut ok = true;
    while n < 7
        invariant
            indexes_days(rows@, days@),
            0 <= n <= 7,
            start == today - 6,
            total == completed_from(rows@, start as int, n as nat),
            ok == forall|m: nat| m <= n ==> i64::MIN <= #[trigger] completed_from(rows@, start as int, m) <= i64::MAX,
            -(0x8000_0000_0000_0000 * n) <= total <= 0x8000_0000_0000_0000 * n,
        decreases 7 - n,
    {
        let c: i128 = match find_day(rows, &days, start + n) {
            Some(i) => rows[i].completed as i128,
            None => 0,
        };
        total = total + c;
        n += 1;
        assert(completed_from(rows@, start as int, (n - 1) as nat) + completed_on(rows@, start + n - 1)
            == completed_from(rows@, start as int, n as nat));
        let fits = i64::MIN as i128 <= total && total <= i64::MAX as i128;
        ok = ok && fits;
    }
    ok && today as i128 - 6 >= i64::MIN as i128
}

/// Lectures completed over the last seven days, today included.
pub fn lectures_last_7(rows: &Vec<DayRecord>, today: i64) -> (r: i64)
    requires
        today - 6 >= i64::MIN,
        window_fits(rows@, today as int),
    ensures
        r == completed_from(rows@, today - 6, 7),
{
    let days = day_map(rows);
    let start = today as i128 - 6;
    let mut total: i128 = 0;
    let mut n: i128 = 0;
    while n < 7
        invariant
            indexes_days(rows@, days@),
            0 <= n <= 7,
            start == today - 6,
            total == completed_from(rows@, start as int, n as nat),
            window_fits(rows@, today as int),
        decreases 7 - n,
    {
        let c: i128 = match find_day(rows, &days, start + n) {
            Some(i) => rows[i].completed as i128,
            None => 0,
        };
        total = total + c;
        n += 1;
        assert(completed_from(rows@, start as int, (n - 1) as nat) + completed_on(rows@, start + n - 1)
            == completed_from(rows@, start as int, n as nat));
        assert(i64::MIN <= completed_from(rows@, today - 6, n as nat) <= i64::MAX);
    }
    total as i64
}

/// Whether row `k` is the one recorded for its day, that day is on or after
/// `from`, and something was watched on it.
pub open spec fn counts_active(rows: Seq<DayRecord>, from: int, k: int) -> bool {
    day_index(rows, rows[k].jd as int) == k && rows[k].jd >= from && rows[k].active
}

/// Days among the first `n` rows (each day once) counted by `counts_active`.
pub open spec fn active_upto(rows: Seq<DayRecord>, from: int, n: int) -> int
    decreases n,
{
    if n <= 0 {
        0
    } else {
        active_upto(rows, from, n - 1) + if counts_active(rows, from, n - 1) {
            1int
        } else {
            0
        }
    }
}

/// Distinct days on or after `month_start` with any watch time.
pub fn active_days_since(rows: &Vec<DayRecord>, month_start: i64) -> (r: i64)
    requires
        rows@.len() <= i64::MAX,
    ensures
        r == active_upto(rows@, month_start as int, rows@.len() as int),
{
    let days = day_map(rows);
    let mut count: usize = 0;
    let mut k: usize = 0;
    while k < rows.len()
        invariant
            indexes_days(rows@, days@),
            k <= rows@.len() <= i64::MAX,
            count == active_upto(rows@, month_start as int, k as int),
            count <= k,
        decreases rows@.len() - k,
    {
        let row = rows[k];
        if row.jd >= month_start && row.active && find_day(rows, &days, row.jd as i128) == Some(k) {
            count += 1;
        }
        k += 1;
    }
    count as i64
}

/// Courses started but not finished: the difference, never negative.
pub fn courses_in_progress(started: i64, completed: i64) -> (r: i64)
    requires
        i64::MIN <= started - completed <= i64::MAX,
    ensures
        r == if started - completed > 0 {
            started - completed
        } else {
            0
        },
{
    let d = started - completed;
    if d > 0 {
        d
    } else {
        0
    }
}

} // verus!
