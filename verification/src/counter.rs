//! The day counter: how many days of the half-open interval between two
//! instants have an allowed weekday and are not excluded. An unconstrained
//! query (every weekday allowed, nothing excluded) is answered by plain
//! division; every other query walks the calendar one day at a time.

use crate::date::{
    epoch_day_of, next_date, weekday_of_day, Date, MAX_EPOCH_DAY, MAX_TIMESTAMP, MIN_EPOCH_DAY,
    MIN_TIMESTAMP,
};
use crate::pattern::{
    date_is_excluded, parse_exclusion, parse_exclusions, parsed_patterns, pattern_excludes,
};
use crate::timestamp::timestamp_to_date;
use vstd::arithmetic::div_mod::{
    lemma_div_is_ordered, lemma_div_pos_is_pos, lemma_fundamental_div_mod,
    lemma_mod_division_less_than_divisor,
};
use vstd::prelude::*;

verus! {

/// The views of the exclusion strings.
pub open spec fn exclusion_views(excluded: Seq<String>) -> Seq<Seq<char>> {
    excluded.map_values(|s: String| s@)
}

/// The day of a timestamp: seconds since the epoch divided by the seconds of
/// a day, rounded toward negative infinity.
pub open spec fn timestamp_day(secs: int) -> int {
    secs / 86400
}

/// Whether every weekday code is allowed.
pub open spec fn all_weekdays_allowed(allowed: Seq<u32>) -> bool {
    forall|w: u32| 0 <= w <= 6 ==> allowed.contains(w)
}

/// Whether the day with day number `n` has an allowed weekday.
pub open spec fn weekday_allowed(n: int, allowed: Seq<u32>) -> bool {
    allowed.contains(weekday_of_day(n) as u32)
}

/// Whether the day with day number `n` counts: its weekday is allowed and no
/// exclusion string matches it.
pub open spec fn day_counted(n: int, allowed: Seq<u32>, excluded: Seq<Seq<char>>) -> bool {
    weekday_allowed(n, allowed) && !(exists|i: int|
        0 <= i < excluded.len() && pattern_excludes(parse_exclusion(excluded[i]), n))
}

/// Number of counted days with day numbers in the half-open range [s, e);
/// zero when the range is empty or reversed.
pub open spec fn count_days(s: int, e: int, allowed: Seq<u32>, excluded: Seq<Seq<char>>) -> int
    decreases e - s,
{
    if s >= e {
        0
    } else {
        (if day_counted(s, allowed, excluded) {
            1int
        } else {
            0int
        }) + count_days(s + 1, e, allowed, excluded)
    }
}

/// Division by the seconds of a day, rounded toward zero.
pub open spec fn trunc_div_day(x: int) -> int {
    if x >= 0 {
        x / 86400
    } else {
        -((-x) / 86400)
    }
}

/// The counting rule. An unconstrained query is the elapsed whole days,
/// truncated toward zero — negative when the end precedes the start. Every
/// other query counts day by day from the start's date up to, and not
/// including, the end's date, and a reversed interval counts zero.
pub open spec fn spec_find_difference(
    start: int,
    end: int,
    allowed: Seq<u32>,
    excluded: Seq<Seq<char>>,
) -> int {
    if all_weekdays_allowed(allowed) && excluded.len() == 0 {
        trunc_div_day(end - start)
    } else {
        count_days(timestamp_day(start), timestamp_day(end), allowed, excluded)
    }
}

/// Law: an interval whose endpoints are equal counts zero days, whatever the
/// allowed weekdays and the exclusions.
pub proof fn lemma_equal_endpoints_count_zero(
    start: int,
    allowed: Seq<u32>,
    excluded: Seq<Seq<char>>,
)
    ensures
        spec_find_difference(start, start, allowed, excluded) == 0,
{
}

/// Law: when every weekday is allowed and nothing is excluded, the count is
/// the elapsed whole days, truncated toward zero. An end before the start
/// then counts a value at most zero, and an end exactly one day before the
/// start counts exactly minus one.
pub proof fn lemma_unconstrained_is_elapsed_days(
    start: int,
    end: int,
    allowed: Seq<u32>,
    excluded: Seq<Seq<char>>,
)
    requires
        all_weekdays_allowed(allowed),
        excluded.len() == 0,
    ensures
        spec_find_difference(start, end, allowed, excluded) == trunc_div_day(end - start),
        end < start ==> spec_find_difference(start, end, allowed, excluded) <= 0,
        end == start - 86400 ==> spec_find_difference(start, end, allowed, excluded) == -1,
{
    if end < start {
        lemma_div_pos_is_pos(start - end, 86400);
    }
}

/// Law: under any constraint on weekdays or dates, a reversed or empty
/// interval counts zero — never a negative number. This asymmetry with the
/// unconstrained rule above is intended.
pub proof fn lemma_constrained_reversed_counts_zero(
    start: int,
    end: int,
    allowed: Seq<u32>,
    excluded: Seq<Seq<char>>,
)
    requires
        !(all_weekdays_allowed(allowed) && excluded.len() == 0),
        end <= start,
    ensures
        spec_find_difference(start, end, allowed, excluded) == 0,
{
    lemma_div_is_ordered(end, start, 86400);
}

/// From one day to the next, the weekday code steps forward and wraps after
/// Saturday.
proof fn lemma_weekday_step(n: int)
    ensures
        weekday_of_day(n + 1) == if weekday_of_day(n) == 6 {
            0int
        } else {
            weekday_of_day(n) + 1
        },
{
    lemma_mod_division_less_than_divisor(n + 4, 7);
    crate::date::lemma_div_mod_step(n + 5, 7);
}

/// The weekday codes of the seven days from `n` on, each one step past the
/// one before it.
proof fn lemma_week_weekdays(n: int)
    ensures
        0 <= weekday_of_day(n) < 7,
        forall|k: int|
            1 <= k < 7 ==> #[trigger] weekday_of_day(n + k) == if weekday_of_day(n + k - 1) == 6 {
                0int
            } else {
                weekday_of_day(n + k - 1) + 1
            },
{
    lemma_mod_division_less_than_divisor(n + 4, 7);
    assert forall|k: int|
        1 <= k < 7 implies #[trigger] weekday_of_day(n + k) == if weekday_of_day(n + k - 1) == 6 {
        0int
    } else {
        weekday_of_day(n + k - 1) + 1
    } by {
        lemma_weekday_step(n + k - 1);
    }
}

/// Over one week with nothing excluded, the count is the sum of seven
/// per-day indicators, and each day's indicator is decided by its weekday
/// alone.
proof fn lemma_week_count_is_indicator_sum(n: int, allowed: Seq<u32>)
    ensures
        count_days(n, n + 7, allowed, Seq::<Seq<char>>::empty()) == indicator(n, allowed)
            + indicator(n + 1, allowed) + indicator(n + 2, allowed) + indicator(n + 3, allowed)
            + indicator(n + 4, allowed) + indicator(n + 5, allowed) + indicator(n + 6, allowed),
{
    reveal_with_fuel(count_days, 8);
}

/// One when the day with day number `n` has an allowed weekday, else zero.
spec fn indicator(n: int, allowed: Seq<u32>) -> int {
    if weekday_allowed(n, allowed) {
        1int
    } else {
        0int
    }
}

/// Law: over any one-week span with nothing excluded, allowing one single
/// weekday code counts exactly one day, whichever code it is.
pub proof fn lemma_single_weekday_over_week(n: int, allowed: Seq<u32>, w: u32)
    requires
        w <= 6,
        forall|v: u32| v <= 6 ==> (allowed.contains(v) <==> v == w),
    ensures
        count_days(n, n + 7, allowed, Seq::<Seq<char>>::empty()) == 1,
{
    lemma_week_count_is_indicator_sum(n, allowed);
    lemma_week_weekdays(n);
    assert forall|k: int| 0 <= k < 7 implies #[trigger] indicator(n + k, allowed) == (
    if weekday_of_day(n + k) == w {
        1int
    } else {
        0int
    }) by {
        lemma_mod_division_less_than_divisor(n + k + 4, 7);
        assert(allowed.contains(weekday_of_day(n + k) as u32) <==> weekday_of_day(n + k) == w);
    }
    assert(indicator(n, allowed) == (if weekday_of_day(n) == w {
        1int
    } else {
        0int
    }));
}

/// Law: over any one-week span with nothing excluded, allowing six of the
/// seven weekday codes counts exactly six days, whichever code is left out.
pub proof fn lemma_six_weekdays_over_week(n: int, allowed: Seq<u32>, w: u32)
    requires
        w <= 6,
        forall|v: u32| v <= 6 ==> (allowed.contains(v) <==> v != w),
    ensures
        count_days(n, n + 7, allowed, Seq::<Seq<char>>::empty()) == 6,
{
    lemma_week_count_is_indicator_sum(n, allowed);
    lemma_week_weekdays(n);
    assert forall|k: int| 0 <= k < 7 implies #[trigger] indicator(n + k, allowed) == (
    if weekday_of_day(n + k) == w {
        0int
    } else {
        1int
    }) by {
        lemma_mod_division_less_than_divisor(n + k + 4, 7);
        assert(allowed.contains(weekday_of_day(n + k) as u32) <==> weekday_of_day(n + k) != w);
    }
    assert(indicator(n, allowed) == (if weekday_of_day(n) == w {
        0int
    } else {
        1int
    }));
}

/// Law: the count is a pure function of its inputs: two calls on identical
/// inputs return identical results.
pub proof fn lemma_count_deterministic(
    r1: int,
    r2: int,
    start: int,
    end: int,
    allowed: Seq<u32>,
    excluded: Seq<Seq<char>>,
)
    requires
        r1 == spec_find_difference(start, end, allowed, excluded),
        r2 == spec_find_difference(start, end, allowed, excluded),
    ensures
        r1 == r2,
{
}

/// A timestamp in the representable range falls on a representable day.
proof fn lemma_timestamp_day_range(secs: int)
    requires
        MIN_TIMESTAMP as int <= secs <= MAX_TIMESTAMP as int,
    ensures
        MIN_EPOCH_DAY as int <= timestamp_day(secs) <= MAX_EPOCH_DAY as int,
{
    lemma_div_is_ordered(MIN_TIMESTAMP as int, secs, 86400);
    lemma_div_is_ordered(secs, MAX_TIMESTAMP as int, 86400);
}

/// Bounds of a nonnegative quotient by the seconds of a day: no elapsed-day
/// count of representable timestamps overflows an `i32`.
proof fn lemma_day_quotient_bounds(x: int)
    requires
        0 <= x <= MAX_TIMESTAMP as int - MIN_TIMESTAMP as int,
    ensures
        0 <= x / 86400 <= 191491529,
{
    lemma_fundamental_div_mod(x, 86400);
    lemma_mod_division_less_than_divisor(x, 86400);
}

/// Whether the vector holds the value.
fn vec_contains_u32(v: &Vec<u32>, x: u32) -> (r: bool)
    ensures
        r == v@.contains(x),
{
    let mut i: usize = 0;
    while i < v.len()
        invariant
            i <= v@.len(),
            forall|j: int| 0 <= j < i ==> v@[j] != x,
        decreases v@.len() - i,
    {
        if v[i] == x {
            return true;
        }
        i += 1;
    }
    false
}

/// Weekday code of the day with day number `n`.
fn weekday_of(n: i64) -> (w: u32)
    requires
        MIN_EPOCH_DAY <= n <= MAX_EPOCH_DAY,
    ensures
        w as int == weekday_of_day(n as int),
{
    proof {
        lemma_mod_division_less_than_divisor(n as int + 4, 7);
    }
    (n + 4).checked_rem_euclid(7).unwrap() as u32
}

/// Signed count of the days in the half-open interval from `start_stamp` to
/// `end_stamp` (Unix timestamps, truncated to their UTC dates) whose weekday
/// code (0 = Sunday ... 6 = Saturday) is among `allowed_days_of_the_week`
/// and whose date no string of `excluded_dates` excludes, either as an exact
/// `YYYY-MM-DD` or as a yearly `*-MM-DD` wildcard. When every weekday is
/// allowed and nothing is excluded, the answer is the elapsed whole days,
/// truncated toward zero, which is negative when the end precedes the start;
/// otherwise a reversed interval yields zero.
pub fn find_difference(
    start_stamp: i64,
    end_stamp: i64,
    allowed_days_of_the_week: Vec<u32>,
    excluded_dates: Vec<String>,
) -> (difference: i32)
    requires
        MIN_TIMESTAMP <= start_stamp <= MAX_TIMESTAMP,
        MIN_TIMESTAMP <= end_stamp <= MAX_TIMESTAMP,
        forall|i: int|
            0 <= i < allowed_days_of_the_week@.len() ==> allowed_days_of_the_week@[i] <= 6,
    ensures
        difference as int == spec_find_difference(
            start_stamp as int,
            end_stamp as int,
            allowed_days_of_the_week@,
            exclusion_views(excluded_dates@),
        ),
{
    let ghost allowed = allowed_days_of_the_week@;
    let ghost evs = exclusion_views(excluded_dates@);
    let all7 = vec_contains_u32(&allowed_days_of_the_week, 0) && vec_contains_u32(
        &allowed_days_of_the_week,
        1,
    ) && vec_contains_u32(&allowed_days_of_the_week, 2) && vec_contains_u32(
        &allowed_days_of_the_week,
        3,
    ) && vec_contains_u32(&allowed_days_of_the_week, 4) && vec_contains_u32(
        &allowed_days_of_the_week,
        5,
    ) && vec_contains_u32(&allowed_days_of_the_week, 6);
    proof {
        if all7 {
            assert forall|w: u32| 0 <= w <= 6 implies allowed.contains(w) by {
                if w == 0 || w == 1 || w == 2 || w == 3 || w == 4 || w == 5 || w == 6 {
                }
            }
        }
        assert(all7 == all_weekdays_allowed(allowed));
    }
    if all7 && excluded_dates.len() == 0 {
        let diff: i64 = end_stamp - start_stamp;
        proof {
            if diff >= 0 {
                lemma_day_quotient_bounds(diff as int);
            } else {
                lemma_day_quotient_bounds(-diff as int);
            }
        }
        let q: i64 = diff.checked_div(86400).unwrap();
        return q as i32;
    }
    let start_date = timestamp_to_date(start_stamp).unwrap();
    let end_date = timestamp_to_date(end_stamp).unwrap();
    proof {
        lemma_timestamp_day_range(start_stamp as int);
        lemma_timestamp_day_range(end_stamp as int);
    }
    let patterns = parse_exclusions(&excluded_dates);
    let end_day: i64 = epoch_day_of(&end_date);
    let mut n: i64 = epoch_day_of(&start_date);
    let ghost s0 = n as int;
    let mut cur: Date = start_date;
    let mut count: i32 = 0;
    while n < end_day
        invariant
            MIN_EPOCH_DAY <= s0 <= MAX_EPOCH_DAY,
            MIN_EPOCH_DAY <= end_day <= MAX_EPOCH_DAY,
            s0 == timestamp_day(start_stamp as int),
            end_day as int == timestamp_day(end_stamp as int),
            allowed == allowed_days_of_the_week@,
            s0 <= n as int,
            n as int <= end_day as int || n as int == s0,
            cur.wf(),
            cur.epoch_day() == n as int,
            patterns@ == parsed_patterns(excluded_dates@),
            evs == exclusion_views(excluded_dates@),
            0 <= count as int <= n as int - s0,
            count as int + count_days(n as int, end_day as int, allowed, evs) == count_days(
                s0,
                end_day as int,
                allowed,
                evs,
            ),
        decreases end_day as int - n as int,
    {
        let w = weekday_of(n);
        let weekday_ok = vec_contains_u32(&allowed_days_of_the_week, w);
        let excluded_here = date_is_excluded(&cur, &patterns);
        proof {
            lemma_mod_division_less_than_divisor(n as int + 4, 7);
            assert(0 <= weekday_of_day(n as int) < 7);
            assert(w == weekday_of_day(n as int) as u32);
            assert(weekday_ok == weekday_allowed(n as int, allowed));
            if excluded_here {
                let i = choose|i: int|
                    0 <= i < patterns@.len() && pattern_excludes(patterns@[i], cur.epoch_day());
                assert(patterns@[i] == parse_exclusion(evs[i]));
                assert(pattern_excludes(parse_exclusion(evs[i]), n as int));
            } else {
                assert forall|i: int| 0 <= i < evs.len() implies !pattern_excludes(
                    parse_exclusion(evs[i]),
                    n as int,
                ) by {
                    assert(patterns@[i] == parse_exclusion(evs[i]));
                }
            }
            assert((weekday_ok && !excluded_here) == day_counted(n as int, allowed, evs));
        }
        if weekday_ok && !excluded_here {
            count += 1;
        }
        cur = next_date(&cur);
        n += 1;
    }
    proof {
        assert(count_days(n as int, end_day as int, allowed, evs) == 0);
        assert(count as int == count_days(
            timestamp_day(start_stamp as int),
            timestamp_day(end_stamp as int),
            allowed,
            evs,
        ));
    }
    count
}

} // verus!
