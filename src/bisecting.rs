use vstd::prelude::*;

use crate::date::{
    add_days, add_months, date_le, date_on_or_before, days_later, months_later, round_date,
    rounded, Date, DateTime, Roundness,
};
use crate::error::BisectError;
use crate::release_hub::{position_in, GitTag, ReleaseHub};

verus! {

/// `val` where it lies strictly between `min` and `max`.
pub open spec fn inside(val: int, min: int, max: int) -> Option<int> {
    if min < val && val < max {
        Some(val)
    } else {
        None
    }
}

/// The largest position whose date is on or after `bound`.
pub open spec fn last_on_or_after(dates: Seq<DateTime>, bound: Date) -> Option<int>
    decreases dates.len(),
{
    if dates.len() == 0 {
        None
    } else if date_le(bound, dates.last().date) {
        Some(dates.len() - 1)
    } else {
        last_on_or_after(dates.drop_last(), bound)
    }
}

pub open spec fn abs_diff(a: int, b: int) -> int {
    if a < b {
        b - a
    } else {
        a - b
    }
}

/// The position inside the window `(bad, good)` that opens the period `[start, end)` or
/// the one after it, whichever lies closer to the naive midpoint (the later period on a
/// tie); none where neither lies inside the window.
pub open spec fn period_pick(
    dates: Seq<DateTime>,
    good: int,
    bad: int,
    start: Date,
    end: Date,
) -> Option<int> {
    let naive = (good + bad) / 2;
    match (last_on_or_after(dates, start), last_on_or_after(dates, end)) {
        (Some(a), Some(b)) => match (inside(a, bad, good), inside(b, bad, good)) {
            (Some(x), Some(y)) => if abs_diff(naive, x) < abs_diff(naive, y) {
                Some(x)
            } else {
                Some(y)
            },
            (Some(x), None) => Some(x),
            (None, Some(y)) => Some(y),
            (None, None) => None,
        },
        _ => None,
    }
}

/// The start of the period of granularity `g` that follows the one starting at `start`.
pub open spec fn period_end(start: Date, g: Roundness) -> Option<Date> {
    match g {
        Roundness::Day => days_later(start, 1),
        Roundness::Week => days_later(start, 7),
        Roundness::Month => months_later(start, 1),
        Roundness::Unrounded => None,
    }
}

/// The midpoint that granularity `g` proposes for the window `(bad, good)`.
pub open spec fn rounded_midpoint(dates: Seq<DateTime>, good: int, bad: int, g: Roundness) -> Option<
    int,
> {
    let naive = (good + bad) / 2;
    if g == Roundness::Unrounded {
        Some(naive)
    } else {
        let start = rounded(dates[naive].date, g);
        match period_end(start, g) {
            Some(end) => period_pick(dates, good, bad, start, end),
            None => None,
        }
    }
}

/// The midpoint of the window `(bad, good)`: the first that month, week or day
/// alignment proposes, else the naive midpoint.
pub open spec fn midpoint(dates: Seq<DateTime>, good: int, bad: int) -> int {
    match rounded_midpoint(dates, good, bad, Roundness::Month) {
        Some(m) => m,
        None => match rounded_midpoint(dates, good, bad, Roundness::Week) {
            Some(m) => m,
            None => match rounded_midpoint(dates, good, bad, Roundness::Day) {
                Some(m) => m,
                None => (good + bad) / 2,
            },
        },
    }
}

pub open spec fn dates_wf(dates: Seq<DateTime>) -> bool {
    forall|i: int| 0 <= i < dates.len() ==> #[trigger] dates[i].wf()
}

/// `val` where it lies strictly between `min` and `max`.
pub fn unclamp(val: usize, min: usize, max: usize) -> (r: Option<usize>)
    requires
        min < max,
    ensures
        r matches Some(v) ==> inside(val as int, min as int, max as int) == Some(v as int),
        r is None ==> inside(val as int, min as int, max as int) is None,
{
    if min < val && val < max {
        Some(val)
    } else {
        None
    }
}

/// The largest position whose date is on or after `bound`.
pub fn find_last_on_or_after(dates: &Vec<DateTime>, bound: &Date) -> (r: Option<usize>)
    ensures
        r matches Some(p) ==> last_on_or_after(dates@, *bound) == Some(p as int),
        r is None ==> last_on_or_after(dates@, *bound) is None,
{
    let mut n: usize = dates.len();
    assert(dates@.take(n as int) =~= dates@);
    while n > 0
        invariant
            n <= dates.len(),
            last_on_or_after(dates@, *bound) == last_on_or_after(dates@.take(n as int), *bound),
        decreases n,
    {
        assert(dates@.take(n as int).drop_last() =~= dates@.take(n - 1));
        if date_on_or_before(bound, &dates[n - 1].date) {
            return Some(n - 1);
        }
        n -= 1;
    }
    None
}

/// The position inside the window `(bad_new_pos, good_old_pos)` that opens the period
/// `[start, end)` or the next one, whichever is closer to the naive midpoint.
pub fn pick_in_period(
    dates: &Vec<DateTime>,
    good_old_pos: usize,
    bad_new_pos: usize,
    start: &Date,
    end: &Date,
) -> (r: Option<usize>)
    requires
        bad_new_pos < good_old_pos,
    ensures
        r matches Some(p) ==> period_pick(
            dates@,
            good_old_pos as int,
            bad_new_pos as int,
            *start,
            *end,
        ) == Some(p as int),
        r is None ==> period_pick(dates@, good_old_pos as int, bad_new_pos as int, *start, *end)
            is None,
        r matches Some(p) ==> bad_new_pos < p < good_old_pos,
{
    let naive_midpoint: usize = bad_new_pos + (good_old_pos - bad_new_pos) / 2;
    assert(naive_midpoint == (good_old_pos + bad_new_pos) / 2);
    let day_first = find_last_on_or_after(dates, start);
    let next_day_first = find_last_on_or_after(dates, end);
    let (day_first, next_day_first) = match (day_first, next_day_first) {
        (Some(a), Some(b)) => (a, b),
        _ => {
            return None;
        },
    };
    let day_first_p = unclamp(day_first, bad_new_pos, good_old_pos);
    let next_day_first_p = unclamp(next_day_first, bad_new_pos, good_old_pos);
    let (a, b) = match (day_first_p, next_day_first_p) {
        (None, None) => {
            return None;
        },
        (Some(v), None) => {
            return Some(v);
        },
        (None, Some(v)) => {
            return Some(v);
        },
        (Some(a), Some(b)) => (a, b),
    };
    let diff_before: usize = if naive_midpoint < a {
        a - naive_midpoint
    } else {
        naive_midpoint - a
    };
    let diff_after: usize = if naive_midpoint < b {
        b - naive_midpoint
    } else {
        naive_midpoint - b
    };
    if diff_before < diff_after {
        Some(a)
    } else {
        Some(b)
    }
}

/// The midpoint that granularity `roundness` proposes for the window.
fn select_midpoint_rounded(
    dates: &Vec<DateTime>,
    good_old_pos: usize,
    bad_new_pos: usize,
    roundness: Roundness,
) -> (r: Option<usize>)
    requires
        bad_new_pos < good_old_pos < dates.len(),
        dates_wf(dates@),
    ensures
        r matches Some(p) ==> rounded_midpoint(
            dates@,
            good_old_pos as int,
            bad_new_pos as int,
            roundness,
        ) == Some(p as int),
        r is None ==> rounded_midpoint(dates@, good_old_pos as int, bad_new_pos as int, roundness)
            is None,
        r matches Some(p) ==> bad_new_pos <= p < good_old_pos,
        roundness != Roundness::Unrounded ==> (r matches Some(p) ==> bad_new_pos < p),
{
    let naive_midpoint: usize = bad_new_pos + (good_old_pos - bad_new_pos) / 2;
    assert(naive_midpoint == (good_old_pos + bad_new_pos) / 2);
    if roundness == Roundness::Unrounded {
        return Some(naive_midpoint);
    }
    let naive_dt = dates[naive_midpoint];
    assert(dates@[naive_midpoint as int].wf());
    let round_before = round_date(naive_dt.date, roundness);
    let round_after = match roundness {
        Roundness::Day => add_days(round_before, 1),
        Roundness::Week => add_days(round_before, 7),
        Roundness::Month => add_months(round_before, 1),
        Roundness::Unrounded => None,
    };
    match round_after {
        Some(end) => pick_in_period(dates, good_old_pos, bad_new_pos, &round_before, &end),
        None => None,
    }
}

/// The calendar-aware midpoint of the window `(bad_new_pos, good_old_pos)`.
pub fn select_midpoint(dates: &Vec<DateTime>, good_old_pos: usize, bad_new_pos: usize) -> (r:
    usize)
    requires
        bad_new_pos < good_old_pos < dates.len(),
        dates_wf(dates@),
    ensures
        r == midpoint(dates@, good_old_pos as int, bad_new_pos as int),
        bad_new_pos <= r < good_old_pos,
        good_old_pos > bad_new_pos + 1 ==> bad_new_pos < r,
{
    if let Some(m) = select_midpoint_rounded(dates, good_old_pos, bad_new_pos, Roundness::Month) {
        return m;
    }
    if let Some(m) = select_midpoint_rounded(dates, good_old_pos, bad_new_pos, Roundness::Week) {
        return m;
    }
    if let Some(m) = select_midpoint_rounded(dates, good_old_pos, bad_new_pos, Roundness::Day) {
        return m;
    }
    bad_new_pos + (good_old_pos - bad_new_pos) / 2
}

/// The midpoint of a window of at least two steps lies strictly inside it.
pub proof fn lemma_midpoint_strictly_inside(dates: Seq<DateTime>, good: int, bad: int)
    requires
        0 <= bad,
        bad + 1 < good,
        good < dates.len(),
    ensures
        bad < midpoint(dates, good, bad) < good,
{
    let naive = (good + bad) / 2;
    assert(bad < naive < good);
    assert forall|g: Roundness|
        g != Roundness::Unrounded && (#[trigger] rounded_midpoint(dates, good, bad, g)) is Some
            implies bad < rounded_midpoint(dates, good, bad, g)->0 < good by {}
}

/// What the midpoint selection over the catalog gives for a window bounded by the
/// releases named `good` (older) and `bad` (newer).
pub open spec fn midpoint_of_tags(hub: ReleaseHub, good: Seq<char>, bad: Seq<char>) -> Result<
    int,
    BisectError,
> {
    match (position_in(hub.tags_list@, bad), position_in(hub.tags_list@, good)) {
        (Some(b), Some(g)) => if g == b + 1 {
            Ok(g)
        } else if g <= b {
            Err(BisectError::PreconditionViolation)
        } else {
            Ok(midpoint(hub.dates(), g, b))
        },
        _ => Err(BisectError::NotFound),
    }
}

/// The catalog position of the release to try next between the latest good and the
/// earliest bad release. Adjacent bounds give the good release itself.
pub fn select_midpoint_tag(
    releases: &ReleaseHub,
    latest_good_tag: &GitTag,
    earliest_bad_tag: &GitTag,
) -> (r: Result<usize, BisectError>)
    requires
        releases.wf(),
    ensures
        r matches Ok(p) ==> midpoint_of_tags(
            *releases,
            latest_good_tag.name@,
            earliest_bad_tag.name@,
        ) == Ok::<int, BisectError>(p as int),
        r matches Err(e) ==> midpoint_of_tags(
            *releases,
            latest_good_tag.name@,
            earliest_bad_tag.name@,
        ) == Err::<int, BisectError>(e),
        r matches Ok(p) ==> p < releases.tags_list.len(),
{
    let bad_pos = releases.position_of(&earliest_bad_tag.name)?;
    let good_pos = releases.position_of(&latest_good_tag.name)?;
    if good_pos == bad_pos + 1 {
        return Ok(good_pos);
    }
    if good_pos <= bad_pos {
        return Err(BisectError::PreconditionViolation);
    }
    Ok(select_midpoint(&releases.tag_dates, good_pos, bad_pos))
}

/// The number of halvings that bring a window of `span` positions down to one:
/// the ceiling of its base-two logarithm, and no steps at all for a span of at most one.
pub open spec fn steps(span: nat) -> nat
    decreases span,
{
    if span <= 1 {
        0
    } else {
        1 + steps(((span + 1) / 2) as nat)
    }
}

pub open spec fn pow2(k: nat) -> nat
    decreases k,
{
    if k == 0 {
        1
    } else {
        2 * pow2((k - 1) as nat)
    }
}

proof fn lemma_steps_bounded(span: nat, k: nat)
    requires
        span <= pow2(k),
    ensures
        steps(span) <= k,
    decreases k,
{
    if span > 1 {
        assert(k > 0);
        lemma_steps_bounded(((span + 1) / 2) as nat, (k - 1) as nat);
    }
}

proof fn lemma_pow2_64()
    ensures
        pow2(64) == 0x1_0000_0000_0000_0000,
{
    reveal_with_fuel(pow2, 65);
}

/// The steps left never grow as the window narrows; a span of two takes one step and a
/// span of at most one takes none.
pub proof fn lemma_steps_monotone(narrow: nat, wide: nat)
    requires
        narrow <= wide,
    ensures
        steps(narrow) <= steps(wide),
        steps(2) == 1,
        narrow <= 1 ==> steps(narrow) == 0,
    decreases wide,
{
    reveal_with_fuel(steps, 2);
    if narrow > 1 {
        lemma_steps_monotone(((narrow + 1) / 2) as nat, ((wide + 1) / 2) as nat);
    }
}

/// The steps left for a window spanning `span` positions.
pub fn steps_for_span(span: usize) -> (r: u32)
    ensures
        r == steps(span as nat),
    decreases span,
{
    if span <= 1 {
        0
    } else {
        let half: usize = span / 2 + span % 2;
        assert(half == (span + 1) / 2);
        let rest = steps_for_span(half);
        proof {
            lemma_pow2_64();
            lemma_steps_bounded(span as nat, 64);
        }
        rest + 1
    }
}

/// The number of halvings left between the latest good and the earliest bad release.
pub fn get_steps_left(releases: &ReleaseHub, latest_good_tag: &GitTag, earliest_bad_tag: &GitTag) -> (r:
    Result<i32, BisectError>)
    ensures
        r matches Ok(s) ==> exists|g: int, b: int|
            position_in(releases.tags_list@, latest_good_tag.name@) == Some(g) && position_in(
                releases.tags_list@,
                earliest_bad_tag.name@,
            ) == Some(b) && s as int == steps(abs_diff(g, b) as nat),
        r is Err ==> r == Err::<i32, BisectError>(BisectError::NotFound) && (position_in(
            releases.tags_list@,
            latest_good_tag.name@,
        ) is None || position_in(releases.tags_list@, earliest_bad_tag.name@) is None),
{
    let lg = releases.position_of(&latest_good_tag.name)?;
    let eb = releases.position_of(&earliest_bad_tag.name)?;
    let span: usize = if eb < lg {
        lg - eb
    } else {
        eb - lg
    };
    let n = steps_for_span(span);
    proof {
        lemma_pow2_64();
        lemma_steps_bounded(span as nat, 64);
        assert(span as int == abs_diff(lg as int, eb as int));
    }
    Ok(n as i32)
}

} // verus!
