use vstd::prelude::*;

use crate::bisecting::{abs_diff, get_steps_left, midpoint_of_tags, select_midpoint_tag, steps};
use crate::date::{
    day_count_between, days_between, days_earlier, round_date, rounded, sub_days, today_utc, Date,
    DateTime, Roundness,
};
use crate::error::BisectError;
use crate::release_hub::{listed, position_in, GitTag, ReleaseHub};
use crate::releases::{GithubRelease, ReleaseBlacklist};
use crate::track::{earliest_bad, has_verdict, latest_good, Goodness, Track};

verus! {

/// How many days before the anchor the search for an older release looks by default.
pub const DEFAULT_DAYS_BACK: u64 = 7;

/// What one bisection step decides.
#[derive(Debug, Clone, Copy, PartialEq, Eq, Structural)]
pub enum Step {
    /// Prepare the release at this catalog position, to find a bound.
    Activate(usize),
    /// Prepare the release at this catalog position, inside the bisection window.
    Probe { position: usize, steps_left: i32 },
    /// The window holds no more releases: the change lies after the release at `good`
    /// and up to the one at `bad`.
    Converged { good: usize, bad: usize },
}

/// The alignment used for a date that lies `days` days in the past.
pub open spec fn granularity_for(days: int) -> Roundness {
    if days < 3 {
        Roundness::Day
    } else if days < 14 {
        Roundness::Week
    } else {
        Roundness::Month
    }
}

/// The largest position whose date is exactly `d`.
pub open spec fn last_on(dates: Seq<DateTime>, d: Date) -> Option<int>
    decreases dates.len(),
{
    if dates.len() == 0 {
        None
    } else if dates.last().date == d {
        Some(dates.len() - 1)
    } else {
        last_on(dates.drop_last(), d)
    }
}

/// The release on the start of the period, of a granularity chosen by how long ago
/// `rough` is, that holds `rough`.
pub open spec fn earlier_release(hub: ReleaseHub, rough: Date, today: Date) -> Result<int, BisectError> {
    match days_between(today, rough) {
        None => Err(BisectError::DateOutOfRange),
        Some(n) => match last_on(hub.dates(), rounded(rough, granularity_for(n))) {
            Some(p) => Ok(p),
            None => Err(BisectError::NoMatchingRelease),
        },
    }
}

/// Whether the release at catalog position `p` was ever skipped.
pub open spec fn skipped_at(hub: ReleaseHub, log: Seq<(String, Goodness)>, p: int) -> bool {
    has_verdict(log, hub.tags_list@[p].name@, Goodness::Skip)
}

/// The step while no release is known bad: the freshest installed release, else the
/// newest one in the catalog.
pub open spec fn seek_upper(hub: ReleaseHub, installed: Option<Seq<char>>) -> Result<Step, BisectError> {
    match installed {
        Some(n) => match position_in(hub.tags_list@, n) {
            Some(p) => Ok(Step::Activate(p as usize)),
            None => Err(BisectError::NotFound),
        },
        None => if hub.tags_list.len() == 0 {
            Err(BisectError::EmptyCatalog)
        } else {
            Ok(Step::Activate(0))
        },
    }
}

/// The step while releases are known bad but none good: a release `days_back` days
/// before the last judged one, aligned to a calendar boundary.
pub open spec fn seek_lower(
    hub: ReleaseHub,
    log: Seq<(String, Goodness)>,
    days_back: u64,
    today: Date,
) -> Result<Step, BisectError> {
    match position_in(hub.tags_list@, log.last().0@) {
        None => Err(BisectError::NotFound),
        Some(p) => match days_earlier(hub.dates()[p].date, days_back as int) {
            None => Err(BisectError::DateOutOfRange),
            Some(rough) => match earlier_release(hub, rough, today) {
                Ok(q) => Ok(Step::Activate(q as usize)),
                Err(e) => Err(e),
            },
        },
    }
}

/// The midpoint after stepping around skipped releases: first over the window, then
/// over its older half, then over its newer half.
pub open spec fn unskipped_midpoint(
    hub: ReleaseHub,
    log: Seq<(String, Goodness)>,
    good: Seq<char>,
    bad: Seq<char>,
) -> Result<int, BisectError> {
    match midpoint_of_tags(hub, good, bad) {
        Err(e) => Err(e),
        Ok(m0) => if !skipped_at(hub, log, m0) {
            Ok(m0)
        } else {
            let old = hub.tags_list@[m0].name@;
            match midpoint_of_tags(hub, good, old) {
                Err(e) => Err(e),
                Ok(m1) => if !skipped_at(hub, log, m1) {
                    Ok(m1)
                } else {
                    midpoint_of_tags(hub, old, bad)
                },
            }
        },
    }
}

/// The step once releases are known good and bad.
pub open spec fn bisect_step(
    hub: ReleaseHub,
    log: Seq<(String, Goodness)>,
    good: Seq<char>,
    bad: Seq<char>,
) -> Result<Step, BisectError> {
    match unskipped_midpoint(hub, log, good, bad) {
        Err(e) => Err(e),
        Ok(m) => if skipped_at(hub, log, m) {
            Err(BisectError::PathologicalSkip)
        } else {
            let g = position_in(hub.tags_list@, good)->0;
            let b = position_in(hub.tags_list@, bad)->0;
            if m == g || m == b {
                Ok(Step::Converged { good: g as usize, bad: b as usize })
            } else {
                Ok(Step::Probe { position: m as usize, steps_left: steps(abs_diff(g, b) as nat) as i32 })
            }
        },
    }
}

/// The step that the judgment log calls for.
pub open spec fn next_step(
    hub: ReleaseHub,
    log: Seq<(String, Goodness)>,
    installed: Option<Seq<char>>,
    days_back: u64,
    today: Date,
) -> Result<Step, BisectError> {
    match (earliest_bad(log), latest_good(log)) {
        (None, _) => seek_upper(hub, installed),
        (Some(_), None) => seek_lower(hub, log, days_back, today),
        (Some(b), Some(g)) => bisect_step(hub, log, g, b),
    }
}

/// The largest position whose date is exactly `d`.
pub fn find_last_on(dates: &Vec<DateTime>, d: &Date) -> (r: Option<usize>)
    ensures
        r matches Some(p) ==> last_on(dates@, *d) == Some(p as int),
        r is None ==> last_on(dates@, *d) is None,
{
    let mut n: usize = dates.len();
    assert(dates@.take(n as int) =~= dates@);
    while n > 0
        invariant
            n <= dates.len(),
            last_on(dates@, *d) == last_on(dates@.take(n as int), *d),
        decreases n,
    {
        assert(dates@.take(n as int).drop_last() =~= dates@.take(n - 1));
        if dates[n - 1].date == *d {
            return Some(n - 1);
        }
        n -= 1;
    }
    None
}

/// The catalog position of the release on the start of the period that holds
/// `rough_date` (the newest release's date where none is given); the period is a day,
/// a week or a month as `rough_date` lies under three, under fourteen or more days
/// before `today`.
pub fn select_earlier_release(releases: &ReleaseHub, rough_date: Option<Date>, today: Date) -> (r:
    Result<usize, BisectError>)
    requires
        releases.wf(),
        rough_date matches Some(d) ==> d.wf(),
    ensures
        rough_date is None && releases.tags_list.len() == 0 ==> r == Err::<usize, BisectError>(
            BisectError::EmptyCatalog,
        ),
        rough_date matches Some(d) ==> match r {
            Ok(p) => earlier_release(*releases, d, today) == Ok::<int, BisectError>(p as int),
            Err(e) => earlier_release(*releases, d, today) == Err::<int, BisectError>(e),
        },
        rough_date is None && releases.tags_list.len() > 0 ==> match r {
            Ok(p) => earlier_release(*releases, releases.dates()[0].date, today) == Ok::<
                int,
                BisectError,
            >(p as int),
            Err(e) => earlier_release(*releases, releases.dates()[0].date, today) == Err::<
                int,
                BisectError,
            >(e),
        },
{
    let earlier = match rough_date {
        Some(d) => d,
        None => {
            if releases.tag_dates.len() == 0 {
                return Err(BisectError::EmptyCatalog);
            }
            assert(releases.tag_dates@[0].wf());
            releases.tag_dates[0].date
        },
    };
    let days_since = match day_count_between(today, earlier) {
        Some(n) => n,
        None => {
            return Err(BisectError::DateOutOfRange);
        },
    };
    let roundness = if days_since < 3 {
        Roundness::Day
    } else if days_since < 14 {
        Roundness::Week
    } else {
        Roundness::Month
    };
    let earlier = round_date(earlier, roundness);
    match find_last_on(&releases.tag_dates, &earlier) {
        Some(p) => Ok(p),
        None => Err(BisectError::NoMatchingRelease),
    }
}

pub open spec fn name_view(n: Option<String>) -> Option<Seq<char>> {
    match n {
        Some(s) => Some(s@),
        None => None,
    }
}

/// The midpoint of the window, stepping around skipped releases as `unskipped_midpoint`
/// describes.
fn midpoint_around_skips(
    releases: &ReleaseHub,
    track: &Track,
    good: &GitTag,
    bad: &GitTag,
) -> (r: Result<usize, BisectError>)
    requires
        releases.wf(),
    ensures
        r matches Ok(m) ==> unskipped_midpoint(*releases, track.0@, good.name@, bad.name@) == Ok::<
            int,
            BisectError,
        >(m as int) && m < releases.tags_list.len(),
        r matches Err(e) ==> unskipped_midpoint(*releases, track.0@, good.name@, bad.name@)
            == Err::<int, BisectError>(e),
{
    let m0 = select_midpoint_tag(releases, good, bad)?;
    if !track.is_tag_skipped(&releases.tags_list[m0]) {
        return Ok(m0);
    }
    let old = GitTag { name: releases.tags_list[m0].name.clone() };
    let m1 = select_midpoint_tag(releases, good, &old)?;
    if !track.is_tag_skipped(&releases.tags_list[m1]) {
        return Ok(m1);
    }
    select_midpoint_tag(releases, &old, bad)
}

/// Decides the next bisection step from the catalog and the judgment log.
/// `installed` is the freshest release found installed, `days_back` how far before the
/// last judged release to look for a good one, `today` the current date.
pub fn plan_advance(
    releases: &ReleaseHub,
    track: &Track,
    installed: Option<String>,
    days_back: u64,
    today: Date,
) -> (r: Result<Step, BisectError>)
    requires
        releases.wf(),
    ensures
        r == next_step(*releases, track.0@, name_view(installed), days_back, today),
{
    let earliest = track.earliest_bad();
    let latest = track.latest_good();
    match (earliest, latest) {
        (None, _) => match installed {
            Some(n) => match releases.position_of(&n) {
                Ok(p) => Ok(Step::Activate(p)),
                Err(e) => Err(e),
            },
            None => if releases.tags_list.len() == 0 {
                Err(BisectError::EmptyCatalog)
            } else {
                Ok(Step::Activate(0))
            },
        },
        (Some(_), None) => {
            proof {
                let b = earliest_bad(track.0@)->0;
                assert(crate::track::is_least(track.0@, Goodness::Bad, b));
            }
            let anchor = &track.0[track.0.len() - 1].0;
            let p = releases.position_of(anchor)?;
            assert(releases.tag_dates@[p as int].wf());
            let rough = match sub_days(releases.tag_dates[p].date, days_back) {
                Some(d) => d,
                None => {
                    return Err(BisectError::DateOutOfRange);
                },
            };
            match select_earlier_release(releases, Some(rough), today) {
                Ok(q) => Ok(Step::Activate(q)),
                Err(e) => Err(e),
            }
        },
        (Some(b), Some(g)) => {
            let good = GitTag { name: g };
            let bad = GitTag { name: b };
            let m = midpoint_around_skips(releases, track, &good, &bad)?;
            if track.is_tag_skipped(&releases.tags_list[m]) {
                return Err(BisectError::PathologicalSkip);
            }
            let gp = releases.position_of(&good.name)?;
            let bp = releases.position_of(&bad.name)?;
            if m == gp || m == bp {
                return Ok(Step::Converged { good: gp, bad: bp });
            }
            let steps_left = get_steps_left(releases, &good, &bad)?;
            Ok(Step::Probe { position: m, steps_left })
        },
    }
}

/// Decides the next bisection step as of the current date.
pub fn plan_advance_now(
    releases: &ReleaseHub,
    track: &Track,
    installed: Option<String>,
    days_back: u64,
) -> (r: Result<Step, BisectError>)
    requires
        releases.wf(),
    ensures
        exists|today: Date|
            today.wf() && r == next_step(*releases, track.0@, name_view(installed), days_back, today),
{
    let today = today_utc();
    plan_advance(releases, track, installed, days_back, today)
}

/// Records verdict `goodness` on the active release; without one nothing is recorded.
pub fn mark_active(track: &mut Track, active: Option<&GithubRelease>, goodness: Goodness) -> (r:
    Result<(), BisectError>)
    ensures
        active is None ==> r == Err::<(), BisectError>(BisectError::PreconditionViolation)
            && final(track).0@ == old(track).0@,
        active matches Some(a) ==> r is Ok && final(track).0@.len() == old(track).0@.len() + 1
            && final(track).0@.drop_last() == old(track).0@ && final(track).0@.last().0@
            == a.tag_name@ && final(track).0@.last().1 == goodness,
{
    match active {
        None => Err(BisectError::PreconditionViolation),
        Some(a) => {
            let ghost before = track.0@;
            track.record(a.tag_name.clone(), goodness);
            assert(track.0@.drop_last() =~= before);
            Ok(())
        },
    }
}

/// Skips the active release and excludes it from every later catalog.
pub fn blacklist_active(
    track: &mut Track,
    blacklist: &mut ReleaseBlacklist,
    active: Option<&GithubRelease>,
) -> (r: Result<(), BisectError>)
    ensures
        active is None ==> r == Err::<(), BisectError>(BisectError::PreconditionViolation)
            && final(track).0@ == old(track).0@ && final(blacklist).release_tags@ == old(
            blacklist,
        ).release_tags@,
        active matches Some(a) ==> r is Ok && final(track).0@.len() == old(track).0@.len() + 1
            && final(track).0@.drop_last() == old(track).0@ && final(track).0@.last().0@
            == a.tag_name@ && final(track).0@.last().1 == Goodness::Skip && forall|n: Seq<char>|
            listed(final(blacklist).release_tags@, n) <==> (listed(old(blacklist).release_tags@, n)
                || n == a.tag_name@),
{
    match active {
        None => Err(BisectError::PreconditionViolation),
        Some(a) => {
            mark_active(track, Some(a), Goodness::Skip)?;
            blacklist.add(a);
            Ok(())
        },
    }
}

/// With the good release right after the bad one in the catalog, the window needs no
/// bisection: the step reports convergence on those two releases.
pub proof fn lemma_adjacent_bounds_converge(
    hub: ReleaseHub,
    log: Seq<(String, Goodness)>,
    good: Seq<char>,
    bad: Seq<char>,
    g: int,
    b: int,
)
    requires
        position_in(hub.tags_list@, good) == Some(g),
        position_in(hub.tags_list@, bad) == Some(b),
        g == b + 1,
        !skipped_at(hub, log, g),
    ensures
        midpoint_of_tags(hub, good, bad) == Ok::<int, BisectError>(g),
        bisect_step(hub, log, good, bad) == Ok::<Step, BisectError>(
            Step::Converged { good: g as usize, bad: b as usize },
        ),
{
}

} // verus!
