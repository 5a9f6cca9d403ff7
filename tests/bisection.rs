use cdda_bisector::bisecting::{get_steps_left, select_midpoint, select_midpoint_tag, steps_for_span, unclamp};
use cdda_bisector::controller::{plan_advance, select_earlier_release, Step};
use cdda_bisector::date::{round_date, Date, DateTime, Roundness};
use cdda_bisector::error::BisectError;
use cdda_bisector::release_hub::{GitTag, ReleaseHub};
use cdda_bisector::releases::{get_parent_commit, GithubRelease, ReleaseBlacklist};
use cdda_bisector::track::{name_on_or_before, Goodness, Track};

/// The tag of the release made on 2024-03-`day` at noon.
fn march(day: u32) -> String {
    format!("cdda-experimental-2024-03-{:02}-1200", day)
}

/// Ten tags, newest first: position k is 2024-03-(20 - k).
fn ten_tags() -> Vec<String> {
    (0..10).map(|k| march(20 - k)).collect()
}

fn hub_of(names: &[String], blacklist: &[String]) -> ReleaseHub {
    let tags = names.iter().map(|n| GitTag { name: n.clone() }).collect();
    ReleaseHub::from_tags(tags, &blacklist.to_vec())
}

fn log_of(entries: &[(String, Goodness)]) -> Track {
    let mut t = Track::new();
    for (n, g) in entries {
        t.record(n.clone(), *g);
    }
    t
}

fn date(year: i32, month: u32, day: u32) -> Date {
    Date { year, month, day }
}

fn at(d: Date) -> DateTime {
    DateTime { date: d, hour: 12, minute: 0 }
}

const TODAY: Date = Date { year: 2024, month: 3, day: 21 };

#[test]
fn round_month_goes_to_first_day() {
    assert_eq!(round_date(date(2024, 3, 17), Roundness::Month), date(2024, 3, 1));
    assert_eq!(round_date(date(2023, 12, 31), Roundness::Month), date(2023, 12, 1));
}

#[test]
fn round_week_and_day() {
    assert_eq!(round_date(date(2024, 3, 17), Roundness::Week), date(2024, 3, 15));
    assert_eq!(round_date(date(2024, 3, 7), Roundness::Week), date(2024, 3, 1));
    assert_eq!(round_date(date(2024, 3, 29), Roundness::Week), date(2024, 3, 29));
    assert_eq!(round_date(date(2024, 3, 17), Roundness::Day), date(2024, 3, 17));
    assert_eq!(round_date(date(2024, 3, 17), Roundness::Unrounded), date(2024, 3, 17));
}

#[test]
fn rounding_is_idempotent() {
    for g in [Roundness::Unrounded, Roundness::Day, Roundness::Week, Roundness::Month] {
        for day in 1..=31 {
            let once = round_date(date(2024, 1, day), g);
            assert_eq!(round_date(once, g), once);
        }
    }
}

#[test]
fn tag_names_parse_in_both_layouts() {
    let compact = GitTag { name: "cdda-experimental-2024-03-05-0712".to_string() };
    let dashed = GitTag { name: "cdda-experimental-2024-03-05-07-12".to_string() };
    let want = DateTime { date: date(2024, 3, 5), hour: 7, minute: 12 };
    assert_eq!(compact.try_tag_datetime(), Some(want));
    assert_eq!(dashed.try_tag_datetime(), Some(want));
    assert_eq!(compact.tag_datetime(), want);
    let other = GitTag { name: "t05".to_string() };
    assert_eq!(other.try_tag_datetime(), None);
}

#[test]
fn catalog_drops_unparsable_and_blacklisted() {
    let mut names = ten_tags();
    names.insert(3, "nightly".to_string());
    let hub = hub_of(&names, &[march(13)]);
    assert_eq!(hub.tags_list.len(), 9);
    assert_eq!(hub.tag_dates.len(), 9);
    assert_eq!(hub.tags_list[0].name, march(20));
    assert_eq!(hub.tag_dates[2].date, date(2024, 3, 18));
    assert_eq!(hub.position_of(&march(13)), Err(BisectError::NotFound));
    assert_eq!(hub.position_of(&march(12)), Ok(7));
    assert_eq!(hub.find_tag(&march(12)).map(|t| t.name.clone()), Ok(march(12)));
}

#[test]
fn unclamp_keeps_only_inner_values() {
    assert_eq!(unclamp(3, 2, 8), Some(3));
    assert_eq!(unclamp(2, 2, 8), None);
    assert_eq!(unclamp(8, 2, 8), None);
    assert_eq!(unclamp(9, 2, 8), None);
}

#[test]
fn midpoint_prefers_month_boundary() {
    let dates = vec![
        at(date(2024, 4, 10)),
        at(date(2024, 4, 5)),
        at(date(2024, 4, 2)),
        at(date(2024, 3, 30)),
        at(date(2024, 3, 20)),
        at(date(2024, 3, 10)),
        at(date(2024, 3, 1)),
        at(date(2024, 2, 20)),
    ];
    assert_eq!(select_midpoint(&dates, 7, 0), 2);
}

#[test]
fn midpoint_falls_back_to_day_boundary() {
    let hub = hub_of(&ten_tags(), &[]);
    assert_eq!(select_midpoint(&hub.tag_dates, 8, 2), 5);
    assert_eq!(select_midpoint(&hub.tag_dates, 8, 5), 6);
    assert_eq!(select_midpoint(&hub.tag_dates, 5, 2), 3);
}

#[test]
fn midpoint_stays_inside_window() {
    let hub = hub_of(&ten_tags(), &[]);
    for bad in 0..10 {
        for good in bad + 2..10 {
            let m = select_midpoint(&hub.tag_dates, good, bad);
            assert!(bad < m && m < good);
        }
    }
}

#[test]
fn adjacent_tags_give_the_good_one() {
    let hub = hub_of(&ten_tags(), &[]);
    let good = GitTag { name: march(15) };
    let bad = GitTag { name: march(16) };
    assert_eq!(select_midpoint_tag(&hub, &good, &bad), Ok(5));
    assert_eq!(select_midpoint_tag(&hub, &bad, &good), Err(BisectError::PreconditionViolation));
    let gone = GitTag { name: march(1) };
    assert_eq!(select_midpoint_tag(&hub, &gone, &bad), Err(BisectError::NotFound));
}

#[test]
fn steps_left_is_ceiling_of_log2() {
    assert_eq!(steps_for_span(0), 0);
    assert_eq!(steps_for_span(1), 0);
    assert_eq!(steps_for_span(2), 1);
    assert_eq!(steps_for_span(3), 2);
    assert_eq!(steps_for_span(6), 3);
    assert_eq!(steps_for_span(1024), 10);
    assert_eq!(steps_for_span(1025), 11);
    let mut last = 0;
    for span in 0..2000 {
        let s = steps_for_span(span);
        assert!(s >= last);
        last = s;
    }
}

#[test]
fn steps_left_between_tags() {
    let hub = hub_of(&ten_tags(), &[]);
    let good = GitTag { name: march(12) };
    let bad = GitTag { name: march(18) };
    assert_eq!(get_steps_left(&hub, &good, &bad), Ok(3));
    assert_eq!(get_steps_left(&hub, &good, &good), Ok(0));
    let gone = GitTag { name: march(1) };
    assert_eq!(get_steps_left(&hub, &gone, &bad), Err(BisectError::NotFound));
}

#[test]
fn names_compare_lexicographically() {
    assert!(name_on_or_before(&"a".to_string(), &"b".to_string()));
    assert!(name_on_or_before(&"ab".to_string(), &"ab".to_string()));
    assert!(name_on_or_before(&"ab".to_string(), &"abc".to_string()));
    assert!(!name_on_or_before(&"abc".to_string(), &"ab".to_string()));
    assert!(!name_on_or_before(&"b".to_string(), &"abc".to_string()));
}

#[test]
fn latest_good_ignores_append_order() {
    let a = "cdda-experimental-2024-03-01-1200".to_string();
    let b = "cdda-experimental-2024-03-09-1200".to_string();
    let one = log_of(&[(b.clone(), Goodness::Good), (a.clone(), Goodness::Good)]);
    let two = log_of(&[(a.clone(), Goodness::Good), (b.clone(), Goodness::Good)]);
    assert_eq!(one.latest_good(), Some(b.clone()));
    assert_eq!(two.latest_good(), Some(b.clone()));
    let three = log_of(&[(b.clone(), Goodness::Bad), (a.clone(), Goodness::Bad)]);
    let four = log_of(&[(a.clone(), Goodness::Bad), (b.clone(), Goodness::Bad)]);
    assert_eq!(three.earliest_bad(), Some(a.clone()));
    assert_eq!(four.earliest_bad(), Some(a.clone()));
    assert_eq!(three.latest_good(), None);
    assert_eq!(one.earliest_bad(), None);
}

#[test]
fn skip_counts_on_any_entry() {
    let t = log_of(&[(march(5), Goodness::Good), (march(5), Goodness::Skip)]);
    assert!(t.is_tag_skipped(&GitTag { name: march(5) }));
    assert!(!t.is_tag_skipped(&GitTag { name: march(6) }));
}

#[test]
fn first_step_tries_newest_or_installed() {
    let hub = hub_of(&ten_tags(), &[]);
    let empty = Track::new();
    assert_eq!(plan_advance(&hub, &empty, None, 7, TODAY), Ok(Step::Activate(0)));
    assert_eq!(plan_advance(&hub, &empty, Some(march(17)), 7, TODAY), Ok(Step::Activate(3)));
    assert_eq!(plan_advance(&hub, &empty, Some(march(1)), 7, TODAY), Err(BisectError::NotFound));
    let none = hub_of(&[], &[]);
    assert_eq!(plan_advance(&none, &empty, None, 7, TODAY), Err(BisectError::EmptyCatalog));
}

#[test]
fn lower_bound_search_goes_back_in_time() {
    let hub = hub_of(&ten_tags(), &[]);
    let log = log_of(&[(march(18), Goodness::Bad)]);
    // 2024-03-17 is four days before today: aligned to the week from 2024-03-15.
    assert_eq!(plan_advance(&hub, &log, None, 1, TODAY), Ok(Step::Activate(5)));
    // 2024-03-11 is ten days before today: the week from 2024-03-08 has no release.
    assert_eq!(plan_advance(&hub, &log, None, 7, TODAY), Err(BisectError::NoMatchingRelease));
}

#[test]
fn earlier_release_by_age() {
    let hub = hub_of(&ten_tags(), &[]);
    assert_eq!(select_earlier_release(&hub, Some(date(2024, 3, 19)), TODAY), Ok(1));
    assert_eq!(select_earlier_release(&hub, Some(date(2024, 3, 13)), TODAY), Err(BisectError::NoMatchingRelease));
    assert_eq!(select_earlier_release(&hub, None, TODAY), Ok(0));
    let mut names = ten_tags();
    names.push("cdda-experimental-2024-02-01-0900".to_string());
    let wide = hub_of(&names, &[]);
    assert_eq!(select_earlier_release(&wide, Some(date(2024, 2, 20)), TODAY), Ok(10));
    let none = hub_of(&[], &[]);
    assert_eq!(select_earlier_release(&none, None, TODAY), Err(BisectError::EmptyCatalog));
}

#[test]
fn scenario_probe_strictly_inside() {
    let hub = hub_of(&ten_tags(), &[]);
    let log = log_of(&[(march(18), Goodness::Bad), (march(12), Goodness::Good)]);
    let step = plan_advance(&hub, &log, None, 7, TODAY);
    assert_eq!(step, Ok(Step::Probe { position: 5, steps_left: 3 }));
    if let Ok(Step::Probe { position, .. }) = step {
        assert!(2 < position && position < 8);
    }
}

#[test]
fn scenario_skipped_midpoint_is_not_offered_again() {
    let hub = hub_of(&ten_tags(), &[]);
    let mut log = log_of(&[(march(18), Goodness::Bad), (march(12), Goodness::Good)]);
    log.record(march(15), Goodness::Skip);
    assert_eq!(plan_advance(&hub, &log, None, 7, TODAY), Ok(Step::Probe { position: 6, steps_left: 3 }));
    log.record(march(14), Goodness::Skip);
    assert_eq!(plan_advance(&hub, &log, None, 7, TODAY), Ok(Step::Probe { position: 3, steps_left: 3 }));
    log.record(march(17), Goodness::Skip);
    assert_eq!(plan_advance(&hub, &log, None, 7, TODAY), Err(BisectError::PathologicalSkip));
}

#[test]
fn scenario_adjacent_bounds_converge() {
    let hub = hub_of(&ten_tags(), &[]);
    let log = log_of(&[(march(15), Goodness::Good), (march(16), Goodness::Bad)]);
    assert_eq!(plan_advance(&hub, &log, None, 7, TODAY), Ok(Step::Converged { good: 5, bad: 4 }));
}

#[test]
fn scenario_blacklisted_tag_is_not_found() {
    let hub = hub_of(&ten_tags(), &[march(13)]);
    assert_eq!(hub.tags_list.len(), 9);
    assert!(hub.tags_list.iter().all(|t| t.name != march(13)));
    let log = log_of(&[(march(18), Goodness::Bad), (march(13), Goodness::Good)]);
    assert_eq!(plan_advance(&hub, &log, None, 7, TODAY), Err(BisectError::NotFound));
}

#[test]
fn parent_commit_needs_one_parent() {
    assert_eq!(get_parent_commit(&vec!["abc".to_string()]), Ok("abc".to_string()));
    assert_eq!(get_parent_commit(&vec![]), Err(BisectError::UnexpectedParents));
    assert_eq!(
        get_parent_commit(&vec!["a".to_string(), "b".to_string()]),
        Err(BisectError::UnexpectedParents)
    );
}

#[test]
fn blacklist_add_lists_once() {
    let release = GithubRelease {
        id: 1,
        published_at: String::new(),
        tag_name: march(13),
        assets: vec![],
        html_url: String::new(),
        target_commitish: String::new(),
    };
    let mut bl = ReleaseBlacklist::new();
    bl.add(&release);
    bl.add(&release);
    assert_eq!(bl.release_tags, vec![march(13)]);
}

fn asset(name: &str) -> cdda_bisector::releases::ReleaseAsset {
    cdda_bisector::releases::ReleaseAsset {
        name: name.to_string(),
        browser_download_url: format!("https://example.invalid/{}", name),
    }
}

fn release(id: i64, tag: &str, assets: Vec<cdda_bisector::releases::ReleaseAsset>) -> GithubRelease {
    GithubRelease {
        id,
        published_at: String::new(),
        tag_name: tag.to_string(),
        assets,
        html_url: String::new(),
        target_commitish: String::new(),
    }
}

#[test]
fn best_asset_follows_priority() {
    let r = release(
        1,
        "cdda-experimental-2024-03-01-1200",
        vec![
            asset("cdda-linux-tiles-x64.tar.gz"),
            asset("cdda-windows-tiles-x32.zip"),
            asset("cdda-windows-with-graphics-x64.zip"),
            asset("cdda-windows-tiles-x64-msvc.zip"),
        ],
    );
    assert_eq!(cdda_bisector::releases::select_best_asset(&r).name, "cdda-windows-tiles-x64-msvc.zip");
    let s = release(2, "cdda-experimental-2024-03-01-1200", vec![asset("cdda-windows-tiles-x32.zip"), asset("cdda-windows-with-graphics-x32.zip")]);
    assert_eq!(cdda_bisector::releases::select_best_asset(&s).name, "cdda-windows-tiles-x32.zip");
}

#[test]
fn trim_keeps_experimental_windows_releases() {
    let all = vec![
        release(1, "cdda-experimental-2024-03-01-1200", vec![asset("cdda-windows-tiles-x64.zip")]),
        release(2, "0.G", vec![asset("cdda-windows-tiles-x64.zip")]),
        release(3, "cdda-experimental-2024-03-02-1200", vec![asset("cdda-linux-tiles.tar.gz")]),
        release(4, "cdda-experimental-2024-03-03-1200", vec![asset("cdda-windows-with-graphics.zip")]),
    ];
    let kept: Vec<i64> = cdda_bisector::releases::trim_releases(all).iter().map(|r| r.id).collect();
    assert_eq!(kept, vec![1, 4]);
}

#[test]
fn prefix_check_is_exact() {
    assert!(cdda_bisector::releases::starts_with("cdda-windows-tiles-x64", "cdda-windows-tiles"));
    assert!(!cdda_bisector::releases::starts_with("cdda-windows", "cdda-windows-tiles"));
    assert!(cdda_bisector::releases::starts_with("abc", ""));
    assert!(!cdda_bisector::releases::starts_with("abd", "abc"));
}

#[test]
fn tags_resolve_by_suffix_then_substring() {
    let hub = hub_of(&ten_tags(), &[]);
    assert_eq!(hub.resolve_tag(&"03-15-1200".to_string()), Some(5));
    assert_eq!(hub.resolve_tag(&"2024-03-1".to_string()), Some(9));
    assert_eq!(hub.resolve_tag(&"2023".to_string()), None);
}

#[test]
fn freshest_install_is_greatest_stamp() {
    let dirs = vec![
        "cdda-windows-tiles-x64-2024-03-05-1200".to_string(),
        "_unpack_tmp".to_string(),
        "cdda-windows-tiles-x64-2024-03-12-0800".to_string(),
        "cdda-windows-tiles-x64-2024-02-28-2359".to_string(),
    ];
    assert_eq!(
        cdda_bisector::install::freshest_install_tag(&dirs),
        Some("cdda-experimental-2024-03-12-0800".to_string())
    );
    assert_eq!(cdda_bisector::install::freshest_install_tag(&vec!["misc".to_string()]), None);
}

#[test]
fn advance_now_starts_from_newest() {
    let hub = hub_of(&ten_tags(), &[]);
    assert_eq!(
        cdda_bisector::controller::plan_advance_now(&hub, &Track::new(), None, 7),
        Ok(Step::Activate(0))
    );
}

#[test]
fn catalog_is_sorted_newest_first() {
    let names = vec![march(11), march(20), "cdda-experimental-2024-03-15-07-30".to_string(), march(13)];
    let hub = hub_of(&names, &[]);
    let got: Vec<String> = hub.tags_list.iter().map(|t| t.name.clone()).collect();
    assert_eq!(got, vec![march(20), "cdda-experimental-2024-03-15-07-30".to_string(), march(13), march(11)]);
    assert_eq!(hub.tag_dates[1], DateTime { date: date(2024, 3, 15), hour: 7, minute: 30 });
}

#[test]
fn marking_needs_an_active_release() {
    let mut track = Track::new();
    assert_eq!(
        cdda_bisector::controller::mark_active(&mut track, None, Goodness::Good),
        Err(BisectError::PreconditionViolation)
    );
    assert!(track.0.is_empty());
    let r = release(7, &march(14), vec![]);
    assert_eq!(cdda_bisector::controller::mark_active(&mut track, Some(&r), Goodness::Bad), Ok(()));
    assert_eq!(track.0, vec![(march(14), Goodness::Bad)]);
}

#[test]
fn blacklisting_skips_and_excludes() {
    let mut track = Track::new();
    let mut bl = ReleaseBlacklist::new();
    assert_eq!(
        cdda_bisector::controller::blacklist_active(&mut track, &mut bl, None),
        Err(BisectError::PreconditionViolation)
    );
    let r = release(7, &march(14), vec![]);
    assert_eq!(cdda_bisector::controller::blacklist_active(&mut track, &mut bl, Some(&r)), Ok(()));
    assert_eq!(track.0, vec![(march(14), Goodness::Skip)]);
    assert_eq!(bl.release_tags, vec![march(14)]);
    let hub = hub_of(&ten_tags(), &bl.release_tags);
    assert_eq!(hub.position_of(&march(14)), Err(BisectError::NotFound));
}

#[test]
fn catalog_keeps_one_tag_per_name() {
    let names = vec![march(12), march(20), march(12), march(15), march(20), march(12)];
    let hub = hub_of(&names, &[]);
    let got: Vec<String> = hub.tags_list.iter().map(|t| t.name.clone()).collect();
    assert_eq!(got, vec![march(20), march(15), march(12)]);
    assert_eq!(hub.tag_dates.len(), 3);
    assert_eq!(hub.position_of(&march(12)), Ok(2));
}
