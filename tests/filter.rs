use github_mirror_releases::filter::{
    list_contains, AssetFileRegex, AssetFilter, Pattern, ReleaseDateRange, ReleaseDateWindow,
    ReleaseFilter, ReleaseRegex,
};
use github_mirror_releases::listing::{GithubAsset, GithubRelease};

fn release(tag: &str, published_at: i64) -> GithubRelease {
    GithubRelease {
        tag_name: tag.to_string(),
        published_at,
        assets: vec![],
        tarball_url: String::new(),
        zipball_url: String::new(),
    }
}

fn asset(name: &str) -> GithubAsset {
    GithubAsset { browser_download_url: "https://example.org/a".to_string(), name: name.to_string() }
}

fn now() -> i64 {
    std::time::SystemTime::now().duration_since(std::time::UNIX_EPOCH).unwrap().as_secs() as i64
}

#[test]
fn allow_all_accepts_everything() {
    assert!(ReleaseFilter::AllowAll.is_required(&release("x", 0)));
    assert!(AssetFilter::AllowAll.is_required(&asset("x")));
}

#[test]
fn date_range_bounds_are_inclusive() {
    let f = ReleaseFilter::DateRange(ReleaseDateRange { min: Some(100), max: Some(200) });
    assert!(!f.is_required_at(&release("a", 99), 0));
    assert!(f.is_required_at(&release("a", 100), 0));
    assert!(f.is_required_at(&release("a", 200), 0));
    assert!(!f.is_required_at(&release("a", 201), 0));
    let open = ReleaseFilter::DateRange(ReleaseDateRange { min: None, max: Some(200) });
    assert!(open.is_required_at(&release("a", i64::MIN), 0));
}

#[test]
fn date_window_min_from_now_of_a_day() {
    let f = ReleaseFilter::DateWindow(ReleaseDateWindow { min_from_now: Some(24 * 3600), max_from_now: None });
    let t = now();
    assert!(f.is_required(&release("hour_old", t - 3600)));
    assert!(!f.is_required(&release("two_days_old", t - 48 * 3600)));
}

#[test]
fn date_window_at_fixed_instant() {
    let t: i64 = 1_700_000_000;
    let min = ReleaseFilter::DateWindow(ReleaseDateWindow { min_from_now: Some(24 * 3600), max_from_now: None });
    assert!(min.is_required_at(&release("hour_old", t - 3600), t));
    assert!(!min.is_required_at(&release("two_days_old", t - 48 * 3600), t));
    let max = ReleaseFilter::DateWindow(ReleaseDateWindow { min_from_now: None, max_from_now: Some(24 * 3600) });
    assert!(!max.is_required_at(&release("hour_old", t - 3600), t));
    assert!(max.is_required_at(&release("two_days_old", t - 48 * 3600), t));
}

#[test]
fn fixed_list_matches_exact_tags() {
    let f = ReleaseFilter::FixedList(vec!["v1".to_string(), "v2".to_string()]);
    assert!(f.is_required(&release("v2", 0)));
    assert!(!f.is_required(&release("v3", 0)));
    assert!(!f.is_required(&release("v", 0)));
    assert!(list_contains(&vec!["a".to_string()], &"a".to_string()));
    assert!(!list_contains(&vec![], &"a".to_string()));
}

#[test]
fn regex_filters_match_tag_and_file_name() {
    let f = ReleaseFilter::Regex(ReleaseRegex { pattern: Pattern::new("^v1\\.").unwrap() });
    assert!(f.is_required(&release("v1.2", 0)));
    assert!(!f.is_required(&release("v2.0", 0)));
    let a = AssetFilter::FileRegex(AssetFileRegex { pattern: Pattern::new("linux").unwrap() });
    assert!(a.is_required(&asset("tool-linux-amd64.tar.gz")));
    assert!(!a.is_required(&asset("tool-darwin.zip")));
}

#[test]
fn malformed_pattern_is_rejected() {
    assert!(Pattern::new("(").is_none());
    let p = Pattern::new("a+b").unwrap();
    assert_eq!(p.as_str(), "a+b");
    assert!(p.is_match("xaab"));
}
