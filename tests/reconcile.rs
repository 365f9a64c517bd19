use github_mirror_releases::filter::{AssetFileRegex, AssetFilter, Pattern, ReleaseFilter};
use github_mirror_releases::listing::{GithubAsset, GithubRelease};
use github_mirror_releases::reconcile::{contains_char, AssetStep, Config, ReleasePlan, Repository};
use github_mirror_releases::{default_false, is_stale_temp_file, Application, CmdListReleases, CmdMirror};

fn release(tag: &str, names: &[&str]) -> GithubRelease {
    GithubRelease {
        tag_name: tag.to_string(),
        published_at: 0,
        assets: names
            .iter()
            .map(|n| GithubAsset { browser_download_url: format!("https://example.org/{}", n), name: n.to_string() })
            .collect(),
        tarball_url: String::new(),
        zipball_url: String::new(),
    }
}

fn repo(release_filter: ReleaseFilter, asset_filter: AssetFilter) -> Repository {
    Repository { path: "owner/name".to_string(), release_filter, asset_filter, include_tags: false }
}

fn steps(p: ReleasePlan) -> Vec<AssetStep> {
    match p {
        ReleasePlan::Sync(s) => s,
        other => panic!("expected a sync plan, got {:?}", other),
    }
}

#[test]
fn slash_in_tag_is_never_planned() {
    let r = repo(ReleaseFilter::AllowAll, AssetFilter::AllowAll);
    let rel = release("feature/x", &["a.bin"]);
    assert!(matches!(rel.plan_at(&r, 0, true, &vec![false]), ReleasePlan::Malformed));
    assert!(matches!(rel.mirror(&r, false, &vec![true]), ReleasePlan::Malformed));
}

#[test]
fn rejected_release_removes_existing_directory() {
    let r = repo(ReleaseFilter::FixedList(vec!["v2".to_string()]), AssetFilter::AllowAll);
    let rel = release("v1", &["a.bin"]);
    assert!(matches!(rel.plan_at(&r, 0, true, &vec![true]), ReleasePlan::Drop { remove_directory: true }));
    assert!(matches!(rel.plan_at(&r, 0, false, &vec![false]), ReleasePlan::Drop { remove_directory: false }));
}

#[test]
fn asset_steps_follow_filter_and_disk() {
    let a = AssetFilter::FileRegex(AssetFileRegex { pattern: Pattern::new("\\.tar\\.gz$").unwrap() });
    let r = repo(ReleaseFilter::AllowAll, a);
    let rel = release("v1", &["x.tar.gz", "y.tar.gz", "x.zip", "y.zip"]);
    let s = steps(rel.plan_at(&r, 0, true, &vec![true, false, true, false]));
    assert_eq!(s, vec![AssetStep::Present, AssetStep::Download, AssetStep::Delete, AssetStep::Absent]);
}

#[test]
fn switching_fixed_list_moves_the_mirror() {
    let before = repo(ReleaseFilter::FixedList(vec!["v1".to_string()]), AssetFilter::AllowAll);
    let after = repo(ReleaseFilter::FixedList(vec!["v2".to_string()]), AssetFilter::AllowAll);
    let v1 = release("v1", &["v1.tar.gz", "v1.zip"]);
    let v2 = release("v2", &["v2.tar.gz", "v2.zip"]);
    // First run: v1 downloaded, v2 left alone.
    assert_eq!(steps(v1.mirror(&before, false, &vec![false, false])), vec![AssetStep::Download, AssetStep::Download]);
    assert!(matches!(v2.mirror(&before, false, &vec![false, false]), ReleasePlan::Drop { remove_directory: false }));
    // Second run with the new list: v1's directory removed, v2 downloaded.
    assert!(matches!(v1.mirror(&after, true, &vec![true, true]), ReleasePlan::Drop { remove_directory: true }));
    assert_eq!(steps(v2.mirror(&after, false, &vec![false, false])), vec![AssetStep::Download, AssetStep::Download]);
}

#[test]
fn second_run_plans_nothing() {
    let a = AssetFilter::FileRegex(AssetFileRegex { pattern: Pattern::new("zip").unwrap() });
    let r = repo(ReleaseFilter::AllowAll, a);
    let rel = release("v1", &["a.zip", "a.tar.gz"]);
    assert_eq!(steps(rel.plan_at(&r, 0, true, &vec![false, true])), vec![AssetStep::Download, AssetStep::Delete]);
    assert_eq!(steps(rel.plan_at(&r, 0, true, &vec![true, false])), vec![AssetStep::Present, AssetStep::Absent]);
}

#[test]
fn a_missing_asset_does_not_hold_back_the_others() {
    let r = repo(ReleaseFilter::AllowAll, AssetFilter::AllowAll);
    let rel = release("v1", &["broken.bin", "ok.bin", "other.bin"]);
    // After a run in which only the first download failed, the next run asks for it alone.
    assert_eq!(
        steps(rel.plan_at(&r, 0, true, &vec![false, true, true])),
        vec![AssetStep::Download, AssetStep::Present, AssetStep::Present]
    );
}

#[test]
fn contains_char_finds_separator() {
    assert!(contains_char("a/b", '/'));
    assert!(!contains_char("v1.0", '/'));
    assert!(!contains_char("", '/'));
}

#[test]
fn stale_temp_files_are_recognised() {
    assert!(is_stale_temp_file(".tmpAbC123"));
    assert!(is_stale_temp_file(".tmp"));
    assert!(!is_stale_temp_file("tmp.bin"));
    assert!(!is_stale_temp_file(".tm"));
    assert!(!is_stale_temp_file("owner"));
}

#[test]
fn mirror_command_visits_every_repository_in_order() {
    let config = Config {
        storage: "/srv/mirror".to_string(),
        repositories: vec![
            Repository { path: "a/one".to_string(), release_filter: ReleaseFilter::AllowAll, asset_filter: AssetFilter::AllowAll, include_tags: false },
            Repository { path: "b/two".to_string(), release_filter: ReleaseFilter::AllowAll, asset_filter: AssetFilter::AllowAll, include_tags: true },
        ],
    };
    let m = Application::Mirror(CmdMirror { config_path: "c.yaml".to_string() });
    assert_eq!(m.mirror(&config), vec!["a/one".to_string(), "b/two".to_string()]);
    let l = Application::ListReleases(CmdListReleases { repository: "a/one".to_string(), include_tags: false });
    assert!(l.mirror(&config).is_empty());
}

#[test]
fn include_tags_defaults_to_false() {
    assert!(!default_false());
}
