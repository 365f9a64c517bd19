use github_mirror_releases::listing::{
    continue_paging, list_agregated_releases, list_releases, list_tags, page_url, GithubAsset,
    GithubRelease, GithubTag, GithubTagCommit, ListingKind, MAX_PAGES,
};

fn release(tag: &str, published_at: i64) -> GithubRelease {
    GithubRelease {
        tag_name: tag.to_string(),
        published_at,
        assets: vec![GithubAsset {
            browser_download_url: format!("https://example.org/{}/bin", tag),
            name: "bin".to_string(),
        }],
        tarball_url: format!("https://example.org/{}/tar", tag),
        zipball_url: format!("https://example.org/{}/zip", tag),
    }
}

fn tag(name: &str) -> GithubTag {
    GithubTag {
        name: name.to_string(),
        commit: GithubTagCommit { sha: "abc".to_string(), url: "https://example.org/c".to_string() },
        tarball_url: format!("https://example.org/t/{}/tar", name),
        zipball_url: format!("https://example.org/t/{}/zip", name),
    }
}

fn page(prefix: &str, n: usize) -> Vec<GithubRelease> {
    (0..n).map(|i| release(&format!("{}{}", prefix, i), 0)).collect()
}

#[test]
fn pages_of_30_30_12_0_give_72_releases() {
    let pages = vec![page("a", 30), page("b", 30), page("c", 12), page("d", 0), page("e", 5)];
    let r = list_releases(&pages);
    assert_eq!(r.len(), 72);
    assert_eq!(r[0].tag_name, "a0");
    assert_eq!(r[71].tag_name, "c11");
}

#[test]
fn listing_stops_at_first_empty_page() {
    let pages = vec![page("a", 3), page("b", 0), page("c", 4)];
    let r = list_releases(&pages);
    assert_eq!(r.len(), 3);
    assert!(r.iter().all(|x| x.tag_name.starts_with('a')));
}

#[test]
fn listing_reads_at_most_the_page_limit() {
    let pages: Vec<Vec<GithubRelease>> = (0..MAX_PAGES + 3).map(|i| page(&format!("p{}_", i), 1)).collect();
    let r = list_releases(&pages);
    assert_eq!(r.len(), MAX_PAGES);
}

#[test]
fn releases_gain_their_source_archives() {
    let r = list_releases(&vec![vec![release("v1.0", 5)]]);
    assert_eq!(r.len(), 1);
    let names: Vec<&str> = r[0].assets.iter().map(|a| a.name.as_str()).collect();
    assert_eq!(names, vec!["bin", "v1.0.tar.gz", "v1.0.zip"]);
    assert_eq!(r[0].assets[1].browser_download_url, "https://example.org/v1.0/tar");
    assert_eq!(r[0].assets[2].browser_download_url, "https://example.org/v1.0/zip");
    assert_eq!(r[0].published_at, 5);
}

#[test]
fn tags_become_prefixed_releases() {
    let r = list_tags(&vec![vec![tag("v2"), tag("v3")], vec![]], 1234);
    assert_eq!(r.len(), 2);
    assert_eq!(r[0].tag_name, "tag_v2");
    assert_eq!(r[0].published_at, 1234);
    let names: Vec<&str> = r[0].assets.iter().map(|a| a.name.as_str()).collect();
    assert_eq!(names, vec!["tag_v2.tar.gz", "tag_v2.zip"]);
    assert_eq!(r[0].assets[0].browser_download_url, "https://example.org/t/v2/tar");
    assert_eq!(r[1].tag_name, "tag_v3");
}

#[test]
fn aggregate_puts_releases_before_tags() {
    let rels = vec![vec![release("v1", 0)], vec![]];
    let tags = vec![vec![tag("t1")], vec![]];
    let without = list_agregated_releases(&rels, &tags, false);
    assert_eq!(without.len(), 1);
    let with = list_agregated_releases(&rels, &tags, true);
    assert_eq!(with.len(), 2);
    assert_eq!(with[0].tag_name, "v1");
    assert_eq!(with[1].tag_name, "tag_t1");
}

#[test]
fn paging_continues_only_after_a_nonempty_page() {
    assert!(continue_paging(1, 30));
    assert!(continue_paging(3, 12));
    assert!(!continue_paging(4, 0));
    assert!(!continue_paging(MAX_PAGES, 30));
}

#[test]
fn page_url_carries_page_query() {
    let u = page_url("owner/name", ListingKind::Releases, 2).unwrap();
    assert_eq!(u, "https://api.github.com/repos/owner/name/releases?per_page=30&page=2");
    let t = page_url("owner/name", ListingKind::Tags, 1).unwrap();
    assert_eq!(t, "https://api.github.com/repos/owner/name/tags?per_page=30&page=1");
}
