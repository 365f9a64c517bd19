//! Release and tag records, and how paged listings become one sequence of releases.
use vstd::prelude::*;

verus! {

/// Whether `url` parses the base address of a listing.
pub uninterp spec fn url_parses(base: Seq<char>) -> bool;

/// The address `base` with the query pairs `per_page` and `page` appended, as `url` writes it.
pub uninterp spec fn url_with_page(base: Seq<char>, per_page: int, page: int) -> Seq<char>;

/// Relies on `url::Url::parse`, `Url::query_pairs_mut().append_pair` and
/// `Url::to_string`: the page query of a listing address, or `None` where the
/// base does not parse.
#[verifier::external_body]
fn paged_url(base: &str, per_page: u32, page: u32) -> (r: Option<String>)
    ensures
        r is Some <==> url_parses(base@),
        r matches Some(s) ==> s@ == url_with_page(base@, per_page as int, page as int),
{
    let mut url = match url::Url::parse(base) {
        Ok(u) => u,
        Err(_) => return None,
    };
    url.query_pairs_mut().append_pair("per_page", &per_page.to_string()).append_pair("page", &page.to_string());
    Some(url.to_string())
}

/// Items asked for per page of a listing.
pub const PAGE_SIZE: u32 = 30;

/// Most pages read from one listing.
pub const MAX_PAGES: usize = 59;

pub struct GithubAsset {
    pub browser_download_url: String,
    pub name: String,
}

pub struct GithubRelease {
    pub tag_name: String,
    /// Seconds since the Unix epoch.
    pub published_at: i64,
    pub assets: Vec<GithubAsset>,
    pub tarball_url: String,
    pub zipball_url: String,
}

pub struct GithubTagCommit {
    pub sha: String,
    pub url: String,
}

pub struct GithubTag {
    pub name: String,
    pub commit: GithubTagCommit,
    pub tarball_url: String,
    pub zipball_url: String,
}

pub ghost struct AssetView {
    pub url: Seq<char>,
    pub name: Seq<char>,
}

pub ghost struct ReleaseView {
    pub tag: Seq<char>,
    pub published_at: int,
    pub assets: Seq<AssetView>,
    pub tarball: Seq<char>,
    pub zipball: Seq<char>,
}

impl View for GithubAsset {
    type V = AssetView;

    open spec fn view(&self) -> AssetView {
        AssetView { url: self.browser_download_url@, name: self.name@ }
    }
}

impl View for GithubRelease {
    type V = ReleaseView;

    open spec fn view(&self) -> ReleaseView {
        ReleaseView {
            tag: self.tag_name@,
            published_at: self.published_at as int,
            assets: self.assets@.map_values(|a: GithubAsset| a@),
            tarball: self.tarball_url@,
            zipball: self.zipball_url@,
        }
    }
}

pub open spec fn releases_view(s: Seq<GithubRelease>) -> Seq<ReleaseView> {
    s.map_values(|r: GithubRelease| r@)
}

/// The two source archives of a tag, named after it.
pub open spec fn archives(tag: Seq<char>, tarball: Seq<char>, zipball: Seq<char>) -> Seq<AssetView> {
    seq![
        AssetView { url: tarball, name: tag + ".tar.gz"@ },
        AssetView { url: zipball, name: tag + ".zip"@ },
    ]
}

/// A release with its source archives appended to its published assets.
pub open spec fn with_archives(r: ReleaseView) -> ReleaseView {
    ReleaseView { assets: r.assets + archives(r.tag, r.tarball, r.zipball), ..r }
}

/// A tag as a release: named `tag_<name>`, dated `now`, holding its two archives.
pub open spec fn tag_release(name: Seq<char>, tarball: Seq<char>, zipball: Seq<char>, now: int) -> ReleaseView {
    let tag = "tag_"@ + name;
    ReleaseView { tag, published_at: now, assets: archives(tag, tarball, zipball), tarball, zipball }
}

/// Whether a listing stops after its first `k` pages: every page before `k` has
/// items, and page `k` is empty, past the end, or past the page limit.
pub open spec fn stops_at(lens: Seq<int>, k: int) -> bool {
    &&& 0 <= k <= lens.len()
    &&& k <= MAX_PAGES
    &&& forall|j: int| 0 <= j < k ==> lens[j] > 0
    &&& k == lens.len() || k == MAX_PAGES || lens[k] == 0
}

/// All items of a sequence of pages, in order.
pub open spec fn flatten<T>(pages: Seq<Seq<T>>) -> Seq<T>
    decreases pages.len(),
{
    if pages.len() == 0 {
        Seq::empty()
    } else {
        flatten(pages.drop_last()) + pages.last()
    }
}

pub open spec fn page_lens<T>(pages: Seq<Vec<T>>) -> Seq<int> {
    pages.map_values(|p: Vec<T>| p@.len() as int)
}

/// How many pages of a listing are read: the `k` with `stops_at(lens, k)`.
pub open spec fn pages_read(lens: Seq<int>) -> int {
    choose|k: int| stops_at(lens, k)
}

proof fn lemma_stops_at_unique(lens: Seq<int>, k: int)
    requires
        stops_at(lens, k),
    ensures
        pages_read(lens) == k,
{
    let c = pages_read(lens);
    assert(stops_at(lens, c));
    if c < k {
        assert(lens[c] > 0);
    } else if k < c {
        assert(lens[k] > 0);
    }
}

/// The releases of one page, each with its archives appended.
pub open spec fn release_page(p: Vec<GithubRelease>) -> Seq<ReleaseView> {
    p@.map_values(|r: GithubRelease| with_archives(r@))
}

pub open spec fn release_pages(pages: Seq<Vec<GithubRelease>>) -> Seq<Seq<ReleaseView>> {
    pages.map_values(|p: Vec<GithubRelease>| release_page(p))
}

/// The releases that a paged release listing yields.
pub open spec fn release_listing(pages: Seq<Vec<GithubRelease>>) -> Seq<ReleaseView> {
    flatten(release_pages(pages).take(pages_read(page_lens(pages))))
}

/// The tags of one page as releases dated `now`.
pub open spec fn tag_page(p: Vec<GithubTag>, now: int) -> Seq<ReleaseView> {
    p@.map_values(|t: GithubTag| tag_release(t.name@, t.tarball_url@, t.zipball_url@, now))
}

pub open spec fn tag_pages(pages: Seq<Vec<GithubTag>>, now: int) -> Seq<Seq<ReleaseView>> {
    pages.map_values(|p: Vec<GithubTag>| tag_page(p, now))
}

/// The releases that a paged tag listing yields, all dated `now`.
pub open spec fn tag_listing(pages: Seq<Vec<GithubTag>>, now: int) -> Seq<ReleaseView> {
    flatten(tag_pages(pages, now).take(pages_read(page_lens(pages))))
}

/// Whether another page is asked for, after `pages_fetched` pages of which the
/// last held `last_page_len` items.
pub fn continue_paging(pages_fetched: usize, last_page_len: usize) -> (r: bool)
    ensures
        r == (last_page_len > 0 && pages_fetched < MAX_PAGES),
{
    last_page_len > 0 && pages_fetched < MAX_PAGES
}

/// Which listing of a repository is read.
pub enum ListingKind {
    Releases,
    Tags,
}

pub open spec fn listing_base(repository: Seq<char>, kind: ListingKind) -> Seq<char> {
    "https://api.github.com/repos/"@ + repository + match kind {
        ListingKind::Releases => "/releases"@,
        ListingKind::Tags => "/tags"@,
    }
}

/// The address of page `page` of a repository's listing, `None` where it does not parse.
pub fn page_url(repository: &str, kind: ListingKind, page: u32) -> (r: Option<String>)
    ensures
        r is Some <==> url_parses(listing_base(repository@, kind)),
        r matches Some(s) ==> s@ == url_with_page(
            listing_base(repository@, kind),
            PAGE_SIZE as int,
            page as int,
        ),
{
    let suffix = match kind {
        ListingKind::Releases => "/releases",
        ListingKind::Tags => "/tags",
    };
    let base = String::from_str("https://api.github.com/repos/").concat(repository).concat(suffix);
    proof {
        assert(base@ == listing_base(repository@, kind));
    }
    paged_url(base.as_str(), PAGE_SIZE, page)
}

fn asset(url: &String, name: String) -> (r: GithubAsset)
    ensures
        r@ == (AssetView { url: url@, name: name@ }),
{
    GithubAsset { browser_download_url: url.clone(), name }
}

fn archive_pair(tag: &String, tarball: &String, zipball: &String) -> (r: Vec<GithubAsset>)
    ensures
        r@.map_values(|a: GithubAsset| a@) =~= archives(tag@, tarball@, zipball@),
{
    let mut v: Vec<GithubAsset> = Vec::new();
    v.push(asset(tarball, tag.clone().concat(".tar.gz")));
    v.push(asset(zipball, tag.clone().concat(".zip")));
    v
}

impl GithubAsset {
    pub fn duplicate(&self) -> (r: GithubAsset)
        ensures
            r@ == self@,
    {
        GithubAsset { browser_download_url: self.browser_download_url.clone(), name: self.name.clone() }
    }
}

impl GithubRelease {
    pub fn duplicate(&self) -> (r: GithubRelease)
        ensures
            r@ == self@,
    {
        let mut assets: Vec<GithubAsset> = Vec::new();
        let mut i: usize = 0;
        while i < self.assets.len()
            invariant
                i <= self.assets@.len(),
                assets@.map_values(|a: GithubAsset| a@) =~= self.assets@.take(i as int).map_values(
                    |a: GithubAsset| a@,
                ),
            decreases self.assets@.len() - i,
        {
            let ghost prev = assets@;
            assets.push(self.assets[i].duplicate());
            assert(assets@.map_values(|a: GithubAsset| a@) =~= prev.map_values(|a: GithubAsset| a@).push(
                self.assets@[i as int]@,
            ));
            assert(self.assets@.take(i + 1) =~= self.assets@.take(i as int).push(self.assets@[i as int]));
            assert(self.assets@.take(i + 1).map_values(|a: GithubAsset| a@) =~= self.assets@.take(
                i as int,
            ).map_values(|a: GithubAsset| a@).push(self.assets@[i as int]@));
            i = i + 1;
        }
        assert(self.assets@.take(i as int) =~= self.assets@);
        GithubRelease {
            tag_name: self.tag_name.clone(),
            published_at: self.published_at,
            assets,
            tarball_url: self.tarball_url.clone(),
            zipball_url: self.zipball_url.clone(),
        }
    }

    /// Appends the release's source archives, `<tag>.tar.gz` and `<tag>.zip`, to its assets.
    pub fn with_archives(self) -> (r: GithubRelease)
        ensures
            r@ == with_archives(self@),
    {
        let mut r = self;
        let extra = archive_pair(&r.tag_name, &r.tarball_url, &r.zipball_url);
        let ghost before = r.assets@;
        let mut extra = extra;
        r.assets.append(&mut extra);
        assert(r.assets@.map_values(|a: GithubAsset| a@) =~= before.map_values(|a: GithubAsset| a@)
            + archives(r.tag_name@, r.tarball_url@, r.zipball_url@));
        r
    }
}

impl GithubTag {
    /// The tag as a release published at `now`.
    pub fn to_release(&self, now: i64) -> (r: GithubRelease)
        ensures
            r@ == tag_release(self.name@, self.tarball_url@, self.zipball_url@, now as int),
    {
        let tag_name = String::from_str("tag_").concat(self.name.as_str());
        let assets = archive_pair(&tag_name, &self.tarball_url, &self.zipball_url);
        GithubRelease {
            tag_name,
            published_at: now,
            assets,
            tarball_url: self.tarball_url.clone(),
            zipball_url: self.zipball_url.clone(),
        }
    }
}

/// The releases of a paged release listing: every page up to the first empty
/// one (or the page limit), each release with its archives appended.
pub fn list_releases(pages: &Vec<Vec<GithubRelease>>) -> (r: Vec<GithubRelease>)
    ensures
        releases_view(r@) == release_listing(pages@),
{
    let mut out: Vec<GithubRelease> = Vec::new();
    let mut i: usize = 0;
    while i < pages.len() && i < MAX_PAGES && pages[i].len() > 0
        invariant
            i <= pages@.len(),
            i <= MAX_PAGES,
            forall|j: int| 0 <= j < i ==> pages@[j]@.len() > 0,
            releases_view(out@) == flatten(release_pages(pages@).take(i as int)),
        decreases pages@.len() - i,
    {
        let page = &pages[i];
        let ghost base = releases_view(out@);
        let mut j: usize = 0;
        while j < page.len()
            invariant
                j <= page@.len(),
                releases_view(out@) == base + release_page(*page).take(j as int),
            decreases page@.len() - j,
        {
            let ghost prev = out@;
            out.push(page[j].duplicate().with_archives());
            assert(releases_view(out@) =~= releases_view(prev).push(with_archives(page@[j as int]@)));
            assert(release_page(*page).take(j + 1) =~= release_page(*page).take(j as int).push(
                with_archives(page@[j as int]@),
            ));
            j = j + 1;
        }
        assert(release_page(*page).take(j as int) =~= release_page(*page));
        let ghost rp = release_pages(pages@);
        assert(rp.take(i + 1).drop_last() =~= rp.take(i as int));
        assert(rp.take(i + 1).last() == release_page(pages@[i as int]));
        i = i + 1;
    }
    proof {
        let lens = page_lens(pages@);
        assert forall|j: int| 0 <= j < i implies lens[j] > 0 by {}
        assert(stops_at(lens, i as int));
        lemma_stops_at_unique(lens, i as int);
    }
    out
}

/// The releases of a paged tag listing, as in `list_releases`, each tag made a
/// release dated `now`.
pub fn list_tags(pages: &Vec<Vec<GithubTag>>, now: i64) -> (r: Vec<GithubRelease>)
    ensures
        releases_view(r@) == tag_listing(pages@, now as int),
{
    let mut out: Vec<GithubRelease> = Vec::new();
    let mut i: usize = 0;
    while i < pages.len() && i < MAX_PAGES && pages[i].len() > 0
        invariant
            i <= pages@.len(),
            i <= MAX_PAGES,
            forall|j: int| 0 <= j < i ==> pages@[j]@.len() > 0,
            releases_view(out@) == flatten(tag_pages(pages@, now as int).take(i as int)),
        decreases pages@.len() - i,
    {
        let page = &pages[i];
        let ghost base = releases_view(out@);
        let mut j: usize = 0;
        while j < page.len()
            invariant
                j <= page@.len(),
                releases_view(out@) == base + tag_page(*page, now as int).take(j as int),
            decreases page@.len() - j,
        {
            let ghost prev = out@;
            let t = &page[j];
            out.push(t.to_release(now));
            let ghost x = tag_release(t.name@, t.tarball_url@, t.zipball_url@, now as int);
            assert(releases_view(out@) =~= releases_view(prev).push(x));
            assert(tag_page(*page, now as int).take(j + 1) =~= tag_page(*page, now as int).take(
                j as int,
            ).push(x));
            j = j + 1;
        }
        assert(tag_page(*page, now as int).take(j as int) =~= tag_page(*page, now as int));
        let ghost tp = tag_pages(pages@, now as int);
        assert(tp.take(i + 1).drop_last() =~= tp.take(i as int));
        assert(tp.take(i + 1).last() == tag_page(pages@[i as int], now as int));
        i = i + 1;
    }
    proof {
        let lens = page_lens(pages@);
        assert forall|j: int| 0 <= j < i implies lens[j] > 0 by {}
        assert(stops_at(lens, i as int));
        lemma_stops_at_unique(lens, i as int);
    }
    out
}

/// A repository's releases, followed, where `include_tags` holds, by its tags
/// as releases dated at the instant they are listed.
pub fn list_agregated_releases(
    release_pages: &Vec<Vec<GithubRelease>>,
    tag_pages: &Vec<Vec<GithubTag>>,
    include_tags: bool,
) -> (r: Vec<GithubRelease>)
    ensures
        !include_tags ==> releases_view(r@) == release_listing(release_pages@),
        include_tags ==> exists|now: int|
            releases_view(r@) == release_listing(release_pages@) + tag_listing(tag_pages@, now),
{
    let mut releases = list_releases(release_pages);
    if include_tags {
        let now = crate::filter::now_seconds();
        let mut tags = list_tags(tag_pages, now);
        let ghost a = releases@;
        let ghost b = tags@;
        releases.append(&mut tags);
        assert(releases_view(releases@) =~= releases_view(a) + releases_view(b));
    }
    releases
}

} // verus!
