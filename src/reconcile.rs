//! Reconciling a repository's mirror directory with its filtered releases.
use vstd::prelude::*;

use crate::filter::{asset_required, release_required, AssetFilter, ReleaseFilter};
use crate::listing::{GithubRelease, ReleaseView};

verus! {

/// A mirrored repository and its inclusion policy.
pub struct Repository {
    pub path: String,
    pub release_filter: ReleaseFilter,
    pub asset_filter: AssetFilter,
    pub include_tags: bool,
}

/// The storage root and the repositories mirrored into it.
pub struct Config {
    pub storage: String,
    pub repositories: Vec<Repository>,
}

/// What happens to one asset of a required release.
#[derive(Clone, Copy, Debug, PartialEq, Eq, Structural)]
pub enum AssetStep {
    /// Required and already on disk: nothing to do.
    Present,
    /// Required and missing: download it.
    Download,
    /// Filtered out but on disk: delete the file.
    Delete,
    /// Filtered out and absent: nothing to do.
    Absent,
}

/// What happens to one release.
#[derive(Debug)]
pub enum ReleasePlan {
    /// The tag holds a path separator: the release is skipped and the disk left alone.
    Malformed,
    /// The release is filtered out; its directory is removed where it exists.
    Drop { remove_directory: bool },
    /// The release is required; one step per asset, in order.
    Sync(Vec<AssetStep>),
}

pub ghost enum PlanView {
    Malformed,
    Drop { remove_directory: bool },
    Sync(Seq<AssetStep>),
}

impl View for ReleasePlan {
    type V = PlanView;

    open spec fn view(&self) -> PlanView {
        match self {
            ReleasePlan::Malformed => PlanView::Malformed,
            ReleasePlan::Drop { remove_directory } => PlanView::Drop {
                remove_directory: *remove_directory,
            },
            ReleasePlan::Sync(steps) => PlanView::Sync(steps@),
        }
    }
}

pub open spec fn has_slash(tag: Seq<char>) -> bool {
    tag.contains('/')
}

pub open spec fn asset_step(required: bool, present: bool) -> AssetStep {
    if required {
        if present {
            AssetStep::Present
        } else {
            AssetStep::Download
        }
    } else if present {
        AssetStep::Delete
    } else {
        AssetStep::Absent
    }
}

/// The plan for `rel` under `repo` at instant `now`, given whether its
/// directory exists and, for each asset, whether its file exists.
pub open spec fn plan_spec(
    repo: Repository,
    rel: ReleaseView,
    now: int,
    dir_exists: bool,
    present: Seq<bool>,
) -> PlanView {
    if has_slash(rel.tag) {
        PlanView::Malformed
    } else if !release_required(repo.release_filter, rel.tag, rel.published_at, now) {
        PlanView::Drop { remove_directory: dir_exists }
    } else {
        PlanView::Sync(
            Seq::new(
                rel.assets.len(),
                |i: int| asset_step(asset_required(repo.asset_filter, rel.assets[i].name), present[i]),
            ),
        )
    }
}

/// Whether `s` holds the character `c`.
pub fn contains_char(s: &str, c: char) -> (r: bool)
    ensures
        r == s@.contains(c),
{
    let n = s.unicode_len();
    let mut i: usize = 0;
    while i < n
        invariant
            n == s@.len(),
            i <= n,
            forall|j: int| 0 <= j < i ==> s@[j] != c,
        decreases n - i,
    {
        if s.get_char(i) == c {
            return true;
        }
        i = i + 1;
    }
    false
}

impl GithubRelease {
    /// The plan for this release under `repository` at instant `now`.
    /// `dir_exists` tells whether the release's directory exists, and
    /// `present[i]` whether the file of asset `i` exists.
    pub fn plan_at(
        &self,
        repository: &Repository,
        now: i64,
        dir_exists: bool,
        present: &Vec<bool>,
    ) -> (r: ReleasePlan)
        requires
            present@.len() == self.assets@.len(),
        ensures
            r@ == plan_spec(*repository, self@, now as int, dir_exists, present@),
    {
        if contains_char(self.tag_name.as_str(), '/') {
            return ReleasePlan::Malformed;
        }
        if !repository.release_filter.is_required_at(self, now) {
            return ReleasePlan::Drop { remove_directory: dir_exists };
        }
        let mut steps: Vec<AssetStep> = Vec::new();
        let mut i: usize = 0;
        while i < self.assets.len()
            invariant
                i <= self.assets@.len(),
                present@.len() == self.assets@.len(),
                steps@.len() == i,
                forall|j: int|
                    0 <= j < i ==> #[trigger] steps@[j] == asset_step(
                        asset_required(repository.asset_filter, self.assets@[j].name@),
                        present@[j],
                    ),
            decreases self.assets@.len() - i,
        {
            let required = repository.asset_filter.is_required(&self.assets[i]);
            let step = if required {
                if present[i] {
                    AssetStep::Present
                } else {
                    AssetStep::Download
                }
            } else if present[i] {
                AssetStep::Delete
            } else {
                AssetStep::Absent
            };
            steps.push(step);
            i = i + 1;
        }
        let r = ReleasePlan::Sync(steps);
        assert(r@ == plan_spec(*repository, self@, now as int, dir_exists, present@)) by {
            if let PlanView::Sync(s) = plan_spec(*repository, self@, now as int, dir_exists, present@) {
                assert(s =~= steps@);
            }
        }
        r
    }

    /// The plan for this release under `repository`, with a date window
    /// measured from the current instant, read at the call.
    pub fn mirror(&self, repository: &Repository, dir_exists: bool, present: &Vec<bool>) -> (r: ReleasePlan)
        requires
            present@.len() == self.assets@.len(),
        ensures
            exists|now: i64| r@ == plan_spec(*repository, self@, now as int, dir_exists, present@),
    {
        let now = crate::filter::now_seconds();
        self.plan_at(repository, now, dir_exists, present)
    }
}

/// A repository's mirror directory: the release directories present, by tag,
/// and the files present, as (tag, asset name).
pub ghost struct Disk {
    pub dirs: Set<Seq<char>>,
    pub files: Set<(Seq<char>, Seq<char>)>,
}

/// Every file lies in a release directory that exists.
pub open spec fn disk_wf(d: Disk) -> bool {
    forall|f: (Seq<char>, Seq<char>)| #[trigger] d.files.contains(f) ==> d.dirs.contains(f.0)
}

pub open spec fn asset_file(rel: ReleaseView, i: int) -> (Seq<char>, Seq<char>) {
    (rel.tag, rel.assets[i].name)
}

/// Whether the directory of `rel` exists on `d`.
pub open spec fn probe_dir(d: Disk, rel: ReleaseView) -> bool {
    d.dirs.contains(rel.tag)
}

/// For each asset of `rel`, whether its file exists on `d`.
pub open spec fn probe_files(d: Disk, rel: ReleaseView) -> Seq<bool> {
    Seq::new(rel.assets.len(), |i: int| d.files.contains(asset_file(rel, i)))
}

/// Whether file `f` is written by a step of `steps` that did not fail.
pub open spec fn downloaded(rel: ReleaseView, steps: Seq<AssetStep>, failed: Set<int>, f: (Seq<char>, Seq<char>)) -> bool {
    exists|i: int|
        0 <= i < steps.len() && i < rel.assets.len() && steps[i] == AssetStep::Download
            && !failed.contains(i) && f == #[trigger] asset_file(rel, i)
}

/// Whether file `f` is deleted by a step of `steps`.
pub open spec fn deleted(rel: ReleaseView, steps: Seq<AssetStep>, f: (Seq<char>, Seq<char>)) -> bool {
    exists|i: int|
        0 <= i < steps.len() && i < rel.assets.len() && steps[i] == AssetStep::Delete && f
            == #[trigger] asset_file(rel, i)
}

/// The disk after carrying out `plan` for `rel`, where the downloads of the
/// asset indices in `failed` fail and leave nothing behind.
pub open spec fn apply(d: Disk, rel: ReleaseView, plan: PlanView, failed: Set<int>) -> Disk {
    match plan {
        PlanView::Malformed => d,
        PlanView::Drop { remove_directory } => if remove_directory {
            Disk {
                dirs: d.dirs.remove(rel.tag),
                files: d.files.filter(|f: (Seq<char>, Seq<char>)| f.0 != rel.tag),
            }
        } else {
            d
        },
        PlanView::Sync(steps) => Disk {
            dirs: if exists|f: (Seq<char>, Seq<char>)| downloaded(rel, steps, failed, f) {
                d.dirs.insert(rel.tag)
            } else {
                d.dirs
            },
            files: Set::new(
                |f: (Seq<char>, Seq<char>)|
                    (d.files.contains(f) && !deleted(rel, steps, f)) || downloaded(rel, steps, failed, f),
            ),
        },
    }
}

/// One release's pass over `d`: probe the disk, plan at `now`, carry the plan out.
pub open spec fn pass_release(d: Disk, repo: Repository, rel: ReleaseView, now: int, failed: Set<int>) -> Disk {
    apply(d, rel, plan_spec(repo, rel, now, probe_dir(d, rel), probe_files(d, rel)), failed)
}

/// A plan that neither downloads nor deletes anything.
pub open spec fn quiet(p: PlanView) -> bool {
    match p {
        PlanView::Malformed => true,
        PlanView::Drop { remove_directory } => !remove_directory,
        PlanView::Sync(steps) => forall|i: int|
            0 <= i < steps.len() ==> #[trigger] steps[i] == AssetStep::Present || steps[i]
                == AssetStep::Absent,
    }
}

/// A release's pass changes no file and no directory of another release.
pub proof fn lemma_pass_is_local(d: Disk, repo: Repository, rel: ReleaseView, now: int, failed: Set<int>)
    requires
        disk_wf(d),
    ensures
        disk_wf(pass_release(d, repo, rel, now, failed)),
        forall|f: (Seq<char>, Seq<char>)|
            f.0 != rel.tag ==> (#[trigger] pass_release(d, repo, rel, now, failed).files.contains(f)
                <==> d.files.contains(f)),
        forall|t: Seq<char>|
            t != rel.tag ==> (#[trigger] pass_release(d, repo, rel, now, failed).dirs.contains(t)
                <==> d.dirs.contains(t)),
{
    let d2 = pass_release(d, repo, rel, now, failed);
    let plan = plan_spec(repo, rel, now, probe_dir(d, rel), probe_files(d, rel));
    if let PlanView::Sync(steps) = plan {
        assert forall|f: (Seq<char>, Seq<char>)| #[trigger] d2.files.contains(f) implies d2.dirs.contains(f.0) by {
            if downloaded(rel, steps, failed, f) {
                let i = choose|i: int|
                    0 <= i < steps.len() && i < rel.assets.len() && steps[i] == AssetStep::Download
                        && !failed.contains(i) && f == #[trigger] asset_file(rel, i);
                assert(f.0 == rel.tag);
            }
        }
        assert forall|f: (Seq<char>, Seq<char>)| f.0 != rel.tag implies (#[trigger] d2.files.contains(f) <==> d.files.contains(f)) by {
            if downloaded(rel, steps, failed, f) {
                let i = choose|i: int|
                    0 <= i < steps.len() && i < rel.assets.len() && steps[i] == AssetStep::Download
                        && !failed.contains(i) && f == #[trigger] asset_file(rel, i);
            }
            if deleted(rel, steps, f) {
                let i = choose|i: int|
                    0 <= i < steps.len() && i < rel.assets.len() && steps[i] == AssetStep::Delete && f
                        == #[trigger] asset_file(rel, i);
            }
        }
    }
}

/// After a release's pass in which no download fails, the file of each of its
/// assets exists exactly when the release and the asset both pass their filters.
pub proof fn lemma_pass_matches_filters(d: Disk, repo: Repository, rel: ReleaseView, now: int)
    requires
        disk_wf(d),
        !has_slash(rel.tag),
    ensures
        forall|i: int|
            0 <= i < rel.assets.len() ==> (pass_release(d, repo, rel, now, Set::empty()).files.contains(
                #[trigger] asset_file(rel, i),
            ) <==> release_required(repo.release_filter, rel.tag, rel.published_at, now)
                && asset_required(repo.asset_filter, rel.assets[i].name)),
{
    lemma_failed_downloads_are_isolated(d, repo, rel, now, Set::empty());
}

/// Whatever downloads fail, every other asset that passes both filters has its
/// file afterwards, and no asset that fails a filter keeps one.
pub proof fn lemma_failed_downloads_are_isolated(
    d: Disk,
    repo: Repository,
    rel: ReleaseView,
    now: int,
    failed: Set<int>,
)
    requires
        disk_wf(d),
        !has_slash(rel.tag),
    ensures
        forall|i: int|
            0 <= i < rel.assets.len() && !failed.contains(i) ==> (pass_release(
                d,
                repo,
                rel,
                now,
                failed,
            ).files.contains(#[trigger] asset_file(rel, i)) <==> release_required(
                repo.release_filter,
                rel.tag,
                rel.published_at,
                now,
            ) && asset_required(repo.asset_filter, rel.assets[i].name)),
        forall|i: int|
            0 <= i < rel.assets.len() && !(release_required(
                repo.release_filter,
                rel.tag,
                rel.published_at,
                now,
            ) && asset_required(repo.asset_filter, rel.assets[i].name)) ==> !pass_release(
                d,
                repo,
                rel,
                now,
                failed,
            ).files.contains(#[trigger] asset_file(rel, i)),
{
    let d2 = pass_release(d, repo, rel, now, failed);
    let rreq = release_required(repo.release_filter, rel.tag, rel.published_at, now);
    let plan = plan_spec(repo, rel, now, probe_dir(d, rel), probe_files(d, rel));
    if !rreq {
        assert forall|i: int| 0 <= i < rel.assets.len() implies !d2.files.contains(#[trigger] asset_file(rel, i)) by {
            if !probe_dir(d, rel) {
                assert(!d.files.contains(asset_file(rel, i)));
            }
        }
    } else {
        let steps = plan->Sync_0;
        let req = |i: int| asset_required(repo.asset_filter, rel.assets[i].name);
        assert forall|i: int| 0 <= i < rel.assets.len() implies (
            (!failed.contains(i) && req(i) ==> d2.files.contains(#[trigger] asset_file(rel, i)))
            && (!req(i) ==> !d2.files.contains(asset_file(rel, i)))) by {
            let f = asset_file(rel, i);
            if req(i) {
                if deleted(rel, steps, f) {
                    let j = choose|j: int|
                        0 <= j < steps.len() && j < rel.assets.len() && steps[j] == AssetStep::Delete
                            && f == #[trigger] asset_file(rel, j);
                    assert(rel.assets[j].name == rel.assets[i].name);
                }
                if !d.files.contains(f) && !failed.contains(i) {
                    assert(steps[i] == AssetStep::Download);
                    assert(downloaded(rel, steps, failed, f));
                }
            } else {
                if d.files.contains(f) {
                    assert(steps[i] == AssetStep::Delete);
                    assert(deleted(rel, steps, f));
                }
                if downloaded(rel, steps, failed, f) {
                    let j = choose|j: int|
                        0 <= j < steps.len() && j < rel.assets.len() && steps[j] == AssetStep::Download
                            && !failed.contains(j) && f == #[trigger] asset_file(rel, j);
                    assert(rel.assets[j].name == rel.assets[i].name);
                }
            }
        }
    }
}

/// A release whose tag holds a path separator leaves the disk as it was,
/// whatever the filters and the disk hold.
pub proof fn lemma_slash_tag_untouched(
    d: Disk,
    repo: Repository,
    rel: ReleaseView,
    now: int,
    failed: Set<int>,
)
    requires
        has_slash(rel.tag),
    ensures
        pass_release(d, repo, rel, now, failed) == d,
{
}

/// Whether the disk already agrees with the filters for `rel` at `now`: where
/// the release passes, each asset's file exists exactly when the asset passes;
/// where it does not, its directory is gone.
pub open spec fn settled(d: Disk, repo: Repository, rel: ReleaseView, now: int) -> bool {
    !has_slash(rel.tag) ==> if release_required(repo.release_filter, rel.tag, rel.published_at, now) {
        forall|i: int|
            0 <= i < rel.assets.len() ==> (d.files.contains(#[trigger] asset_file(rel, i))
                <==> asset_required(repo.asset_filter, rel.assets[i].name))
    } else {
        !d.dirs.contains(rel.tag)
    }
}

/// A release's pass with no failed download leaves the disk settled for it.
pub proof fn lemma_pass_settles(d: Disk, repo: Repository, rel: ReleaseView, now: int)
    requires
        disk_wf(d),
    ensures
        settled(pass_release(d, repo, rel, now, Set::empty()), repo, rel, now),
{
    if !has_slash(rel.tag) {
        lemma_pass_matches_filters(d, repo, rel, now);
    }
}

/// On a disk settled for `rel`, its plan downloads and deletes nothing, and
/// carrying it out changes nothing.
pub proof fn lemma_settled_is_quiet(d: Disk, repo: Repository, rel: ReleaseView, now: int)
    requires
        disk_wf(d),
        settled(d, repo, rel, now),
    ensures
        quiet(plan_spec(repo, rel, now, probe_dir(d, rel), probe_files(d, rel))),
        pass_release(d, repo, rel, now, Set::empty()) == d,
{
    let p = plan_spec(repo, rel, now, probe_dir(d, rel), probe_files(d, rel));
    if !has_slash(rel.tag) && release_required(repo.release_filter, rel.tag, rel.published_at, now) {
        let steps = p->Sync_0;
        assert forall|i: int| 0 <= i < steps.len() implies #[trigger] steps[i] == AssetStep::Present
            || steps[i] == AssetStep::Absent by {
            assert(d.files.contains(asset_file(rel, i)) == asset_required(repo.asset_filter, rel.assets[i].name));
        }
        let d2 = pass_release(d, repo, rel, now, Set::empty());
        assert(!exists|f: (Seq<char>, Seq<char>)| downloaded(rel, steps, Set::empty(), f));
        assert forall|f: (Seq<char>, Seq<char>)| !deleted(rel, steps, f) by {}
        assert(d2.files =~= d.files);
        assert(d2.dirs =~= d.dirs);
    }
}

/// A second pass over a release, at the same instant and on the disk that the
/// first pass left, plans no download and no deletion and changes nothing.
pub proof fn lemma_second_pass_is_quiet(d: Disk, repo: Repository, rel: ReleaseView, now: int)
    requires
        disk_wf(d),
    ensures
        ({
            let d2 = pass_release(d, repo, rel, now, Set::empty());
            &&& quiet(plan_spec(repo, rel, now, probe_dir(d2, rel), probe_files(d2, rel)))
            &&& pass_release(d2, repo, rel, now, Set::empty()) == d2
        }),
{
    lemma_pass_settles(d, repo, rel, now);
    lemma_pass_is_local(d, repo, rel, now, Set::empty());
    lemma_settled_is_quiet(pass_release(d, repo, rel, now, Set::empty()), repo, rel, now);
}

/// A whole repository's pass: its releases in order, no download failing.
pub open spec fn pass_repository(d: Disk, repo: Repository, rels: Seq<ReleaseView>, now: int) -> Disk
    decreases rels.len(),
{
    if rels.len() == 0 {
        d
    } else {
        pass_release(pass_repository(d, repo, rels.drop_last(), now), repo, rels.last(), now, Set::empty())
    }
}

/// No two releases of a listing share a tag.
pub open spec fn tags_unique(rels: Seq<ReleaseView>) -> bool {
    forall|i: int, j: int| 0 <= i < rels.len() && 0 <= j < rels.len() && i != j ==> rels[i].tag != rels[j].tag
}

/// After a repository's pass the disk is settled for every release of the
/// listing: each asset of each release with a well-formed tag has its file
/// exactly when the release and the asset pass their filters, and each
/// filtered-out release has no directory.
pub proof fn lemma_repository_pass_settles(d: Disk, repo: Repository, rels: Seq<ReleaseView>, now: int)
    requires
        disk_wf(d),
        tags_unique(rels),
    ensures
        disk_wf(pass_repository(d, repo, rels, now)),
        forall|k: int| 0 <= k < rels.len() ==> settled(pass_repository(d, repo, rels, now), repo, #[trigger] rels[k], now),
        forall|k: int, i: int|
            0 <= k < rels.len() && !has_slash(rels[k].tag) && 0 <= i < rels[k].assets.len() ==> (
            pass_repository(d, repo, rels, now).files.contains(#[trigger] asset_file(rels[k], i))
                <==> release_required(repo.release_filter, rels[k].tag, rels[k].published_at, now)
                && asset_required(repo.asset_filter, rels[k].assets[i].name)),
    decreases rels.len(),
{
    if rels.len() > 0 {
        let prev = rels.drop_last();
        let last = rels.last();
        let d1 = pass_repository(d, repo, prev, now);
        let d2 = pass_repository(d, repo, rels, now);
        assert(tags_unique(prev));
        lemma_repository_pass_settles(d, repo, prev, now);
        lemma_pass_is_local(d1, repo, last, now, Set::empty());
        lemma_pass_settles(d1, repo, last, now);
        assert forall|k: int| 0 <= k < rels.len() implies settled(d2, repo, #[trigger] rels[k], now) by {
            if k < rels.len() - 1 {
                assert(prev[k] == rels[k]);
                assert(rels[k].tag != last.tag);
                assert(settled(d1, repo, prev[k], now));
                if !has_slash(rels[k].tag) && release_required(repo.release_filter, rels[k].tag, rels[k].published_at, now) {
                    assert forall|i: int| 0 <= i < rels[k].assets.len() implies (d2.files.contains(#[trigger] asset_file(rels[k], i))
                        <==> d1.files.contains(asset_file(rels[k], i))) by {}
                }
            }
        }
    }
    let dn = pass_repository(d, repo, rels, now);
    assert forall|k: int, i: int|
        0 <= k < rels.len() && !has_slash(rels[k].tag) && 0 <= i < rels[k].assets.len() implies (
        dn.files.contains(#[trigger] asset_file(rels[k], i))
            <==> release_required(repo.release_filter, rels[k].tag, rels[k].published_at, now)
            && asset_required(repo.asset_filter, rels[k].assets[i].name)) by {
        assert(settled(dn, repo, rels[k], now));
        if !release_required(repo.release_filter, rels[k].tag, rels[k].published_at, now) {
            assert(!dn.dirs.contains(rels[k].tag));
        }
    }
}

proof fn lemma_settled_prefix_unchanged(d: Disk, repo: Repository, rels: Seq<ReleaseView>, now: int)
    requires
        disk_wf(d),
        forall|k: int| 0 <= k < rels.len() ==> settled(d, repo, #[trigger] rels[k], now),
    ensures
        pass_repository(d, repo, rels, now) == d,
    decreases rels.len(),
{
    if rels.len() > 0 {
        let prev = rels.drop_last();
        assert forall|k: int| 0 <= k < prev.len() implies settled(d, repo, #[trigger] prev[k], now) by {
            assert(prev[k] == rels[k]);
        }
        lemma_settled_prefix_unchanged(d, repo, prev, now);
        lemma_settled_is_quiet(d, repo, rels.last(), now);
    }
}

/// Running a repository's pass twice, with the same listing, filters and
/// instant: the second pass plans no download and no deletion for any release,
/// and leaves the disk as the first pass left it.
pub proof fn lemma_repository_pass_idempotent(d: Disk, repo: Repository, rels: Seq<ReleaseView>, now: int)
    requires
        disk_wf(d),
        tags_unique(rels),
    ensures
        ({
            let d2 = pass_repository(d, repo, rels, now);
            &&& pass_repository(d2, repo, rels, now) == d2
            &&& forall|k: int|
                0 <= k < rels.len() ==> quiet(
                    plan_spec(repo, rels[k], now, probe_dir(d2, rels[k]), probe_files(d2, #[trigger] rels[k])),
                )
        }),
{
    let d2 = pass_repository(d, repo, rels, now);
    lemma_repository_pass_settles(d, repo, rels, now);
    lemma_settled_prefix_unchanged(d2, repo, rels, now);
    assert forall|k: int| 0 <= k < rels.len() implies quiet(
        plan_spec(repo, rels[k], now, probe_dir(d2, rels[k]), probe_files(d2, #[trigger] rels[k])),
    ) by {
        lemma_settled_is_quiet(d2, repo, rels[k], now);
    }
}

/// No file appears under a tag that holds a path separator, whatever the
/// listing and the filters.
pub proof fn lemma_repository_pass_ignores_slash_tags(
    d: Disk,
    repo: Repository,
    rels: Seq<ReleaseView>,
    now: int,
    f: (Seq<char>, Seq<char>),
)
    requires
        disk_wf(d),
        has_slash(f.0),
        !d.files.contains(f),
    ensures
        !pass_repository(d, repo, rels, now).files.contains(f),
    decreases rels.len(),
{
    if rels.len() > 0 {
        lemma_repository_pass_ignores_slash_tags(d, repo, rels.drop_last(), now, f);
        lemma_repository_wf(d, repo, rels.drop_last(), now);
        lemma_pass_is_local(pass_repository(d, repo, rels.drop_last(), now), repo, rels.last(), now, Set::empty());
    }
}

proof fn lemma_repository_wf(d: Disk, repo: Repository, rels: Seq<ReleaseView>, now: int)
    requires
        disk_wf(d),
    ensures
        disk_wf(pass_repository(d, repo, rels, now)),
    decreases rels.len(),
{
    if rels.len() > 0 {
        lemma_repository_wf(d, repo, rels.drop_last(), now);
        lemma_pass_is_local(pass_repository(d, repo, rels.drop_last(), now), repo, rels.last(), now, Set::empty());
    }
}

} // verus!