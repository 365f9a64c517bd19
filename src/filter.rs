//! Inclusion policies for releases and assets.
use vstd::prelude::*;

use crate::listing::{GithubAsset, GithubRelease};

verus! {

#[verifier::external_type_specification]
#[verifier::external_body]
pub struct ExRegex(regex::Regex);

/// Whether `regex` accepts a pattern: a function of the pattern's text.
pub uninterp spec fn regex_accepts(pattern: Seq<char>) -> bool;

/// Whether the compiled form of `pattern` matches somewhere in `text`.
pub uninterp spec fn regex_is_match(pattern: Seq<char>, text: Seq<char>) -> bool;

/// Relies on `regex::Regex::new`: whether it compiles depends on the pattern alone.
#[verifier::external_body]
fn compile_regex(source: &str) -> (r: Option<regex::Regex>)
    ensures
        r is Some <==> regex_accepts(source@),
{
    regex::Regex::new(source).ok()
}

/// Relies on `regex::Regex::is_match`. A `Pattern`'s private `compiled` field is
/// only ever built by `Pattern::new` from its `source`, so the answer is that of
/// the source text on the haystack.
#[verifier::external_body]
fn pattern_is_match(p: &Pattern, text: &str) -> (r: bool)
    ensures
        r == regex_is_match(p@, text@),
{
    p.compiled.is_match(text)
}

/// Relies on `chrono::Utc::now`: the current instant in whole seconds since the
/// Unix epoch. Nothing is known of the value.
#[verifier::external_body]
pub(crate) fn now_seconds() -> (r: i64) {
    chrono::Utc::now().timestamp()
}

/// A regular expression together with the text it was compiled from.
pub struct Pattern {
    source: String,
    compiled: regex::Regex,
}

impl View for Pattern {
    type V = Seq<char>;

    closed spec fn view(&self) -> Seq<char> {
        self.source@
    }
}

impl Pattern {
    /// Compiles `source`; `None` where the regex syntax rejects it.
    pub fn new(source: &str) -> (r: Option<Pattern>)
        ensures
            r is Some <==> regex_accepts(source@),
            r matches Some(p) ==> p@ == source@,
    {
        match compile_regex(source) {
            Some(compiled) => Some(Pattern { source: source.to_owned(), compiled }),
            None => None,
        }
    }

    /// The text the pattern was compiled from.
    pub fn as_str(&self) -> (r: &str)
        ensures
            r@ == self@,
    {
        self.source.as_str()
    }

    /// Whether the pattern matches somewhere in `text`.
    pub fn is_match(&self, text: &str) -> (r: bool)
        ensures
            r == regex_is_match(self@, text@),
    {
        pattern_is_match(self, text)
    }
}

/// Bounds on the publication instant, in seconds since the Unix epoch.
pub struct ReleaseDateRange {
    pub min: Option<i64>,
    pub max: Option<i64>,
}

/// Bounds on a release's age at evaluation time, in seconds.
pub struct ReleaseDateWindow {
    pub min_from_now: Option<u64>,
    pub max_from_now: Option<u64>,
}

pub struct ReleaseRegex {
    pub pattern: Pattern,
}

pub struct AssetFileRegex {
    pub pattern: Pattern,
}

pub enum ReleaseFilter {
    AllowAll,
    DateRange(ReleaseDateRange),
    DateWindow(ReleaseDateWindow),
    FixedList(Vec<String>),
    Regex(ReleaseRegex),
}

pub enum AssetFilter {
    AllowAll,
    FileRegex(AssetFileRegex),
}

/// Whether `list` holds `name`.
pub open spec fn listed(list: Seq<String>, name: Seq<char>) -> bool {
    exists|i: int| 0 <= i < list.len() && #[trigger] list[i]@ == name
}

/// Whether a release with this tag, published at `published_at`, passes `f`
/// when evaluated at instant `now`.
pub open spec fn release_required(
    f: ReleaseFilter,
    tag: Seq<char>,
    published_at: int,
    now: int,
) -> bool {
    match f {
        ReleaseFilter::AllowAll => true,
        ReleaseFilter::DateRange(d) => !(d.min matches Some(min) && published_at < min) && !(
        d.max matches Some(max) && published_at > max),
        ReleaseFilter::DateWindow(w) => !(w.min_from_now matches Some(min) && now - min
            > published_at) && !(w.max_from_now matches Some(max) && now - max < published_at),
        ReleaseFilter::FixedList(list) => listed(list@, tag),
        ReleaseFilter::Regex(r) => regex_is_match(r.pattern@, tag),
    }
}

/// Whether an asset of this file name passes `f`.
pub open spec fn asset_required(f: AssetFilter, name: Seq<char>) -> bool {
    match f {
        AssetFilter::AllowAll => true,
        AssetFilter::FileRegex(r) => regex_is_match(r.pattern@, name),
    }
}

/// Whether `list` holds `name`.
pub fn list_contains(list: &Vec<String>, name: &String) -> (r: bool)
    ensures
        r == listed(list@, name@),
{
    let mut i: usize = 0;
    while i < list.len()
        invariant
            i <= list@.len(),
            forall|j: int| 0 <= j < i ==> #[trigger] list@[j]@ != name@,
        decreases list@.len() - i,
    {
        if list[i] == *name {
            return true;
        }
        i = i + 1;
    }
    false
}

impl ReleaseFilter {
    /// Whether `release` passes the filter when evaluated at instant `now`
    /// (seconds since the Unix epoch).
    pub fn is_required_at(&self, release: &GithubRelease, now: i64) -> (r: bool)
        ensures
            r == release_required(*self, release.tag_name@, release.published_at as int, now as int),
    {
        match self {
            ReleaseFilter::AllowAll => true,
            ReleaseFilter::DateRange(d) => {
                if let Some(min) = d.min {
                    if release.published_at < min {
                        return false;
                    }
                }
                if let Some(max) = d.max {
                    if release.published_at > max {
                        return false;
                    }
                }
                true
            },
            ReleaseFilter::DateWindow(w) => {
                let published = release.published_at as i128;
                if let Some(min) = w.min_from_now {
                    if now as i128 - min as i128 > published {
                        return false;
                    }
                }
                if let Some(max) = w.max_from_now {
                    if (now as i128 - max as i128) < published {
                        return false;
                    }
                }
                true
            },
            ReleaseFilter::FixedList(list) => list_contains(list, &release.tag_name),
            ReleaseFilter::Regex(r) => r.pattern.is_match(release.tag_name.as_str()),
        }
    }

    /// Whether `release` passes the filter now; a date window is measured from
    /// the current instant, read at each call.
    pub fn is_required(&self, release: &GithubRelease) -> (r: bool)
        ensures
            exists|now: i64|
                r == release_required(*self, release.tag_name@, release.published_at as int, now as int),
            !(*self is DateWindow) ==> r == release_required(
                *self,
                release.tag_name@,
                release.published_at as int,
                0,
            ),
    {
        let now = now_seconds();
        self.is_required_at(release, now)
    }
}

impl AssetFilter {
    /// Whether `asset` passes the filter.
    pub fn is_required(&self, asset: &GithubAsset) -> (r: bool)
        ensures
            r == asset_required(*self, asset.name@),
    {
        match self {
            AssetFilter::AllowAll => true,
            AssetFilter::FileRegex(c) => c.pattern.is_match(asset.name.as_str()),
        }
    }
}

} // verus!
