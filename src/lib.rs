//! Mirrors the releases, and optionally the tags, of repositories on a release
//! hosting service into a local directory tree that follows a filter policy.
pub mod filter;
pub mod listing;
pub mod reconcile;

use vstd::prelude::*;

use crate::reconcile::Config;

verus! {

/// The value a repository's `include_tags` takes when the configuration omits it.
pub fn default_false() -> (r: bool)
    ensures
        !r,
{
    false
}

/// Prefix of the temporary files that downloads are staged in.
pub open spec fn temp_prefix() -> Seq<char> {
    ".tmp"@
}

/// Whether a file named `name` in the storage root is a staging file left by an
/// interrupted download, which start-up removes.
pub fn is_stale_temp_file(name: &str) -> (r: bool)
    ensures
        r == temp_prefix().is_prefix_of(name@),
{
    proof {
        reveal_strlit(".tmp");
    }
    let prefix = ".tmp";
    let n = name.unicode_len();
    let m = prefix.unicode_len();
    if n < m {
        return false;
    }
    let mut i: usize = 0;
    while i < m
        invariant
            m == prefix@.len(),
            n == name@.len(),
            m <= n,
            i <= m,
            prefix@ == temp_prefix(),
            forall|j: int| 0 <= j < i ==> prefix@[j] == name@[j],
        decreases m - i,
    {
        if prefix.get_char(i) != name.get_char(i) {
            return false;
        }
        i = i + 1;
    }
    assert(prefix@ =~= name@.subrange(0, m as int));
    true
}

/// Lists the releases of one repository.
pub struct CmdListReleases {
    pub repository: String,
    pub include_tags: bool,
}

/// Mirrors the repositories of a configuration file.
pub struct CmdMirror {
    pub config_path: String,
}

pub enum Application {
    ListReleases(CmdListReleases),
    Mirror(CmdMirror),
}

impl Application {
    /// The repositories a run of this command mirrors, in order, by path: every
    /// configured one for the mirror command, none for the listing command.
    pub fn mirror(&self, config: &Config) -> (r: Vec<String>)
        ensures
            self is ListReleases ==> r@.len() == 0,
            self is Mirror ==> r@.len() == config.repositories@.len() && forall|i: int|
                0 <= i < r@.len() ==> #[trigger] r@[i]@ == config.repositories@[i].path@,
    {
        let mut r: Vec<String> = Vec::new();
        if let Application::Mirror(_) = self {
            let mut i: usize = 0;
            while i < config.repositories.len()
                invariant
                    i <= config.repositories@.len(),
                    r@.len() == i,
                    forall|j: int| 0 <= j < i ==> #[trigger] r@[j]@ == config.repositories@[j].path@,
                decreases config.repositories@.len() - i,
            {
                r.push(config.repositories[i].path.clone());
                i = i + 1;
            }
        }
        r
    }
}

} // verus!
