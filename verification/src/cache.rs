//! What a proxy does with its copy of a remote file.

use vstd::prelude::*;

use crate::text::{begins, chars_of, ends, is_text};
use crate::text::{ends_with, starts_with};

verus! {

/// What is known of a requested file.
#[derive(Clone, Copy, Debug, PartialEq, Eq)]
pub struct DebianCacheDecisionInput<'a> {
    pub path: &'a str,
    pub upstream_success: bool,
    pub cached_locally: bool,
    pub cache_stale: bool,
    pub checksum_matches: bool,
}

/// What to do with the local copy.
#[derive(Clone, Copy, Debug, PartialEq, Eq, Structural)]
pub enum DebianCacheAction {
    ServeCached,
    Revalidate,
    FetchAndCache,
    DoNotCache,
}

/// The names of metadata files.
pub open spec fn metadata_names() -> Seq<Seq<char>> {
    seq![
        "Release"@,
        "InRelease"@,
        "Release.gpg"@,
        "Packages"@,
        "Packages.gz"@,
        "Packages.xz"@,
        "Sources"@,
        "Sources.gz"@,
        "Sources.xz"@,
    ]
}

/// The path names a metadata file, at the root or below `dists/`.
pub open spec fn is_metadata(path: Seq<char>) -> bool {
    exists|i: int|
        0 <= i < metadata_names().len() && (path == #[trigger] metadata_names()[i] || (starts_with(
            path,
            "dists/"@,
        ) && ends_with(path, seq!['/'] + metadata_names()[i])))
}

/// The path names a package file in the pool.
pub open spec fn is_pool_file(path: Seq<char>) -> bool {
    starts_with(path, "pool/"@) && (ends_with(path, ".deb"@) || ends_with(path, ".udeb"@))
}

/// What is done with the copy of a file. A package file is kept for good as long
/// as its checksum matches; a metadata file is asked for again when it is stale.
pub open spec fn cache_action(
    path: Seq<char>,
    upstream_success: bool,
    cached_locally: bool,
    cache_stale: bool,
    checksum_matches: bool,
) -> DebianCacheAction {
    if !upstream_success {
        DebianCacheAction::DoNotCache
    } else if cached_locally && is_pool_file(path) && checksum_matches {
        DebianCacheAction::ServeCached
    } else if cached_locally && is_metadata(path) {
        if cache_stale {
            DebianCacheAction::Revalidate
        } else {
            DebianCacheAction::ServeCached
        }
    } else {
        DebianCacheAction::FetchAndCache
    }
}

/// A file in the pool is no metadata file.
pub proof fn pool_file_is_no_metadata(path: Seq<char>)
    requires
        is_pool_file(path),
    ensures
        !is_metadata(path),
{
    reveal_strlit("pool/");
    reveal_strlit("dists/");
    reveal_strlit("Release");
    reveal_strlit("InRelease");
    reveal_strlit("Release.gpg");
    reveal_strlit("Packages");
    reveal_strlit("Packages.gz");
    reveal_strlit("Packages.xz");
    reveal_strlit("Sources");
    reveal_strlit("Sources.gz");
    reveal_strlit("Sources.xz");
    assert(path.take(5)[0] == 'p');
    if starts_with(path, "dists/"@) {
        assert(path.take(6)[0] == 'd');
    }
    assert forall|i: int| 0 <= i < metadata_names().len() implies path
        != #[trigger] metadata_names()[i] by {
        assert(i == 0 || i == 1 || i == 2 || i == 3 || i == 4 || i == 5 || i == 6 || i == 7 || i
            == 8);
        assert(metadata_names()[i][0] != 'p');
    }
}

/// A copy of a package file whose checksum does not match is never handed out,
/// and nothing is kept of a fetch that failed.
pub proof fn bad_copy_is_not_served(
    path: Seq<char>,
    upstream_success: bool,
    cached_locally: bool,
    cache_stale: bool,
    checksum_matches: bool,
)
    ensures
        ({
            let action = cache_action(
                path,
                upstream_success,
                cached_locally,
                cache_stale,
                checksum_matches,
            );
            &&& is_pool_file(path) && !checksum_matches ==> action
                != DebianCacheAction::ServeCached
            &&& !upstream_success ==> action == DebianCacheAction::DoNotCache
        }),
{
    if is_pool_file(path) {
        pool_file_is_no_metadata(path);
    }
}

/// The path is the name, or ends with it below `dists/`.
fn names_metadata(path: &[char], in_dists: bool, name: &str, tail: &str) -> (r: bool)
    requires
        in_dists == starts_with(path@, "dists/"@),
        tail@ == seq!['/'] + name@,
    ensures
        r == (path@ == name@ || (starts_with(path@, "dists/"@) && ends_with(
            path@,
            seq!['/'] + name@,
        ))),
{
    is_text(path, name) || (in_dists && ends(path, tail))
}

/// The path names a metadata file.
pub fn is_debian_metadata_path(path: &str) -> (r: bool)
    ensures
        r == is_metadata(path@),
{
    let chars = chars_of(path);
    let p = chars.as_slice();
    let in_dists = begins(p, "dists/");
    let ghost names = metadata_names();
    proof {
        reveal_strlit("Release");
        reveal_strlit("/Release");
        reveal_strlit("InRelease");
        reveal_strlit("/InRelease");
        reveal_strlit("Release.gpg");
        reveal_strlit("/Release.gpg");
        reveal_strlit("Packages");
        reveal_strlit("/Packages");
        reveal_strlit("Packages.gz");
        reveal_strlit("/Packages.gz");
        reveal_strlit("Packages.xz");
        reveal_strlit("/Packages.xz");
        reveal_strlit("Sources");
        reveal_strlit("/Sources");
        reveal_strlit("Sources.gz");
        reveal_strlit("/Sources.gz");
        reveal_strlit("Sources.xz");
        reveal_strlit("/Sources.xz");
        assert("/Release"@ =~= seq!['/'] + "Release"@);
        assert("/InRelease"@ =~= seq!['/'] + "InRelease"@);
        assert("/Release.gpg"@ =~= seq!['/'] + "Release.gpg"@);
        assert("/Packages"@ =~= seq!['/'] + "Packages"@);
        assert("/Packages.gz"@ =~= seq!['/'] + "Packages.gz"@);
        assert("/Packages.xz"@ =~= seq!['/'] + "Packages.xz"@);
        assert("/Sources"@ =~= seq!['/'] + "Sources"@);
        assert("/Sources.gz"@ =~= seq!['/'] + "Sources.gz"@);
        assert("/Sources.xz"@ =~= seq!['/'] + "Sources.xz"@);
        assert(names[0] == "Release"@);
        assert(names[1] == "InRelease"@);
        assert(names[2] == "Release.gpg"@);
        assert(names[3] == "Packages"@);
        assert(names[4] == "Packages.gz"@);
        assert(names[5] == "Packages.xz"@);
        assert(names[6] == "Sources"@);
        assert(names[7] == "Sources.gz"@);
        assert(names[8] == "Sources.xz"@);
    }
    names_metadata(p, in_dists, "Release", "/Release") || names_metadata(
        p,
        in_dists,
        "InRelease",
        "/InRelease",
    ) || names_metadata(p, in_dists, "Release.gpg", "/Release.gpg") || names_metadata(
        p,
        in_dists,
        "Packages",
        "/Packages",
    ) || names_metadata(p, in_dists, "Packages.gz", "/Packages.gz") || names_metadata(
        p,
        in_dists,
        "Packages.xz",
        "/Packages.xz",
    ) || names_metadata(p, in_dists, "Sources", "/Sources") || names_metadata(
        p,
        in_dists,
        "Sources.gz",
        "/Sources.gz",
    ) || names_metadata(p, in_dists, "Sources.xz", "/Sources.xz")
}

/// The path names a package file in the pool.
pub fn is_debian_pool_artifact(path: &str) -> (r: bool)
    ensures
        r == is_pool_file(path@),
{
    let chars = chars_of(path);
    let p = chars.as_slice();
    begins(p, "pool/") && (ends(p, ".deb") || ends(p, ".udeb"))
}

/// Decides what to do with the local copy of a requested file.
pub fn decide_debian_cache_action(input: DebianCacheDecisionInput<'_>) -> (r: DebianCacheAction)
    ensures
        r == cache_action(
            input.path@,
            input.upstream_success,
            input.cached_locally,
            input.cache_stale,
            input.checksum_matches,
        ),
{
    if !input.upstream_success {
        return DebianCacheAction::DoNotCache;
    }
    if input.cached_locally && is_debian_pool_artifact(input.path) && input.checksum_matches {
        return DebianCacheAction::ServeCached;
    }
    if input.cached_locally && is_debian_metadata_path(input.path) {
        return if input.cache_stale {
            DebianCacheAction::Revalidate
        } else {
            DebianCacheAction::ServeCached
        };
    }
    DebianCacheAction::FetchAndCache
}

/// A copy is dropped when the Release that it belongs to is newer, unless it can
/// never change.
pub fn is_stale_copy(is_immutable: bool, is_cached: bool, release_is_newer: bool) -> (r: bool)
    ensures
        r == (!is_immutable && is_cached && release_is_newer),
{
    !is_immutable && is_cached && release_is_newer
}

} // verus!
