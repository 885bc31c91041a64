//! What is done for a request: served from here, fetched, or turned down.

use vstd::prelude::*;
use vstd::utf8::encode_utf8;

use crate::config::{ConfigModel, DebianPackageFetchStrategy, DebianRepositoryConfig};

use crate::dists::{content_type_for_dists_path, content_type_of, contents_request, copy_bytes, parse_contents_request};
use crate::error::{failure_text, outcome, Failure, Result};
use crate::hosted::{file_name, file_name_of};
use crate::http::{build_dists_response, file_reply, map_debian_fetch_path_error, refuse, refused, reply_of, verdict};
use crate::http::{FileReply, Refusal, RefusalModel};
use crate::members::RepositoryType;
use crate::ordered::copy_texts;
use crate::select::{DebianMirrorFilter, DebianSyncFilter, FilterModel, MirrorFilterModel};
use crate::text::{begins, cat3, cat4, chars_of, starts_with, text_of, trim_char, trim_char_of};

verus! {

/// What is done for a file of a distribution.
#[derive(Clone, Copy, Debug, PartialEq, Eq, Structural)]
pub enum DistsAction {
    /// Ask the members of a virtual repository in turn.
    WalkMembers,
    /// Fetch it from upstream.
    Fetch,
    /// Make it here.
    Local,
}

/// What is done for a package file.
#[derive(Clone, Copy, Debug, PartialEq, Eq, Structural)]
pub enum DownloadAction {
    /// Hand out the stored file.
    Stored,
    /// Fetch it from upstream.
    Proxy,
    /// Ask the members of a virtual repository.
    Members,
}

/// How a package file is fetched from upstream.
#[derive(Debug, PartialEq, Eq)]
pub enum PackageFetch {
    /// Through the cache, against a digest where one is known.
    Cached(Option<String>),
    /// Past the cache.
    Uncached,
}

/// The headers that a stored package file is handed out with.
#[derive(Debug, PartialEq, Eq)]
pub struct PackageHeaders {
    pub content_type: String,
    pub content_disposition: String,
    pub content_length: i64,
    pub checksum_sha256: String,
}

/// What is known when a package file is to be fetched from upstream.
#[derive(Debug)]
pub struct RemotePackage<'a> {
    /// There is something to fetch with.
    pub has_proxy: bool,
    pub config: Option<&'a DebianRepositoryConfig>,
    /// The filters of the repository admit the file.
    pub allowed: bool,
    /// The path may be fetched.
    pub path_check: Result<()>,
    /// Generated metadata is published for some distribution.
    pub generation_active: bool,
    /// The digest that the published metadata gives the file.
    pub expected_sha256: Option<String>,
}

// ---------------------------------------------------------------------------
// Model
// ---------------------------------------------------------------------------

/// What is done for a file of a distribution that is not stored here. Once
/// generated metadata is published, what is not part of it is never fetched.
pub open spec fn dists_plan(
    generation_active: bool,
    repo_type: RepositoryType,
    can_fetch: bool,
) -> std::result::Result<DistsAction, RefusalModel> {
    if generation_active {
        Err(refused(404, "Path is not part of the published Debian mirror generation"@))
    } else if repo_type == RepositoryType::Virtual {
        Ok(DistsAction::WalkMembers)
    } else if repo_type == RepositoryType::Remote && can_fetch {
        Ok(DistsAction::Fetch)
    } else {
        Ok(DistsAction::Local)
    }
}

impl DeepView for DistsAction {
    type V = DistsAction;

    open spec fn deep_view(&self) -> DistsAction {
        *self
    }
}

impl DeepView for DownloadAction {
    type V = DownloadAction;

    open spec fn deep_view(&self) -> DownloadAction {
        *self
    }
}

/// What a `PackageFetch` holds.
#[verifier::ext_equal]
pub enum FetchModel {
    Cached(Option<Seq<char>>),
    Uncached,
}

impl DeepView for PackageFetch {
    type V = FetchModel;

    open spec fn deep_view(&self) -> FetchModel {
        match self {
            PackageFetch::Cached(digest) => FetchModel::Cached(digest.deep_view()),
            PackageFetch::Uncached => FetchModel::Uncached,
        }
    }
}

/// What a `RemotePackage` holds.
#[verifier::ext_equal]
pub struct RemotePackageModel {
    pub has_proxy: bool,
    pub config: Option<ConfigModel>,
    pub allowed: bool,
    pub path_check: std::result::Result<(), Failure>,
    pub generation_active: bool,
    pub expected_sha256: Option<Seq<char>>,
}

impl<'a> DeepView for RemotePackage<'a> {
    type V = RemotePackageModel;

    open spec fn deep_view(&self) -> RemotePackageModel {
        RemotePackageModel {
            has_proxy: self.has_proxy,
            config: match self.config {
                Some(config) => Some(config.deep_view()),
                None => None,
            },
            allowed: self.allowed,
            path_check: outcome(self.path_check),
            generation_active: self.generation_active,
            expected_sha256: self.expected_sha256.deep_view(),
        }
    }
}

/// Packages of the repository are only served against a digest.
pub open spec fn must_verify(request: RemotePackageModel) -> bool {
    (request.config is Some && request.config->0.verify_upstream_metadata)
        || request.generation_active
}

/// The repository does not keep what it fetches.
pub open spec fn passes_through(config: Option<ConfigModel>) -> bool {
    config is Some && config->0.package_fetch_strategy == DebianPackageFetchStrategy::Passthrough
}

/// How a package file is fetched from upstream, or why it is not.
pub open spec fn package_fetch(request: RemotePackageModel) -> std::result::Result<
    FetchModel,
    RefusalModel,
> {
    if !request.has_proxy {
        Err(refused(404, "Package not found"@))
    } else if !request.allowed {
        Err(refused(404, "Package not allowed by repository filters"@))
    } else if request.path_check is Err {
        Err(refused(400, failure_text(request.path_check->Err_0)))
    } else if must_verify(request) && request.expected_sha256 is None {
        Err(
            refused(
                502,
                "Refusing to serve unverified package: no SHA256 in synced metadata"@,
            ),
        )
    } else if passes_through(request.config) && request.expected_sha256 is None {
        Ok(FetchModel::Uncached)
    } else {
        Ok(FetchModel::Cached(request.expected_sha256))
    }
}

/// The paths of a list, without slashes at either end.
pub open spec fn bare_paths(paths: Seq<Seq<char>>) -> Seq<Seq<char>> {
    paths.map_values(|path: Seq<char>| trim_char(path, '/'))
}

/// The distributions for which generated metadata may be published. A flat
/// repository has one of an empty name.
pub open spec fn generation_names(config: Option<ConfigModel>) -> Seq<Seq<char>> {
    match config {
        Some(c) => if c.flat_repository {
            bare_paths(c.distributions).push(seq![])
        } else {
            bare_paths(c.distributions)
        },
        None => seq![],
    }
}

// ---------------------------------------------------------------------------
// Laws
// ---------------------------------------------------------------------------

/// Where a repository has to verify its packages, no package is fetched without
/// a digest to hold it against.
pub proof fn verified_packages_have_digests(request: RemotePackageModel)
    requires
        must_verify(request),
    ensures
        package_fetch(request) matches Ok(fetch) ==> fetch matches FetchModel::Cached(digest)
            && digest is Some && digest == request.expected_sha256,
{
}

/// A package that the filters do not admit, or whose path may not be fetched, is
/// never fetched.
pub proof fn barred_packages_are_not_fetched(request: RemotePackageModel)
    requires
        !request.allowed || request.path_check is Err,
    ensures
        package_fetch(request) is Err,
{
}

/// Once generated metadata is published, no file outside it is fetched, asked of
/// a member, or made here.
pub proof fn published_generation_is_closed(repo_type: RepositoryType, can_fetch: bool)
    ensures
        dists_plan(true, repo_type, can_fetch) is Err,
{
}

// ---------------------------------------------------------------------------
// Files of a distribution
// ---------------------------------------------------------------------------

/// Decides what is done for a file of a distribution that is not stored here.
pub fn decide_dists_action(
    generation_active: bool,
    repo_type: RepositoryType,
    has_upstream: bool,
    has_proxy: bool,
) -> (r: std::result::Result<DistsAction, Refusal>)
    ensures
        verdict(r) == dists_plan(generation_active, repo_type, has_upstream && has_proxy),
{
    if generation_active {
        return Err(refuse(404, "Path is not part of the published Debian mirror generation"));
    }
    if repo_type == RepositoryType::Virtual {
        return Ok(DistsAction::WalkMembers);
    }
    if repo_type == RepositoryType::Remote && has_upstream && has_proxy {
        return Ok(DistsAction::Fetch);
    }
    Ok(DistsAction::Local)
}

/// Decides what is done for a file of a distribution that has no route of its
/// own. A remote repository that cannot fetch does not have it.
pub fn decide_catchall_action(
    generation_active: bool,
    repo_type: RepositoryType,
    has_upstream: bool,
    has_proxy: bool,
) -> (r: std::result::Result<DistsAction, Refusal>)
    ensures
        verdict(r) == (match dists_plan(generation_active, repo_type, has_upstream && has_proxy) {
            Ok(DistsAction::Local) => if repo_type == RepositoryType::Remote {
                Err(refused(404, "Not found"@))
            } else {
                Ok(DistsAction::Local)
            },
            other => other,
        }),
{
    match decide_dists_action(generation_active, repo_type, has_upstream, has_proxy) {
        Ok(DistsAction::Local) => if repo_type == RepositoryType::Remote {
            Err(refuse(404, "Not found"))
        } else {
            Ok(DistsAction::Local)
        },
        other => other,
    }
}

/// A Contents index that is not stored is fetched by a repository that mirrors
/// others, and made here by one that does not.
pub fn contents_are_fetched(repo_type: RepositoryType) -> (r: bool)
    ensures
        r == (repo_type == RepositoryType::Remote || repo_type == RepositoryType::Virtual),
{
    repo_type == RepositoryType::Remote || repo_type == RepositoryType::Virtual
}

/// The path names a file that a repository makes on demand.
pub fn is_hosted_generated_path(dists_path: &str) -> (r: bool)
    ensures
        r == (starts_with(dists_path@, "by-hash/"@) || contents_request(dists_path@) is Some),
{
    let chars = chars_of(dists_path);
    begins(chars.as_slice(), "by-hash/") || parse_contents_request(dists_path).is_some()
}

/// Hands out what was found, or says that nothing was.
pub fn found_or_not_found(found: Option<FileReply>) -> (r: std::result::Result<FileReply, Refusal>)
    ensures
        verdict(r) == (match found.deep_view() {
            Some(reply) => Ok(reply),
            None => Err(refused(404, "Not found"@)),
        }),
{
    match found {
        Some(reply) => Ok(reply),
        None => Err(refuse(404, "Not found")),
    }
}

/// Hands out what an upstream sent for a path. Where it named no content type,
/// the extension of the path suggests one.
pub fn build_catchall_response(dists_path: &str, content: Vec<u8>, upstream_ct: Option<String>) -> (r: FileReply)
    ensures
        r.deep_view() == reply_of(
            match upstream_ct.deep_view() {
                Some(ct) => ct,
                None => content_type_of(dists_path@),
            },
            content@,
        ),
{
    let fallback = content_type_for_dists_path(dists_path);
    build_dists_response(content, upstream_ct, fallback.as_str())
}

/// Hands out a text.
pub fn build_text_response(text: &str) -> (r: FileReply)
    ensures
        r.deep_view() == reply_of("text/plain; charset=utf-8"@, encode_utf8(text@)),
{
    file_reply("text/plain; charset=utf-8".to_string(), copy_bytes(text.as_bytes()))
}

// ---------------------------------------------------------------------------
// Package files
// ---------------------------------------------------------------------------

/// The path of a package file in the pool.
pub fn pool_artifact_path(component: &str, path: &str) -> (r: String)
    ensures
        r@ == "pool/"@ + component@ + "/"@ + path@,
{
    cat4("pool/", component, "/", path)
}

/// Decides what is done for a package file in the pool.
pub fn decide_pool_download(is_stored: bool, repo_type: RepositoryType, has_upstream: bool) -> (r: std::result::Result<
    DownloadAction,
    Refusal,
>)
    ensures
        verdict(r) == if is_stored {
            Ok::<DownloadAction, RefusalModel>(DownloadAction::Stored)
        } else if repo_type == RepositoryType::Remote && has_upstream {
            Ok::<DownloadAction, RefusalModel>(DownloadAction::Proxy)
        } else if repo_type == RepositoryType::Virtual {
            Ok::<DownloadAction, RefusalModel>(DownloadAction::Members)
        } else {
            Err::<DownloadAction, RefusalModel>(refused(404, "Package not found"@))
        },
{
    if is_stored {
        return Ok(DownloadAction::Stored);
    }
    if repo_type == RepositoryType::Remote && has_upstream {
        return Ok(DownloadAction::Proxy);
    }
    if repo_type == RepositoryType::Virtual {
        return Ok(DownloadAction::Members);
    }
    Err(refuse(404, "Package not found"))
}

/// Checks that a path of a flat repository may be served at all.
pub fn check_flat_download(
    config: Option<&DebianRepositoryConfig>,
    is_package_path: bool,
    path_check: Result<()>,
) -> (r: std::result::Result<(), Refusal>)
    ensures
        verdict(r) == if config is None || !config->0.flat_repository || !is_package_path {
            Err::<(), RefusalModel>(refused(404, "Not found"@))
        } else if path_check is Err {
            Err::<(), RefusalModel>(refused(400, failure_text(path_check->Err_0.deep_view())))
        } else {
            Ok::<(), RefusalModel>(())
        },
{
    let flat = match config {
        Some(c) => c.flat_repository,
        None => false,
    };
    if !flat || !is_package_path {
        return Err(refuse(404, "Not found"));
    }
    match path_check {
        Ok(()) => Ok(()),
        Err(error) => Err(map_debian_fetch_path_error(error)),
    }
}

/// Decides what is done for a package file of a flat repository.
pub fn decide_flat_download(is_stored: bool, repo_type: RepositoryType, has_upstream: bool) -> (r: std::result::Result<
    DownloadAction,
    Refusal,
>)
    ensures
        verdict(r) == if is_stored {
            Ok::<DownloadAction, RefusalModel>(DownloadAction::Stored)
        } else if repo_type == RepositoryType::Remote && has_upstream {
            Ok::<DownloadAction, RefusalModel>(DownloadAction::Proxy)
        } else {
            Err::<DownloadAction, RefusalModel>(refused(404, "Package not found"@))
        },
{
    if is_stored {
        return Ok(DownloadAction::Stored);
    }
    if repo_type == RepositoryType::Remote && has_upstream {
        return Ok(DownloadAction::Proxy);
    }
    Err(refuse(404, "Package not found"))
}

/// The headers that a stored package file is handed out with.
pub fn package_headers(path: &str, size: i64, sha256: &str) -> (r: PackageHeaders)
    ensures
        r.content_type@ == "application/vnd.debian.binary-package"@,
        r.content_disposition@ == "attachment; filename=\""@ + file_name(path@) + "\""@,
        r.content_length == size,
        r.checksum_sha256@ == sha256@,
{
    let filename = file_name_of(path);
    PackageHeaders {
        content_type: "application/vnd.debian.binary-package".to_string(),
        content_disposition: cat3("attachment; filename=\"", filename.as_str(), "\""),
        content_length: size,
        checksum_sha256: sha256.to_string(),
    }
}

/// The filter that package files of a repository have to pass.
pub fn debian_sync_filter_for_path_check(config: &DebianRepositoryConfig) -> (r: DebianMirrorFilter)
    ensures
        r.deep_view() == (MirrorFilterModel {
            selection: FilterModel {
                distributions: seq![],
                components: config.deep_view().components,
                architectures: config.deep_view().architectures,
                include_source_packages: false,
            },
            package_queries: config.deep_view().package_queries,
            resolve_dependencies: false,
        }),
{
    let distributions: Vec<String> = Vec::new();
    assert(distributions.deep_view() =~= seq![]);
    DebianMirrorFilter {
        selection: DebianSyncFilter {
            distributions,
            components: copy_texts(config.components.as_slice()),
            architectures: copy_texts(config.architectures.as_slice()),
            include_source_packages: false,
        },
        package_queries: copy_texts(config.package_queries.as_slice()),
        resolve_dependencies: false,
    }
}

/// The distributions for which generated metadata may be published.
pub fn generation_candidates(config: Option<&DebianRepositoryConfig>) -> (r: Vec<String>)
    ensures
        r.deep_view() == generation_names(
            match config {
                Some(c) => Some(c.deep_view()),
                None => None,
            },
        ),
{
    let mut names: Vec<String> = Vec::new();
    assert(names.deep_view() =~= seq![]);
    if let Some(c) = config {
        let ghost all = bare_paths(c.distributions.deep_view());
        assert(names.deep_view() =~= all.take(0));
        for i in 0..c.distributions.len()
            invariant
                all == bare_paths(c.distributions.deep_view()),
                names.deep_view() == all.take(i as int),
        {
            let ghost before = names.deep_view();
            assert(c.distributions.deep_view()[i as int] == c.distributions[i as int]@);
            let chars = chars_of(c.distributions[i].as_str());
            names.push(text_of(trim_char_of(chars.as_slice(), '/')));
            assert(names.deep_view() =~= before.push(all[i as int]));
            assert(all.take(i + 1) =~= before.push(all[i as int]));
        }
        assert(all.take(all.len() as int) =~= all);
        if c.flat_repository {
            let ghost before = names.deep_view();
            names.push(String::new());
            assert(names.deep_view() =~= before.push(seq![]));
        }
    }
    names
}

/// Decides how a package file is fetched from upstream.
pub fn decide_package_fetch(request: RemotePackage<'_>) -> (r: std::result::Result<
    PackageFetch,
    Refusal,
>)
    ensures
        verdict(r) == package_fetch(request.deep_view()),
{
    if !request.has_proxy {
        return Err(refuse(404, "Package not found"));
    }
    if !request.allowed {
        return Err(refuse(404, "Package not allowed by repository filters"));
    }
    if let Err(error) = request.path_check {
        return Err(map_debian_fetch_path_error(error));
    }
    let verify = match request.config {
        Some(config) => config.verify_upstream_metadata,
        None => false,
    };
    if (verify || request.generation_active) && request.expected_sha256.is_none() {
        return Err(
            refuse(502, "Refusing to serve unverified package: no SHA256 in synced metadata"),
        );
    }
    let passthrough = match request.config {
        Some(config) => config.package_fetch_strategy == DebianPackageFetchStrategy::Passthrough,
        None => false,
    };
    if passthrough && request.expected_sha256.is_none() {
        return Ok(PackageFetch::Uncached);
    }
    Ok(PackageFetch::Cached(request.expected_sha256))
}

} // verus!
