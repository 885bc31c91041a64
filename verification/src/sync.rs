//! The sync of a mirror with its upstream. The sync itself does nothing but
//! decide: it says what is to be done next, and takes what came of it.

use vstd::prelude::*;
use vstd::utf8::{decode_utf8, valid_utf8};

use crate::clock::{is_plain_line, utc_now};
use crate::codec::{utf8_fault, utf8_text};
use crate::config::{ConfigModel, DebianPackageFetchStrategy, DebianRepositoryConfig};
use crate::dists::{copy_bytes, synced_dists_config_key, synced_dists_key_prefix, synced_key, synced_prefix};
use crate::dists::synced_release_config_key;
use crate::error::failure_text;
use crate::generated::{build_synced_generated_metadata, contents_pairs, generated_contents_entries};
use crate::generated::{generated_metadata, kept_packages, GeneratedDistsMetadata, GeneratedModel};
use crate::hosted::{build_release_content_at, bytes_view, release_content, DigestedFile, DigestedModel};
use crate::http::{refuse, refuse2, refused, verdict, Refusal, RefusalModel};
use crate::index::{packages_index, parse_packages_index, parse_sources_index, sources_index, PackageModel};
use crate::index::{PackagesEntry, SourceModel, SourcesEntry};
use crate::members::RepositoryType;
use crate::ordered::{ascending, copy_texts, lookup, put, text_set, with_text, with_text_ascending, TextMap, TextSet};
use crate::plan::{build_debian_sync_plan, sync_plan, DebianSyncDownloadPolicy, DebianSyncPackageFile, DebianSyncPlan};
use crate::plan::{DebianSyncSourceFile, PackageFileModel, PlanModel, PlannedSourceModel};
use crate::release::{parse_release, release_of, Release, ReleaseModel};
use crate::roundtrip_release::{is_publishable, published_release_vouches, trimmed, Draft};
use crate::select::{filter_release_package_indexes, filter_release_source_indexes, package_indexes, selection};
use crate::select::{source_indexes, validate_release_filter_selection, wanted, DebianIndexPath, DebianMirrorFilter};
use crate::select::{DebianSourceIndexPath, DebianSyncFilter, FilterModel, IndexModel, MirrorFilterModel};
use crate::select::SourceIndexModel;
use crate::text::{cat3, cat4, chars_of, is_empty_text, opt_text, text_of, trim, trim_char, trim_char_of, trim_end};
use crate::text::{trim_of, trim_start};
use crate::upload::str_of;
use crate::verify::{expected_prefetch_digest, index_verdict, package_digests, package_sha256_by_filename};
use crate::verify::{prefetch_digest, source_digests, source_sha256_by_filename, verify_index_against_release};

verus! {

/// The metadata of a distribution that was fetched so far.
#[derive(Debug)]
pub struct FetchedRelease {
    pub release: Vec<u8>,
    pub text: String,
    pub in_release: Option<Vec<u8>>,
    pub signature: Option<Vec<u8>>,
}

/// The indexes of a distribution that are fetched, and what was read of them.
#[derive(Debug)]
pub struct IndexSelection {
    pub release: Release,
    pub package_indexes: Vec<DebianIndexPath>,
    pub source_indexes: Vec<DebianSourceIndexPath>,
    pub taken: usize,
    pub packages: TextMap<Vec<PackagesEntry>>,
    pub sources: TextMap<Vec<SourcesEntry>>,
}

/// A distribution whose plan is made.
#[derive(Debug)]
pub struct PlannedDistribution {
    pub release: Release,
    pub plan: DebianSyncPlan,
    pub packages: TextMap<Vec<PackagesEntry>>,
    pub sources: TextMap<Vec<SourcesEntry>>,
    pub package_digests: TextMap<String>,
    pub source_digests: TextMap<String>,
}

/// What is stored, all at once, in place of everything under a prefix.
#[derive(Debug, PartialEq, Eq)]
pub struct Publication {
    pub cleared_prefix: String,
    pub rows: Vec<(String, String)>,
}

/// What a sync waits for.
#[derive(Debug)]
pub enum SyncStage {
    /// The Release of a distribution.
    Release,
    /// Its InRelease, which may be missing.
    InRelease(FetchedRelease),
    /// Its detached signature, which may be missing.
    Signature(FetchedRelease),
    /// The key that its metadata has to be signed with.
    Key(FetchedRelease, String),
    /// Whether the InRelease is signed with the key.
    Cleartext(String, String),
    /// Whether the detached signature is one of the key.
    Detached(FetchedRelease, Vec<u8>, String),
    /// A Packages index.
    PackageIndex(IndexSelection),
    /// A Sources index.
    SourceIndex(IndexSelection),
    /// Whether the paths of the indexes are within the filters.
    Paths(PlannedDistribution),
    /// The Contents texts.
    Contents(PlannedDistribution),
    /// The digests of the generated files that are not computed here.
    Digests(PlannedDistribution, GeneratedDistsMetadata),
    /// That the generated metadata is stored.
    Publish(PlannedDistribution, Publication),
    /// Whether a package file may be fetched.
    PackagePath(PlannedDistribution, usize),
    /// That a package file is fetched.
    PackageFile(PlannedDistribution, usize, Option<String>),
    /// Whether a source file may be fetched.
    SourcePath(PlannedDistribution, usize),
    /// That a source file is fetched.
    SourceFile(PlannedDistribution, usize, Option<String>),
    /// Nothing: everything is done.
    Done,
}

/// What a sync knows besides the distribution that it is at.
#[derive(Debug)]
pub struct SyncBase {
    pub config: DebianRepositoryConfig,
    pub filter: DebianMirrorFilter,
    pub policy: DebianSyncDownloadPolicy,
    /// The distribution that the sync is at.
    pub turn: usize,
    pub plans: Vec<DebianSyncPlan>,
    pub prefetched: TextSet,
    pub prefetched_sources: TextSet,
}

/// A sync that is under way.
#[derive(Debug)]
pub struct SyncRun {
    base: SyncBase,
    stage: SyncStage,
}

/// What is to be done next.
#[derive(Debug)]
pub enum SyncAction<'a> {
    Fetch(String),
    LookUpKey(&'a str),
    /// Verify a signed text with a key and hand out what was signed.
    VerifyCleartext(&'a str, &'a str),
    /// Verify a file and its signature with a key.
    VerifyDetached(&'a str, &'a Vec<u8>, &'a Vec<u8>),
    CheckIndexPaths(Vec<String>),
    /// Make a Contents text of the files and packages, for each index.
    BuildContents(Vec<(String, Vec<(String, String)>)>),
    DigestFiles(&'a Vec<(String, Vec<u8>)>),
    Publish(&'a Publication),
    CheckFetchPath(&'a str),
    /// Fetch a file, of which the digest is to be checked, and keep it.
    PrefetchPackage(&'a str, Option<&'a str>),
    PrefetchSource(&'a str, Option<&'a str>),
    Finish,
}

/// What came of what was to be done.
#[derive(Debug)]
pub enum SyncEvent {
    Fetched(Vec<u8>),
    /// What was to be done failed, and the sync with it unless it can go on.
    Failed(Refusal),
    /// The key that was looked up, if there is one.
    Key(Option<String>),
    /// The text that was signed.
    Payload(String),
    Accepted,
    /// The reason why something is not accepted.
    Rejected(String),
    /// The Contents texts under the paths of the indexes.
    Contents(TextMap<String>),
    /// The MD5 and the SHA-1 digest of each file.
    Digests(Vec<(String, String)>),
}

/// What a sync did.
#[derive(Debug, PartialEq, Eq)]
pub struct DebianSyncResponse {
    pub repository: String,
    pub plans: Vec<DebianSyncPlan>,
    pub prefetched_packages: usize,
    pub prefetched_sources: usize,
}

// ---------------------------------------------------------------------------
// Model: data
// ---------------------------------------------------------------------------

/// What a `FetchedRelease` holds.
#[verifier::ext_equal]
pub struct FetchedModel {
    pub release: Seq<u8>,
    pub text: Seq<char>,
    pub in_release: Option<Seq<u8>>,
    pub signature: Option<Seq<u8>>,
}

/// The bytes of an optional file.
pub open spec fn opt_bytes(v: Option<Vec<u8>>) -> Option<Seq<u8>> {
    match v {
        Some(bytes) => Some(bytes@),
        None => None,
    }
}

impl DeepView for FetchedRelease {
    type V = FetchedModel;

    open spec fn deep_view(&self) -> FetchedModel {
        FetchedModel {
            release: self.release@,
            text: self.text@,
            in_release: opt_bytes(self.in_release),
            signature: opt_bytes(self.signature),
        }
    }
}

/// What an `IndexSelection` holds.
#[verifier::ext_equal]
pub struct SelectionModel {
    pub release: ReleaseModel,
    pub package_indexes: Seq<IndexModel>,
    pub source_indexes: Seq<SourceIndexModel>,
    pub taken: nat,
    pub packages: Seq<(Seq<char>, Seq<PackageModel>)>,
    pub sources: Seq<(Seq<char>, Seq<SourceModel>)>,
}

impl DeepView for IndexSelection {
    type V = SelectionModel;

    open spec fn deep_view(&self) -> SelectionModel {
        SelectionModel {
            release: self.release.deep_view(),
            package_indexes: self.package_indexes.deep_view(),
            source_indexes: self.source_indexes.deep_view(),
            taken: self.taken as nat,
            packages: self.packages.deep_view(),
            sources: self.sources.deep_view(),
        }
    }
}

/// What a `PlannedDistribution` holds.
#[verifier::ext_equal]
pub struct PlannedModel {
    pub release: ReleaseModel,
    pub plan: PlanModel,
    pub packages: Seq<(Seq<char>, Seq<PackageModel>)>,
    pub sources: Seq<(Seq<char>, Seq<SourceModel>)>,
    pub package_digests: Seq<(Seq<char>, Seq<char>)>,
    pub source_digests: Seq<(Seq<char>, Seq<char>)>,
}

impl DeepView for PlannedDistribution {
    type V = PlannedModel;

    open spec fn deep_view(&self) -> PlannedModel {
        PlannedModel {
            release: self.release.deep_view(),
            plan: self.plan.deep_view(),
            packages: self.packages.deep_view(),
            sources: self.sources.deep_view(),
            package_digests: self.package_digests.deep_view(),
            source_digests: self.source_digests.deep_view(),
        }
    }
}

/// What a `Publication` holds.
#[verifier::ext_equal]
pub struct PublicationModel {
    pub cleared_prefix: Seq<char>,
    pub rows: Seq<(Seq<char>, Seq<char>)>,
}

impl DeepView for Publication {
    type V = PublicationModel;

    open spec fn deep_view(&self) -> PublicationModel {
        PublicationModel { cleared_prefix: self.cleared_prefix@, rows: self.rows.deep_view() }
    }
}

/// What a `SyncStage` holds.
#[verifier::ext_equal]
pub enum StageModel {
    Release,
    InRelease(FetchedModel),
    Signature(FetchedModel),
    Key(FetchedModel, Seq<char>),
    Cleartext(Seq<char>, Seq<char>),
    Detached(FetchedModel, Seq<u8>, Seq<char>),
    PackageIndex(SelectionModel),
    SourceIndex(SelectionModel),
    Paths(PlannedModel),
    Contents(PlannedModel),
    Digests(PlannedModel, GeneratedModel),
    Publish(PlannedModel, PublicationModel),
    PackagePath(PlannedModel, nat),
    PackageFile(PlannedModel, nat, Option<Seq<char>>),
    SourcePath(PlannedModel, nat),
    SourceFile(PlannedModel, nat, Option<Seq<char>>),
    Done,
}

impl DeepView for SyncStage {
    type V = StageModel;

    open spec fn deep_view(&self) -> StageModel {
        match *self {
            SyncStage::Release => StageModel::Release,
            SyncStage::InRelease(f) => StageModel::InRelease(f.deep_view()),
            SyncStage::Signature(f) => StageModel::Signature(f.deep_view()),
            SyncStage::Key(f, key_ref) => StageModel::Key(f.deep_view(), key_ref@),
            SyncStage::Cleartext(key, signed) => StageModel::Cleartext(key@, signed@),
            SyncStage::Detached(f, signature, key) => StageModel::Detached(
                f.deep_view(),
                signature@,
                key@,
            ),
            SyncStage::PackageIndex(s) => StageModel::PackageIndex(s.deep_view()),
            SyncStage::SourceIndex(s) => StageModel::SourceIndex(s.deep_view()),
            SyncStage::Paths(p) => StageModel::Paths(p.deep_view()),
            SyncStage::Contents(p) => StageModel::Contents(p.deep_view()),
            SyncStage::Digests(p, g) => StageModel::Digests(p.deep_view(), g.deep_view()),
            SyncStage::Publish(p, rows) => StageModel::Publish(p.deep_view(), rows.deep_view()),
            SyncStage::PackagePath(p, i) => StageModel::PackagePath(p.deep_view(), i as nat),
            SyncStage::PackageFile(p, i, d) => StageModel::PackageFile(
                p.deep_view(),
                i as nat,
                d.deep_view(),
            ),
            SyncStage::SourcePath(p, i) => StageModel::SourcePath(p.deep_view(), i as nat),
            SyncStage::SourceFile(p, i, d) => StageModel::SourceFile(
                p.deep_view(),
                i as nat,
                d.deep_view(),
            ),
            SyncStage::Done => StageModel::Done,
        }
    }
}

/// What a `SyncBase` holds.
#[verifier::ext_equal]
pub struct BaseModel {
    pub config: ConfigModel,
    pub filter: MirrorFilterModel,
    pub policy: DebianSyncDownloadPolicy,
    pub turn: nat,
    pub plans: Seq<PlanModel>,
    pub prefetched: Seq<Seq<char>>,
    pub prefetched_sources: Seq<Seq<char>>,
}

impl DeepView for SyncBase {
    type V = BaseModel;

    open spec fn deep_view(&self) -> BaseModel {
        BaseModel {
            config: self.config.deep_view(),
            filter: self.filter.deep_view(),
            policy: self.policy,
            turn: self.turn as nat,
            plans: self.plans.deep_view(),
            prefetched: self.prefetched.deep_view(),
            prefetched_sources: self.prefetched_sources.deep_view(),
        }
    }
}

/// What a `SyncRun` holds.
#[verifier::ext_equal]
pub struct SyncModel {
    pub base: BaseModel,
    pub stage: StageModel,
}

impl DeepView for SyncRun {
    type V = SyncModel;

    closed spec fn deep_view(&self) -> SyncModel {
        SyncModel { base: self.base.deep_view(), stage: self.stage.deep_view() }
    }
}

/// What a `SyncAction` says.
#[verifier::ext_equal]
pub enum ActionModel {
    Fetch(Seq<char>),
    LookUpKey(Seq<char>),
    VerifyCleartext(Seq<char>, Seq<char>),
    VerifyDetached(Seq<char>, Seq<u8>, Seq<u8>),
    CheckIndexPaths(Seq<Seq<char>>),
    BuildContents(Seq<(Seq<char>, Seq<(Seq<char>, Seq<char>)>)>),
    DigestFiles(Seq<(Seq<char>, Seq<u8>)>),
    Publish(PublicationModel),
    CheckFetchPath(Seq<char>),
    PrefetchPackage(Seq<char>, Option<Seq<char>>),
    PrefetchSource(Seq<char>, Option<Seq<char>>),
    Finish,
}

impl<'a> DeepView for SyncAction<'a> {
    type V = ActionModel;

    open spec fn deep_view(&self) -> ActionModel {
        match *self {
            SyncAction::Fetch(path) => ActionModel::Fetch(path@),
            SyncAction::LookUpKey(key_ref) => ActionModel::LookUpKey(key_ref@),
            SyncAction::VerifyCleartext(key, signed) => ActionModel::VerifyCleartext(
                key@,
                signed@,
            ),
            SyncAction::VerifyDetached(key, file, signature) => ActionModel::VerifyDetached(
                key@,
                file@,
                signature@,
            ),
            SyncAction::CheckIndexPaths(paths) => ActionModel::CheckIndexPaths(paths.deep_view()),
            SyncAction::BuildContents(wanted) => ActionModel::BuildContents(wanted.deep_view()),
            SyncAction::DigestFiles(files) => ActionModel::DigestFiles(files.deep_view()),
            SyncAction::Publish(publication) => ActionModel::Publish(publication.deep_view()),
            SyncAction::CheckFetchPath(path) => ActionModel::CheckFetchPath(path@),
            SyncAction::PrefetchPackage(path, digest) => ActionModel::PrefetchPackage(
                path@,
                opt_text(digest),
            ),
            SyncAction::PrefetchSource(path, digest) => ActionModel::PrefetchSource(
                path@,
                opt_text(digest),
            ),
            SyncAction::Finish => ActionModel::Finish,
        }
    }
}

/// What a `SyncEvent` says.
#[verifier::ext_equal]
pub enum EventModel {
    Fetched(Seq<u8>),
    Failed(RefusalModel),
    Key(Option<Seq<char>>),
    Payload(Seq<char>),
    Accepted,
    Rejected(Seq<char>),
    Contents(Seq<(Seq<char>, Seq<char>)>),
    Digests(Seq<(Seq<char>, Seq<char>)>),
}

impl DeepView for SyncEvent {
    type V = EventModel;

    open spec fn deep_view(&self) -> EventModel {
        match *self {
            SyncEvent::Fetched(bytes) => EventModel::Fetched(bytes@),
            SyncEvent::Failed(refusal) => EventModel::Failed(refusal.deep_view()),
            SyncEvent::Key(key) => EventModel::Key(key.deep_view()),
            SyncEvent::Payload(text) => EventModel::Payload(text@),
            SyncEvent::Accepted => EventModel::Accepted,
            SyncEvent::Rejected(reason) => EventModel::Rejected(reason@),
            SyncEvent::Contents(texts) => EventModel::Contents(texts.deep_view()),
            SyncEvent::Digests(digests) => EventModel::Digests(digests.deep_view()),
        }
    }
}

// ---------------------------------------------------------------------------
// Model: the start
// ---------------------------------------------------------------------------

/// The refusal of upstream metadata that cannot be read.
pub open spec fn unreadable(context: Seq<char>, reason: Seq<char>) -> RefusalModel {
    refused(502, "Failed to parse upstream Debian "@ + context + ": "@ + reason)
}

/// The refusal of upstream metadata that cannot be trusted.
pub open spec fn untrusted(label: Seq<char>, reason: Seq<char>) -> RefusalModel {
    refused(502, "Failed to verify upstream Debian "@ + label + ": "@ + reason)
}

/// The filter of a configuration.
pub open spec fn filter_of(config: ConfigModel) -> MirrorFilterModel {
    MirrorFilterModel {
        selection: FilterModel {
            distributions: if config.flat_repository {
                seq![]
            } else {
                config.distributions
            },
            components: config.components,
            architectures: config.architectures,
            include_source_packages: config.include_source_packages,
        },
        package_queries: config.package_queries,
        resolve_dependencies: config.resolve_dependencies,
    }
}

/// When the files are fetched under a configuration.
pub open spec fn policy_of(config: ConfigModel) -> DebianSyncDownloadPolicy {
    if config.package_fetch_strategy == DebianPackageFetchStrategy::PrefetchSelected {
        DebianSyncDownloadPolicy::Immediate
    } else {
        DebianSyncDownloadPolicy::OnDemand
    }
}

/// The sync of a repository as it begins, or why there is none.
pub open spec fn sync_start(
    repo_type: RepositoryType,
    config: Option<ConfigModel>,
    has_upstream: bool,
    has_proxy: bool,
) -> std::result::Result<SyncModel, RefusalModel> {
    if repo_type != RepositoryType::Remote {
        Err(refused(400, "Debian metadata refresh requires a Remote repository"@))
    } else if config is None {
        Err(refused(400, "Debian repository has no advanced configuration"@))
    } else if !has_upstream {
        Err(refused(400, "Debian metadata refresh requires repository upstream_url"@))
    } else if !has_proxy {
        Err(refused(503, "Proxy service is not configured"@))
    } else if config->Some_0.signing_enabled && !config->Some_0.verify_upstream_metadata {
        Err(
            refused(
                400,
                "Refusing to sign Debian metadata from an unverified upstream: set verify_upstream_metadata=true."@,
            ),
        )
    } else if config->Some_0.distributions.len() == 0 {
        Err(refused(400, "Debian metadata refresh requires at least one distribution path"@))
    } else {
        Ok(
            SyncModel {
                base: BaseModel {
                    config: config->Some_0,
                    filter: filter_of(config->Some_0),
                    policy: policy_of(config->Some_0),
                    turn: 0,
                    plans: seq![],
                    prefetched: seq![],
                    prefetched_sources: seq![],
                },
                stage: StageModel::Release,
            },
        )
    }
}

// ---------------------------------------------------------------------------
// Model: what is to be done
// ---------------------------------------------------------------------------

/// The distribution that a sync is at.
pub open spec fn at_distribution(base: BaseModel) -> Seq<char> {
    trim_char(base.config.distributions[base.turn as int], '/')
}

/// The path of a file of a distribution. A flat repository has them at its root.
pub open spec fn in_dists(flat: bool, distribution: Seq<char>, path: Seq<char>) -> Seq<char> {
    if flat || distribution.len() == 0 {
        path
    } else {
        "dists/"@ + distribution + "/"@ + path
    }
}

/// The path of a file of the distribution that a sync is at.
pub open spec fn upstream_path(base: BaseModel, path: Seq<char>) -> Seq<char> {
    in_dists(base.config.flat_repository, at_distribution(base), path)
}

/// The paths of the indexes of a plan.
pub open spec fn index_paths(plan: PlanModel) -> Seq<Seq<char>> {
    plan.package_indexes.map_values(|index: IndexModel| index.path)
        + plan.source_indexes.map_values(|index: SourceIndexModel| index.path)
}

/// The Contents texts that a plan needs: for each Packages index that was read,
/// the files and packages that it is made of.
pub open spec fn wanted_contents(
    indexes: Seq<IndexModel>,
    packages: Seq<(Seq<char>, Seq<PackageModel>)>,
    selected: Seq<Seq<char>>,
) -> Seq<(Seq<char>, Seq<(Seq<char>, Seq<char>)>)>
    decreases indexes.len(),
{
    if indexes.len() == 0 {
        seq![]
    } else {
        let before = wanted_contents(indexes.drop_last(), packages, selected);
        let index = indexes.last();
        match lookup(packages, index.path) {
            Some(entries) => before.push(
                (
                    index.path,
                    contents_pairs(kept_packages(entries, index.architecture, selected)),
                ),
            ),
            None => before,
        }
    }
}

/// What is to be done next.
pub open spec fn sync_action(m: SyncModel) -> ActionModel {
    match m.stage {
        StageModel::Release => ActionModel::Fetch(upstream_path(m.base, "Release"@)),
        StageModel::InRelease(_) => ActionModel::Fetch(upstream_path(m.base, "InRelease"@)),
        StageModel::Signature(_) => ActionModel::Fetch(upstream_path(m.base, "Release.gpg"@)),
        StageModel::Key(_, key_ref) => ActionModel::LookUpKey(key_ref),
        StageModel::Cleartext(key, signed) => ActionModel::VerifyCleartext(key, signed),
        StageModel::Detached(f, signature, key) => ActionModel::VerifyDetached(
            key,
            f.release,
            signature,
        ),
        StageModel::PackageIndex(s) => ActionModel::Fetch(
            upstream_path(m.base, s.package_indexes[s.taken as int].path),
        ),
        StageModel::SourceIndex(s) => ActionModel::Fetch(
            upstream_path(m.base, s.source_indexes[s.taken as int].path),
        ),
        StageModel::Paths(p) => ActionModel::CheckIndexPaths(index_paths(p.plan)),
        StageModel::Contents(p) => ActionModel::BuildContents(
            wanted_contents(p.plan.package_indexes, p.packages, m.base.filter.selection.architectures),
        ),
        StageModel::Digests(_, g) => ActionModel::DigestFiles(g.release_files),
        StageModel::Publish(_, publication) => ActionModel::Publish(publication),
        StageModel::PackagePath(p, i) => ActionModel::CheckFetchPath(
            p.plan.package_files[i as int].filename,
        ),
        StageModel::PackageFile(p, i, digest) => ActionModel::PrefetchPackage(
            p.plan.package_files[i as int].filename,
            digest,
        ),
        StageModel::SourcePath(p, i) => ActionModel::CheckFetchPath(
            p.plan.source_files[i as int].filename,
        ),
        StageModel::SourceFile(p, i, digest) => ActionModel::PrefetchSource(
            p.plan.source_files[i as int].filename,
            digest,
        ),
        StageModel::Done => ActionModel::Finish,
    }
}

// ---------------------------------------------------------------------------
// Model: what becomes of it
// ---------------------------------------------------------------------------

/// A sync at a stage.
pub open spec fn at(base: BaseModel, stage: StageModel) -> SyncModel {
    SyncModel { base, stage }
}

/// The bytes as a text, or the refusal.
pub open spec fn readable(bytes: Seq<u8>, context: Seq<char>) -> std::result::Result<
    Seq<char>,
    RefusalModel,
> {
    if valid_utf8(bytes) {
        Ok(decode_utf8(bytes))
    } else {
        Err(unreadable(context, utf8_fault(bytes)))
    }
}

/// The reference to the key that upstream metadata has to be signed with.
pub open spec fn key_reference(config: ConfigModel) -> Option<Seq<char>> {
    match config.upstream_gpg_key_id {
        Some(key_ref) => if trim(key_ref).len() == 0 {
            None
        } else {
            Some(trim(key_ref))
        },
        None => None,
    }
}

/// The plan of a distribution whose indexes are read.
pub open spec fn planned(base: BaseModel, s: SelectionModel) -> PlannedModel {
    PlannedModel {
        release: s.release,
        plan: sync_plan(
            at_distribution(base),
            s.release,
            base.filter.selection,
            s.packages,
            s.sources,
            base.policy,
        ),
        packages: s.packages,
        sources: s.sources,
        package_digests: package_digests(s.packages),
        source_digests: source_digests(s.sources),
    }
}

/// A sync that goes on with the Sources indexes.
pub open spec fn with_source_indexes_left(base: BaseModel, s: SelectionModel) -> SyncModel {
    if s.taken < s.source_indexes.len() {
        at(base, StageModel::SourceIndex(s))
    } else {
        at(base, StageModel::Paths(planned(base, s)))
    }
}

/// A sync that goes on with the Packages indexes.
pub open spec fn with_package_indexes_left(base: BaseModel, s: SelectionModel) -> SyncModel {
    if s.taken < s.package_indexes.len() {
        at(base, StageModel::PackageIndex(s))
    } else {
        with_source_indexes_left(base, SelectionModel { taken: 0, ..s })
    }
}

/// A sync that goes on with a Release whose text counts.
pub open spec fn with_release(base: BaseModel, text: Seq<char>) -> std::result::Result<
    SyncModel,
    RefusalModel,
> {
    match release_of(text) {
        Err(failure) => Err(unreadable("Release"@, failure_text(failure))),
        Ok(release) => match selection(release, base.filter.selection) {
            Err(failure) => Err(refused(400, failure_text(failure))),
            Ok(()) => Ok(
                with_package_indexes_left(
                    base,
                    SelectionModel {
                        release,
                        package_indexes: package_indexes(release, base.filter.selection),
                        source_indexes: source_indexes(release, base.filter.selection),
                        taken: 0,
                        packages: seq![],
                        sources: seq![],
                    },
                ),
            ),
        },
    }
}

/// A sync that goes on with everything fetched that a Release is judged by. Only
/// where nothing is verified does its text count as it is.
pub open spec fn with_fetched(base: BaseModel, f: FetchedModel) -> std::result::Result<
    SyncModel,
    RefusalModel,
> {
    if base.config.verify_upstream_metadata {
        match key_reference(base.config) {
            None => Err(
                refused(400, "verify_upstream_metadata=true requires upstream_gpg_key_id."@),
            ),
            Some(key_ref) => Ok(at(base, StageModel::Key(f, key_ref))),
        }
    } else {
        with_release(base, f.text)
    }
}

/// A sync that goes on with a key. An InRelease comes before a detached signature.
pub open spec fn with_key(base: BaseModel, f: FetchedModel, key: Seq<char>) -> std::result::Result<
    SyncModel,
    RefusalModel,
> {
    match f.in_release {
        Some(bytes) => match readable(bytes, "InRelease"@) {
            Err(refusal) => Err(refusal),
            Ok(text) => Ok(at(base, StageModel::Cleartext(key, text))),
        },
        None => match f.signature {
            Some(signature) => Ok(at(base, StageModel::Detached(f, signature, key))),
            None => Err(
                refused(
                    502,
                    "verify_upstream_metadata=true but upstream did not provide InRelease or Release.gpg."@,
                ),
            ),
        },
    }
}

/// A sync that goes on with a Packages index.
pub open spec fn with_package_index_read(
    base: BaseModel,
    s: SelectionModel,
    content: Seq<u8>,
) -> std::result::Result<SyncModel, RefusalModel> {
    let path = s.package_indexes[s.taken as int].path;
    match index_verdict(s.release, path, content, base.config.verify_upstream_metadata) {
        Err(reason) => Err(untrusted("Packages index"@, reason)),
        Ok(()) => match packages_index(path, content) {
            Err(failure) => Err(unreadable("Packages index"@, failure_text(failure))),
            Ok(packages) => Ok(
                with_package_indexes_left(
                    base,
                    SelectionModel {
                        taken: s.taken + 1,
                        packages: put(s.packages, path, packages),
                        ..s
                    },
                ),
            ),
        },
    }
}

/// A sync that goes on with a Sources index.
pub open spec fn with_source_index_read(
    base: BaseModel,
    s: SelectionModel,
    content: Seq<u8>,
) -> std::result::Result<SyncModel, RefusalModel> {
    let path = s.source_indexes[s.taken as int].path;
    match index_verdict(s.release, path, content, base.config.verify_upstream_metadata) {
        Err(reason) => Err(untrusted("Sources index"@, reason)),
        Ok(()) => match sources_index(path, content) {
            Err(failure) => Err(unreadable("Sources index"@, failure_text(failure))),
            Ok(sources) => Ok(
                with_source_indexes_left(
                    base,
                    SelectionModel {
                        taken: s.taken + 1,
                        sources: put(s.sources, path, sources),
                        ..s
                    },
                ),
            ),
        },
    }
}

/// The first package file at or behind `from` that is still to be fetched, or
/// the number of files.
pub open spec fn next_package(files: Seq<PackageFileModel>, from: nat, done: Seq<Seq<char>>) -> nat
    decreases files.len() - from,
{
    if from >= files.len() || (files[from as int].download && !done.contains(
        files[from as int].filename,
    )) {
        from
    } else {
        next_package(files, from + 1, done)
    }
}

/// The first source file at or behind `from` that is still to be fetched, or the
/// number of files.
pub open spec fn next_source(files: Seq<PlannedSourceModel>, from: nat, done: Seq<Seq<char>>) -> nat
    decreases files.len() - from,
{
    if from >= files.len() || (files[from as int].download && !done.contains(
        files[from as int].filename,
    )) {
        from
    } else {
        next_source(files, from + 1, done)
    }
}

/// A sync that is done with a distribution.
pub open spec fn with_next_distribution(base: BaseModel, p: PlannedModel) -> SyncModel {
    let next = BaseModel { plans: base.plans.push(p.plan), turn: base.turn + 1, ..base };
    if base.turn + 1 < base.config.distributions.len() {
        at(next, StageModel::Release)
    } else {
        at(next, StageModel::Done)
    }
}

/// A sync that goes on with the source files.
pub open spec fn with_sources_left(base: BaseModel, p: PlannedModel, from: nat) -> SyncModel {
    let i = next_source(p.plan.source_files, from, base.prefetched_sources);
    if i < p.plan.source_files.len() {
        at(
            BaseModel {
                prefetched_sources: with_text(
                    base.prefetched_sources,
                    p.plan.source_files[i as int].filename,
                ),
                ..base
            },
            StageModel::SourcePath(p, i),
        )
    } else {
        with_next_distribution(base, p)
    }
}

/// A sync that goes on with the package files.
pub open spec fn with_packages_left(base: BaseModel, p: PlannedModel, from: nat) -> SyncModel {
    let i = next_package(p.plan.package_files, from, base.prefetched);
    if i < p.plan.package_files.len() {
        at(
            BaseModel {
                prefetched: with_text(base.prefetched, p.plan.package_files[i as int].filename),
                ..base
            },
            StageModel::PackagePath(p, i),
        )
    } else {
        with_sources_left(base, p, 0)
    }
}

/// The files with their digests.
pub open spec fn digested(
    files: Seq<(Seq<char>, Seq<u8>)>,
    digests: Seq<(Seq<char>, Seq<char>)>,
) -> Seq<DigestedModel> {
    Seq::new(
        files.len(),
        |i: int|
            DigestedModel {
                path: files[i].0,
                bytes: files[i].1,
                md5: digests[i].0,
                sha1: digests[i].1,
            },
    )
}

/// The components of the indexes of a plan.
pub open spec fn planned_components(plan: PlanModel) -> Seq<Seq<char>> {
    text_set(
        plan.package_indexes.map_values(|index: IndexModel| index.component)
            + plan.source_indexes.map_values(|index: SourceIndexModel| index.component),
    )
}

/// The architectures of the indexes of a plan.
pub open spec fn planned_architectures(plan: PlanModel) -> Seq<Seq<char>> {
    text_set(plan.package_indexes.map_values(|index: IndexModel| index.architecture))
}

/// What is stored for a distribution: its generated indexes and the Release that
/// lists them.
pub open spec fn publication(
    base: BaseModel,
    p: PlannedModel,
    g: GeneratedModel,
    digests: Seq<(Seq<char>, Seq<char>)>,
    date: Seq<char>,
) -> PublicationModel {
    let distribution = at_distribution(base);
    PublicationModel {
        cleared_prefix: synced_prefix(distribution),
        rows: g.plain_indexes.map_values(
            |row: (Seq<char>, Seq<char>)| (synced_key(distribution, row.0), row.1),
        ).push(
            (
                "debian_synced_release:"@ + distribution,
                release_content(
                    p.release.suite,
                    p.release.codename,
                    p.release.description,
                    planned_components(p.plan),
                    planned_architectures(p.plan),
                    digested(g.release_files, digests),
                    date,
                ),
            ),
        ),
    }
}

/// An event that ends a sync: a failure, or one that has nothing to do with what
/// was to be done.
pub open spec fn ends_sync(event: EventModel) -> std::result::Result<SyncModel, RefusalModel> {
    Err(
        match event {
            EventModel::Failed(refusal) => refusal,
            _ => refused(500, "Unexpected event"@),
        },
    )
}

/// What becomes of a sync that waits for a Release.
#[verifier::opaque]
pub open spec fn on_release(base: BaseModel, event: EventModel) -> std::result::Result<
    SyncModel,
    RefusalModel,
> {
    match event {
        EventModel::Fetched(bytes) => match readable(bytes, "Release"@) {
            Err(refusal) => Err(refusal),
            Ok(text) => Ok(
                at(
                    base,
                    StageModel::InRelease(
                        FetchedModel { release: bytes, text, in_release: None, signature: None },
                    ),
                ),
            ),
        },
        _ => ends_sync(event),
    }
}

/// What becomes of a sync that waits for an InRelease. It may be missing.
#[verifier::opaque]
pub open spec fn on_in_release(base: BaseModel, f: FetchedModel, event: EventModel) -> std::result::Result<
    SyncModel,
    RefusalModel,
> {
    match event {
        EventModel::Fetched(bytes) => Ok(
            at(base, StageModel::Signature(FetchedModel { in_release: Some(bytes), ..f })),
        ),
        EventModel::Failed(refusal) => if refusal.status == 404 {
            Ok(at(base, StageModel::Signature(f)))
        } else {
            Err(refusal)
        },
        _ => ends_sync(event),
    }
}

/// What becomes of a sync that waits for a detached signature. It may be missing.
#[verifier::opaque]
pub open spec fn on_signature(base: BaseModel, f: FetchedModel, event: EventModel) -> std::result::Result<
    SyncModel,
    RefusalModel,
> {
    match event {
        EventModel::Fetched(bytes) => with_fetched(
            base,
            FetchedModel { signature: Some(bytes), ..f },
        ),
        EventModel::Failed(refusal) => if refusal.status == 404 {
            with_fetched(base, f)
        } else {
            Err(refusal)
        },
        _ => ends_sync(event),
    }
}

/// What becomes of a sync that waits for a key.
#[verifier::opaque]
pub open spec fn on_key(base: BaseModel, f: FetchedModel, key_ref: Seq<char>, event: EventModel) -> std::result::Result<
    SyncModel,
    RefusalModel,
> {
    match event {
        EventModel::Key(Some(key)) => with_key(base, f, key),
        EventModel::Key(None) => Err(
            refused(
                400,
                "upstream_gpg_key_id="@ + key_ref
                    + " did not match a stored active public key."@,
            ),
        ),
        EventModel::Rejected(reason) => Err(untrusted("public key lookup"@, reason)),
        _ => ends_sync(event),
    }
}

/// What becomes of a sync that waits for the verification of an InRelease.
#[verifier::opaque]
pub open spec fn on_cleartext(base: BaseModel, event: EventModel) -> std::result::Result<
    SyncModel,
    RefusalModel,
> {
    match event {
        EventModel::Payload(text) => with_release(base, text),
        EventModel::Rejected(reason) => Err(untrusted("InRelease"@, reason)),
        _ => ends_sync(event),
    }
}

/// What becomes of a sync that waits for the verification of a detached signature.
#[verifier::opaque]
pub open spec fn on_detached(base: BaseModel, f: FetchedModel, event: EventModel) -> std::result::Result<
    SyncModel,
    RefusalModel,
> {
    match event {
        EventModel::Accepted => with_release(base, f.text),
        EventModel::Rejected(reason) => Err(untrusted("Release.gpg"@, reason)),
        _ => ends_sync(event),
    }
}

/// What becomes of a sync that waits for a Packages index.
#[verifier::opaque]
pub open spec fn on_package_index(base: BaseModel, s: SelectionModel, event: EventModel) -> std::result::Result<
    SyncModel,
    RefusalModel,
> {
    match event {
        EventModel::Fetched(content) => with_package_index_read(base, s, content),
        EventModel::Failed(refusal) => if refusal.status == 404
            && base.config.ignore_missing_indexes {
            Ok(with_package_indexes_left(base, SelectionModel { taken: s.taken + 1, ..s }))
        } else {
            Err(refusal)
        },
        _ => ends_sync(event),
    }
}

/// What becomes of a sync that waits for a Sources index.
#[verifier::opaque]
pub open spec fn on_source_index(base: BaseModel, s: SelectionModel, event: EventModel) -> std::result::Result<
    SyncModel,
    RefusalModel,
> {
    match event {
        EventModel::Fetched(content) => with_source_index_read(base, s, content),
        EventModel::Failed(refusal) => if refusal.status == 404
            && base.config.ignore_missing_indexes {
            Ok(with_source_indexes_left(base, SelectionModel { taken: s.taken + 1, ..s }))
        } else {
            Err(refusal)
        },
        _ => ends_sync(event),
    }
}

/// What becomes of a sync that waits for the check of the paths of its indexes.
#[verifier::opaque]
pub open spec fn on_paths(base: BaseModel, p: PlannedModel, event: EventModel) -> std::result::Result<
    SyncModel,
    RefusalModel,
> {
    match event {
        EventModel::Accepted => if base.config.generated_metadata_enabled {
            Ok(at(base, StageModel::Contents(p)))
        } else {
            Ok(with_packages_left(base, p, 0))
        },
        EventModel::Rejected(path) => Err(
            refused(400, "Sync plan selected index path outside configured filters: "@ + path),
        ),
        _ => ends_sync(event),
    }
}

/// What becomes of a sync that waits for Contents texts.
#[verifier::opaque]
pub open spec fn on_contents(base: BaseModel, p: PlannedModel, event: EventModel) -> std::result::Result<
    SyncModel,
    RefusalModel,
> {
    match event {
        EventModel::Contents(texts) => match generated_metadata(
            p.plan.package_indexes,
            p.plan.source_indexes,
            p.packages,
            p.sources,
            base.filter.selection.architectures,
            texts,
        ) {
            Err(fault) => Err(refused(500, "Failed to generate Debian metadata: "@ + fault)),
            Ok(g) => Ok(at(base, StageModel::Digests(p, g))),
        },
        _ => ends_sync(event),
    }
}

/// What becomes of a sync that waits for digests.
#[verifier::opaque]
pub open spec fn on_digests(
    base: BaseModel,
    p: PlannedModel,
    g: GeneratedModel,
    event: EventModel,
    date: Seq<char>,
) -> std::result::Result<SyncModel, RefusalModel> {
    match event {
        EventModel::Digests(digests) => if digests.len() == g.release_files.len() {
            Ok(at(base, StageModel::Publish(p, publication(base, p, g, digests, date))))
        } else {
            ends_sync(event)
        },
        _ => ends_sync(event),
    }
}

/// What becomes of a sync that waits for the check of the path of a package file.
#[verifier::opaque]
pub open spec fn on_package_path(base: BaseModel, p: PlannedModel, i: nat, event: EventModel) -> std::result::Result<
    SyncModel,
    RefusalModel,
> {
    match event {
        EventModel::Accepted => match prefetch_digest(
            p.package_digests,
            p.plan.package_files[i as int].filename,
            base.config.verify_upstream_metadata,
        ) {
            Err(reason) => Err(untrusted("package"@, reason)),
            Ok(digest) => Ok(at(base, StageModel::PackageFile(p, i, digest))),
        },
        EventModel::Rejected(reason) => Err(untrusted("package path"@, reason)),
        _ => ends_sync(event),
    }
}

/// What becomes of a sync that waits for the check of the path of a source file.
#[verifier::opaque]
pub open spec fn on_source_path(base: BaseModel, p: PlannedModel, i: nat, event: EventModel) -> std::result::Result<
    SyncModel,
    RefusalModel,
> {
    match event {
        EventModel::Accepted => match prefetch_digest(
            p.source_digests,
            p.plan.source_files[i as int].filename,
            base.config.verify_upstream_metadata,
        ) {
            Err(reason) => Err(untrusted("source file"@, reason)),
            Ok(digest) => Ok(at(base, StageModel::SourceFile(p, i, digest))),
        },
        EventModel::Rejected(reason) => Err(untrusted("source path"@, reason)),
        _ => ends_sync(event),
    }
}

/// What becomes of a sync that has a package file fetched.
#[verifier::opaque]
pub open spec fn on_package_file(base: BaseModel, p: PlannedModel, from: nat, event: EventModel) -> std::result::Result<
    SyncModel,
    RefusalModel,
> {
    match event {
        EventModel::Accepted => Ok(with_packages_left(base, p, from)),
        _ => ends_sync(event),
    }
}

/// What becomes of a sync that has a source file fetched.
#[verifier::opaque]
pub open spec fn on_source_file(base: BaseModel, p: PlannedModel, from: nat, event: EventModel) -> std::result::Result<
    SyncModel,
    RefusalModel,
> {
    match event {
        EventModel::Accepted => Ok(with_sources_left(base, p, from)),
        _ => ends_sync(event),
    }
}

/// What becomes of a sync with an event. The date is that of a Release that is
/// generated.
pub open spec fn sync_step(m: SyncModel, event: EventModel, date: Seq<char>) -> std::result::Result<
    SyncModel,
    RefusalModel,
> {
    match m.stage {
        StageModel::Release => on_release(m.base, event),
        StageModel::InRelease(f) => on_in_release(m.base, f, event),
        StageModel::Signature(f) => on_signature(m.base, f, event),
        StageModel::Key(f, key_ref) => on_key(m.base, f, key_ref, event),
        StageModel::Cleartext(_, _) => on_cleartext(m.base, event),
        StageModel::Detached(f, _, _) => on_detached(m.base, f, event),
        StageModel::PackageIndex(s) => on_package_index(m.base, s, event),
        StageModel::SourceIndex(s) => on_source_index(m.base, s, event),
        StageModel::Paths(p) => on_paths(m.base, p, event),
        StageModel::Contents(p) => on_contents(m.base, p, event),
        StageModel::Digests(p, g) => on_digests(m.base, p, g, event, date),
        StageModel::Publish(p, _) => on_package_file(m.base, p, 0, event),
        StageModel::PackagePath(p, i) => on_package_path(m.base, p, i, event),
        StageModel::PackageFile(p, i, _) => on_package_file(m.base, p, i + 1, event),
        StageModel::SourcePath(p, i) => on_source_path(m.base, p, i, event),
        StageModel::SourceFile(p, i, _) => on_source_file(m.base, p, i + 1, event),
        StageModel::Done => ends_sync(event),
    }
}

// ---------------------------------------------------------------------------
// Laws
// ---------------------------------------------------------------------------

/// What holds of every sync that is under way. What is signed comes from a
/// verified upstream, every distribution that is left behind has its plan, and
/// a file that is fetched is noted as such and, where upstream metadata is
/// verified, has a digest.
pub open spec fn well_formed(m: SyncModel) -> bool {
    let base = m.base;
    let verify = base.config.verify_upstream_metadata;
    &&& base.config.signing_enabled ==> verify
    &&& base.filter == filter_of(base.config)
    &&& base.policy == policy_of(base.config)
    &&& base.plans.len() == base.turn
    &&& ascending(base.prefetched)
    &&& ascending(base.prefetched_sources)
    &&& if m.stage is Done {
        base.turn == base.config.distributions.len()
    } else {
        base.turn < base.config.distributions.len()
    }
    &&& match m.stage {
        StageModel::Key(_, _) => verify,
        StageModel::Cleartext(_, _) => verify,
        StageModel::Detached(_, _, _) => verify,
        StageModel::PackageIndex(s) => s.taken < s.package_indexes.len(),
        StageModel::SourceIndex(s) => s.taken < s.source_indexes.len(),
        StageModel::Contents(_) => base.config.generated_metadata_enabled,
        StageModel::Digests(_, _) => base.config.generated_metadata_enabled,
        StageModel::Publish(_, _) => base.config.generated_metadata_enabled,
        StageModel::PackagePath(p, i) => {
            &&& i < p.plan.package_files.len()
            &&& base.prefetched.contains(p.plan.package_files[i as int].filename)
        },
        StageModel::PackageFile(p, i, digest) => {
            &&& i < p.plan.package_files.len()
            &&& base.prefetched.contains(p.plan.package_files[i as int].filename)
            &&& verify ==> digest is Some
        },
        StageModel::SourcePath(p, i) => {
            &&& i < p.plan.source_files.len()
            &&& base.prefetched_sources.contains(p.plan.source_files[i as int].filename)
        },
        StageModel::SourceFile(p, i, digest) => {
            &&& i < p.plan.source_files.len()
            &&& base.prefetched_sources.contains(p.plan.source_files[i as int].filename)
            &&& verify ==> digest is Some
        },
        _ => true,
    }
}

/// A sync that begins is well formed; in particular, none begins that would sign
/// metadata of an upstream that is not verified.
pub proof fn start_is_well_formed(
    repo_type: RepositoryType,
    config: Option<ConfigModel>,
    has_upstream: bool,
    has_proxy: bool,
)
    ensures
        sync_start(repo_type, config, has_upstream, has_proxy) matches Ok(m) ==> well_formed(m),
{
}

pub(crate) proof fn next_package_is_left(files: Seq<PackageFileModel>, from: nat, done: Seq<Seq<char>>)
    ensures
        ({
            let i = next_package(files, from, done);
            i < files.len() ==> files[i as int].download && !done.contains(
                files[i as int].filename,
            )
        }),
        from <= files.len() ==> from <= next_package(files, from, done) <= files.len(),
    decreases files.len() - from,
{
    if from < files.len() && !(files[from as int].download && !done.contains(
        files[from as int].filename,
    )) {
        next_package_is_left(files, from + 1, done);
    }
}

pub(crate) proof fn next_source_is_left(files: Seq<PlannedSourceModel>, from: nat, done: Seq<Seq<char>>)
    ensures
        ({
            let i = next_source(files, from, done);
            i < files.len() ==> files[i as int].download && !done.contains(
                files[i as int].filename,
            )
        }),
        from <= files.len() ==> from <= next_source(files, from, done) <= files.len(),
    decreases files.len() - from,
{
    if from < files.len() && !(files[from as int].download && !done.contains(
        files[from as int].filename,
    )) {
        next_source_is_left(files, from + 1, done);
    }
}

/// What every stage needs of the rest of a sync.
spec fn base_fits(base: BaseModel) -> bool {
    &&& base.config.signing_enabled ==> base.config.verify_upstream_metadata
    &&& base.filter == filter_of(base.config)
    &&& base.policy == policy_of(base.config)
    &&& base.plans.len() == base.turn
    &&& ascending(base.prefetched)
    &&& ascending(base.prefetched_sources)
    &&& base.turn < base.config.distributions.len()
}

proof fn sources_left_well_formed(base: BaseModel, p: PlannedModel, from: nat)
    requires
        base_fits(base),
    ensures
        well_formed(with_sources_left(base, p, from)),
{
    next_source_is_left(p.plan.source_files, from, base.prefetched_sources);
    let i = next_source(p.plan.source_files, from, base.prefetched_sources);
    with_text_ascending(base.prefetched_sources, p.plan.source_files[i as int].filename);
}

proof fn packages_left_well_formed(base: BaseModel, p: PlannedModel, from: nat)
    requires
        base_fits(base),
    ensures
        well_formed(with_packages_left(base, p, from)),
{
    next_package_is_left(p.plan.package_files, from, base.prefetched);
    let i = next_package(p.plan.package_files, from, base.prefetched);
    with_text_ascending(base.prefetched, p.plan.package_files[i as int].filename);
    sources_left_well_formed(base, p, 0);
}

proof fn release_well_formed(base: BaseModel, text: Seq<char>)
    requires
        base_fits(base),
    ensures
        with_release(base, text) matches Ok(n) ==> well_formed(n),
{
}

proof fn package_index_well_formed(base: BaseModel, s: SelectionModel, event: EventModel)
    requires
        base_fits(base),
    ensures
        on_package_index(base, s, event) matches Ok(n) ==> well_formed(n),
{
    reveal(on_package_index);
}

proof fn source_index_well_formed(base: BaseModel, s: SelectionModel, event: EventModel)
    requires
        base_fits(base),
    ensures
        on_source_index(base, s, event) matches Ok(n) ==> well_formed(n),
{
    reveal(on_source_index);
}

proof fn fetched_well_formed(base: BaseModel, f: FetchedModel, event: EventModel)
    requires
        base_fits(base),
    ensures
        on_release(base, event) matches Ok(n) ==> well_formed(n),
        on_in_release(base, f, event) matches Ok(n) ==> well_formed(n),
        on_signature(base, f, event) matches Ok(n) ==> well_formed(n),
{
    reveal(on_release);
    reveal(on_in_release);
    reveal(on_signature);
    release_well_formed(base, f.text);
}

proof fn verified_well_formed(base: BaseModel, f: FetchedModel, key_ref: Seq<char>, event: EventModel)
    requires
        base_fits(base),
        base.config.verify_upstream_metadata,
    ensures
        on_key(base, f, key_ref, event) matches Ok(n) ==> well_formed(n),
        on_cleartext(base, event) matches Ok(n) ==> well_formed(n),
        on_detached(base, f, event) matches Ok(n) ==> well_formed(n),
{
    reveal(on_key);
    reveal(on_cleartext);
    reveal(on_detached);
    release_well_formed(base, f.text);
    if let EventModel::Payload(text) = event {
        release_well_formed(base, text);
    }
}

/// Whatever happens, a sync stays well formed.
#[verifier::rlimit(40)]
pub proof fn step_keeps_well_formed(m: SyncModel, event: EventModel, date: Seq<char>)
    requires
        well_formed(m),
    ensures
        sync_step(m, event, date) matches Ok(n) ==> well_formed(n),
{
    reveal(on_paths);
    reveal(on_contents);
    reveal(on_digests);
    reveal(on_package_path);
    reveal(on_source_path);
    reveal(on_package_file);
    reveal(on_source_file);
    match m.stage {
        StageModel::Release => fetched_well_formed(m.base, arbitrary(), event),
        StageModel::InRelease(f) => fetched_well_formed(m.base, f, event),
        StageModel::Signature(f) => fetched_well_formed(m.base, f, event),
        StageModel::Key(f, key_ref) => verified_well_formed(m.base, f, key_ref, event),
        StageModel::Cleartext(key, _) => verified_well_formed(m.base, arbitrary(), key, event),
        StageModel::Detached(f, _, key) => verified_well_formed(m.base, f, key, event),
        StageModel::PackageIndex(s) => package_index_well_formed(m.base, s, event),
        StageModel::SourceIndex(s) => source_index_well_formed(m.base, s, event),
        StageModel::Paths(p) => packages_left_well_formed(m.base, p, 0),
        StageModel::Publish(p, _) => packages_left_well_formed(m.base, p, 0),
        StageModel::PackageFile(p, i, _) => packages_left_well_formed(m.base, p, i + 1),
        StageModel::SourceFile(p, i, _) => sources_left_well_formed(m.base, p, i + 1),
        _ => {},
    }
}

/// The stage comes before a Release is read.
pub open spec fn is_before_reading(stage: StageModel) -> bool {
    stage is Release || stage is InRelease || stage is Signature || stage is Key
        || stage is Cleartext || stage is Detached
}

/// Where upstream metadata is verified, no Release is read that was not: the
/// text is one that was handed out of a verified InRelease, or that of a Release
/// whose detached signature was accepted.
pub proof fn no_unverified_release_is_read(m: SyncModel, event: EventModel, date: Seq<char>)
    requires
        m.base.config.verify_upstream_metadata,
        is_before_reading(m.stage),
    ensures
        sync_step(m, event, date) matches Ok(n) ==> is_before_reading(n.stage) || match m.stage {
            StageModel::Cleartext(_, _) => event matches EventModel::Payload(text) && with_release(
                m.base,
                text,
            ) == Ok::<SyncModel, RefusalModel>(n),
            StageModel::Detached(f, _, _) => event is Accepted && with_release(m.base, f.text)
                == Ok::<SyncModel, RefusalModel>(n),
            _ => false,
        },
{
    reveal(on_release);
    reveal(on_in_release);
    reveal(on_signature);
    reveal(on_key);
    reveal(on_cleartext);
    reveal(on_detached);
}

/// A state follows from another by an event.
#[verifier::opaque]
pub open spec fn follows(m: SyncModel, event: EventModel, date: Seq<char>, n: SyncModel) -> bool {
    sync_step(m, event, date) == Ok::<SyncModel, RefusalModel>(n)
}

/// Each state follows from the one before.
pub open spec fn is_run(states: Seq<SyncModel>, events: Seq<EventModel>, dates: Seq<Seq<char>>) -> bool {
    &&& events.len() + 1 == states.len()
    &&& dates.len() == events.len()
    &&& forall|i: int|
        0 <= i < events.len() ==> follows(#[trigger] states[i], events[i], dates[i], states[i + 1])
}

/// The package file whose path a sync asks about.
pub open spec fn package_asked(m: SyncModel) -> Option<Seq<char>> {
    match m.stage {
        StageModel::PackagePath(p, i) => Some(p.plan.package_files[i as int].filename),
        _ => None,
    }
}

/// The source file whose path a sync asks about.
pub open spec fn source_asked(m: SyncModel) -> Option<Seq<char>> {
    match m.stage {
        StageModel::SourcePath(p, i) => Some(p.plan.source_files[i as int].filename),
        _ => None,
    }
}

proof fn step_notes_files(m: SyncModel, event: EventModel, date: Seq<char>, n: SyncModel)
    requires
        well_formed(m),
        follows(m, event, date, n),
    ensures
        well_formed(n),
        notes_files(m.base, n),
{
    reveal(on_release);
    reveal(on_in_release);
    reveal(on_signature);
    reveal(on_key);
    reveal(on_cleartext);
    reveal(on_detached);
    reveal(on_package_index);
    reveal(on_source_index);
    reveal(on_paths);
    reveal(on_contents);
    reveal(on_digests);
    reveal(on_package_path);
    reveal(on_source_path);
    reveal(on_package_file);
    reveal(on_source_file);
    reveal(follows);
    step_keeps_well_formed(m, event, date);
    match m.stage {
        StageModel::Paths(p) => packages_left_notes(m.base, p, 0),
        StageModel::Publish(p, _) => packages_left_notes(m.base, p, 0),
        StageModel::PackageFile(p, i, _) => packages_left_notes(m.base, p, i + 1),
        StageModel::SourceFile(p, i, _) => sources_left_notes(m.base, p, i + 1),
        _ => {},
    }
}

spec fn notes_files(base: BaseModel, n: SyncModel) -> bool {
    &&& forall|f: Seq<char>| base.prefetched.contains(f) ==> n.base.prefetched.contains(f)
    &&& forall|f: Seq<char>|
        base.prefetched_sources.contains(f) ==> n.base.prefetched_sources.contains(f)
    &&& package_asked(n) matches Some(f) ==> !base.prefetched.contains(f)
        && n.base.prefetched.contains(f)
    &&& source_asked(n) matches Some(f) ==> !base.prefetched_sources.contains(f)
        && n.base.prefetched_sources.contains(f)
}

proof fn sources_left_notes(base: BaseModel, p: PlannedModel, from: nat)
    requires
        base_fits(base),
    ensures
        notes_files(base, with_sources_left(base, p, from)),
{
    next_source_is_left(p.plan.source_files, from, base.prefetched_sources);
    let i = next_source(p.plan.source_files, from, base.prefetched_sources);
    with_text_ascending(base.prefetched_sources, p.plan.source_files[i as int].filename);
}

proof fn packages_left_notes(base: BaseModel, p: PlannedModel, from: nat)
    requires
        base_fits(base),
    ensures
        notes_files(base, with_packages_left(base, p, from)),
{
    next_package_is_left(p.plan.package_files, from, base.prefetched);
    let i = next_package(p.plan.package_files, from, base.prefetched);
    with_text_ascending(base.prefetched, p.plan.package_files[i as int].filename);
    sources_left_notes(base, p, 0);
}

proof fn run_notes_files(
    states: Seq<SyncModel>,
    events: Seq<EventModel>,
    dates: Seq<Seq<char>>,
    i: int,
    j: int,
)
    requires
        is_run(states, events, dates),
        well_formed(states[0]),
        0 <= i <= j < states.len(),
    ensures
        well_formed(states[i]),
        well_formed(states[j]),
        forall|f: Seq<char>|
            states[i].base.prefetched.contains(f) ==> states[j].base.prefetched.contains(f),
        forall|f: Seq<char>|
            states[i].base.prefetched_sources.contains(f)
                ==> states[j].base.prefetched_sources.contains(f),
    decreases j,
{
    if j > 0 {
        let k = j - 1;
        assert(follows(states[k], events[k], dates[k], states[k + 1]));
        if i < j {
            run_notes_files(states, events, dates, i, k);
        } else {
            run_notes_files(states, events, dates, k, k);
        }
        step_notes_files(states[k], events[k], dates[k], states[j]);
    }
}

/// A sync asks for no file twice, however many distributions list it.
pub proof fn no_file_is_fetched_twice(
    states: Seq<SyncModel>,
    events: Seq<EventModel>,
    dates: Seq<Seq<char>>,
    i: int,
    j: int,
)
    requires
        is_run(states, events, dates),
        well_formed(states[0]),
        0 <= i < j < states.len(),
    ensures
        package_asked(states[i]) is Some ==> package_asked(states[i]) != package_asked(states[j]),
        source_asked(states[i]) is Some ==> source_asked(states[i]) != source_asked(states[j]),
{
    let k = j - 1;
    assert(follows(states[k], events[k], dates[k], states[k + 1]));
    run_notes_files(states, events, dates, i, k);
    step_notes_files(states[k], events[k], dates[k], states[j]);
}

/// What the Release of a publication is made of.
pub open spec fn publication_draft(
    p: PlannedModel,
    g: GeneratedModel,
    digests: Seq<(Seq<char>, Seq<char>)>,
    date: Seq<char>,
) -> Draft {
    Draft {
        suite: p.release.suite,
        codename: p.release.codename,
        description: p.release.description,
        components: planned_components(p.plan),
        architectures: planned_architectures(p.plan),
        files: digested(g.release_files, digests),
        date,
    }
}

/// A publication is coherent: the Release that is stored last vouches for every
/// file that was generated, and a client that checks one against it accepts it.
pub proof fn publication_vouches(
    base: BaseModel,
    p: PlannedModel,
    g: GeneratedModel,
    digests: Seq<(Seq<char>, Seq<char>)>,
    date: Seq<char>,
    f: int,
)
    requires
        is_publishable(publication_draft(p, g, digests, date)),
        forall|i: int, j: int|
            0 <= i < g.release_files.len() && 0 <= j < g.release_files.len() && (
            #[trigger] g.release_files[i]).0 == (#[trigger] g.release_files[j]).0
                ==> g.release_files[i].1 == g.release_files[j].1,
        0 <= f < g.release_files.len(),
    ensures
        publication(base, p, g, digests, date).rows.last().0 == "debian_synced_release:"@
            + at_distribution(base),
        release_of(publication(base, p, g, digests, date).rows.last().1) matches Ok(release)
            && index_verdict(release, g.release_files[f].0, g.release_files[f].1, true) == Ok::<
            (),
            Seq<char>,
        >(()),
{
    let d = publication_draft(p, g, digests, date);
    assert forall|i: int, j: int|
        0 <= i < d.files.len() && 0 <= j < d.files.len() && (#[trigger] d.files[i]).path == (
        #[trigger] d.files[j]).path implies d.files[i].bytes == d.files[j].bytes by {
        assert(g.release_files[i].0 == g.release_files[j].0);
    }
    published_release_vouches(d, f);
}

// ---------------------------------------------------------------------------
// The sync
// ---------------------------------------------------------------------------

/// Refuses upstream metadata that cannot be read.
pub fn debian_sync_parse_error(context: &str, error: &str) -> (r: Refusal)
    ensures
        r.deep_view() == unreadable(context@, error@),
{
    let message = cat4("Failed to parse upstream Debian ", context, ": ", error);
    refuse(502, message.as_str())
}

/// Refuses upstream metadata that cannot be trusted.
pub fn debian_sync_verification_error(label: &str, error: &str) -> (r: Refusal)
    ensures
        r.deep_view() == untrusted(label@, error@),
{
    let message = cat4("Failed to verify upstream Debian ", label, ": ", error);
    refuse(502, message.as_str())
}

/// Refuses a sync that cannot fetch a file to its end.
pub fn prefetch_stream_error(error: &str) -> (r: Refusal)
    ensures
        r.deep_view() == refused(502, "Failed while prefetching Debian package: "@ + error@),
{
    refuse2(502, "Failed while prefetching Debian package: ", error)
}

/// The path of a file of a distribution.
pub fn upstream_dists_path(flat_repository: bool, distribution: &str, path: &str) -> (r: String)
    ensures
        r@ == in_dists(flat_repository, distribution@, path@),
{
    if flat_repository || is_empty_text(distribution) {
        path.to_string()
    } else {
        cat4("dists/", distribution, "/", path)
    }
}

/// An event that ends a sync.
fn end(event: SyncEvent) -> (r: std::result::Result<SyncRun, Refusal>)
    ensures
        verdict(r) == ends_sync(event.deep_view()),
{
    match event {
        SyncEvent::Failed(refusal) => Err(refusal),
        _ => Err(refuse(500, "Unexpected event")),
    }
}

/// Reads bytes as a text.
fn read_text(bytes: &[u8], context: &str) -> (r: std::result::Result<String, Refusal>)
    ensures
        verdict(r) == readable(bytes@, context@),
{
    match utf8_text(bytes) {
        Ok(text) => Ok(text),
        Err(fault) => Err(debian_sync_parse_error(context, fault.as_str())),
    }
}

impl SyncBase {
    /// The distribution that the sync is at.
    fn distribution(&self) -> (r: String)
        requires
            self.turn < self.config.distributions.len(),
        ensures
            r@ == at_distribution(self.deep_view()),
    {
        assert(self.config.distributions.deep_view()[self.turn as int]
            == self.config.distributions[self.turn as int]@);
        let chars = chars_of(self.config.distributions[self.turn].as_str());
        text_of(trim_char_of(chars.as_slice(), '/'))
    }

    /// The path of a file of the distribution that the sync is at.
    fn upstream_path(&self, path: &str) -> (r: String)
        requires
            self.turn < self.config.distributions.len(),
        ensures
            r@ == upstream_path(self.deep_view(), path@),
    {
        let distribution = self.distribution();
        upstream_dists_path(self.config.flat_repository, distribution.as_str(), path)
    }

    /// The reference to the key that upstream metadata has to be signed with.
    fn key_reference(&self) -> (r: Option<String>)
        ensures
            r.deep_view() == key_reference(self.config.deep_view()),
    {
        match &self.config.upstream_gpg_key_id {
            Some(key_ref) => {
                let chars = chars_of(key_ref.as_str());
                let trimmed = trim_of(chars.as_slice());
                if trimmed.len() == 0 {
                    None
                } else {
                    Some(text_of(trimmed))
                }
            },
            None => None,
        }
    }
}

/// Finds the next package file that is to be fetched.
fn find_package(files: &Vec<DebianSyncPackageFile>, from: usize, done: &TextSet) -> (r: usize)
    requires
        from <= files.len(),
    ensures
        r == next_package(files.deep_view(), from as nat, done.deep_view()),
        r <= files.len(),
{
    let ghost all = files.deep_view();
    let mut i: usize = from;
    while i < files.len() && !(files[i].download && !done.contains(files[i].filename.as_str()))
        invariant
            i <= files.len(),
            all == files.deep_view(),
            next_package(all, from as nat, done.deep_view()) == next_package(
                all,
                i as nat,
                done.deep_view(),
            ),
        decreases files.len() - i,
    {
        assert(all[i as int] == files[i as int].deep_view());
        i += 1;
    }
    proof {
        if i < files.len() {
            assert(all[i as int] == files[i as int].deep_view());
        }
    }
    i
}

/// Finds the next source file that is to be fetched.
fn find_source(files: &Vec<DebianSyncSourceFile>, from: usize, done: &TextSet) -> (r: usize)
    requires
        from <= files.len(),
    ensures
        r == next_source(files.deep_view(), from as nat, done.deep_view()),
        r <= files.len(),
{
    let ghost all = files.deep_view();
    let mut i: usize = from;
    while i < files.len() && !(files[i].download && !done.contains(files[i].filename.as_str()))
        invariant
            i <= files.len(),
            all == files.deep_view(),
            next_source(all, from as nat, done.deep_view()) == next_source(
                all,
                i as nat,
                done.deep_view(),
            ),
        decreases files.len() - i,
    {
        assert(all[i as int] == files[i as int].deep_view());
        i += 1;
    }
    proof {
        if i < files.len() {
            assert(all[i as int] == files[i as int].deep_view());
        }
    }
    i
}

/// The paths of the indexes of a plan.
fn paths_of(plan: &DebianSyncPlan) -> (r: Vec<String>)
    ensures
        r.deep_view() == index_paths(plan.deep_view()),
{
    let mut paths: Vec<String> = Vec::new();
    let ghost all = index_paths(plan.deep_view());
    let ghost n = plan.package_indexes.len() as int;
    assert(paths.deep_view() =~= all.take(0));
    for i in 0..plan.package_indexes.len()
        invariant
            n == plan.package_indexes.len(),
            all == index_paths(plan.deep_view()),
            paths.deep_view() == all.take(i as int),
    {
        let ghost before = paths.deep_view();
        assert(plan.deep_view().package_indexes[i as int]
            == plan.package_indexes[i as int].deep_view());
        paths.push(plan.package_indexes[i].path.clone());
        assert(paths.deep_view() =~= before.push(all[i as int]));
        assert(all.take(i + 1) =~= before.push(all[i as int]));
    }
    for i in 0..plan.source_indexes.len()
        invariant
            n == plan.package_indexes.len(),
            all == index_paths(plan.deep_view()),
            paths.deep_view() == all.take(n + i),
    {
        let ghost before = paths.deep_view();
        assert(plan.deep_view().source_indexes[i as int]
            == plan.source_indexes[i as int].deep_view());
        paths.push(plan.source_indexes[i].path.clone());
        assert(paths.deep_view() =~= before.push(all[n + i]));
        assert(all.take(n + i + 1) =~= before.push(all[n + i]));
    }
    assert(all.take(all.len() as int) =~= all);
    paths
}

/// The components of the indexes of a plan.
fn components_of(plan: &DebianSyncPlan) -> (r: TextSet)
    ensures
        r.deep_view() == planned_components(plan.deep_view()),
{
    let mut names: Vec<String> = Vec::new();
    let ghost all = plan.deep_view().package_indexes.map_values(|index: IndexModel| index.component)
        + plan.deep_view().source_indexes.map_values(|index: SourceIndexModel| index.component);
    let ghost n = plan.package_indexes.len() as int;
    assert(names.deep_view() =~= all.take(0));
    for i in 0..plan.package_indexes.len()
        invariant
            n == plan.package_indexes.len(),
            all == plan.deep_view().package_indexes.map_values(
                |index: IndexModel| index.component,
            ) + plan.deep_view().source_indexes.map_values(
                |index: SourceIndexModel| index.component,
            ),
            names.deep_view() == all.take(i as int),
    {
        let ghost before = names.deep_view();
        assert(plan.deep_view().package_indexes[i as int]
            == plan.package_indexes[i as int].deep_view());
        names.push(plan.package_indexes[i].component.clone());
        assert(names.deep_view() =~= before.push(all[i as int]));
        assert(all.take(i + 1) =~= before.push(all[i as int]));
    }
    for i in 0..plan.source_indexes.len()
        invariant
            n == plan.package_indexes.len(),
            all == plan.deep_view().package_indexes.map_values(
                |index: IndexModel| index.component,
            ) + plan.deep_view().source_indexes.map_values(
                |index: SourceIndexModel| index.component,
            ),
            names.deep_view() == all.take(n + i),
    {
        let ghost before = names.deep_view();
        assert(plan.deep_view().source_indexes[i as int]
            == plan.source_indexes[i as int].deep_view());
        names.push(plan.source_indexes[i].component.clone());
        assert(names.deep_view() =~= before.push(all[n + i]));
        assert(all.take(n + i + 1) =~= before.push(all[n + i]));
    }
    assert(all.take(all.len() as int) =~= all);
    TextSet::of(&names)
}

/// The architectures of the indexes of a plan.
fn architectures_of(plan: &DebianSyncPlan) -> (r: TextSet)
    ensures
        r.deep_view() == planned_architectures(plan.deep_view()),
{
    let mut names: Vec<String> = Vec::new();
    let ghost all = plan.deep_view().package_indexes.map_values(
        |index: IndexModel| index.architecture,
    );
    assert(names.deep_view() =~= all.take(0));
    for i in 0..plan.package_indexes.len()
        invariant
            all == plan.deep_view().package_indexes.map_values(
                |index: IndexModel| index.architecture,
            ),
            names.deep_view() == all.take(i as int),
    {
        let ghost before = names.deep_view();
        assert(plan.deep_view().package_indexes[i as int]
            == plan.package_indexes[i as int].deep_view());
        names.push(plan.package_indexes[i].architecture.clone());
        assert(names.deep_view() =~= before.push(all[i as int]));
        assert(all.take(i + 1) =~= before.push(all[i as int]));
    }
    assert(all.take(all.len() as int) =~= all);
    TextSet::of(&names)
}

/// The Contents texts that a plan needs.
fn contents_wanted(
    indexes: &Vec<DebianIndexPath>,
    packages: &TextMap<Vec<PackagesEntry>>,
    selected: &Vec<String>,
) -> (r: Vec<(String, Vec<(String, String)>)>)
    ensures
        r.deep_view() == wanted_contents(
            indexes.deep_view(),
            packages.deep_view(),
            selected.deep_view(),
        ),
{
    let mut wanted: Vec<(String, Vec<(String, String)>)> = Vec::new();
    let ghost all = indexes.deep_view();
    assert(wanted.deep_view() =~= seq![]);
    for i in 0..indexes.len()
        invariant
            all == indexes.deep_view(),
            wanted.deep_view() == wanted_contents(
                all.take(i as int),
                packages.deep_view(),
                selected.deep_view(),
            ),
    {
        let ghost before = wanted.deep_view();
        proof {
            assert(all.take(i + 1).drop_last() =~= all.take(i as int));
            assert(all.take(i + 1).last() == indexes[i as int].deep_view());
        }
        if let Some(entries) = packages.get(indexes[i].path.as_str()) {
            let pairs = generated_contents_entries(
                entries.as_slice(),
                indexes[i].architecture.as_str(),
                selected.as_slice(),
            );
            let ghost pair_model = pairs.deep_view();
            wanted.push((indexes[i].path.clone(), pairs));
            assert(wanted.deep_view() =~= before.push((indexes[i as int].path@, pair_model)));
        }
    }
    assert(all.take(all.len() as int) =~= all);
    wanted
}

/// Joins files and digests.
fn join_digests(files: Vec<(String, Vec<u8>)>, digests: Vec<(String, String)>) -> (r: Vec<
    DigestedFile,
>)
    requires
        files.len() == digests.len(),
    ensures
        r.deep_view() == digested(files.deep_view(), digests.deep_view()),
{
    let ghost fs = files.deep_view();
    let ghost ds = digests.deep_view();
    let ghost all = digested(fs, ds);
    let mut joined: Vec<DigestedFile> = Vec::new();
    assert(joined.deep_view() =~= all.take(0));
    for i in 0..files.len()
        invariant
            files.len() == digests.len(),
            fs == files.deep_view(),
            ds == digests.deep_view(),
            all == digested(fs, ds),
            joined.deep_view() == all.take(i as int),
    {
        let ghost before = joined.deep_view();
        proof {
            assert(fs[i as int].0 == files[i as int].0@);
            bytes_view(files[i as int].1);
            assert(fs[i as int].1 == files[i as int].1@);
            assert(ds[i as int].0 == digests[i as int].0@);
            assert(ds[i as int].1 == digests[i as int].1@);
        }
        let file = DigestedFile {
            path: files[i].0.clone(),
            bytes: copy_bytes(files[i].1.as_slice()),
            md5: digests[i].0.clone(),
            sha1: digests[i].1.clone(),
        };
        assert(file.deep_view() == all[i as int]);
        joined.push(file);
        assert(joined.deep_view() =~= before.push(all[i as int]));
        assert(all.take(i + 1) =~= before.push(all[i as int]));
    }
    assert(all.take(all.len() as int) =~= all);
    joined
}

/// The rows under which generated indexes are stored.
fn index_rows(distribution: &str, indexes: &TextMap<String>) -> (r: Vec<(String, String)>)
    ensures
        r.deep_view() == indexes.deep_view().map_values(
            |row: (Seq<char>, Seq<char>)| (synced_key(distribution@, row.0), row.1),
        ),
{
    let ghost all = indexes.deep_view().map_values(
        |row: (Seq<char>, Seq<char>)| (synced_key(distribution@, row.0), row.1),
    );
    let mut rows: Vec<(String, String)> = Vec::new();
    let count: usize = indexes.len();
    assert(rows.deep_view() =~= all.take(0));
    for i in 0..count
        invariant
            count == indexes.deep_view().len(),
            all == indexes.deep_view().map_values(
                |row: (Seq<char>, Seq<char>)| (synced_key(distribution@, row.0), row.1),
            ),
            rows.deep_view() == all.take(i as int),
    {
        let ghost before = rows.deep_view();
        let key = synced_dists_config_key(distribution, indexes.key_at(i));
        let text = indexes.value_at(i).clone();
        let ghost row = (key@, text@);
        rows.push((key, text));
        assert(rows.deep_view() =~= before.push(row));
        assert(row == all[i as int]);
        assert(all.take(i + 1) =~= before.push(all[i as int]));
    }
    assert(all.take(all.len() as int) =~= all);
    rows
}

/// Makes the plan of a distribution whose indexes are read.
fn make_plan(base: &SyncBase, s: IndexSelection) -> (r: PlannedDistribution)
    requires
        base.turn < base.config.distributions.len(),
    ensures
        r.deep_view() == planned(base.deep_view(), s.deep_view()),
{
    let distribution = base.distribution();
    let plan = build_debian_sync_plan(
        distribution.as_str(),
        &s.release,
        &base.filter.selection,
        &s.packages,
        &s.sources,
        base.policy,
    );
    let package_digests = package_sha256_by_filename(&s.packages);
    let source_digests = source_sha256_by_filename(&s.sources);
    PlannedDistribution {
        release: s.release,
        plan,
        packages: s.packages,
        sources: s.sources,
        package_digests,
        source_digests,
    }
}

/// What is stored for a distribution.
fn make_publication(
    base: &SyncBase,
    p: &PlannedDistribution,
    generated: GeneratedDistsMetadata,
    digests: Vec<(String, String)>,
    date: &str,
) -> (r: Publication)
    requires
        base.turn < base.config.distributions.len(),
        digests.len() == generated.release_files.len(),
    ensures
        r.deep_view() == publication(
            base.deep_view(),
            p.deep_view(),
            generated.deep_view(),
            digests.deep_view(),
            date@,
        ),
{
    let distribution = base.distribution();
    let cleared_prefix = synced_dists_key_prefix(distribution.as_str());
    let mut rows = index_rows(distribution.as_str(), &generated.plain_indexes);
    let components = components_of(&p.plan);
    let architectures = architectures_of(&p.plan);
    let files = join_digests(generated.release_files, digests);
    let release = build_release_content_at(
        p.release.suite.as_str(),
        str_of(&p.release.codename),
        str_of(&p.release.description),
        &components,
        &architectures,
        files,
        date,
    );
    let key = synced_release_config_key(distribution.as_str());
    let ghost before = rows.deep_view();
    let ghost row = (key@, release@);
    rows.push((key, release));
    assert(rows.deep_view() =~= before.push(row));
    Publication { cleared_prefix, rows }
}

impl SyncRun {
    #[verifier::type_invariant]
    closed spec fn holds(self) -> bool {
        well_formed(SyncModel { base: self.base.deep_view(), stage: self.stage.deep_view() })
    }

    /// Begins the sync of a repository. A flat repository has no distributions to
    /// filter by.
    pub fn begin(
        repo_type: RepositoryType,
        config: Option<DebianRepositoryConfig>,
        has_upstream: bool,
        has_proxy: bool,
    ) -> (r: std::result::Result<SyncRun, Refusal>)
        ensures
            verdict(r) == sync_start(repo_type, config.deep_view(), has_upstream, has_proxy),
    {
        if repo_type != RepositoryType::Remote {
            return Err(refuse(400, "Debian metadata refresh requires a Remote repository"));
        }
        let config = match config {
            Some(config) => config,
            None => {
                return Err(refuse(400, "Debian repository has no advanced configuration"));
            },
        };
        if !has_upstream {
            return Err(refuse(400, "Debian metadata refresh requires repository upstream_url"));
        }
        if !has_proxy {
            return Err(refuse(503, "Proxy service is not configured"));
        }
        if config.signing_enabled && !config.verify_upstream_metadata {
            return Err(
                refuse(
                    400,
                    "Refusing to sign Debian metadata from an unverified upstream: set verify_upstream_metadata=true.",
                ),
            );
        }
        if config.distributions.len() == 0 {
            return Err(
                refuse(400, "Debian metadata refresh requires at least one distribution path"),
            );
        }
        let distributions: Vec<String> = if config.flat_repository {
            Vec::new()
        } else {
            copy_texts(config.distributions.as_slice())
        };
        assert(distributions.deep_view() =~= filter_of(config.deep_view()).selection.distributions);
        let filter = DebianMirrorFilter {
            selection: DebianSyncFilter {
                distributions,
                components: copy_texts(config.components.as_slice()),
                architectures: copy_texts(config.architectures.as_slice()),
                include_source_packages: config.include_source_packages,
            },
            package_queries: copy_texts(config.package_queries.as_slice()),
            resolve_dependencies: config.resolve_dependencies,
        };
        let policy = if config.package_fetch_strategy
            == DebianPackageFetchStrategy::PrefetchSelected {
            DebianSyncDownloadPolicy::Immediate
        } else {
            DebianSyncDownloadPolicy::OnDemand
        };
        let plans: Vec<DebianSyncPlan> = Vec::new();
        assert(plans.deep_view() =~= seq![]);
        let base = SyncBase {
            config,
            filter,
            policy,
            turn: 0,
            plans,
            prefetched: TextSet::new(),
            prefetched_sources: TextSet::new(),
        };
        Ok(SyncRun { base, stage: SyncStage::Release })
    }

    /// The filter that the paths of the indexes have to pass.
    pub fn filter(&self) -> (r: &DebianMirrorFilter)
        ensures
            r.deep_view() == self.deep_view().base.filter,
    {
        &self.base.filter
    }

    /// What is to be done next.
    pub fn action(&self) -> (r: SyncAction<'_>)
        ensures
            r.deep_view() == sync_action(self.deep_view()),
    {
        proof {
            use_type_invariant(self);
        }
        match &self.stage {
            SyncStage::Release => SyncAction::Fetch(self.base.upstream_path("Release")),
            SyncStage::InRelease(_) => SyncAction::Fetch(self.base.upstream_path("InRelease")),
            SyncStage::Signature(_) => SyncAction::Fetch(self.base.upstream_path("Release.gpg")),
            SyncStage::Key(_, key_ref) => SyncAction::LookUpKey(key_ref.as_str()),
            SyncStage::Cleartext(key, signed) => SyncAction::VerifyCleartext(
                key.as_str(),
                signed.as_str(),
            ),
            SyncStage::Detached(f, signature, key) => SyncAction::VerifyDetached(
                key.as_str(),
                &f.release,
                signature,
            ),
            SyncStage::PackageIndex(s) => {
                assert(s.package_indexes.deep_view()[s.taken as int]
                    == s.package_indexes[s.taken as int].deep_view());
                SyncAction::Fetch(
                    self.base.upstream_path(s.package_indexes[s.taken].path.as_str()),
                )
            },
            SyncStage::SourceIndex(s) => {
                assert(s.source_indexes.deep_view()[s.taken as int]
                    == s.source_indexes[s.taken as int].deep_view());
                SyncAction::Fetch(self.base.upstream_path(s.source_indexes[s.taken].path.as_str()))
            },
            SyncStage::Paths(p) => SyncAction::CheckIndexPaths(paths_of(&p.plan)),
            SyncStage::Contents(p) => SyncAction::BuildContents(
                contents_wanted(
                    &p.plan.package_indexes,
                    &p.packages,
                    &self.base.filter.selection.architectures,
                ),
            ),
            SyncStage::Digests(_, generated) => SyncAction::DigestFiles(&generated.release_files),
            SyncStage::Publish(_, publication) => SyncAction::Publish(publication),
            SyncStage::PackagePath(p, i) => {
                assert(p.plan.package_files.deep_view()[*i as int]
                    == p.plan.package_files[*i as int].deep_view());
                SyncAction::CheckFetchPath(p.plan.package_files[*i].filename.as_str())
            },
            SyncStage::PackageFile(p, i, digest) => {
                assert(p.plan.package_files.deep_view()[*i as int]
                    == p.plan.package_files[*i as int].deep_view());
                SyncAction::PrefetchPackage(
                    p.plan.package_files[*i].filename.as_str(),
                    str_of(digest),
                )
            },
            SyncStage::SourcePath(p, i) => {
                assert(p.plan.source_files.deep_view()[*i as int]
                    == p.plan.source_files[*i as int].deep_view());
                SyncAction::CheckFetchPath(p.plan.source_files[*i].filename.as_str())
            },
            SyncStage::SourceFile(p, i, digest) => {
                assert(p.plan.source_files.deep_view()[*i as int]
                    == p.plan.source_files[*i as int].deep_view());
                SyncAction::PrefetchSource(
                    p.plan.source_files[*i].filename.as_str(),
                    str_of(digest),
                )
            },
            SyncStage::Done => SyncAction::Finish,
        }
    }

    fn source_indexes_left(base: SyncBase, s: IndexSelection) -> (r: SyncRun)
        requires
            base_fits(base.deep_view()),
        ensures
            r.deep_view() == with_source_indexes_left(base.deep_view(), s.deep_view()),
    {
        if s.taken < s.source_indexes.len() {
            SyncRun { base, stage: SyncStage::SourceIndex(s) }
        } else {
            let p = make_plan(&base, s);
            SyncRun { base, stage: SyncStage::Paths(p) }
        }
    }

    fn package_indexes_left(base: SyncBase, s: IndexSelection) -> (r: SyncRun)
        requires
            base_fits(base.deep_view()),
        ensures
            r.deep_view() == with_package_indexes_left(base.deep_view(), s.deep_view()),
    {
        if s.taken < s.package_indexes.len() {
            SyncRun { base, stage: SyncStage::PackageIndex(s) }
        } else {
            let mut s = s;
            s.taken = 0;
            Self::source_indexes_left(base, s)
        }
    }

    fn read_release(base: SyncBase, text: &str) -> (r: std::result::Result<SyncRun, Refusal>)
        requires
            base_fits(base.deep_view()),
        ensures
            verdict(r) == with_release(base.deep_view(), text@),
    {
        let release = match parse_release(text) {
            Ok(release) => release,
            Err(error) => {
                return Err(debian_sync_parse_error("Release", error.message()));
            },
        };
        if let Err(error) = validate_release_filter_selection(&release, &base.filter.selection) {
            return Err(refuse(400, error.message()));
        }
        let package_indexes = filter_release_package_indexes(&release, &base.filter.selection);
        let source_indexes = filter_release_source_indexes(&release, &base.filter.selection);
        let s = IndexSelection {
            release,
            package_indexes,
            source_indexes,
            taken: 0,
            packages: TextMap::new(),
            sources: TextMap::new(),
        };
        assert(s.packages.deep_view() =~= seq![]);
        assert(s.sources.deep_view() =~= seq![]);
        Ok(Self::package_indexes_left(base, s))
    }

    fn judge_fetched(base: SyncBase, f: FetchedRelease) -> (r: std::result::Result<
        SyncRun,
        Refusal,
    >)
        requires
            base_fits(base.deep_view()),
        ensures
            verdict(r) == with_fetched(base.deep_view(), f.deep_view()),
    {
        if !base.config.verify_upstream_metadata {
            return Self::read_release(base, f.text.as_str());
        }
        match base.key_reference() {
            Some(key_ref) => Ok(SyncRun { base, stage: SyncStage::Key(f, key_ref) }),
            None => Err(
                refuse(400, "verify_upstream_metadata=true requires upstream_gpg_key_id."),
            ),
        }
    }

    fn use_key(base: SyncBase, f: FetchedRelease, key: String) -> (r: std::result::Result<
        SyncRun,
        Refusal,
    >)
        requires
            base_fits(base.deep_view()),
            base.config.verify_upstream_metadata,
        ensures
            verdict(r) == with_key(base.deep_view(), f.deep_view(), key@),
    {
        if let Some(bytes) = &f.in_release {
            return match read_text(bytes.as_slice(), "InRelease") {
                Ok(text) => Ok(SyncRun { base, stage: SyncStage::Cleartext(key, text) }),
                Err(refusal) => Err(refusal),
            };
        }
        let signature = match &f.signature {
            Some(signature) => copy_bytes(signature.as_slice()),
            None => {
                return Err(
                    refuse(
                        502,
                        "verify_upstream_metadata=true but upstream did not provide InRelease or Release.gpg.",
                    ),
                );
            },
        };
        Ok(SyncRun { base, stage: SyncStage::Detached(f, signature, key) })
    }

    fn next_distribution(base: SyncBase, p: PlannedDistribution) -> (r: SyncRun)
        requires
            base_fits(base.deep_view()),
        ensures
            r.deep_view() == with_next_distribution(base.deep_view(), p.deep_view()),
    {
        let mut base = base;
        let ghost before = base.plans.deep_view();
        let ghost plan = p.plan.deep_view();
        base.plans.push(p.plan);
        assert(base.plans.deep_view() =~= before.push(plan));
        let count: usize = base.config.distributions.len();
        assert(count == base.deep_view().config.distributions.len());
        base.turn = base.turn + 1;
        if base.turn < base.config.distributions.len() {
            SyncRun { base, stage: SyncStage::Release }
        } else {
            SyncRun { base, stage: SyncStage::Done }
        }
    }

    fn sources_left(base: SyncBase, p: PlannedDistribution, from: usize) -> (r: SyncRun)
        requires
            base_fits(base.deep_view()),
            from <= p.plan.source_files.len(),
        ensures
            r.deep_view() == with_sources_left(base.deep_view(), p.deep_view(), from as nat),
    {
        proof {
            sources_left_well_formed(base.deep_view(), p.deep_view(), from as nat);
        }
        let mut base = base;
        let i = find_source(&p.plan.source_files, from, &base.prefetched_sources);
        if i < p.plan.source_files.len() {
            assert(p.plan.source_files.deep_view()[i as int]
                == p.plan.source_files[i as int].deep_view());
            let filename = p.plan.source_files[i].filename.clone();
            base.prefetched_sources.insert(filename);
            SyncRun { base, stage: SyncStage::SourcePath(p, i) }
        } else {
            Self::next_distribution(base, p)
        }
    }

    fn packages_left(base: SyncBase, p: PlannedDistribution, from: usize) -> (r: SyncRun)
        requires
            base_fits(base.deep_view()),
            from <= p.plan.package_files.len(),
        ensures
            r.deep_view() == with_packages_left(base.deep_view(), p.deep_view(), from as nat),
    {
        proof {
            packages_left_well_formed(base.deep_view(), p.deep_view(), from as nat);
        }
        let mut base = base;
        let i = find_package(&p.plan.package_files, from, &base.prefetched);
        if i < p.plan.package_files.len() {
            assert(p.plan.package_files.deep_view()[i as int]
                == p.plan.package_files[i as int].deep_view());
            let filename = p.plan.package_files[i].filename.clone();
            base.prefetched.insert(filename);
            SyncRun { base, stage: SyncStage::PackagePath(p, i) }
        } else {
            Self::sources_left(base, p, 0)
        }
    }

    fn take_release(base: SyncBase, event: SyncEvent) -> (r: std::result::Result<SyncRun, Refusal>)
        requires
            base_fits(base.deep_view()),
        ensures
            verdict(r) == on_release(base.deep_view(), event.deep_view()),
    {
        proof {
            reveal(on_release);
        }
        match event {
            SyncEvent::Fetched(bytes) => match read_text(bytes.as_slice(), "Release") {
                Ok(text) => {
                    let f = FetchedRelease {
                        release: bytes,
                        text,
                        in_release: None,
                        signature: None,
                    };
                    Ok(SyncRun { base, stage: SyncStage::InRelease(f) })
                },
                Err(refusal) => Err(refusal),
            },
            other => end(other),
        }
    }

    fn take_in_release(base: SyncBase, f: FetchedRelease, event: SyncEvent) -> (r: std::result::Result<
        SyncRun,
        Refusal,
    >)
        requires
            base_fits(base.deep_view()),
        ensures
            verdict(r) == on_in_release(base.deep_view(), f.deep_view(), event.deep_view()),
    {
        proof {
            reveal(on_in_release);
        }
        let mut f = f;
        match event {
            SyncEvent::Fetched(bytes) => {
                f.in_release = Some(bytes);
                Ok(SyncRun { base, stage: SyncStage::Signature(f) })
            },
            SyncEvent::Failed(refusal) => if refusal.status == 404 {
                Ok(SyncRun { base, stage: SyncStage::Signature(f) })
            } else {
                Err(refusal)
            },
            other => end(other),
        }
    }

    fn take_signature(base: SyncBase, f: FetchedRelease, event: SyncEvent) -> (r: std::result::Result<
        SyncRun,
        Refusal,
    >)
        requires
            base_fits(base.deep_view()),
        ensures
            verdict(r) == on_signature(base.deep_view(), f.deep_view(), event.deep_view()),
    {
        proof {
            reveal(on_signature);
        }
        let mut f = f;
        match event {
            SyncEvent::Fetched(bytes) => {
                f.signature = Some(bytes);
                Self::judge_fetched(base, f)
            },
            SyncEvent::Failed(refusal) => if refusal.status == 404 {
                Self::judge_fetched(base, f)
            } else {
                Err(refusal)
            },
            other => end(other),
        }
    }

    fn take_key(base: SyncBase, f: FetchedRelease, key_ref: String, event: SyncEvent) -> (r: std::result::Result<
        SyncRun,
        Refusal,
    >)
        requires
            base_fits(base.deep_view()),
            base.config.verify_upstream_metadata,
        ensures
            verdict(r) == on_key(
                base.deep_view(),
                f.deep_view(),
                key_ref@,
                event.deep_view(),
            ),
    {
        proof {
            reveal(on_key);
        }
        match event {
            SyncEvent::Key(Some(key)) => Self::use_key(base, f, key),
            SyncEvent::Key(None) => {
                let message = cat3(
                    "upstream_gpg_key_id=",
                    key_ref.as_str(),
                    " did not match a stored active public key.",
                );
                Err(refuse(400, message.as_str()))
            },
            SyncEvent::Rejected(reason) => Err(
                debian_sync_verification_error("public key lookup", reason.as_str()),
            ),
            other => end(other),
        }
    }

    fn take_cleartext(base: SyncBase, event: SyncEvent) -> (r: std::result::Result<
        SyncRun,
        Refusal,
    >)
        requires
            base_fits(base.deep_view()),
        ensures
            verdict(r) == on_cleartext(base.deep_view(), event.deep_view()),
    {
        proof {
            reveal(on_cleartext);
        }
        match event {
            SyncEvent::Payload(text) => Self::read_release(base, text.as_str()),
            SyncEvent::Rejected(reason) => Err(
                debian_sync_verification_error("InRelease", reason.as_str()),
            ),
            other => end(other),
        }
    }

    fn take_detached(base: SyncBase, f: FetchedRelease, event: SyncEvent) -> (r: std::result::Result<
        SyncRun,
        Refusal,
    >)
        requires
            base_fits(base.deep_view()),
        ensures
            verdict(r) == on_detached(base.deep_view(), f.deep_view(), event.deep_view()),
    {
        proof {
            reveal(on_detached);
        }
        match event {
            SyncEvent::Accepted => Self::read_release(base, f.text.as_str()),
            SyncEvent::Rejected(reason) => Err(
                debian_sync_verification_error("Release.gpg", reason.as_str()),
            ),
            other => end(other),
        }
    }

    fn take_package_index(base: SyncBase, s: IndexSelection, event: SyncEvent) -> (r: std::result::Result<
        SyncRun,
        Refusal,
    >)
        requires
            base_fits(base.deep_view()),
            s.taken < s.package_indexes.len(),
        ensures
            verdict(r) == on_package_index(base.deep_view(), s.deep_view(), event.deep_view()),
    {
        proof {
            reveal(on_package_index);
        }
        assert(s.package_indexes.deep_view()[s.taken as int]
            == s.package_indexes[s.taken as int].deep_view());
        let mut s = s;
        match event {
            SyncEvent::Fetched(content) => {
                let path = s.package_indexes[s.taken].path.clone();
                if let Err(reason) = verify_index_against_release(
                    &s.release,
                    path.as_str(),
                    content.as_slice(),
                    base.config.verify_upstream_metadata,
                ) {
                    return Err(debian_sync_verification_error("Packages index", reason.as_str()));
                }
                let packages = match parse_packages_index(path.as_str(), content.as_slice()) {
                    Ok(packages) => packages,
                    Err(error) => {
                        return Err(debian_sync_parse_error("Packages index", error.message()));
                    },
                };
                s.packages.insert(path, packages);
                s.taken = s.taken + 1;
                Ok(Self::package_indexes_left(base, s))
            },
            SyncEvent::Failed(refusal) => if refusal.status == 404
                && base.config.ignore_missing_indexes {
                s.taken = s.taken + 1;
                Ok(Self::package_indexes_left(base, s))
            } else {
                Err(refusal)
            },
            other => end(other),
        }
    }

    fn take_source_index(base: SyncBase, s: IndexSelection, event: SyncEvent) -> (r: std::result::Result<
        SyncRun,
        Refusal,
    >)
        requires
            base_fits(base.deep_view()),
            s.taken < s.source_indexes.len(),
        ensures
            verdict(r) == on_source_index(base.deep_view(), s.deep_view(), event.deep_view()),
    {
        proof {
            reveal(on_source_index);
        }
        assert(s.source_indexes.deep_view()[s.taken as int]
            == s.source_indexes[s.taken as int].deep_view());
        let mut s = s;
        match event {
            SyncEvent::Fetched(content) => {
                let path = s.source_indexes[s.taken].path.clone();
                if let Err(reason) = verify_index_against_release(
                    &s.release,
                    path.as_str(),
                    content.as_slice(),
                    base.config.verify_upstream_metadata,
                ) {
                    return Err(debian_sync_verification_error("Sources index", reason.as_str()));
                }
                let sources = match parse_sources_index(path.as_str(), content.as_slice()) {
                    Ok(sources) => sources,
                    Err(error) => {
                        return Err(debian_sync_parse_error("Sources index", error.message()));
                    },
                };
                s.sources.insert(path, sources);
                s.taken = s.taken + 1;
                Ok(Self::source_indexes_left(base, s))
            },
            SyncEvent::Failed(refusal) => if refusal.status == 404
                && base.config.ignore_missing_indexes {
                s.taken = s.taken + 1;
                Ok(Self::source_indexes_left(base, s))
            } else {
                Err(refusal)
            },
            other => end(other),
        }
    }

    fn take_paths(base: SyncBase, p: PlannedDistribution, event: SyncEvent) -> (r: std::result::Result<
        SyncRun,
        Refusal,
    >)
        requires
            base_fits(base.deep_view()),
        ensures
            verdict(r) == on_paths(base.deep_view(), p.deep_view(), event.deep_view()),
    {
        proof {
            reveal(on_paths);
        }
        match event {
            SyncEvent::Accepted => if base.config.generated_metadata_enabled {
                Ok(SyncRun { base, stage: SyncStage::Contents(p) })
            } else {
                Ok(Self::packages_left(base, p, 0))
            },
            SyncEvent::Rejected(path) => Err(
                refuse2(
                    400,
                    "Sync plan selected index path outside configured filters: ",
                    path.as_str(),
                ),
            ),
            other => end(other),
        }
    }

    #[verifier::rlimit(40)]
    fn take_contents(base: SyncBase, p: PlannedDistribution, event: SyncEvent) -> (r: std::result::Result<
        SyncRun,
        Refusal,
    >)
        requires
            base_fits(base.deep_view()),
            base.config.generated_metadata_enabled,
        ensures
            verdict(r) == on_contents(base.deep_view(), p.deep_view(), event.deep_view()),
    {
        proof {
            reveal(on_contents);
        }
        match event {
            SyncEvent::Contents(texts) => {
                let made = build_synced_generated_metadata(
                    &p.plan,
                    &p.packages,
                    &p.sources,
                    base.filter.selection.architectures.as_slice(),
                    &texts,
                );
                match made {
                    Ok(generated) => Ok(SyncRun { base, stage: SyncStage::Digests(p, generated) }),
                    Err(fault) => Err(
                        refuse2(500, "Failed to generate Debian metadata: ", fault.as_str()),
                    ),
                }
            },
            other => end(other),
        }
    }

    fn take_digests(
        base: SyncBase,
        p: PlannedDistribution,
        generated: GeneratedDistsMetadata,
        event: SyncEvent,
        date: &str,
    ) -> (r: std::result::Result<SyncRun, Refusal>)
        requires
            base_fits(base.deep_view()),
            base.config.generated_metadata_enabled,
        ensures
            verdict(r) == on_digests(
                base.deep_view(),
                p.deep_view(),
                generated.deep_view(),
                event.deep_view(),
                date@,
            ),
    {
        proof {
            reveal(on_digests);
        }
        match event {
            SyncEvent::Digests(digests) => if digests.len() == generated.release_files.len() {
                let publication = make_publication(&base, &p, generated, digests, date);
                Ok(SyncRun { base, stage: SyncStage::Publish(p, publication) })
            } else {
                end(SyncEvent::Digests(digests))
            },
            other => end(other),
        }
    }

    fn take_package_path(base: SyncBase, p: PlannedDistribution, i: usize, event: SyncEvent) -> (r: std::result::Result<
        SyncRun,
        Refusal,
    >)
        requires
            base_fits(base.deep_view()),
            well_formed(at(base.deep_view(), StageModel::PackagePath(p.deep_view(), i as nat))),
        ensures
            verdict(r) == on_package_path(
                base.deep_view(),
                p.deep_view(),
                i as nat,
                event.deep_view(),
            ),
    {
        proof {
            reveal(on_package_path);
        }
        assert(p.plan.package_files.deep_view()[i as int]
            == p.plan.package_files[i as int].deep_view());
        match event {
            SyncEvent::Accepted => {
                match expected_prefetch_digest(
                    &p.package_digests,
                    p.plan.package_files[i].filename.as_str(),
                    base.config.verify_upstream_metadata,
                ) {
                    Ok(digest) => Ok(SyncRun { base, stage: SyncStage::PackageFile(p, i, digest) }),
                    Err(reason) => Err(debian_sync_verification_error("package", reason.as_str())),
                }
            },
            SyncEvent::Rejected(reason) => Err(
                debian_sync_verification_error("package path", reason.as_str()),
            ),
            other => end(other),
        }
    }

    fn take_source_path(base: SyncBase, p: PlannedDistribution, i: usize, event: SyncEvent) -> (r: std::result::Result<
        SyncRun,
        Refusal,
    >)
        requires
            base_fits(base.deep_view()),
            well_formed(at(base.deep_view(), StageModel::SourcePath(p.deep_view(), i as nat))),
        ensures
            verdict(r) == on_source_path(
                base.deep_view(),
                p.deep_view(),
                i as nat,
                event.deep_view(),
            ),
    {
        proof {
            reveal(on_source_path);
        }
        assert(p.plan.source_files.deep_view()[i as int]
            == p.plan.source_files[i as int].deep_view());
        match event {
            SyncEvent::Accepted => {
                match expected_prefetch_digest(
                    &p.source_digests,
                    p.plan.source_files[i].filename.as_str(),
                    base.config.verify_upstream_metadata,
                ) {
                    Ok(digest) => Ok(SyncRun { base, stage: SyncStage::SourceFile(p, i, digest) }),
                    Err(reason) => Err(
                        debian_sync_verification_error("source file", reason.as_str()),
                    ),
                }
            },
            SyncEvent::Rejected(reason) => Err(
                debian_sync_verification_error("source path", reason.as_str()),
            ),
            other => end(other),
        }
    }

    fn take_package_file(base: SyncBase, p: PlannedDistribution, from: usize, event: SyncEvent) -> (r: std::result::Result<
        SyncRun,
        Refusal,
    >)
        requires
            base_fits(base.deep_view()),
            from <= p.plan.package_files.len(),
        ensures
            verdict(r) == on_package_file(
                base.deep_view(),
                p.deep_view(),
                from as nat,
                event.deep_view(),
            ),
    {
        proof {
            reveal(on_package_file);
        }
        match event {
            SyncEvent::Accepted => Ok(Self::packages_left(base, p, from)),
            other => end(other),
        }
    }

    fn take_source_file(base: SyncBase, p: PlannedDistribution, from: usize, event: SyncEvent) -> (r: std::result::Result<
        SyncRun,
        Refusal,
    >)
        requires
            base_fits(base.deep_view()),
            from <= p.plan.source_files.len(),
        ensures
            verdict(r) == on_source_file(
                base.deep_view(),
                p.deep_view(),
                from as nat,
                event.deep_view(),
            ),
    {
        proof {
            reveal(on_source_file);
        }
        match event {
            SyncEvent::Accepted => Ok(Self::sources_left(base, p, from)),
            other => end(other),
        }
    }

    /// Takes what came of the last action. The date of a Release that is
    /// generated is that of the present moment.
    #[verifier::rlimit(40)]
    pub fn step(self, event: SyncEvent) -> (r: std::result::Result<SyncRun, Refusal>)
        ensures
            exists|date: Seq<char>|
                is_plain_line(date) && verdict(r) == #[trigger] sync_step(
                    self.deep_view(),
                    event.deep_view(),
                    date,
                ),
    {
        proof {
            use_type_invariant(&self);
        }
        let ghost m = self.deep_view();
        let ghost e = event.deep_view();
        let ghost mut date_model: Seq<char> = seq!['-'];
        proof {
            assert(trim_start(date_model) == date_model && trim_end(date_model) == date_model);
        }
        let SyncRun { base, stage } = self;
        let r = match stage {
            SyncStage::Release => Self::take_release(base, event),
            SyncStage::InRelease(f) => Self::take_in_release(base, f, event),
            SyncStage::Signature(f) => Self::take_signature(base, f, event),
            SyncStage::Key(f, key_ref) => Self::take_key(base, f, key_ref, event),
            SyncStage::Cleartext(_, _) => Self::take_cleartext(base, event),
            SyncStage::Detached(f, _, _) => Self::take_detached(base, f, event),
            SyncStage::PackageIndex(s) => Self::take_package_index(base, s, event),
            SyncStage::SourceIndex(s) => Self::take_source_index(base, s, event),
            SyncStage::Paths(p) => Self::take_paths(base, p, event),
            SyncStage::Contents(p) => Self::take_contents(base, p, event),
            SyncStage::Digests(p, generated) => {
                let date = utc_now("%a, %d %b %Y %H:%M:%S UTC");
                proof {
                    date_model = date@;
                }
                Self::take_digests(base, p, generated, event, date.as_str())
            },
            SyncStage::Publish(p, _) => Self::take_package_file(base, p, 0, event),
            SyncStage::PackagePath(p, i) => Self::take_package_path(base, p, i, event),
            SyncStage::PackageFile(p, i, _) => {
                let count: usize = p.plan.package_files.len();
                assert(count == p.deep_view().plan.package_files.len());
                Self::take_package_file(base, p, i + 1, event)
            },
            SyncStage::SourcePath(p, i) => Self::take_source_path(base, p, i, event),
            SyncStage::SourceFile(p, i, _) => {
                let count: usize = p.plan.source_files.len();
                assert(count == p.deep_view().plan.source_files.len());
                Self::take_source_file(base, p, i + 1, event)
            },
            SyncStage::Done => end(event),
        };
        assert(verdict(r) == sync_step(m, e, date_model));
        r
    }

    /// Tells what the sync did so far.
    pub fn finish(self, repository: String) -> (r: DebianSyncResponse)
        ensures
            r.repository@ == repository@,
            r.plans.deep_view() == self.deep_view().base.plans,
            r.prefetched_packages == self.deep_view().base.prefetched.len(),
            r.prefetched_sources == self.deep_view().base.prefetched_sources.len(),
    {
        let SyncRun { base, stage: _ } = self;
        let prefetched_packages = base.prefetched.len();
        let prefetched_sources = base.prefetched_sources.len();
        DebianSyncResponse { repository, plans: base.plans, prefetched_packages, prefetched_sources }
    }
}

} // verus!
