//! The plan of a filtered mirror: what a sync fetches, and in what order.

use vstd::prelude::*;

use crate::index::{PackageModel, PackagesEntry, SourceFileModel, SourceModel, SourcesEntry};
use crate::ordered::{lookup, TextMap};
use crate::release::{Release, ReleaseModel};
use crate::select::{filter_release_package_indexes, filter_release_source_indexes, package_matches_sync_index};
use crate::select::{matches_index, package_indexes, source_indexes};
use crate::select::{DebianIndexPath, DebianSourceIndexPath, DebianSyncFilter, FilterModel, IndexModel, SourceIndexModel};
use crate::sort::{in_order, key_lt, sort_items, sorted, sorted_is_ordered, text_comes_before, Sortable};
use crate::text::{ascii_lower, cat2, cat3, chars_of, is_empty_text, is_text, same_text, text_of, to_ascii_lower, trim_of};
use crate::text::{opt_text, text_lt, text_lt_irreflexive, trim, trim_char, trim_char_of, trim_start_char, trim_start_char_of};

verus! {

/// When the files of a mirror are fetched.
#[derive(Clone, Copy, Debug, PartialEq, Eq, Structural)]
pub enum DebianSyncDownloadPolicy {
    /// When a client asks for them.
    OnDemand,
    /// During the sync.
    Immediate,
}

/// A package file of a sync plan.
#[derive(Clone, Debug, PartialEq, Eq)]
pub struct DebianSyncPackageFile {
    pub index_path: String,
    pub filename: String,
    pub package: String,
    pub version: String,
    pub architecture: String,
    pub download: bool,
}

/// A source file of a sync plan.
#[derive(Clone, Debug, PartialEq, Eq)]
pub struct DebianSyncSourceFile {
    pub index_path: String,
    pub filename: String,
    pub package: String,
    pub version: String,
    pub size: u64,
    pub download: bool,
}

/// What a sync fetches.
#[derive(Clone, Debug, PartialEq, Eq)]
pub struct DebianSyncPlan {
    pub distribution: String,
    pub release_paths: Vec<String>,
    pub package_indexes: Vec<DebianIndexPath>,
    pub source_indexes: Vec<DebianSourceIndexPath>,
    pub package_files: Vec<DebianSyncPackageFile>,
    pub source_files: Vec<DebianSyncSourceFile>,
    pub missing_package_indexes: Vec<String>,
    pub missing_source_indexes: Vec<String>,
}

// ---------------------------------------------------------------------------
// Model
// ---------------------------------------------------------------------------

/// What a `DebianSyncPackageFile` holds.
#[verifier::ext_equal]
pub struct PackageFileModel {
    pub index_path: Seq<char>,
    pub filename: Seq<char>,
    pub package: Seq<char>,
    pub version: Seq<char>,
    pub architecture: Seq<char>,
    pub download: bool,
}

impl DeepView for DebianSyncPackageFile {
    type V = PackageFileModel;

    open spec fn deep_view(&self) -> PackageFileModel {
        PackageFileModel {
            index_path: self.index_path@,
            filename: self.filename@,
            package: self.package@,
            version: self.version@,
            architecture: self.architecture@,
            download: self.download,
        }
    }
}

/// What a `DebianSyncSourceFile` holds.
#[verifier::ext_equal]
pub struct PlannedSourceModel {
    pub index_path: Seq<char>,
    pub filename: Seq<char>,
    pub package: Seq<char>,
    pub version: Seq<char>,
    pub size: u64,
    pub download: bool,
}

impl DeepView for DebianSyncSourceFile {
    type V = PlannedSourceModel;

    open spec fn deep_view(&self) -> PlannedSourceModel {
        PlannedSourceModel {
            index_path: self.index_path@,
            filename: self.filename@,
            package: self.package@,
            version: self.version@,
            size: self.size,
            download: self.download,
        }
    }
}

/// What a `DebianSyncPlan` holds.
#[verifier::ext_equal]
pub struct PlanModel {
    pub distribution: Seq<char>,
    pub release_paths: Seq<Seq<char>>,
    pub package_indexes: Seq<IndexModel>,
    pub source_indexes: Seq<SourceIndexModel>,
    pub package_files: Seq<PackageFileModel>,
    pub source_files: Seq<PlannedSourceModel>,
    pub missing_package_indexes: Seq<Seq<char>>,
    pub missing_source_indexes: Seq<Seq<char>>,
}

impl DeepView for DebianSyncPlan {
    type V = PlanModel;

    open spec fn deep_view(&self) -> PlanModel {
        PlanModel {
            distribution: self.distribution@,
            release_paths: self.release_paths.deep_view(),
            package_indexes: self.package_indexes.deep_view(),
            source_indexes: self.source_indexes.deep_view(),
            package_files: self.package_files.deep_view(),
            source_files: self.source_files.deep_view(),
            missing_package_indexes: self.missing_package_indexes.deep_view(),
            missing_source_indexes: self.missing_source_indexes.deep_view(),
        }
    }
}

/// The labels of the policy that fetches files during the sync.
pub open spec fn immediate_labels() -> Seq<Seq<char>> {
    seq!["immediate"@, "eager"@, "full"@, "full_mirror"@, "full-mirror"@]
}

/// The policy that a label names; a missing or unknown one fetches on demand.
pub open spec fn policy_of(label: Option<Seq<char>>) -> DebianSyncDownloadPolicy {
    match label {
        Some(text) => if immediate_labels().contains(ascii_lower(trim(text))) {
            DebianSyncDownloadPolicy::Immediate
        } else {
            DebianSyncDownloadPolicy::OnDemand
        },
        None => DebianSyncDownloadPolicy::OnDemand,
    }
}

/// The package file that an entry of an index adds to a plan: none where the
/// package is not for the index, or the entry names no file.
pub open spec fn planned_file(
    index: IndexModel,
    entry: PackageModel,
    selected: Seq<Seq<char>>,
    download: bool,
) -> Option<PackageFileModel> {
    if !matches_index(entry.control.architecture, index.architecture, selected) {
        None
    } else if entry.filename is Some && trim(entry.filename->0).len() > 0 {
        Some(
            PackageFileModel {
                index_path: index.path,
                filename: trim(entry.filename->0),
                package: entry.control.package,
                version: entry.control.version,
                architecture: entry.control.architecture,
                download,
            },
        )
    } else {
        None
    }
}

/// The package files that the entries of an index add to a plan.
pub open spec fn files_of_index(
    index: IndexModel,
    entries: Seq<PackageModel>,
    selected: Seq<Seq<char>>,
    download: bool,
) -> Seq<PackageFileModel>
    decreases entries.len(),
{
    if entries.len() == 0 {
        seq![]
    } else {
        let before = files_of_index(index, entries.drop_last(), selected, download);
        match planned_file(index, entries.last(), selected, download) {
            Some(file) => before.push(file),
            None => before,
        }
    }
}

/// The package files of a plan, in the order of its indexes.
pub open spec fn planned_files(
    indexes: Seq<IndexModel>,
    packages: Seq<(Seq<char>, Seq<PackageModel>)>,
    selected: Seq<Seq<char>>,
    download: bool,
) -> Seq<PackageFileModel>
    decreases indexes.len(),
{
    if indexes.len() == 0 {
        seq![]
    } else {
        let before = planned_files(indexes.drop_last(), packages, selected, download);
        match lookup(packages, indexes.last().path) {
            Some(entries) => before + files_of_index(indexes.last(), entries, selected, download),
            None => before,
        }
    }
}

/// The paths under which nothing is stored.
pub open spec fn absent_paths<V>(paths: Seq<Seq<char>>, entries: Seq<(Seq<char>, V)>) -> Seq<
    Seq<char>,
>
    decreases paths.len(),
{
    if paths.len() == 0 {
        seq![]
    } else {
        let before = absent_paths(paths.drop_last(), entries);
        if lookup(entries, paths.last()) is None {
            before.push(paths.last())
        } else {
            before
        }
    }
}

/// The path of a source file below its directory.
pub open spec fn source_path(directory: Seq<char>, filename: Seq<char>) -> Seq<char> {
    let dir = trim_char(trim(directory), '/');
    if dir.len() == 0 || dir == "."@ {
        trim_start_char(filename, '/')
    } else {
        dir + "/"@ + trim_start_char(filename, '/')
    }
}

/// The source files that a source package adds to a plan.
pub open spec fn files_of_source(path: Seq<char>, entry: SourceModel, download: bool) -> Seq<
    PlannedSourceModel,
> {
    entry.files.map_values(
        |file: SourceFileModel|
            PlannedSourceModel {
                index_path: path,
                filename: source_path(entry.directory, file.filename),
                package: entry.package,
                version: entry.version,
                size: file.size,
                download,
            },
    )
}

/// The source files that the entries of an index add to a plan.
pub open spec fn files_of_sources(path: Seq<char>, entries: Seq<SourceModel>, download: bool) -> Seq<
    PlannedSourceModel,
>
    decreases entries.len(),
{
    if entries.len() == 0 {
        seq![]
    } else {
        files_of_sources(path, entries.drop_last(), download) + files_of_source(
            path,
            entries.last(),
            download,
        )
    }
}

/// The source files of a plan, in the order of its indexes.
pub open spec fn planned_sources(
    indexes: Seq<SourceIndexModel>,
    sources: Seq<(Seq<char>, Seq<SourceModel>)>,
    download: bool,
) -> Seq<PlannedSourceModel>
    decreases indexes.len(),
{
    if indexes.len() == 0 {
        seq![]
    } else {
        let before = planned_sources(indexes.drop_last(), sources, download);
        match lookup(sources, indexes.last().path) {
            Some(entries) => before + files_of_sources(indexes.last().path, entries, download),
            None => before,
        }
    }
}

/// The paths of the Packages indexes.
pub open spec fn index_paths(indexes: Seq<IndexModel>) -> Seq<Seq<char>> {
    indexes.map_values(|index: IndexModel| index.path)
}

/// The paths of the Sources indexes.
pub open spec fn source_index_paths(indexes: Seq<SourceIndexModel>) -> Seq<Seq<char>> {
    indexes.map_values(|index: SourceIndexModel| index.path)
}

/// The directory of a distribution; a flat repository has none.
pub open spec fn dists_prefix(distribution: Seq<char>) -> Seq<char> {
    if distribution.len() == 0 {
        seq![]
    } else {
        "dists/"@ + distribution + "/"@
    }
}

/// The plan of a sync.
pub open spec fn sync_plan(
    distribution: Seq<char>,
    release: ReleaseModel,
    filter: FilterModel,
    packages: Seq<(Seq<char>, Seq<PackageModel>)>,
    sources: Seq<(Seq<char>, Seq<SourceModel>)>,
    policy: DebianSyncDownloadPolicy,
) -> PlanModel {
    let download = policy == DebianSyncDownloadPolicy::Immediate;
    let pi = package_indexes(release, filter);
    let si = source_indexes(release, filter);
    PlanModel {
        distribution,
        release_paths: seq![
            dists_prefix(distribution) + "InRelease"@,
            dists_prefix(distribution) + "Release"@,
            dists_prefix(distribution) + "Release.gpg"@,
        ],
        package_indexes: pi,
        source_indexes: si,
        package_files: sorted::<DebianSyncPackageFile>(
            planned_files(pi, packages, filter.architectures, download),
        ),
        source_files: sorted::<DebianSyncSourceFile>(planned_sources(si, sources, download)),
        missing_package_indexes: sorted::<String>(absent_paths(index_paths(pi), packages)),
        missing_source_indexes: sorted::<String>(absent_paths(source_index_paths(si), sources)),
    }
}

// ---------------------------------------------------------------------------
// Laws
// ---------------------------------------------------------------------------

/// The entry is one of those listed under the path.
pub open spec fn comes_from(
    file: PackageFileModel,
    index: IndexModel,
    packages: Seq<(Seq<char>, Seq<PackageModel>)>,
    selected: Seq<Seq<char>>,
) -> bool {
    &&& file.index_path == index.path
    &&& lookup(packages, index.path) is Some
    &&& exists|j: int|
        #![trigger lookup(packages, index.path)->0[j]]
        0 <= j < lookup(packages, index.path)->0.len() && planned_file(
            index,
            lookup(packages, index.path)->0[j],
            selected,
            file.download,
        ) == Some(file)
}

proof fn files_of_index_origin(
    index: IndexModel,
    entries: Seq<PackageModel>,
    selected: Seq<Seq<char>>,
    download: bool,
    i: int,
) -> (j: int)
    requires
        0 <= i < files_of_index(index, entries, selected, download).len(),
    ensures
        0 <= j < entries.len(),
        planned_file(index, entries[j], selected, download) == Some(
            files_of_index(index, entries, selected, download)[i],
        ),
    decreases entries.len(),
{
    let before = files_of_index(index, entries.drop_last(), selected, download);
    if i < before.len() {
        files_of_index_origin(index, entries.drop_last(), selected, download, i)
    } else {
        entries.len() - 1
    }
}

proof fn planned_files_origin(
    indexes: Seq<IndexModel>,
    packages: Seq<(Seq<char>, Seq<PackageModel>)>,
    selected: Seq<Seq<char>>,
    download: bool,
    i: int,
) -> (n: int)
    requires
        0 <= i < planned_files(indexes, packages, selected, download).len(),
    ensures
        0 <= n < indexes.len(),
        planned_files(indexes, packages, selected, download)[i].download == download,
        comes_from(
            planned_files(indexes, packages, selected, download)[i],
            indexes[n],
            packages,
            selected,
        ),
    decreases indexes.len(),
{
    let before = planned_files(indexes.drop_last(), packages, selected, download);
    if i < before.len() {
        planned_files_origin(indexes.drop_last(), packages, selected, download, i)
    } else {
        let index = indexes.last();
        let entries = lookup(packages, index.path)->0;
        let j = files_of_index_origin(index, entries, selected, download, i - before.len());
        assert(lookup(packages, index.path)->0[j] == entries[j]);
        indexes.len() - 1
    }
}

/// Every package file of a plan is an entry of an index that the mirror takes,
/// belongs in that index, and is fetched during the sync exactly where the
/// policy says so.
pub proof fn planned_file_law(
    distribution: Seq<char>,
    release: ReleaseModel,
    filter: FilterModel,
    packages: Seq<(Seq<char>, Seq<PackageModel>)>,
    sources: Seq<(Seq<char>, Seq<SourceModel>)>,
    policy: DebianSyncDownloadPolicy,
    file: PackageFileModel,
)
    requires
        sync_plan(
            distribution,
            release,
            filter,
            packages,
            sources,
            policy,
        ).package_files.contains(file),
    ensures
        file.download == (policy == DebianSyncDownloadPolicy::Immediate),
        exists|n: int|
            0 <= n < package_indexes(release, filter).len() && comes_from(
                file,
                #[trigger] package_indexes(release, filter)[n],
                packages,
                filter.architectures,
            ) && matches_index(
                file.architecture,
                package_indexes(release, filter)[n].architecture,
                filter.architectures,
            ),
{
    let download = policy == DebianSyncDownloadPolicy::Immediate;
    let pi = package_indexes(release, filter);
    let files = planned_files(pi, packages, filter.architectures, download);
    let s = sorted::<DebianSyncPackageFile>(files);
    sorted_is_ordered::<DebianSyncPackageFile>(files);
    assert(s.to_multiset().count(file) > 0) by {
        s.to_multiset_ensures();
    }
    assert(files.contains(file)) by {
        files.to_multiset_ensures();
    }
    let i = choose|i: int| 0 <= i < files.len() && files[i] == file;
    let n = planned_files_origin(pi, packages, filter.architectures, download, i);
    assert(comes_from(file, pi[n], packages, filter.architectures));
}

/// The package files and the source files of a plan stand in the order of
/// their index paths, filenames and packages.
pub proof fn plan_is_ordered(
    distribution: Seq<char>,
    release: ReleaseModel,
    filter: FilterModel,
    packages: Seq<(Seq<char>, Seq<PackageModel>)>,
    sources: Seq<(Seq<char>, Seq<SourceModel>)>,
    policy: DebianSyncDownloadPolicy,
)
    ensures
        in_order::<DebianSyncPackageFile>(
            sync_plan(distribution, release, filter, packages, sources, policy).package_files,
        ),
        in_order::<DebianSyncSourceFile>(
            sync_plan(distribution, release, filter, packages, sources, policy).source_files,
        ),
        in_order::<String>(
            sync_plan(
                distribution,
                release,
                filter,
                packages,
                sources,
                policy,
            ).missing_package_indexes,
        ),
        in_order::<String>(
            sync_plan(
                distribution,
                release,
                filter,
                packages,
                sources,
                policy,
            ).missing_source_indexes,
        ),
{
    let download = policy == DebianSyncDownloadPolicy::Immediate;
    let pi = package_indexes(release, filter);
    let si = source_indexes(release, filter);
    sorted_is_ordered::<DebianSyncPackageFile>(
        planned_files(pi, packages, filter.architectures, download),
    );
    sorted_is_ordered::<DebianSyncSourceFile>(planned_sources(si, sources, download));
    sorted_is_ordered::<String>(absent_paths(index_paths(pi), packages));
    sorted_is_ordered::<String>(absent_paths(source_index_paths(si), sources));
}

proof fn absent_paths_holds<V>(paths: Seq<Seq<char>>, entries: Seq<(Seq<char>, V)>, path: Seq<char>)
    ensures
        absent_paths(paths, entries).contains(path) <==> (paths.contains(path) && lookup(
            entries,
            path,
        ) is None),
    decreases paths.len(),
{
    if paths.len() > 0 {
        let rest = paths.drop_last();
        let before = absent_paths(rest, entries);
        let r = absent_paths(paths, entries);
        absent_paths_holds(rest, entries, path);
        if paths.contains(path) {
            let i = choose|i: int| 0 <= i < paths.len() && paths[i] == path;
            if i < rest.len() {
                assert(rest[i] == path);
            }
        }
        if rest.contains(path) {
            let i = choose|i: int| 0 <= i < rest.len() && rest[i] == path;
            assert(paths[i] == path);
        }
        if before.contains(path) {
            let i = choose|i: int| 0 <= i < before.len() && before[i] == path;
            assert(r[i] == path);
        }
        if lookup(entries, paths.last()) is None {
            assert(r[before.len() as int] == paths.last());
            assert(paths[paths.len() - 1] == paths.last());
            if r.contains(path) {
                let i = choose|i: int| 0 <= i < r.len() && r[i] == path;
                if i < before.len() {
                    assert(before[i] == path);
                }
            }
        }
    }
}

/// Sorting keeps what is there.
proof fn sorted_holds(texts: Seq<Seq<char>>, x: Seq<char>)
    ensures
        sorted::<String>(texts).contains(x) <==> texts.contains(x),
{
    let s = sorted::<String>(texts);
    sorted_is_ordered::<String>(texts);
    texts.to_multiset_ensures();
    s.to_multiset_ensures();
    assert(s.contains(x) <==> s.to_multiset().count(x) > 0);
    assert(texts.contains(x) <==> texts.to_multiset().count(x) > 0);
}

/// A plan reports as missing exactly those indexes that the mirror takes and that
/// no entries were given for.
pub proof fn missing_indexes_law(
    distribution: Seq<char>,
    release: ReleaseModel,
    filter: FilterModel,
    packages: Seq<(Seq<char>, Seq<PackageModel>)>,
    sources: Seq<(Seq<char>, Seq<SourceModel>)>,
    policy: DebianSyncDownloadPolicy,
    path: Seq<char>,
)
    ensures
        ({
            let plan = sync_plan(distribution, release, filter, packages, sources, policy);
            &&& plan.missing_package_indexes.contains(path) <==> (index_paths(
                package_indexes(release, filter),
            ).contains(path) && lookup(packages, path) is None)
            &&& plan.missing_source_indexes.contains(path) <==> (source_index_paths(
                source_indexes(release, filter),
            ).contains(path) && lookup(sources, path) is None)
        }),
{
    let paths = index_paths(package_indexes(release, filter));
    absent_paths_holds(paths, packages, path);
    sorted_holds(absent_paths(paths, packages), path);
    let source_paths = source_index_paths(source_indexes(release, filter));
    absent_paths_holds(source_paths, sources, path);
    sorted_holds(absent_paths(source_paths, sources), path);
}

// ---------------------------------------------------------------------------
// Planning
// ---------------------------------------------------------------------------

impl DebianSyncDownloadPolicy {
    /// The policy that a label names.
    pub fn from_label(label: Option<&str>) -> (r: Self)
        ensures
            r == policy_of(opt_text(label)),
    {
        let text = match label {
            Some(text) => text,
            None => {
                return DebianSyncDownloadPolicy::OnDemand;
            },
        };
        let chars = chars_of(text);
        let label = to_ascii_lower(trim_of(chars.as_slice()));
        let ghost labels = immediate_labels();
        proof {
            assert(labels[0] == "immediate"@);
            assert(labels[1] == "eager"@);
            assert(labels[2] == "full"@);
            assert(labels[3] == "full_mirror"@);
            assert(labels[4] == "full-mirror"@);
        }
        if same_text(label.as_str(), "immediate") || same_text(label.as_str(), "eager")
            || same_text(label.as_str(), "full") || same_text(label.as_str(), "full_mirror")
            || same_text(label.as_str(), "full-mirror") {
            DebianSyncDownloadPolicy::Immediate
        } else {
            DebianSyncDownloadPolicy::OnDemand
        }
    }

    /// The files are fetched during the sync.
    pub fn downloads_packages(self) -> (r: bool)
        ensures
            r == (self == DebianSyncDownloadPolicy::Immediate),
    {
        self == DebianSyncDownloadPolicy::Immediate
    }
}

proof fn three_keys(a: Seq<Seq<char>>, b: Seq<Seq<char>>)
    requires
        a.len() == 3,
        b.len() == 3,
    ensures
        key_lt(a, b) == if a[0] != b[0] {
            text_lt(a[0], b[0])
        } else if a[1] != b[1] {
            text_lt(a[1], b[1])
        } else {
            text_lt(a[2], b[2])
        },
{
    reveal_with_fuel(key_lt, 4);
    assert(a.drop_first() =~= seq![a[1], a[2]]);
    assert(b.drop_first() =~= seq![b[1], b[2]]);
    assert(a.drop_first().drop_first() =~= seq![a[2]]);
    assert(b.drop_first().drop_first() =~= seq![b[2]]);
    if a[2] == b[2] {
        text_lt_irreflexive(a[2]);
    }
}

fn three_come_before(a: (&str, &str, &str), b: (&str, &str, &str)) -> (r: bool)
    ensures
        r == key_lt(seq![a.0@, a.1@, a.2@], seq![b.0@, b.1@, b.2@]),
{
    proof {
        three_keys(seq![a.0@, a.1@, a.2@], seq![b.0@, b.1@, b.2@]);
    }
    if !same_text(a.0, b.0) {
        text_comes_before(a.0, b.0)
    } else if !same_text(a.1, b.1) {
        text_comes_before(a.1, b.1)
    } else {
        text_comes_before(a.2, b.2)
    }
}

impl Sortable for DebianSyncPackageFile {
    open spec fn key(item: PackageFileModel) -> Seq<Seq<char>> {
        seq![item.index_path, item.filename, item.package]
    }

    fn comes_before(&self, other: &Self) -> (r: bool) {
        three_come_before(
            (self.index_path.as_str(), self.filename.as_str(), self.package.as_str()),
            (other.index_path.as_str(), other.filename.as_str(), other.package.as_str()),
        )
    }
}

impl Sortable for DebianSyncSourceFile {
    open spec fn key(item: PlannedSourceModel) -> Seq<Seq<char>> {
        seq![item.index_path, item.filename, item.package]
    }

    fn comes_before(&self, other: &Self) -> (r: bool) {
        three_come_before(
            (self.index_path.as_str(), self.filename.as_str(), self.package.as_str()),
            (other.index_path.as_str(), other.filename.as_str(), other.package.as_str()),
        )
    }
}

/// The path of a source file below its directory.
pub fn source_file_path(directory: &str, filename: &str) -> (r: String)
    ensures
        r@ == source_path(directory@, filename@),
{
    let directory_chars = chars_of(directory);
    let filename_chars = chars_of(filename);
    let dir = trim_char_of(trim_of(directory_chars.as_slice()), '/');
    let file = text_of(trim_start_char_of(filename_chars.as_slice(), '/'));
    if dir.len() == 0 || is_text(dir, ".") {
        file
    } else {
        let dir = text_of(dir);
        cat3(dir.as_str(), "/", file.as_str())
    }
}

/// The package file that an entry of an index adds to a plan.
fn plan_package_file(
    index: &DebianIndexPath,
    entry: &PackagesEntry,
    filter: &DebianSyncFilter,
    download: bool,
) -> (r: Option<DebianSyncPackageFile>)
    ensures
        r.deep_view() == planned_file(
            index.deep_view(),
            entry.deep_view(),
            filter.architectures.deep_view(),
            download,
        ),
{
    if !package_matches_sync_index(
        entry.control.architecture.as_str(),
        index.architecture.as_str(),
        filter.architectures.as_slice(),
    ) {
        return None;
    }
    match &entry.filename {
        Some(filename) => {
            let chars = chars_of(filename.as_str());
            let name = trim_of(chars.as_slice());
            if name.len() == 0 {
                return None;
            }
            Some(
                DebianSyncPackageFile {
                    index_path: index.path.clone(),
                    filename: text_of(name),
                    package: entry.control.package.clone(),
                    version: entry.control.version.clone(),
                    architecture: entry.control.architecture.clone(),
                    download,
                },
            )
        },
        None => None,
    }
}

/// Adds the package files of an index to a plan.
fn push_package_files(
    files: &mut Vec<DebianSyncPackageFile>,
    index: &DebianIndexPath,
    entries: &Vec<PackagesEntry>,
    filter: &DebianSyncFilter,
    download: bool,
)
    ensures
        final(files).deep_view() == old(files).deep_view() + files_of_index(
            index.deep_view(),
            entries.deep_view(),
            filter.architectures.deep_view(),
            download,
        ),
{
    let ghost start = files.deep_view();
    let ghost all = entries.deep_view();
    let ghost ix = index.deep_view();
    let ghost sel = filter.architectures.deep_view();
    assert(files.deep_view() =~= start + files_of_index(ix, all.take(0), sel, download));
    for i in 0..entries.len()
        invariant
            all == entries.deep_view(),
            ix == index.deep_view(),
            sel == filter.architectures.deep_view(),
            files.deep_view() == start + files_of_index(ix, all.take(i as int), sel, download),
    {
        let ghost before = files.deep_view();
        proof {
            assert(all.take(i + 1).drop_last() =~= all.take(i as int));
            assert(all.take(i + 1).last() == entries[i as int].deep_view());
        }
        if let Some(file) = plan_package_file(index, &entries[i], filter, download) {
            let ghost m = file.deep_view();
            files.push(file);
            assert(files.deep_view() =~= before.push(m));
            assert(start + files_of_index(ix, all.take(i as int), sel, download).push(m)
                =~= before.push(m));
        }
    }
    assert(all.take(all.len() as int) =~= all);
}

/// Adds the source files of a source package to a plan.
fn push_source_files(
    files: &mut Vec<DebianSyncSourceFile>,
    path: &String,
    entry: &SourcesEntry,
    download: bool,
)
    ensures
        final(files).deep_view() == old(files).deep_view() + files_of_source(
            path@,
            entry.deep_view(),
            download,
        ),
{
    let ghost start = files.deep_view();
    let ghost all = files_of_source(path@, entry.deep_view(), download);
    assert(start + all.take(0) =~= start);
    for i in 0..entry.files.len()
        invariant
            all == files_of_source(path@, entry.deep_view(), download),
            files.deep_view() == start + all.take(i as int),
    {
        let ghost before = files.deep_view();
        let file = DebianSyncSourceFile {
            index_path: path.clone(),
            filename: source_file_path(entry.directory.as_str(), entry.files[i].filename.as_str()),
            package: entry.package.clone(),
            version: entry.version.clone(),
            size: entry.files[i].size,
            download,
        };
        assert(entry.deep_view().files[i as int] == entry.files[i as int].deep_view());
        assert(file.deep_view() == all[i as int]);
        files.push(file);
        assert(files.deep_view() =~= before.push(all[i as int]));
        assert(start + all.take(i + 1) =~= before.push(all[i as int]));
    }
    assert(all.take(all.len() as int) =~= all);
}

/// Adds the source files of an index to a plan.
fn push_index_source_files(
    files: &mut Vec<DebianSyncSourceFile>,
    path: &String,
    entries: &Vec<SourcesEntry>,
    download: bool,
)
    ensures
        final(files).deep_view() == old(files).deep_view() + files_of_sources(
            path@,
            entries.deep_view(),
            download,
        ),
{
    let ghost start = files.deep_view();
    let ghost all = entries.deep_view();
    assert(files.deep_view() =~= start + files_of_sources(path@, all.take(0), download));
    for i in 0..entries.len()
        invariant
            all == entries.deep_view(),
            files.deep_view() == start + files_of_sources(path@, all.take(i as int), download),
    {
        proof {
            assert(all.take(i + 1).drop_last() =~= all.take(i as int));
            assert(all.take(i + 1).last() == entries[i as int].deep_view());
        }
        push_source_files(files, path, &entries[i], download);
        assert(files.deep_view() =~= start + files_of_sources(path@, all.take(i + 1), download));
    }
    assert(all.take(all.len() as int) =~= all);
}

/// The package files of a plan and the indexes that nothing was given for.
fn plan_packages(
    indexes: &Vec<DebianIndexPath>,
    packages: &TextMap<Vec<PackagesEntry>>,
    filter: &DebianSyncFilter,
    download: bool,
) -> (r: (Vec<DebianSyncPackageFile>, Vec<String>))
    ensures
        r.0.deep_view() == planned_files(
            indexes.deep_view(),
            packages.deep_view(),
            filter.architectures.deep_view(),
            download,
        ),
        r.1.deep_view() == absent_paths(index_paths(indexes.deep_view()), packages.deep_view()),
{
    let ghost all = indexes.deep_view();
    let ghost paths = index_paths(all);
    let ghost given = packages.deep_view();
    let ghost sel = filter.architectures.deep_view();
    let mut files: Vec<DebianSyncPackageFile> = Vec::new();
    let mut missing: Vec<String> = Vec::new();
    assert(files.deep_view() =~= planned_files(all.take(0), given, sel, download));
    assert(missing.deep_view() =~= absent_paths(paths.take(0), given));
    for i in 0..indexes.len()
        invariant
            all == indexes.deep_view(),
            paths == index_paths(all),
            given == packages.deep_view(),
            sel == filter.architectures.deep_view(),
            files.deep_view() == planned_files(all.take(i as int), given, sel, download),
            missing.deep_view() == absent_paths(paths.take(i as int), given),
    {
        let ghost before = missing.deep_view();
        proof {
            assert(all.take(i + 1).drop_last() =~= all.take(i as int));
            assert(all.take(i + 1).last() == indexes[i as int].deep_view());
            assert(paths.take(i + 1).drop_last() =~= paths.take(i as int));
            assert(paths.take(i + 1).last() == indexes[i as int].path@);
        }
        match packages.get(indexes[i].path.as_str()) {
            Some(entries) => {
                push_package_files(&mut files, &indexes[i], entries, filter, download);
            },
            None => {
                missing.push(indexes[i].path.clone());
                assert(missing.deep_view() =~= before.push(indexes[i as int].path@));
            },
        }
    }
    assert(all.take(all.len() as int) =~= all);
    assert(paths.take(paths.len() as int) =~= paths);
    (files, missing)
}

/// The source files of a plan and the indexes that nothing was given for.
fn plan_sources(
    indexes: &Vec<DebianSourceIndexPath>,
    sources: &TextMap<Vec<SourcesEntry>>,
    download: bool,
) -> (r: (Vec<DebianSyncSourceFile>, Vec<String>))
    ensures
        r.0.deep_view() == planned_sources(indexes.deep_view(), sources.deep_view(), download),
        r.1.deep_view() == absent_paths(
            source_index_paths(indexes.deep_view()),
            sources.deep_view(),
        ),
{
    let ghost all = indexes.deep_view();
    let ghost paths = source_index_paths(all);
    let ghost given = sources.deep_view();
    let mut files: Vec<DebianSyncSourceFile> = Vec::new();
    let mut missing: Vec<String> = Vec::new();
    assert(files.deep_view() =~= planned_sources(all.take(0), given, download));
    assert(missing.deep_view() =~= absent_paths(paths.take(0), given));
    for i in 0..indexes.len()
        invariant
            all == indexes.deep_view(),
            paths == source_index_paths(all),
            given == sources.deep_view(),
            files.deep_view() == planned_sources(all.take(i as int), given, download),
            missing.deep_view() == absent_paths(paths.take(i as int), given),
    {
        let ghost before = missing.deep_view();
        proof {
            assert(all.take(i + 1).drop_last() =~= all.take(i as int));
            assert(all.take(i + 1).last() == indexes[i as int].deep_view());
            assert(paths.take(i + 1).drop_last() =~= paths.take(i as int));
            assert(paths.take(i + 1).last() == indexes[i as int].path@);
        }
        match sources.get(indexes[i].path.as_str()) {
            Some(entries) => {
                push_index_source_files(&mut files, &indexes[i].path, entries, download);
            },
            None => {
                missing.push(indexes[i].path.clone());
                assert(missing.deep_view() =~= before.push(indexes[i as int].path@));
            },
        }
    }
    assert(all.take(all.len() as int) =~= all);
    assert(paths.take(paths.len() as int) =~= paths);
    (files, missing)
}

/// Makes the plan of a filtered mirror sync out of the parsed metadata.
pub fn build_debian_sync_plan(
    distribution: &str,
    release: &Release,
    filter: &DebianSyncFilter,
    packages_by_index_path: &TextMap<Vec<PackagesEntry>>,
    sources_by_index_path: &TextMap<Vec<SourcesEntry>>,
    download_policy: DebianSyncDownloadPolicy,
) -> (r: DebianSyncPlan)
    ensures
        r.deep_view() == sync_plan(
            distribution@,
            release.deep_view(),
            filter.deep_view(),
            packages_by_index_path.deep_view(),
            sources_by_index_path.deep_view(),
            download_policy,
        ),
{
    let download = download_policy.downloads_packages();
    let package_indexes = filter_release_package_indexes(release, filter);
    let source_indexes = filter_release_source_indexes(release, filter);
    let (package_files, missing_packages) = plan_packages(
        &package_indexes,
        packages_by_index_path,
        filter,
        download,
    );
    let (source_files, missing_sources) = plan_sources(
        &source_indexes,
        sources_by_index_path,
        download,
    );
    let prefix = if is_empty_text(distribution) {
        String::new()
    } else {
        cat3("dists/", distribution, "/")
    };
    assert(prefix@ =~= dists_prefix(distribution@));
    let mut release_paths: Vec<String> = Vec::new();
    release_paths.push(cat2(prefix.as_str(), "InRelease"));
    release_paths.push(cat2(prefix.as_str(), "Release"));
    release_paths.push(cat2(prefix.as_str(), "Release.gpg"));
    assert(release_paths.deep_view() =~= seq![
        dists_prefix(distribution@) + "InRelease"@,
        dists_prefix(distribution@) + "Release"@,
        dists_prefix(distribution@) + "Release.gpg"@,
    ]);
    DebianSyncPlan {
        distribution: distribution.to_string(),
        release_paths,
        package_indexes,
        source_indexes,
        package_files: sort_items(package_files),
        source_files: sort_items(source_files),
        missing_package_indexes: sort_items(missing_packages),
        missing_source_indexes: sort_items(missing_sources),
    }
}

} // verus!
