//! What the plan of a sync holds, said of the entries that were listed.

use vstd::prelude::*;

use crate::index::{PackageModel, SourceModel};
use crate::ordered::lookup;
use crate::plan::{files_of_index, files_of_source, files_of_sources, immediate_labels, planned_file, planned_files};
use crate::plan::{planned_sources, policy_of, source_path, sync_plan, DebianSyncDownloadPolicy, DebianSyncPackageFile};
use crate::plan::{DebianSyncSourceFile, PackageFileModel, PlannedSourceModel};
use crate::release::ReleaseModel;
use crate::select::{package_indexes, source_indexes, FilterModel, IndexModel, SourceIndexModel};
use crate::sort::{sorted, sorted_is_ordered, Sortable};
use crate::text::{ascii_lower, is_blank, is_white, trim, trim_char, trim_empty_iff_blank, trim_end, trim_end_char};
use crate::text::{trim_end_is_prefix, trim_start, trim_start_char, trim_start_is_suffix};

verus! {

// ---------------------------------------------------------------------------
// Package files
// ---------------------------------------------------------------------------

/// An entry listed in an index is one that the mirror is after: it names a file,
/// and its package is for all architectures, or for a selected one that is that of
/// the index where the index has one.
pub open spec fn is_wanted(
    index_arch: Seq<char>,
    selected: Seq<Seq<char>>,
    entry: PackageModel,
) -> bool {
    &&& entry.filename is Some
    &&& !is_blank(entry.filename->0)
    &&& entry.control.architecture == "all"@ || ((index_arch.len() == 0
        || entry.control.architecture == index_arch) && (selected.len() == 0
        || selected.contains(entry.control.architecture)))
}

/// The file of an entry, as a plan lists it.
pub open spec fn file_of(path: Seq<char>, download: bool, entry: PackageModel) -> PackageFileModel {
    PackageFileModel {
        index_path: path,
        filename: trim(entry.filename->0),
        package: entry.control.package,
        version: entry.control.version,
        architecture: entry.control.architecture,
        download,
    }
}

/// The files of an index: one for each entry that is wanted.
pub open spec fn wanted_files(
    index: IndexModel,
    packages: Seq<(Seq<char>, Seq<PackageModel>)>,
    selected: Seq<Seq<char>>,
    download: bool,
) -> Seq<PackageFileModel> {
    match lookup(packages, index.path) {
        Some(entries) => entries.filter(
            |entry: PackageModel| is_wanted(index.architecture, selected, entry),
        ).map_values(|entry: PackageModel| file_of(index.path, download, entry)),
        None => seq![],
    }
}

proof fn wanted_is_planned(
    index: IndexModel,
    entry: PackageModel,
    selected: Seq<Seq<char>>,
    download: bool,
)
    ensures
        planned_file(index, entry, selected, download) == (if is_wanted(
            index.architecture,
            selected,
            entry,
        ) {
            Some(file_of(index.path, download, entry))
        } else {
            None
        }),
{
    if entry.filename is Some {
        trim_empty_iff_blank(entry.filename->0);
    }
}

proof fn index_gives_wanted_files(
    index: IndexModel,
    entries: Seq<PackageModel>,
    selected: Seq<Seq<char>>,
    download: bool,
)
    ensures
        files_of_index(index, entries, selected, download) == entries.filter(
            |entry: PackageModel| is_wanted(index.architecture, selected, entry),
        ).map_values(|entry: PackageModel| file_of(index.path, download, entry)),
    decreases entries.len(),
{
    reveal(Seq::filter);
    let pred = |entry: PackageModel| is_wanted(index.architecture, selected, entry);
    let make = |entry: PackageModel| file_of(index.path, download, entry);
    let r = files_of_index(index, entries, selected, download);
    if entries.len() == 0 {
        assert(r =~= entries.filter(pred).map_values(make));
    } else {
        let t = entries.drop_last();
        index_gives_wanted_files(index, t, selected, download);
        wanted_is_planned(index, entries.last(), selected, download);
        assert(r =~= entries.filter(pred).map_values(make));
    }
}

proof fn planned_files_are_wanted(
    indexes: Seq<IndexModel>,
    packages: Seq<(Seq<char>, Seq<PackageModel>)>,
    selected: Seq<Seq<char>>,
    download: bool,
)
    ensures
        planned_files(indexes, packages, selected, download) == indexes.map_values(
            |index: IndexModel| wanted_files(index, packages, selected, download),
        ).flatten(),
    decreases indexes.len(),
{
    let each = |index: IndexModel| wanted_files(index, packages, selected, download);
    indexes.map_values(each).lemma_flatten_and_flatten_alt_are_equivalent();
    if indexes.len() > 0 {
        let t = indexes.drop_last();
        planned_files_are_wanted(t, packages, selected, download);
        t.map_values(each).lemma_flatten_and_flatten_alt_are_equivalent();
        assert(indexes.map_values(each).drop_last() =~= t.map_values(each));
        match lookup(packages, indexes.last().path) {
            Some(entries) => {
                index_gives_wanted_files(indexes.last(), entries, selected, download);
            },
            None => {
                let before = planned_files(t, packages, selected, download);
                assert(before + Seq::<PackageFileModel>::empty() =~= before);
            },
        }
    }
}

proof fn flattened_holds<T>(ss: Seq<Seq<T>>, n: int, j: int)
    requires
        0 <= n < ss.len(),
        0 <= j < ss[n].len(),
    ensures
        ss.flatten().contains(ss[n][j]),
    decreases ss.len(),
{
    let all = ss.flatten();
    let rest = ss.drop_first().flatten();
    if n == 0 {
        assert(all[j] == ss[0][j]);
    } else {
        flattened_holds(ss.drop_first(), n - 1, j);
        let x = ss[n][j];
        assert(ss.drop_first()[n - 1] == ss[n]);
        let i = choose|i: int| 0 <= i < rest.len() && rest[i] == x;
        assert(all[ss[0].len() + i] == x);
    }
}

proof fn sorted_holds_as_much<T: Sortable>(s: Seq<T::V>, x: T::V)
    ensures
        sorted::<T>(s).contains(x) <==> s.contains(x),
{
    let t = sorted::<T>(s);
    sorted_is_ordered::<T>(s);
    s.to_multiset_ensures();
    t.to_multiset_ensures();
    assert(t.contains(x) <==> t.to_multiset().count(x) > 0);
    assert(s.contains(x) <==> s.to_multiset().count(x) > 0);
}

/// The package files of a plan are, in another order, those of the indexes that
/// the mirror takes, each index in turn: one for every entry that is wanted, as
/// often as it is listed, and none besides.
pub proof fn plan_holds_wanted_files(
    distribution: Seq<char>,
    release: ReleaseModel,
    filter: FilterModel,
    packages: Seq<(Seq<char>, Seq<PackageModel>)>,
    sources: Seq<(Seq<char>, Seq<SourceModel>)>,
    policy: DebianSyncDownloadPolicy,
)
    ensures
        ({
            let plan = sync_plan(distribution, release, filter, packages, sources, policy);
            let download = policy == DebianSyncDownloadPolicy::Immediate;
            let listed = plan.package_indexes.map_values(
                |index: IndexModel| wanted_files(index, packages, filter.architectures, download),
            ).flatten();
            &&& plan.package_files.to_multiset() == listed.to_multiset()
            &&& plan.package_files.len() == listed.len()
            &&& plan.package_indexes == package_indexes(release, filter)
        }),
{
    let download = policy == DebianSyncDownloadPolicy::Immediate;
    let pi = package_indexes(release, filter);
    planned_files_are_wanted(pi, packages, filter.architectures, download);
    sorted_is_ordered::<DebianSyncPackageFile>(
        planned_files(pi, packages, filter.architectures, download),
    );
}

/// Every entry that is listed under the path of an index which the mirror takes
/// and that is wanted there has its file in the plan, to be fetched during the sync
/// where the policy says so.
pub proof fn every_wanted_entry_is_planned(
    distribution: Seq<char>,
    release: ReleaseModel,
    filter: FilterModel,
    packages: Seq<(Seq<char>, Seq<PackageModel>)>,
    sources: Seq<(Seq<char>, Seq<SourceModel>)>,
    policy: DebianSyncDownloadPolicy,
    n: int,
    j: int,
)
    requires
        0 <= n < package_indexes(release, filter).len(),
        lookup(packages, package_indexes(release, filter)[n].path) is Some,
        0 <= j < lookup(packages, package_indexes(release, filter)[n].path)->0.len(),
        is_wanted(
            package_indexes(release, filter)[n].architecture,
            filter.architectures,
            lookup(packages, package_indexes(release, filter)[n].path)->0[j],
        ),
    ensures
        ({
            let index = package_indexes(release, filter)[n];
            let entry = lookup(packages, index.path)->0[j];
            sync_plan(
                distribution,
                release,
                filter,
                packages,
                sources,
                policy,
            ).package_files.contains(
                PackageFileModel {
                    index_path: index.path,
                    filename: trim(entry.filename->0),
                    package: entry.control.package,
                    version: entry.control.version,
                    architecture: entry.control.architecture,
                    download: policy == DebianSyncDownloadPolicy::Immediate,
                },
            )
        }),
{
    let download = policy == DebianSyncDownloadPolicy::Immediate;
    let pi = package_indexes(release, filter);
    let selected = filter.architectures;
    let index = pi[n];
    let entries = lookup(packages, index.path)->0;
    let pred = |entry: PackageModel| is_wanted(index.architecture, selected, entry);
    let make = |entry: PackageModel| file_of(index.path, download, entry);
    let kept = entries.filter(pred);
    broadcast use vstd::seq_lib::group_filter_ensures;

    assert(pred(entries[j]));
    assert(kept.contains(entries[j]));
    let k = choose|k: int| 0 <= k < kept.len() && kept[k] == entries[j];
    let each = |index: IndexModel| wanted_files(index, packages, selected, download);
    assert(pi.map_values(each)[n] == kept.map_values(make));
    assert(kept.map_values(make)[k] == make(entries[j]));
    flattened_holds(pi.map_values(each), n, k);
    planned_files_are_wanted(pi, packages, selected, download);
    sorted_holds_as_much::<DebianSyncPackageFile>(
        planned_files(pi, packages, selected, download),
        make(entries[j]),
    );
}

// ---------------------------------------------------------------------------
// Source files
// ---------------------------------------------------------------------------

/// The files of a source package, as a plan lists them: below the directory of the
/// package, each one.
pub open spec fn package_sources(path: Seq<char>, download: bool, entry: SourceModel) -> Seq<
    PlannedSourceModel,
> {
    Seq::new(
        entry.files.len(),
        |i: int|
            PlannedSourceModel {
                index_path: path,
                filename: source_path(entry.directory, entry.files[i].filename),
                package: entry.package,
                version: entry.version,
                size: entry.files[i].size,
                download,
            },
    )
}

/// The source files of an index: those of all its packages.
pub open spec fn index_sources(
    index: SourceIndexModel,
    sources: Seq<(Seq<char>, Seq<SourceModel>)>,
    download: bool,
) -> Seq<PlannedSourceModel> {
    match lookup(sources, index.path) {
        Some(entries) => entries.map_values(
            |entry: SourceModel| package_sources(index.path, download, entry),
        ).flatten(),
        None => seq![],
    }
}

proof fn index_gives_sources(path: Seq<char>, entries: Seq<SourceModel>, download: bool)
    ensures
        files_of_sources(path, entries, download) == entries.map_values(
            |entry: SourceModel| package_sources(path, download, entry),
        ).flatten(),
    decreases entries.len(),
{
    let each = |entry: SourceModel| package_sources(path, download, entry);
    entries.map_values(each).lemma_flatten_and_flatten_alt_are_equivalent();
    if entries.len() > 0 {
        let t = entries.drop_last();
        index_gives_sources(path, t, download);
        t.map_values(each).lemma_flatten_and_flatten_alt_are_equivalent();
        assert(entries.map_values(each).drop_last() =~= t.map_values(each));
        assert(files_of_source(path, entries.last(), download) =~= package_sources(
            path,
            download,
            entries.last(),
        ));
    }
}

proof fn planned_sources_are_listed(
    indexes: Seq<SourceIndexModel>,
    sources: Seq<(Seq<char>, Seq<SourceModel>)>,
    download: bool,
)
    ensures
        planned_sources(indexes, sources, download) == indexes.map_values(
            |index: SourceIndexModel| index_sources(index, sources, download),
        ).flatten(),
    decreases indexes.len(),
{
    let each = |index: SourceIndexModel| index_sources(index, sources, download);
    indexes.map_values(each).lemma_flatten_and_flatten_alt_are_equivalent();
    if indexes.len() > 0 {
        let t = indexes.drop_last();
        planned_sources_are_listed(t, sources, download);
        t.map_values(each).lemma_flatten_and_flatten_alt_are_equivalent();
        assert(indexes.map_values(each).drop_last() =~= t.map_values(each));
        match lookup(sources, indexes.last().path) {
            Some(entries) => {
                index_gives_sources(indexes.last().path, entries, download);
            },
            None => {
                let before = planned_sources(t, sources, download);
                assert(before + Seq::<PlannedSourceModel>::empty() =~= before);
            },
        }
    }
}

/// The source files of a plan are, in another order, the files of every source
/// package listed in the indexes that the mirror takes, as often as they are
/// listed, and none besides.
pub proof fn plan_holds_listed_sources(
    distribution: Seq<char>,
    release: ReleaseModel,
    filter: FilterModel,
    packages: Seq<(Seq<char>, Seq<PackageModel>)>,
    sources: Seq<(Seq<char>, Seq<SourceModel>)>,
    policy: DebianSyncDownloadPolicy,
)
    ensures
        ({
            let plan = sync_plan(distribution, release, filter, packages, sources, policy);
            let download = policy == DebianSyncDownloadPolicy::Immediate;
            let listed = plan.source_indexes.map_values(
                |index: SourceIndexModel| index_sources(index, sources, download),
            ).flatten();
            &&& plan.source_files.to_multiset() == listed.to_multiset()
            &&& plan.source_files.len() == listed.len()
            &&& plan.source_indexes == source_indexes(release, filter)
        }),
{
    let download = policy == DebianSyncDownloadPolicy::Immediate;
    let si = source_indexes(release, filter);
    planned_sources_are_listed(si, sources, download);
    sorted_is_ordered::<DebianSyncSourceFile>(planned_sources(si, sources, download));
}

/// Every file of every source package that is listed under the path of an index
/// which the mirror takes is in the plan.
pub proof fn every_listed_source_is_planned(
    distribution: Seq<char>,
    release: ReleaseModel,
    filter: FilterModel,
    packages: Seq<(Seq<char>, Seq<PackageModel>)>,
    sources: Seq<(Seq<char>, Seq<SourceModel>)>,
    policy: DebianSyncDownloadPolicy,
    n: int,
    j: int,
    f: int,
)
    requires
        0 <= n < source_indexes(release, filter).len(),
        lookup(sources, source_indexes(release, filter)[n].path) is Some,
        0 <= j < lookup(sources, source_indexes(release, filter)[n].path)->0.len(),
        0 <= f < lookup(sources, source_indexes(release, filter)[n].path)->0[j].files.len(),
    ensures
        ({
            let index = source_indexes(release, filter)[n];
            let entry = lookup(sources, index.path)->0[j];
            sync_plan(
                distribution,
                release,
                filter,
                packages,
                sources,
                policy,
            ).source_files.contains(
                PlannedSourceModel {
                    index_path: index.path,
                    filename: source_path(entry.directory, entry.files[f].filename),
                    package: entry.package,
                    version: entry.version,
                    size: entry.files[f].size,
                    download: policy == DebianSyncDownloadPolicy::Immediate,
                },
            )
        }),
{
    let download = policy == DebianSyncDownloadPolicy::Immediate;
    let si = source_indexes(release, filter);
    let index = si[n];
    let entries = lookup(sources, index.path)->0;
    let each = |entry: SourceModel| package_sources(index.path, download, entry);
    let all = |index: SourceIndexModel| index_sources(index, sources, download);
    let file = package_sources(index.path, download, entries[j])[f];
    flattened_holds(entries.map_values(each), j, f);
    let here = entries.map_values(each).flatten();
    assert(entries.map_values(each)[j][f] == file);
    let k = choose|k: int| 0 <= k < here.len() && here[k] == file;
    assert(si.map_values(all)[n] == here);
    flattened_holds(si.map_values(all), n, k);
    planned_sources_are_listed(si, sources, download);
    sorted_holds_as_much::<DebianSyncSourceFile>(planned_sources(si, sources, download), file);
}

/// A source file is filed below the directory of its package, with one slash
/// between them; where the directory is the root, by its name alone.
pub proof fn source_file_is_below_directory(directory: Seq<char>, filename: Seq<char>)
    requires
        directory == trim(directory),
        directory.len() > 0,
        directory[0] != '/',
        directory.last() != '/',
        directory != "."@,
        filename.len() > 0,
        filename[0] != '/',
    ensures
        source_path(directory, filename) == directory + seq!['/'] + filename,
        source_path(directory + seq!['/'], seq!['/'] + filename) == directory + seq!['/']
            + filename,
        source_path("."@, filename) == filename,
        source_path(seq![], filename) == filename,
{
    reveal_strlit("/");
    reveal_strlit(".");
    reveal_with_fuel(trim_start_char, 2);
    reveal_with_fuel(trim_end_char, 2);
    reveal_with_fuel(trim_start, 2);
    reveal_with_fuel(trim_end, 2);
    assert("/"@ =~= seq!['/']);
    trim_start_is_suffix(directory);
    trim_end_is_prefix(trim_start(directory));
    let d = directory + seq!['/'];
    assert(!is_white(directory[0])) by {
        assert(trim(directory)[0] == trim_start(directory)[0]);
    }
    assert(d[0] == directory[0]);
    assert(d.last() == '/');
    assert(trim(d) == d);
    assert(d.drop_last() =~= directory);
    assert(trim_char(directory, '/') == directory);
    assert(trim_char(d, '/') == directory);
    let f = seq!['/'] + filename;
    assert(f.drop_first() =~= filename);
    let dot = "."@;
    assert(dot.len() == 1 && dot[0] == '.');
    assert(trim(dot) == dot);
    assert(trim_char(dot, '/') == dot);
    let none = Seq::<char>::empty();
    assert(trim_char(trim(none), '/') =~= none);
}

/// The labels that have files fetched during the sync are these five, in whatever
/// case and with white space around them.
pub proof fn labels_of_immediate_policy(label: Seq<char>)
    ensures
        policy_of(Some(label)) == DebianSyncDownloadPolicy::Immediate <==> {
            let word = ascii_lower(trim(label));
            word == "immediate"@ || word == "eager"@ || word == "full"@ || word == "full_mirror"@
                || word == "full-mirror"@
        },
        policy_of(None) == DebianSyncDownloadPolicy::OnDemand,
{
    let labels = immediate_labels();
    assert(labels[0] == "immediate"@ && labels[1] == "eager"@ && labels[2] == "full"@ && labels[3]
        == "full_mirror"@ && labels[4] == "full-mirror"@);
}

} // verus!
