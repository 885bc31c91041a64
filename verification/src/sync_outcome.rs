//! What comes of a sync: what it fetches and publishes, said of what it planned.

use vstd::prelude::*;
use vstd::utf8::valid_utf8;

use crate::codec::{gzipped, xzed};
use crate::config::{ConfigModel, DebianPackageFetchStrategy};
use crate::dists::{plain_path, synced_key};
use crate::error::Failure;
use crate::generated::{generated_metadata, kept_packages, GeneratedModel};
use crate::generated_laws::{contents_name_every_file, every_read_index_is_generated};
use crate::generated_laws::{every_read_source_index_is_generated, generated_is_ordered, is_generated, is_kept};
use crate::generated_laws::{is_new_path, is_plain_name, kept_entries_stay};
use crate::http::RefusalModel;
use crate::index::{packages_index, packages_of, sources_index, sources_of, PackageModel, SourceModel};
use crate::members::RepositoryType;
use crate::ordered::{ascending, keys_of, lookup, slot, slot_cuts, slot_splits, text_set_holds, with_text_ascending};
use crate::plan::{DebianSyncDownloadPolicy, PackageFileModel, PlanModel, PlannedSourceModel};
use crate::release::release_of;
use crate::roundtrip_packages::is_writable_entry;
use crate::roundtrip_release::kept;
use crate::roundtrip_sources::is_writable_source;
use crate::select::{package_indexes, source_indexes, IndexModel, SourceIndexModel};
use crate::select_laws::{all_advertised, selection_is_accepted_iff_advertised};
use crate::sync::{at_distribution, filter_of, follows, is_run, next_package, next_source, on_cleartext, on_contents};
use crate::sync::{on_detached, on_digests, on_in_release, on_key, on_package_file, on_package_index, on_package_path};
use crate::sync::{on_paths, on_release, on_signature, on_source_file, on_source_index, on_source_path};
use crate::sync::{planned_architectures, planned_components, policy_of, publication, sync_action, sync_start};
use crate::sync::{sync_step, wanted_contents, well_formed, with_packages_left, with_release, with_sources_left};
use crate::sync::{ActionModel, BaseModel, EventModel, PlannedModel, PublicationModel, StageModel, SyncModel};
use crate::sync_laws::{planned_at, step_goes_on};
use crate::sync_run::{all_package_downloads, all_source_downloads, done_means_every_distribution_is_planned};
use crate::sync_run::{is_fresh, package_downloads, publication_holds_generation, run_agrees, source_downloads};
use crate::text::{is_blank, trim, trim_char, trim_empty_iff_blank};
use crate::verify::{index_verdict, prefetch_digest};

verus! {

// ---------------------------------------------------------------------------
// Contents
// ---------------------------------------------------------------------------

/// The files that the Contents index beside a read Packages index is made of: those of
/// the entries that are kept and name one.
pub open spec fn listed_files(
    index: IndexModel,
    packages: Seq<(Seq<char>, Seq<PackageModel>)>,
    selected: Seq<Seq<char>>,
) -> Seq<(Seq<char>, Seq<char>)> {
    lookup(packages, index.path)->0.filter(
        |entry: PackageModel| is_kept(entry, index.architecture, selected),
    ).filter(
        |entry: PackageModel| entry.filename is Some && !is_blank(entry.filename->0),
    ).map_values(|entry: PackageModel| (trim(entry.filename->0), entry.control.package))
}

/// A Contents text is asked for beside every Packages index that was read, made of the
/// files of the entries that are kept.
pub proof fn contents_are_asked_for(
    indexes: Seq<IndexModel>,
    packages: Seq<(Seq<char>, Seq<PackageModel>)>,
    selected: Seq<Seq<char>>,
)
    ensures
        wanted_contents(indexes, packages, selected) == indexes.filter(
            |index: IndexModel| lookup(packages, index.path) is Some,
        ).map_values(
            |index: IndexModel| (index.path, listed_files(index, packages, selected)),
        ),
    decreases indexes.len(),
{
    reveal(Seq::filter);
    let read = |index: IndexModel| lookup(packages, index.path) is Some;
    let make = |index: IndexModel| (index.path, listed_files(index, packages, selected));
    let r = wanted_contents(indexes, packages, selected);
    if indexes.len() > 0 {
        let t = indexes.drop_last();
        let index = indexes.last();
        contents_are_asked_for(t, packages, selected);
        if let Some(entries) = lookup(packages, index.path) {
            let kept = kept_packages(entries, index.architecture, selected);
            kept_entries_stay(entries, index.architecture, selected);
            contents_name_every_file(kept);
        }
    }
    assert(r =~= indexes.filter(read).map_values(make));
}

// ---------------------------------------------------------------------------
// Publications
// ---------------------------------------------------------------------------

spec fn generated_from(m: SyncModel, event: EventModel, n: SyncModel) -> bool {
    n.stage matches StageModel::Digests(p, g) ==> m.stage == StageModel::Contents(p) && n.base
        == m.base && (event matches EventModel::Contents(texts) && generated_metadata(
        p.plan.package_indexes,
        p.plan.source_indexes,
        p.packages,
        p.sources,
        m.base.filter.selection.architectures,
        texts,
    ) == Ok::<GeneratedModel, Seq<char>>(g))
}

#[verifier::rlimit(40)]
proof fn step_generates(m: SyncModel, event: EventModel, date: Seq<char>, n: SyncModel)
    requires
        sync_step(m, event, date) == Ok::<SyncModel, RefusalModel>(n),
    ensures
        generated_from(m, event, n),
{
    match m.stage {
        StageModel::Release => {
            reveal(on_release);
        },
        StageModel::InRelease(_) => {
            reveal(on_in_release);
        },
        StageModel::Signature(_) => {
            reveal(on_signature);
        },
        StageModel::Key(_, _) => {
            reveal(on_key);
        },
        StageModel::Cleartext(_, _) => {
            reveal(on_cleartext);
        },
        StageModel::Detached(_, _, _) => {
            reveal(on_detached);
        },
        StageModel::PackageIndex(_) => {
            reveal(on_package_index);
        },
        StageModel::SourceIndex(_) => {
            reveal(on_source_index);
        },
        StageModel::Paths(_) => {
            reveal(on_paths);
        },
        StageModel::Contents(_) => {
            reveal(on_contents);
        },
        StageModel::Digests(_, _) => {
            reveal(on_digests);
        },
        StageModel::Publish(_, _) => {
            reveal(on_package_file);
        },
        StageModel::PackagePath(_, _) => {
            reveal(on_package_path);
        },
        StageModel::PackageFile(_, _, _) => {
            reveal(on_package_file);
        },
        StageModel::SourcePath(_, _) => {
            reveal(on_source_path);
        },
        StageModel::SourceFile(_, _, _) => {
            reveal(on_source_file);
        },
        StageModel::Done => {},
    }
}

/// Some row of a publication stores the text of an index under its path.
pub open spec fn publishes(
    publication: PublicationModel,
    distribution: Seq<char>,
    path: Seq<char>,
    text: Seq<char>,
) -> bool {
    exists|r: int|
        0 <= r < publication.rows.len() && #[trigger] publication.rows[r] == (
            synced_key(distribution, path),
            text,
        )
}

proof fn stored_row_is_published(
    base: BaseModel,
    p: PlannedModel,
    g: GeneratedModel,
    digests: Seq<(Seq<char>, Seq<char>)>,
    date: Seq<char>,
    path: Seq<char>,
    text: Seq<char>,
)
    requires
        ascending(keys_of(g.plain_indexes)),
        lookup(g.plain_indexes, path) == Some(text),
    ensures
        publishes(publication(base, p, g, digests, date), at_distribution(base), path, text),
{
    let keys = keys_of(g.plain_indexes);
    slot_cuts(keys, path);
    slot_splits(keys, path);
    let r = slot(keys, path) as int;
    assert(g.plain_indexes[r] == (path, text));
    let rows = publication(base, p, g, digests, date).rows;
    assert(rows[r] == (synced_key(at_distribution(base), path), text));
}

spec fn generates(
    base: BaseModel,
    p: PlannedModel,
    texts: Seq<(Seq<char>, Seq<char>)>,
    g: GeneratedModel,
) -> bool {
    generated_metadata(
        p.plan.package_indexes,
        p.plan.source_indexes,
        p.packages,
        p.sources,
        base.filter.selection.architectures,
        texts,
    ) == Ok::<GeneratedModel, Seq<char>>(g)
}

proof fn read_index_is_published(
    base: BaseModel,
    p: PlannedModel,
    g: GeneratedModel,
    texts: Seq<(Seq<char>, Seq<char>)>,
    digests: Seq<(Seq<char>, Seq<char>)>,
    date: Seq<char>,
    n: int,
) -> (text: Seq<char>)
    requires
        generates(base, p, texts, g),
        0 <= n < p.plan.package_indexes.len(),
        lookup(p.packages, p.plan.package_indexes[n].path) is Some,
        is_plain_name(plain_path(p.plan.package_indexes[n].path)),
        is_new_path(p.plan.package_indexes, n, plain_path(p.plan.package_indexes[n].path)),
    ensures
        publishes(
            publication(base, p, g, digests, date),
            at_distribution(base),
            plain_path(p.plan.package_indexes[n].path),
            text,
        ),
        ({
            let index = p.plan.package_indexes[n];
            let kept = lookup(p.packages, index.path)->0.filter(
                |entry: PackageModel|
                    is_kept(entry, index.architecture, base.filter.selection.architectures),
            );
            (forall|i: int| 0 <= i < kept.len() ==> is_writable_entry(#[trigger] kept[i]))
                ==> packages_of(text) == Ok::<Seq<PackageModel>, Failure>(kept)
        }),
{
    let selected = base.filter.selection.architectures;
    let index = p.plan.package_indexes[n];
    every_read_index_is_generated(
        p.plan.package_indexes,
        p.plan.source_indexes,
        p.packages,
        p.sources,
        selected,
        texts,
        n,
    );
    let kept = lookup(p.packages, index.path)->0.filter(
        |entry: PackageModel| is_kept(entry, index.architecture, selected),
    );
    let text = choose|text: Seq<char>| #[trigger]
        is_generated(g, plain_path(index.path), text) && ((forall|i: int|
            0 <= i < kept.len() ==> is_writable_entry(#[trigger] kept[i])) ==> packages_of(text)
            == Ok::<Seq<PackageModel>, Failure>(kept));
    generated_is_ordered(
        p.plan.package_indexes,
        p.plan.source_indexes,
        p.packages,
        p.sources,
        selected,
        texts,
    );
    stored_row_is_published(base, p, g, digests, date, plain_path(index.path), text);
    text
}

proof fn read_source_index_is_published(
    base: BaseModel,
    p: PlannedModel,
    g: GeneratedModel,
    texts: Seq<(Seq<char>, Seq<char>)>,
    digests: Seq<(Seq<char>, Seq<char>)>,
    date: Seq<char>,
    n: int,
) -> (text: Seq<char>)
    requires
        generates(base, p, texts, g),
        0 <= n < p.plan.source_indexes.len(),
        lookup(p.sources, p.plan.source_indexes[n].path) is Some,
        is_plain_name(plain_path(p.plan.source_indexes[n].path)),
        is_new_path(
            p.plan.package_indexes,
            p.plan.package_indexes.len() as int,
            plain_path(p.plan.source_indexes[n].path),
        ),
        forall|m: int|
            0 <= m < n ==> plain_path((#[trigger] p.plan.source_indexes[m]).path) != plain_path(
                p.plan.source_indexes[n].path,
            ),
    ensures
        publishes(
            publication(base, p, g, digests, date),
            at_distribution(base),
            plain_path(p.plan.source_indexes[n].path),
            text,
        ),
        ({
            let entries = lookup(p.sources, p.plan.source_indexes[n].path)->0;
            (forall|i: int| 0 <= i < entries.len() ==> is_writable_source(#[trigger] entries[i]))
                ==> sources_of(text) == Ok::<Seq<SourceModel>, Failure>(entries)
        }),
{
    let selected = base.filter.selection.architectures;
    let path = p.plan.source_indexes[n].path;
    every_read_source_index_is_generated(
        p.plan.package_indexes,
        p.plan.source_indexes,
        p.packages,
        p.sources,
        selected,
        texts,
        n,
    );
    let entries = lookup(p.sources, path)->0;
    let text = choose|text: Seq<char>| #[trigger]
        is_generated(g, plain_path(path), text) && ((forall|i: int|
            0 <= i < entries.len() ==> is_writable_source(#[trigger] entries[i])) ==> sources_of(
            text,
        ) == Ok::<Seq<SourceModel>, Failure>(entries));
    generated_is_ordered(
        p.plan.package_indexes,
        p.plan.source_indexes,
        p.packages,
        p.sources,
        selected,
        texts,
    );
    stored_row_is_published(base, p, g, digests, date, plain_path(path), text);
    text
}

/// What a publication of a run was made from.
proof fn publication_of_run(
    states: Seq<SyncModel>,
    events: Seq<EventModel>,
    dates: Seq<Seq<char>>,
    k: int,
) -> (r: (
    GeneratedModel,
    Seq<(Seq<char>, Seq<char>)>,
    Seq<(Seq<char>, Seq<char>)>,
    Seq<char>,
))
    requires
        is_run(states, events, dates),
        is_fresh(states[0]),
        0 <= k < states.len(),
        states[k].stage is Publish,
    ensures
        generates(states[k].base, states[k].stage->Publish_0, r.1, r.0),
        states[k].stage->Publish_1 == publication(
            states[k].base,
            states[k].stage->Publish_0,
            r.0,
            r.2,
            r.3,
        ),
        states[k].base.config == states[0].base.config,
        states[k].base.filter == filter_of(states[0].base.config),
{
    run_agrees(states, events, dates, k);
    let j = k - 1;
    publication_holds_generation(states, events, dates, k);
    publication_keeps_base(states, events, dates, j);
    let texts = generation_of_run(states, events, dates, j);
    (states[j].stage->Digests_1, texts, events[j]->Digests_0, dates[j])
}

proof fn publication_keeps_base(
    states: Seq<SyncModel>,
    events: Seq<EventModel>,
    dates: Seq<Seq<char>>,
    j: int,
)
    requires
        is_run(states, events, dates),
        0 <= j < states.len() - 1,
        states[j].stage is Digests,
    ensures
        states[j + 1].base == states[j].base,
{
    assert(follows(states[j], events[j], dates[j], states[j + 1]));
    reveal(follows);
    reveal(on_digests);
}

/// What a run publishes of a distribution holds every Packages index that was read:
/// the text that is stored for it reads back as the entries that are kept, where these
/// can be written.
pub proof fn every_read_index_is_published(
    states: Seq<SyncModel>,
    events: Seq<EventModel>,
    dates: Seq<Seq<char>>,
    k: int,
    p: PlannedModel,
    publication: PublicationModel,
    n: int,
)
    requires
        is_run(states, events, dates),
        is_fresh(states[0]),
        0 <= k < states.len(),
        states[k].stage == StageModel::Publish(p, publication),
        0 <= n < p.plan.package_indexes.len(),
        lookup(p.packages, p.plan.package_indexes[n].path) is Some,
        is_plain_name(plain_path(p.plan.package_indexes[n].path)),
        is_new_path(p.plan.package_indexes, n, plain_path(p.plan.package_indexes[n].path)),
    ensures
        ({
            let index = p.plan.package_indexes[n];
            let config = states[0].base.config;
            let kept = lookup(p.packages, index.path)->0.filter(
                |entry: PackageModel|
                    is_kept(
                        entry,
                        index.architecture,
                        filter_of(config).selection.architectures,
                    ),
            );
            exists|text: Seq<char>| #[trigger]
                publishes(
                    publication,
                    trim_char(config.distributions[states[k].base.turn as int], '/'),
                    plain_path(index.path),
                    text,
                ) && ((forall|i: int|
                    0 <= i < kept.len() ==> is_writable_entry(#[trigger] kept[i])) ==> packages_of(
                    text,
                ) == Ok::<Seq<PackageModel>, Failure>(kept))
        }),
{
    let (g, texts, digests, date) = publication_of_run(states, events, dates, k);
    let base = states[k].base;
    let index = p.plan.package_indexes[n];
    let text = read_index_is_published(base, p, g, texts, digests, date, n);
    assert(publishes(publication, at_distribution(base), plain_path(index.path), text));
}

/// What a run publishes of a distribution holds every Sources index that was read.
pub proof fn every_read_source_index_is_published(
    states: Seq<SyncModel>,
    events: Seq<EventModel>,
    dates: Seq<Seq<char>>,
    k: int,
    p: PlannedModel,
    publication: PublicationModel,
    n: int,
)
    requires
        is_run(states, events, dates),
        is_fresh(states[0]),
        0 <= k < states.len(),
        states[k].stage == StageModel::Publish(p, publication),
        0 <= n < p.plan.source_indexes.len(),
        lookup(p.sources, p.plan.source_indexes[n].path) is Some,
        is_plain_name(plain_path(p.plan.source_indexes[n].path)),
        is_new_path(
            p.plan.package_indexes,
            p.plan.package_indexes.len() as int,
            plain_path(p.plan.source_indexes[n].path),
        ),
        forall|m: int|
            0 <= m < n ==> plain_path((#[trigger] p.plan.source_indexes[m]).path) != plain_path(
                p.plan.source_indexes[n].path,
            ),
    ensures
        ({
            let path = p.plan.source_indexes[n].path;
            let config = states[0].base.config;
            let entries = lookup(p.sources, path)->0;
            exists|text: Seq<char>| #[trigger]
                publishes(
                    publication,
                    trim_char(config.distributions[states[k].base.turn as int], '/'),
                    plain_path(path),
                    text,
                ) && ((forall|i: int|
                    0 <= i < entries.len() ==> is_writable_source(#[trigger] entries[i]))
                    ==> sources_of(text) == Ok::<Seq<SourceModel>, Failure>(entries))
        }),
{
    let (g, texts, digests, date) = publication_of_run(states, events, dates, k);
    let base = states[k].base;
    let path = p.plan.source_indexes[n].path;
    let text = read_source_index_is_published(base, p, g, texts, digests, date, n);
    assert(publishes(publication, at_distribution(base), plain_path(path), text));
}

/// What is generated in a run is made from the plan and from the Contents texts that
/// came before.
proof fn generation_of_run(
    states: Seq<SyncModel>,
    events: Seq<EventModel>,
    dates: Seq<Seq<char>>,
    k: int,
) -> (texts: Seq<(Seq<char>, Seq<char>)>)
    requires
        is_run(states, events, dates),
        is_fresh(states[0]),
        0 <= k < states.len(),
        states[k].stage is Digests,
    ensures
        ({
            let p = states[k].stage->Digests_0;
            &&& k > 0
            &&& events[k - 1] == EventModel::Contents(texts)
            &&& sync_action(states[k - 1]) == ActionModel::BuildContents(
                wanted_contents(
                    p.plan.package_indexes,
                    p.packages,
                    states[k].base.filter.selection.architectures,
                ),
            )
            &&& generated_metadata(
                p.plan.package_indexes,
                p.plan.source_indexes,
                p.packages,
                p.sources,
                states[k].base.filter.selection.architectures,
                texts,
            ) == Ok::<GeneratedModel, Seq<char>>(states[k].stage->Digests_1)
        }),
{
    let j = k - 1;
    assert(follows(states[j], events[j], dates[j], states[j + 1]));
    reveal(follows);
    step_generates(states[j], events[j], dates[j], states[k]);
    events[j]->Contents_0
}

// ---------------------------------------------------------------------------
// Files
// ---------------------------------------------------------------------------

/// In the run before a state, the package file was fetched, against the digest that the
/// indexes of its plan give it.
pub open spec fn package_was_prefetched(
    states: Seq<SyncModel>,
    events: Seq<EventModel>,
    k: int,
    name: Seq<char>,
) -> bool {
    exists|i: int|
        0 <= i < k && events[i] == EventModel::Accepted && {
            let m = #[trigger] states[i];
            &&& planned_at(m.stage) is Some
            &&& sync_action(m) matches ActionModel::PrefetchPackage(named, digest) && named == name
                && prefetch_digest(
                planned_at(m.stage)->0.package_digests,
                name,
                m.base.config.verify_upstream_metadata,
            ) == Ok::<Option<Seq<char>>, Seq<char>>(digest)
        }
}

/// The package file that a state is about to fetch.
spec fn package_due(m: SyncModel) -> Option<Seq<char>> {
    match m.stage {
        StageModel::PackagePath(p, i) => Some(p.plan.package_files[i as int].filename),
        StageModel::PackageFile(p, i, _) => Some(p.plan.package_files[i as int].filename),
        _ => None,
    }
}

/// Every package file that a state has noted was fetched, but for the one that is due.
spec fn noted_packages_hold(states: Seq<SyncModel>, events: Seq<EventModel>, k: int) -> bool {
    &&& forall|name: Seq<char>| #[trigger]
        states[k].base.prefetched.contains(name) ==> package_was_prefetched(
            states,
            events,
            k,
            name,
        ) || package_due(states[k]) == Some(name)
    &&& states[k].stage matches StageModel::PackageFile(p, i, digest) ==> prefetch_digest(
        p.package_digests,
        p.plan.package_files[i as int].filename,
        states[k].base.config.verify_upstream_metadata,
    ) == Ok::<Option<Seq<char>>, Seq<char>>(digest)
}

/// How a step notes package files.
spec fn packages_noted(m: SyncModel, event: EventModel, n: SyncModel) -> bool {
    &&& forall|name: Seq<char>| #[trigger]
        n.base.prefetched.contains(name) ==> m.base.prefetched.contains(name) || package_due(n) == Some(
            name,
        )
    &&& m.stage matches StageModel::PackagePath(p, i) ==> n.base == m.base && (
    n.stage matches StageModel::PackageFile(q, j, digest) && q == p && j == i)
    &&& m.stage is PackageFile ==> event == EventModel::Accepted
    &&& n.stage matches StageModel::PackageFile(p, i, digest) ==> prefetch_digest(
        p.package_digests,
        p.plan.package_files[i as int].filename,
        n.base.config.verify_upstream_metadata,
    ) == Ok::<Option<Seq<char>>, Seq<char>>(digest)
    &&& n.stage matches StageModel::PackageFile(p, i, digest) ==> m.stage == StageModel::PackagePath(p, i)
        && event == EventModel::Accepted
}

/// In the run before a state, the source file was fetched, against the digest that the
/// indexes of its plan give it.
pub open spec fn source_was_prefetched(
    states: Seq<SyncModel>,
    events: Seq<EventModel>,
    k: int,
    name: Seq<char>,
) -> bool {
    exists|i: int|
        0 <= i < k && events[i] == EventModel::Accepted && {
            let m = #[trigger] states[i];
            &&& planned_at(m.stage) is Some
            &&& sync_action(m) matches ActionModel::PrefetchSource(named, digest) && named == name
                && prefetch_digest(
                planned_at(m.stage)->0.source_digests,
                name,
                m.base.config.verify_upstream_metadata,
            ) == Ok::<Option<Seq<char>>, Seq<char>>(digest)
        }
}

/// The source file that a state is about to fetch.
spec fn source_due(m: SyncModel) -> Option<Seq<char>> {
    match m.stage {
        StageModel::SourcePath(p, i) => Some(p.plan.source_files[i as int].filename),
        StageModel::SourceFile(p, i, _) => Some(p.plan.source_files[i as int].filename),
        _ => None,
    }
}

/// Every source file that a state has noted was fetched, but for the one that is due.
spec fn noted_sources_hold(states: Seq<SyncModel>, events: Seq<EventModel>, k: int) -> bool {
    &&& forall|name: Seq<char>| #[trigger]
        states[k].base.prefetched_sources.contains(name) ==> source_was_prefetched(
            states,
            events,
            k,
            name,
        ) || source_due(states[k]) == Some(name)
    &&& states[k].stage matches StageModel::SourceFile(p, i, digest) ==> prefetch_digest(
        p.source_digests,
        p.plan.source_files[i as int].filename,
        states[k].base.config.verify_upstream_metadata,
    ) == Ok::<Option<Seq<char>>, Seq<char>>(digest)
}

/// How a step notes source files.
spec fn sources_noted(m: SyncModel, event: EventModel, n: SyncModel) -> bool {
    &&& forall|name: Seq<char>| #[trigger]
        n.base.prefetched_sources.contains(name) ==> m.base.prefetched_sources.contains(name) || source_due(n) == Some(
            name,
        )
    &&& m.stage matches StageModel::SourcePath(p, i) ==> n.base == m.base && (
    n.stage matches StageModel::SourceFile(q, j, digest) && q == p && j == i)
    &&& m.stage is SourceFile ==> event == EventModel::Accepted
    &&& n.stage matches StageModel::SourceFile(p, i, digest) ==> prefetch_digest(
        p.source_digests,
        p.plan.source_files[i as int].filename,
        n.base.config.verify_upstream_metadata,
    ) == Ok::<Option<Seq<char>>, Seq<char>>(digest)
    &&& n.stage matches StageModel::SourceFile(p, i, digest) ==> m.stage == StageModel::SourcePath(p, i)
        && event == EventModel::Accepted
}

proof fn sources_left_note(base: BaseModel, p: PlannedModel, from: nat)
    requires
        ascending(base.prefetched_sources),
    ensures
        ({
            let n = with_sources_left(base, p, from);
            &&& n.base.prefetched == base.prefetched
            &&& forall|name: Seq<char>| #[trigger]
                n.base.prefetched_sources.contains(name) ==> base.prefetched_sources.contains(name)
                    || source_due(n) == Some(name)
            &&& !(n.stage is PackageFile) && !(n.stage is SourceFile)
        }),
{
    let i = next_source(p.plan.source_files, from, base.prefetched_sources);
    with_text_ascending(base.prefetched_sources, p.plan.source_files[i as int].filename);
}

proof fn packages_left_note(base: BaseModel, p: PlannedModel, from: nat)
    requires
        ascending(base.prefetched),
        ascending(base.prefetched_sources),
    ensures
        ({
            let n = with_packages_left(base, p, from);
            &&& forall|name: Seq<char>| #[trigger]
                n.base.prefetched.contains(name) ==> base.prefetched.contains(name) || package_due(
                    n,
                ) == Some(name)
            &&& forall|name: Seq<char>| #[trigger]
                n.base.prefetched_sources.contains(name) ==> base.prefetched_sources.contains(name)
                    || source_due(n) == Some(name)
            &&& !(n.stage is PackageFile) && !(n.stage is SourceFile)
        }),
{
    let i = next_package(p.plan.package_files, from, base.prefetched);
    with_text_ascending(base.prefetched, p.plan.package_files[i as int].filename);
    sources_left_note(base, p, 0);
}

#[verifier::rlimit(40)]
proof fn step_notes(m: SyncModel, event: EventModel, date: Seq<char>, n: SyncModel)
    requires
        well_formed(m),
        sync_step(m, event, date) == Ok::<SyncModel, RefusalModel>(n),
    ensures
        packages_noted(m, event, n),
        sources_noted(m, event, n),
{
    match m.stage {
        StageModel::Release => {
            reveal(on_release);
        },
        StageModel::InRelease(_) => {
            reveal(on_in_release);
        },
        StageModel::Signature(_) => {
            reveal(on_signature);
        },
        StageModel::Key(_, _) => {
            reveal(on_key);
        },
        StageModel::Cleartext(_, _) => {
            reveal(on_cleartext);
        },
        StageModel::Detached(_, _, _) => {
            reveal(on_detached);
        },
        StageModel::PackageIndex(_) => {
            reveal(on_package_index);
        },
        StageModel::SourceIndex(_) => {
            reveal(on_source_index);
        },
        StageModel::Paths(p) => {
            reveal(on_paths);
            packages_left_note(m.base, p, 0);
        },
        StageModel::Contents(_) => {
            reveal(on_contents);
        },
        StageModel::Digests(_, _) => {
            reveal(on_digests);
        },
        StageModel::Publish(p, _) => {
            reveal(on_package_file);
            packages_left_note(m.base, p, 0);
        },
        StageModel::PackagePath(_, _) => {
            reveal(on_package_path);
        },
        StageModel::PackageFile(p, i, _) => {
            reveal(on_package_file);
            packages_left_note(m.base, p, i + 1);
        },
        StageModel::SourcePath(_, _) => {
            reveal(on_source_path);
        },
        StageModel::SourceFile(p, i, _) => {
            reveal(on_source_file);
            sources_left_note(m.base, p, i + 1);
        },
        StageModel::Done => {},
    }
}

proof fn packages_hold_on(states: Seq<SyncModel>, events: Seq<EventModel>, k: int)
    requires
        0 <= k,
        noted_packages_hold(states, events, k),
        packages_noted(states[k], events[k], states[k + 1]),
    ensures
        noted_packages_hold(states, events, k + 1),
{
    let m = states[k];
    let n = states[k + 1];
    assert forall|name: Seq<char>| #[trigger] n.base.prefetched.contains(
        name,
    ) implies package_was_prefetched(states, events, k + 1, name) || package_due(n) == Some(name) by {
        if m.base.prefetched.contains(name) && package_due(n) != Some(name) {
            if package_was_prefetched(states, events, k, name) {
                let i = choose|i: int|
                    0 <= i < k && events[i] == EventModel::Accepted && {
                        let m = #[trigger] states[i];
                        &&& planned_at(m.stage) is Some
                        &&& sync_action(m) matches ActionModel::PrefetchPackage(named, digest)
                            && named == name && prefetch_digest(
                            planned_at(m.stage)->0.package_digests,
                            name,
                            m.base.config.verify_upstream_metadata,
                        ) == Ok::<Option<Seq<char>>, Seq<char>>(digest)
                    };
                assert(0 <= i < k + 1 && planned_at(states[i].stage) is Some);
            } else {
                assert(package_due(m) == Some(name));
                assert(m.stage is PackageFile);
                assert(planned_at(m.stage) is Some);
            }
        }
    }
}

proof fn sources_hold_on(states: Seq<SyncModel>, events: Seq<EventModel>, k: int)
    requires
        0 <= k,
        noted_sources_hold(states, events, k),
        sources_noted(states[k], events[k], states[k + 1]),
    ensures
        noted_sources_hold(states, events, k + 1),
{
    let m = states[k];
    let n = states[k + 1];
    assert forall|name: Seq<char>| #[trigger] n.base.prefetched_sources.contains(
        name,
    ) implies source_was_prefetched(states, events, k + 1, name) || source_due(n) == Some(name) by {
        if m.base.prefetched_sources.contains(name) && source_due(n) != Some(name) {
            if source_was_prefetched(states, events, k, name) {
                let i = choose|i: int|
                    0 <= i < k && events[i] == EventModel::Accepted && {
                        let m = #[trigger] states[i];
                        &&& planned_at(m.stage) is Some
                        &&& sync_action(m) matches ActionModel::PrefetchSource(named, digest)
                            && named == name && prefetch_digest(
                            planned_at(m.stage)->0.source_digests,
                            name,
                            m.base.config.verify_upstream_metadata,
                        ) == Ok::<Option<Seq<char>>, Seq<char>>(digest)
                    };
                assert(0 <= i < k + 1 && planned_at(states[i].stage) is Some);
            } else {
                assert(source_due(m) == Some(name));
                assert(m.stage is SourceFile);
                assert(planned_at(m.stage) is Some);
            }
        }
    }
}

proof fn run_notes(
    states: Seq<SyncModel>,
    events: Seq<EventModel>,
    dates: Seq<Seq<char>>,
    k: int,
)
    requires
        is_run(states, events, dates),
        is_fresh(states[0]),
        0 <= k < states.len(),
    ensures
        noted_packages_hold(states, events, k),
        noted_sources_hold(states, events, k),
    decreases k,
{
    if k > 0 {
        let j = k - 1;
        run_notes(states, events, dates, j);
        run_agrees(states, events, dates, j);
        assert(follows(states[j], events[j], dates[j], states[j + 1]));
        reveal(follows);
        step_notes(states[j], events[j], dates[j], states[k]);
        packages_hold_on(states, events, j);
        sources_hold_on(states, events, j);
    }
}

proof fn download_counts(files: Seq<PackageFileModel>, j: int)
    requires
        0 <= j < files.len(),
        files[j].download,
    ensures
        package_downloads(files).contains(files[j].filename),
    decreases files.len(),
{
    let name = files[j].filename;
    let t = files.drop_last();
    let before = package_downloads(t);
    let r = package_downloads(files);
    if j < t.len() {
        assert(t[j] == files[j]);
        download_counts(t, j);
        let i = choose|i: int| 0 <= i < before.len() && before[i] == name;
        assert(r[i] == name);
    } else {
        assert(r[before.len() as int] == name);
    }
}

proof fn source_download_counts(files: Seq<PlannedSourceModel>, j: int)
    requires
        0 <= j < files.len(),
        files[j].download,
    ensures
        source_downloads(files).contains(files[j].filename),
    decreases files.len(),
{
    let name = files[j].filename;
    let t = files.drop_last();
    let before = source_downloads(t);
    let r = source_downloads(files);
    if j < t.len() {
        assert(t[j] == files[j]);
        source_download_counts(t, j);
        let i = choose|i: int| 0 <= i < before.len() && before[i] == name;
        assert(r[i] == name);
    } else {
        assert(r[before.len() as int] == name);
    }
}

proof fn downloads_add_up(plans: Seq<PlanModel>, t: int, name: Seq<char>)
    requires
        0 <= t < plans.len(),
    ensures
        package_downloads(plans[t].package_files).contains(name) ==> all_package_downloads(
            plans,
        ).contains(name),
        source_downloads(plans[t].source_files).contains(name) ==> all_source_downloads(
            plans,
        ).contains(name),
    decreases plans.len(),
{
    let rest = plans.drop_last();
    let a = all_package_downloads(rest);
    let b = all_source_downloads(rest);
    let r = all_package_downloads(plans);
    let q = all_source_downloads(plans);
    if t < rest.len() {
        assert(rest[t] == plans[t]);
        downloads_add_up(rest, t, name);
        if a.contains(name) {
            let i = choose|i: int| 0 <= i < a.len() && a[i] == name;
            assert(r[i] == name);
        }
        if b.contains(name) {
            let i = choose|i: int| 0 <= i < b.len() && b[i] == name;
            assert(q[i] == name);
        }
    } else {
        let x = package_downloads(plans[t].package_files);
        let y = source_downloads(plans[t].source_files);
        if x.contains(name) {
            let i = choose|i: int| 0 <= i < x.len() && x[i] == name;
            assert(r[a.len() + i] == name);
        }
        if y.contains(name) {
            let i = choose|i: int| 0 <= i < y.len() && y[i] == name;
            assert(q[b.len() + i] == name);
        }
    }
}

/// A sync that is done has fetched every file that a plan of it means to download:
/// each was asked for in the run, against the digest that the indexes give it, and
/// accepted.
pub proof fn every_download_was_fetched(
    states: Seq<SyncModel>,
    events: Seq<EventModel>,
    dates: Seq<Seq<char>>,
    t: int,
    j: int,
)
    requires
        is_run(states, events, dates),
        is_fresh(states[0]),
        states.last().stage is Done,
        0 <= t < states.last().base.plans.len(),
    ensures
        ({
            let plan = states.last().base.plans[t];
            let k = states.len() - 1;
            &&& 0 <= j < plan.package_files.len() && plan.package_files[j].download
                ==> package_was_prefetched(states, events, k, plan.package_files[j].filename)
            &&& 0 <= j < plan.source_files.len() && plan.source_files[j].download
                ==> source_was_prefetched(states, events, k, plan.source_files[j].filename)
        }),
{
    let k = states.len() - 1;
    let base = states[k].base;
    let plan = base.plans[t];
    done_means_every_distribution_is_planned(states, events, dates);
    run_notes(states, events, dates, k);
    text_set_holds(all_package_downloads(base.plans));
    text_set_holds(all_source_downloads(base.plans));
    if 0 <= j < plan.package_files.len() && plan.package_files[j].download {
        let name = plan.package_files[j].filename;
        download_counts(plan.package_files, j);
        downloads_add_up(base.plans, t, name);
        assert(base.prefetched.contains(name));
    }
    if 0 <= j < plan.source_files.len() && plan.source_files[j].download {
        let name = plan.source_files[j].filename;
        source_download_counts(plan.source_files, j);
        downloads_add_up(base.plans, t, name);
        assert(base.prefetched_sources.contains(name));
    }
}

/// No file is fetched before its path was checked and accepted.
pub proof fn every_fetched_path_was_checked(
    states: Seq<SyncModel>,
    events: Seq<EventModel>,
    dates: Seq<Seq<char>>,
    k: int,
    name: Seq<char>,
    digest: Option<Seq<char>>,
)
    requires
        is_run(states, events, dates),
        is_fresh(states[0]),
        0 <= k < states.len(),
        sync_action(states[k]) == ActionModel::PrefetchPackage(name, digest) || sync_action(
            states[k],
        ) == ActionModel::PrefetchSource(name, digest),
    ensures
        k > 0,
        sync_action(states[k - 1]) == ActionModel::CheckFetchPath(name),
        events[k - 1] == EventModel::Accepted,
{
    let j = k - 1;
    if k > 0 {
        run_agrees(states, events, dates, j);
        assert(follows(states[j], events[j], dates[j], states[j + 1]));
        reveal(follows);
        step_notes(states[j], events[j], dates[j], states[k]);
    }
}

/// Some state of the run before this one held the plan of the distribution.
pub open spec fn was_planned(
    states: Seq<SyncModel>,
    k: int,
    turn: int,
    plan: PlanModel,
) -> bool {
    exists|i: int|
        0 <= i < k && planned_at((#[trigger] states[i]).stage) is Some && states[i].base.turn == turn
            && planned_at(states[i].stage)->0.plan == plan
}

/// Each plan that a sync hands out is one that a state of its run held, while the sync
/// was at the distribution that the plan is for.
pub proof fn every_plan_was_held(
    states: Seq<SyncModel>,
    events: Seq<EventModel>,
    dates: Seq<Seq<char>>,
    k: int,
    t: int,
)
    requires
        is_run(states, events, dates),
        is_fresh(states[0]),
        0 <= k < states.len(),
        0 <= t < states[k].base.plans.len(),
    ensures
        was_planned(states, k, t, states[k].base.plans[t]),
    decreases k,
{
    if k > 0 {
        let j = k - 1;
        run_agrees(states, events, dates, j);
        assert(follows(states[j], events[j], dates[j], states[j + 1]));
        reveal(follows);
        step_goes_on(states[j], events[j], dates[j], states[k]);
        let plan = states[k].base.plans[t];
        if t < states[j].base.plans.len() {
            every_plan_was_held(states, events, dates, j, t);
            assert(plan == states[j].base.plans[t]);
            let i = choose|i: int|
                0 <= i < j && planned_at((#[trigger] states[i]).stage) is Some
                    && states[i].base.turn == t && planned_at(states[i].stage)->0.plan == plan;
            assert(planned_at(states[i].stage) is Some);
        } else {
            assert(planned_at(states[j].stage) is Some);
        }
    }
}

/// The Release that is published names the component of every index of the plan, and
/// every architecture of a Packages index, and no others.
pub proof fn published_release_names_indexes(plan: PlanModel, value: Seq<char>)
    ensures
        planned_components(plan).contains(value) <==> (exists|n: int|
            0 <= n < plan.package_indexes.len() && (
            #[trigger] plan.package_indexes[n]).component == value) || (exists|n: int|
            0 <= n < plan.source_indexes.len() && (
            #[trigger] plan.source_indexes[n]).component == value),
        planned_architectures(plan).contains(value) <==> exists|n: int|
            0 <= n < plan.package_indexes.len() && (
            #[trigger] plan.package_indexes[n]).architecture == value,
{
    let a = plan.package_indexes.map_values(|index: IndexModel| index.component);
    let b = plan.source_indexes.map_values(|index: SourceIndexModel| index.component);
    let c = plan.package_indexes.map_values(|index: IndexModel| index.architecture);
    text_set_holds(a + b);
    text_set_holds(c);
    if (a + b).contains(value) {
        let i = choose|i: int| 0 <= i < (a + b).len() && (a + b)[i] == value;
        if i < a.len() {
            assert(plan.package_indexes[i].component == value);
        } else {
            assert(plan.source_indexes[i - a.len()].component == value);
        }
    }
    if exists|n: int|
        0 <= n < plan.package_indexes.len() && (#[trigger] plan.package_indexes[n]).component
            == value {
        let n = choose|n: int|
            0 <= n < plan.package_indexes.len() && (#[trigger] plan.package_indexes[n]).component
                == value;
        assert((a + b)[n] == value);
    }
    if exists|n: int|
        0 <= n < plan.source_indexes.len() && (#[trigger] plan.source_indexes[n]).component
            == value {
        let n = choose|n: int|
            0 <= n < plan.source_indexes.len() && (#[trigger] plan.source_indexes[n]).component
                == value;
        assert((a + b)[a.len() + n] == value);
    }
    if c.contains(value) {
        let i = choose|i: int| 0 <= i < c.len() && c[i] == value;
        assert(plan.package_indexes[i].architecture == value);
    }
    if exists|n: int|
        0 <= n < plan.package_indexes.len() && (#[trigger] plan.package_indexes[n]).architecture
            == value {
        let n = choose|n: int|
            0 <= n < plan.package_indexes.len() && (
            #[trigger] plan.package_indexes[n]).architecture == value;
        assert(c[n] == value);
    }
}

/// In the run before a state, the metadata of a distribution was handed over to be
/// published, and accepted.
pub open spec fn was_published(
    states: Seq<SyncModel>,
    events: Seq<EventModel>,
    k: int,
    turn: int,
) -> bool {
    exists|i: int|
        0 <= i < k && (#[trigger] states[i]).base.turn == turn && sync_action(states[i]) is Publish
            && events[i] == EventModel::Accepted
}

/// The sync is at the files of a distribution.
pub open spec fn is_at_files(stage: StageModel) -> bool {
    stage is PackagePath || stage is PackageFile || stage is SourcePath || stage is SourceFile
}

#[verifier::rlimit(40)]
proof fn files_come_after_publication(m: SyncModel, event: EventModel, date: Seq<char>, n: SyncModel)
    requires
        sync_step(m, event, date) == Ok::<SyncModel, RefusalModel>(n),
    ensures
        is_at_files(n.stage) || n.base.turn != m.base.turn ==> is_at_files(m.stage) || (
        m.stage is Publish && event == EventModel::Accepted) || !m.base.config.generated_metadata_enabled,
{
    match m.stage {
        StageModel::Release => {
            reveal(on_release);
        },
        StageModel::InRelease(_) => {
            reveal(on_in_release);
        },
        StageModel::Signature(_) => {
            reveal(on_signature);
        },
        StageModel::Key(_, _) => {
            reveal(on_key);
        },
        StageModel::Cleartext(_, _) => {
            reveal(on_cleartext);
        },
        StageModel::Detached(_, _, _) => {
            reveal(on_detached);
        },
        StageModel::PackageIndex(_) => {
            reveal(on_package_index);
        },
        StageModel::SourceIndex(_) => {
            reveal(on_source_index);
        },
        StageModel::Paths(_) => {
            reveal(on_paths);
        },
        StageModel::Contents(_) => {
            reveal(on_contents);
        },
        StageModel::Digests(_, _) => {
            reveal(on_digests);
        },
        StageModel::Publish(_, _) => {
            reveal(on_package_file);
        },
        _ => {},
    }
}

/// Where metadata is generated, no file of a distribution is fetched, and none is left
/// behind, before its metadata was published.
pub proof fn every_plan_was_published(
    states: Seq<SyncModel>,
    events: Seq<EventModel>,
    dates: Seq<Seq<char>>,
    k: int,
)
    requires
        is_run(states, events, dates),
        is_fresh(states[0]),
        0 <= k < states.len(),
        states[0].base.config.generated_metadata_enabled,
    ensures
        forall|t: int|
            0 <= t < states[k].base.turn ==> #[trigger] was_published(states, events, k, t),
        is_at_files(states[k].stage) ==> was_published(
            states,
            events,
            k,
            states[k].base.turn as int,
        ),
    decreases k,
{
    if k > 0 {
        let j = k - 1;
        every_plan_was_published(states, events, dates, j);
        run_agrees(states, events, dates, j);
        assert(follows(states[j], events[j], dates[j], states[j + 1]));
        reveal(follows);
        step_goes_on(states[j], events[j], dates[j], states[k]);
        files_come_after_publication(states[j], events[j], dates[j], states[k]);
        assert forall|t: int| #[trigger] was_published(states, events, j, t) implies was_published(
            states,
            events,
            k,
            t,
        ) by {
            let i = choose|i: int|
                0 <= i < j && (#[trigger] states[i]).base.turn == t && sync_action(
                    states[i],
                ) is Publish && events[i] == EventModel::Accepted;
            assert(states[i].base.turn == t);
        }
        let now = states[j].base.turn as int;
        if is_at_files(states[k].stage) || states[k].base.turn != states[j].base.turn {
            if states[j].stage is Publish {
                assert(states[j].base.turn == now && sync_action(states[j]) is Publish);
                assert(was_published(states, events, k, now));
            } else {
                assert(was_published(states, events, j, now));
            }
        }
        assert forall|t: int| 0 <= t < states[k].base.turn implies #[trigger] was_published(
            states,
            events,
            k,
            t,
        ) by {
            if t < now {
                assert(was_published(states, events, j, t));
            }
        }
    }
}

// ---------------------------------------------------------------------------
// Which answers let a sync go on
// ---------------------------------------------------------------------------

/// The text is that of a Release that advertises what the mirror is after.
pub open spec fn is_acceptable_release(base: BaseModel, text: Seq<char>) -> bool {
    release_of(text) matches Ok(release) && all_advertised(
        base.filter.selection.components,
        release.components,
    ) && all_advertised(base.filter.selection.architectures, release.architectures)
}

/// The answer is that upstream does not have the file.
pub open spec fn is_lack(event: EventModel) -> bool {
    event matches EventModel::Failed(refusal) && refusal.status == 404
}

/// The answer lets the sync go on.
pub open spec fn lets_go_on(m: SyncModel, event: EventModel) -> bool {
    let config = m.base.config;
    let verify = config.verify_upstream_metadata;
    match m.stage {
        StageModel::Release => event matches EventModel::Fetched(bytes) && valid_utf8(bytes),
        StageModel::InRelease(_) => event is Fetched || is_lack(event),
        StageModel::Signature(f) => (event is Fetched || is_lack(event)) && if verify {
            config.upstream_gpg_key_id is Some && !is_blank(config.upstream_gpg_key_id->0)
        } else {
            is_acceptable_release(m.base, f.text)
        },
        StageModel::Key(f, _) => (event matches EventModel::Key(key) && key is Some) && match f.in_release {
            Some(bytes) => valid_utf8(bytes),
            None => f.signature is Some,
        },
        StageModel::Cleartext(_, _) => event matches EventModel::Payload(text)
            && is_acceptable_release(m.base, text),
        StageModel::Detached(f, _, _) => event is Accepted && is_acceptable_release(
            m.base,
            f.text,
        ),
        StageModel::PackageIndex(s) => {
            let path = s.package_indexes[s.taken as int].path;
            (is_lack(event) && config.ignore_missing_indexes) || (
            event matches EventModel::Fetched(content) && index_verdict(
                s.release,
                path,
                content,
                verify,
            ) is Ok && packages_index(path, content) is Ok)
        },
        StageModel::SourceIndex(s) => {
            let path = s.source_indexes[s.taken as int].path;
            (is_lack(event) && config.ignore_missing_indexes) || (
            event matches EventModel::Fetched(content) && index_verdict(
                s.release,
                path,
                content,
                verify,
            ) is Ok && sources_index(path, content) is Ok)
        },
        StageModel::Contents(p) => event matches EventModel::Contents(texts) && generated_metadata(
            p.plan.package_indexes,
            p.plan.source_indexes,
            p.packages,
            p.sources,
            m.base.filter.selection.architectures,
            texts,
        ) is Ok,
        StageModel::Digests(_, g) => event matches EventModel::Digests(digests) && digests.len()
            == g.release_files.len(),
        StageModel::PackagePath(p, i) => event is Accepted && (verify ==> lookup(
            p.package_digests,
            p.plan.package_files[i as int].filename,
        ) is Some),
        StageModel::SourcePath(p, i) => event is Accepted && (verify ==> lookup(
            p.source_digests,
            p.plan.source_files[i as int].filename,
        ) is Some),
        StageModel::Done => false,
        _ => event is Accepted,
    }
}

/// A sync goes on if and only if the answer to what it asked lets it; an answer that
/// something failed, where it does not, is handed on as it is.
#[verifier::rlimit(40)]
pub proof fn sync_goes_on_iff(m: SyncModel, event: EventModel, date: Seq<char>)
    ensures
        sync_step(m, event, date) is Ok <==> lets_go_on(m, event),
        event matches EventModel::Failed(refusal) ==> !lets_go_on(m, event) && !(m.stage is Signature)
            ==> sync_step(m, event, date) == Err::<SyncModel, RefusalModel>(refusal),
{
    match m.stage {
        StageModel::Release => {
            reveal(on_release);
        },
        StageModel::InRelease(_) => {
            reveal(on_in_release);
        },
        StageModel::Signature(f) => {
            reveal(on_signature);
            release_is_acceptable_iff(m.base, f.text);
            if let Some(key_ref) = m.base.config.upstream_gpg_key_id {
                trim_empty_iff_blank(key_ref);
            }
        },
        StageModel::Key(_, _) => {
            reveal(on_key);
        },
        StageModel::Cleartext(_, _) => {
            reveal(on_cleartext);
            if let EventModel::Payload(text) = event {
                release_is_acceptable_iff(m.base, text);
            }
        },
        StageModel::Detached(f, _, _) => {
            reveal(on_detached);
            release_is_acceptable_iff(m.base, f.text);
        },
        StageModel::PackageIndex(_) => {
            reveal(on_package_index);
        },
        StageModel::SourceIndex(_) => {
            reveal(on_source_index);
        },
        StageModel::Paths(_) => {
            reveal(on_paths);
        },
        StageModel::Contents(_) => {
            reveal(on_contents);
        },
        StageModel::Digests(_, _) => {
            reveal(on_digests);
        },
        StageModel::Publish(_, _) => {
            reveal(on_package_file);
        },
        StageModel::PackagePath(_, _) => {
            reveal(on_package_path);
        },
        StageModel::PackageFile(_, _, _) => {
            reveal(on_package_file);
        },
        StageModel::SourcePath(_, _) => {
            reveal(on_source_path);
        },
        StageModel::SourceFile(_, _, _) => {
            reveal(on_source_file);
        },
        StageModel::Done => {},
    }
}

proof fn release_is_acceptable_iff(base: BaseModel, text: Seq<char>)
    ensures
        with_release(base, text) is Ok <==> is_acceptable_release(base, text),
{
    if let Ok(release) = release_of(text) {
        selection_is_accepted_iff_advertised(release, base.filter.selection);
    }
}

/// Where compression does not fail, metadata is generated for every plan.
pub proof fn metadata_is_generated_for_every_plan(
    package_indexes: Seq<IndexModel>,
    source_indexes: Seq<SourceIndexModel>,
    packages: Seq<(Seq<char>, Seq<PackageModel>)>,
    sources: Seq<(Seq<char>, Seq<SourceModel>)>,
    selected: Seq<Seq<char>>,
    contents: Seq<(Seq<char>, Seq<char>)>,
)
    requires
        forall|bytes: Seq<u8>| (#[trigger] gzipped(bytes)) is Ok,
        forall|bytes: Seq<u8>| (#[trigger] xzed(bytes)) is Ok,
    ensures
        generated_metadata(
            package_indexes,
            source_indexes,
            packages,
            sources,
            selected,
            contents,
        ) is Ok,
    decreases package_indexes.len() + source_indexes.len(),
{
    if source_indexes.len() > 0 {
        metadata_is_generated_for_every_plan(
            package_indexes,
            source_indexes.drop_last(),
            packages,
            sources,
            selected,
            contents,
        );
    } else if package_indexes.len() > 0 {
        let t = package_indexes.drop_last();
        metadata_is_generated_for_every_plan(
            t,
            source_indexes,
            packages,
            sources,
            selected,
            contents,
        );
    }
}

// ---------------------------------------------------------------------------
// The start
// ---------------------------------------------------------------------------

/// A sync begins if and only if the repository mirrors an upstream that can be reached,
/// is configured for at least one distribution, and does not sign what it does not
/// verify.
pub proof fn sync_begins_iff(
    repo_type: RepositoryType,
    config: Option<ConfigModel>,
    has_upstream: bool,
    has_proxy: bool,
)
    ensures
        sync_start(repo_type, config, has_upstream, has_proxy) is Ok <==> {
            &&& repo_type == RepositoryType::Remote
            &&& has_upstream
            &&& has_proxy
            &&& config is Some
            &&& config->0.distributions.len() > 0
            &&& config->0.signing_enabled ==> config->0.verify_upstream_metadata
        },
        sync_start(repo_type, config, has_upstream, has_proxy) matches Ok(m) ==> m.base.config
            == config->0,
{
}

/// A sync goes by its configuration: it is after what the configuration names, but for
/// the distributions of a flat repository, and downloads files if and only if the
/// configuration has them fetched ahead.
pub proof fn sync_goes_by_configuration(config: ConfigModel)
    ensures
        filter_of(config).selection.components == config.components,
        filter_of(config).selection.architectures == config.architectures,
        filter_of(config).selection.include_source_packages == config.include_source_packages,
        filter_of(config).selection.distributions == if config.flat_repository {
            Seq::<Seq<char>>::empty()
        } else {
            config.distributions
        },
        filter_of(config).package_queries == config.package_queries,
        filter_of(config).resolve_dependencies == config.resolve_dependencies,
        policy_of(config) == DebianSyncDownloadPolicy::Immediate <==> config.package_fetch_strategy
            == DebianPackageFetchStrategy::PrefetchSelected,
{
}

} // verus!
