//! What holds of whole runs of a sync: what it plans, fetches and publishes, and
//! what readers see of it.

use vstd::prelude::*;

use crate::config::ConfigModel;
use crate::dists::{synced_key, synced_prefix};
use crate::generated::GeneratedModel;
use crate::members::RepositoryType;
use crate::ordered::{ascending, slot_cuts, slot_splits, text_set, text_set_holds, with_text};
use crate::plan::{PackageFileModel, PlanModel, PlannedSourceModel};
use crate::sync::{at, at_distribution, follows, is_run, next_package, next_package_is_left, next_source};
use crate::sync::{next_source_is_left, on_cleartext, on_contents, on_detached, on_digests, on_in_release, on_key};
use crate::sync::{on_package_file, on_package_index, on_package_path, on_paths, on_release, on_signature};
use crate::sync::{on_source_file, on_source_index, on_source_path, publication, start_is_well_formed};
use crate::sync::{step_keeps_well_formed, sync_start, well_formed, with_next_distribution, with_packages_left};
use crate::sync::{with_release, with_sources_left, BaseModel, EventModel, FetchedModel, PlannedModel};
use crate::sync::{PublicationModel, SelectionModel, StageModel, SyncModel};
use crate::text::{starts_with, trim_char};

verus! {

// ---------------------------------------------------------------------------
// Plans and files
// ---------------------------------------------------------------------------

/// A sync that has only begun.
pub open spec fn is_fresh(m: SyncModel) -> bool {
    &&& well_formed(m)
    &&& m.stage is Release
    &&& m.base.turn == 0
    &&& m.base.plans.len() == 0
    &&& m.base.prefetched.len() == 0
    &&& m.base.prefetched_sources.len() == 0
}

/// A sync begins with nothing planned and nothing fetched.
pub proof fn start_is_fresh(
    repo_type: RepositoryType,
    config: Option<ConfigModel>,
    has_upstream: bool,
    has_proxy: bool,
)
    ensures
        sync_start(repo_type, config, has_upstream, has_proxy) matches Ok(m) ==> is_fresh(m),
{
    start_is_well_formed(repo_type, config, has_upstream, has_proxy);
}

/// The names of the package files that are to be fetched.
pub open spec fn package_downloads(files: Seq<PackageFileModel>) -> Seq<Seq<char>>
    decreases files.len(),
{
    if files.len() == 0 {
        seq![]
    } else if files.last().download {
        package_downloads(files.drop_last()).push(files.last().filename)
    } else {
        package_downloads(files.drop_last())
    }
}

/// The names of the source files that are to be fetched.
pub open spec fn source_downloads(files: Seq<PlannedSourceModel>) -> Seq<Seq<char>>
    decreases files.len(),
{
    if files.len() == 0 {
        seq![]
    } else if files.last().download {
        source_downloads(files.drop_last()).push(files.last().filename)
    } else {
        source_downloads(files.drop_last())
    }
}

/// The names of the package files that the plans have fetched.
pub open spec fn all_package_downloads(plans: Seq<PlanModel>) -> Seq<Seq<char>>
    decreases plans.len(),
{
    if plans.len() == 0 {
        seq![]
    } else {
        all_package_downloads(plans.drop_last()) + package_downloads(plans.last().package_files)
    }
}

/// The names of the source files that the plans have fetched.
pub open spec fn all_source_downloads(plans: Seq<PlanModel>) -> Seq<Seq<char>>
    decreases plans.len(),
{
    if plans.len() == 0 {
        seq![]
    } else {
        all_source_downloads(plans.drop_last()) + source_downloads(plans.last().source_files)
    }
}

/// The plan that a stage is at.
pub open spec fn plan_at(stage: StageModel) -> Option<PlanModel> {
    match stage {
        StageModel::Paths(p) => Some(p.plan),
        StageModel::Contents(p) => Some(p.plan),
        StageModel::Digests(p, _) => Some(p.plan),
        StageModel::Publish(p, _) => Some(p.plan),
        StageModel::PackagePath(p, _) => Some(p.plan),
        StageModel::PackageFile(p, _, _) => Some(p.plan),
        StageModel::SourcePath(p, _) => Some(p.plan),
        StageModel::SourceFile(p, _, _) => Some(p.plan),
        _ => None,
    }
}

/// The names of the package files of its plan that a stage has come to.
pub open spec fn packages_so_far(stage: StageModel) -> Seq<Seq<char>> {
    match stage {
        StageModel::PackagePath(p, i) => package_downloads(p.plan.package_files.take(i as int + 1)),
        StageModel::PackageFile(p, i, _) => package_downloads(p.plan.package_files.take(i as int + 1)),
        StageModel::SourcePath(p, _) => package_downloads(p.plan.package_files),
        StageModel::SourceFile(p, _, _) => package_downloads(p.plan.package_files),
        _ => seq![],
    }
}

/// The names of the source files of its plan that a stage has come to.
pub open spec fn sources_so_far(stage: StageModel) -> Seq<Seq<char>> {
    match stage {
        StageModel::SourcePath(p, i) => source_downloads(p.plan.source_files.take(i as int + 1)),
        StageModel::SourceFile(p, i, _) => source_downloads(p.plan.source_files.take(i as int + 1)),
        _ => seq![],
    }
}

/// The plans are those of the distributions in turn.
pub open spec fn plans_in_turn(base: BaseModel) -> bool {
    forall|i: int|
        0 <= i < base.plans.len() ==> (#[trigger] base.plans[i]).distribution == trim_char(
            base.config.distributions[i],
            '/',
        )
}

/// What a sync notes agrees with what it did: each plan is that of its
/// distribution, and the files noted are those that the plans have fetched so far.
pub open spec fn agrees(m: SyncModel) -> bool {
    &&& plans_in_turn(m.base)
    &&& plan_at(m.stage) matches Some(plan) ==> plan.distribution == at_distribution(m.base)
    &&& m.base.prefetched == text_set(
        all_package_downloads(m.base.plans) + packages_so_far(m.stage),
    )
    &&& m.base.prefetched_sources == text_set(
        all_source_downloads(m.base.plans) + sources_so_far(m.stage),
    )
}

proof fn known_text_adds_nothing(keys: Seq<Seq<char>>, k: Seq<char>)
    requires
        ascending(keys),
        keys.contains(k),
    ensures
        with_text(keys, k) == keys,
{
    slot_cuts(keys, k);
    slot_splits(keys, k);
}

proof fn one_more_text(xs: Seq<Seq<char>>, ys: Seq<Seq<char>>, y: Seq<char>)
    ensures
        text_set(xs + ys.push(y)) == with_text(text_set(xs + ys), y),
{
    assert((xs + ys.push(y)).drop_last() =~= xs + ys);
}

/// Files that are passed over would add nothing to those noted.
proof fn passed_packages_add_nothing(
    xs: Seq<Seq<char>>,
    files: Seq<PackageFileModel>,
    from: nat,
    done: Seq<Seq<char>>,
)
    requires
        from <= files.len(),
        done == text_set(xs + package_downloads(files.take(from as int))),
    ensures
        done == text_set(
            xs + package_downloads(files.take(next_package(files, from, done) as int)),
        ),
    decreases files.len() - from,
{
    if from < files.len() && !(files[from as int].download && !done.contains(
        files[from as int].filename,
    )) {
        let next = files.take(from as int + 1);
        assert(next.drop_last() =~= files.take(from as int));
        if files[from as int].download {
            text_set_holds(xs + package_downloads(files.take(from as int)));
            known_text_adds_nothing(done, files[from as int].filename);
            one_more_text(
                xs,
                package_downloads(files.take(from as int)),
                files[from as int].filename,
            );
        }
        passed_packages_add_nothing(xs, files, from + 1, done);
    }
}

proof fn passed_sources_add_nothing(
    xs: Seq<Seq<char>>,
    files: Seq<PlannedSourceModel>,
    from: nat,
    done: Seq<Seq<char>>,
)
    requires
        from <= files.len(),
        done == text_set(xs + source_downloads(files.take(from as int))),
    ensures
        done == text_set(
            xs + source_downloads(files.take(next_source(files, from, done) as int)),
        ),
    decreases files.len() - from,
{
    if from < files.len() && !(files[from as int].download && !done.contains(
        files[from as int].filename,
    )) {
        let next = files.take(from as int + 1);
        assert(next.drop_last() =~= files.take(from as int));
        if files[from as int].download {
            text_set_holds(xs + source_downloads(files.take(from as int)));
            known_text_adds_nothing(done, files[from as int].filename);
            one_more_text(
                xs,
                source_downloads(files.take(from as int)),
                files[from as int].filename,
            );
        }
        passed_sources_add_nothing(xs, files, from + 1, done);
    }
}

proof fn next_distribution_agrees(base: BaseModel, p: PlannedModel)
    requires
        plans_in_turn(base),
        base.plans.len() == base.turn,
        p.plan.distribution == at_distribution(base),
        base.prefetched == text_set(
            all_package_downloads(base.plans) + package_downloads(p.plan.package_files),
        ),
        base.prefetched_sources == text_set(
            all_source_downloads(base.plans) + source_downloads(p.plan.source_files),
        ),
    ensures
        agrees(with_next_distribution(base, p)),
{
    let n = with_next_distribution(base, p);
    let plans = base.plans.push(p.plan);
    assert(plans.drop_last() =~= base.plans);
    assert(all_package_downloads(plans) + Seq::<Seq<char>>::empty() =~= all_package_downloads(
        plans,
    ));
    assert(all_source_downloads(plans) + Seq::<Seq<char>>::empty() =~= all_source_downloads(plans));
    assert forall|i: int| 0 <= i < n.base.plans.len() implies (
    #[trigger] n.base.plans[i]).distribution == trim_char(
        n.base.config.distributions[i],
        '/',
    ) by {
        if i < base.plans.len() {
            assert(n.base.plans[i] == base.plans[i]);
        }
    }
}

proof fn sources_left_agree(base: BaseModel, p: PlannedModel, from: nat)
    requires
        plans_in_turn(base),
        base.plans.len() == base.turn,
        p.plan.distribution == at_distribution(base),
        from <= p.plan.source_files.len(),
        base.prefetched == text_set(
            all_package_downloads(base.plans) + package_downloads(p.plan.package_files),
        ),
        base.prefetched_sources == text_set(
            all_source_downloads(base.plans) + source_downloads(
                p.plan.source_files.take(from as int),
            ),
        ),
    ensures
        agrees(with_sources_left(base, p, from)),
{
    let files = p.plan.source_files;
    let xs = all_source_downloads(base.plans);
    let i = next_source(files, from, base.prefetched_sources);
    next_source_is_left(files, from, base.prefetched_sources);
    passed_sources_add_nothing(xs, files, from, base.prefetched_sources);
    if i < files.len() {
        assert(files.take(i as int + 1).drop_last() =~= files.take(i as int));
        one_more_text(xs, source_downloads(files.take(i as int)), files[i as int].filename);
        let n = with_sources_left(base, p, from);
        assert(n.base.plans == base.plans);
    } else {
        assert(files.take(i as int) =~= files);
        next_distribution_agrees(base, p);
    }
}

proof fn packages_left_agree(base: BaseModel, p: PlannedModel, from: nat)
    requires
        plans_in_turn(base),
        base.plans.len() == base.turn,
        p.plan.distribution == at_distribution(base),
        from <= p.plan.package_files.len(),
        base.prefetched == text_set(
            all_package_downloads(base.plans) + package_downloads(
                p.plan.package_files.take(from as int),
            ),
        ),
        base.prefetched_sources == text_set(all_source_downloads(base.plans)),
    ensures
        agrees(with_packages_left(base, p, from)),
{
    let files = p.plan.package_files;
    let xs = all_package_downloads(base.plans);
    let ys = all_source_downloads(base.plans);
    let i = next_package(files, from, base.prefetched);
    next_package_is_left(files, from, base.prefetched);
    passed_packages_add_nothing(xs, files, from, base.prefetched);
    assert(ys + Seq::<Seq<char>>::empty() =~= ys);
    if i < files.len() {
        assert(files.take(i as int + 1).drop_last() =~= files.take(i as int));
        one_more_text(xs, package_downloads(files.take(i as int)), files[i as int].filename);
        let n = with_packages_left(base, p, from);
        assert(n.base.plans == base.plans);
    } else {
        assert(files.take(i as int) =~= files);
        assert(p.plan.source_files.take(0) =~= seq![]);
        sources_left_agree(base, p, 0);
    }
}

proof fn release_agrees(base: BaseModel, text: Seq<char>)
    requires
        agrees(at(base, StageModel::Release)),
    ensures
        with_release(base, text) matches Ok(n) ==> agrees(n) && n.base == base,
{
}

proof fn index_agrees(base: BaseModel, s: SelectionModel, event: EventModel)
    requires
        agrees(at(base, StageModel::Release)),
    ensures
        on_package_index(base, s, event) matches Ok(n) ==> agrees(n) && n.base == base,
        on_source_index(base, s, event) matches Ok(n) ==> agrees(n) && n.base == base,
{
    reveal(on_package_index);
    reveal(on_source_index);
}

proof fn fetched_agrees(base: BaseModel, f: FetchedModel, key_ref: Seq<char>, event: EventModel)
    requires
        agrees(at(base, StageModel::Release)),
    ensures
        on_release(base, event) matches Ok(n) ==> agrees(n) && n.base == base,
        on_in_release(base, f, event) matches Ok(n) ==> agrees(n) && n.base == base,
        on_signature(base, f, event) matches Ok(n) ==> agrees(n) && n.base == base,
        on_key(base, f, key_ref, event) matches Ok(n) ==> agrees(n) && n.base == base,
        on_cleartext(base, event) matches Ok(n) ==> agrees(n) && n.base == base,
        on_detached(base, f, event) matches Ok(n) ==> agrees(n) && n.base == base,
{
    reveal(on_release);
    reveal(on_in_release);
    reveal(on_signature);
    reveal(on_key);
    reveal(on_cleartext);
    reveal(on_detached);
    release_agrees(base, f.text);
    if let EventModel::Payload(text) = event {
        release_agrees(base, text);
    }
}

#[verifier::rlimit(40)]
proof fn step_agrees(m: SyncModel, event: EventModel, date: Seq<char>, n: SyncModel)
    requires
        well_formed(m),
        agrees(m),
        follows(m, event, date, n),
    ensures
        well_formed(n),
        agrees(n),
        n.base.config == m.base.config,
{
    reveal(follows);
    step_keeps_well_formed(m, event, date);
    let base = m.base;
    let none = Seq::<Seq<char>>::empty();
    assert(all_package_downloads(base.plans) + none =~= all_package_downloads(base.plans));
    assert(all_source_downloads(base.plans) + none =~= all_source_downloads(base.plans));
    match m.stage {
        StageModel::Release => fetched_agrees(base, arbitrary(), arbitrary(), event),
        StageModel::InRelease(f) => fetched_agrees(base, f, arbitrary(), event),
        StageModel::Signature(f) => fetched_agrees(base, f, arbitrary(), event),
        StageModel::Key(f, key_ref) => fetched_agrees(base, f, key_ref, event),
        StageModel::Cleartext(_, _) => fetched_agrees(base, arbitrary(), arbitrary(), event),
        StageModel::Detached(f, _, _) => fetched_agrees(base, f, arbitrary(), event),
        StageModel::PackageIndex(s) => index_agrees(base, s, event),
        StageModel::SourceIndex(s) => index_agrees(base, s, event),
        StageModel::Paths(p) => {
            reveal(on_paths);
            assert(p.plan.package_files.take(0) =~= seq![]);
            packages_left_agree(base, p, 0);
        },
        StageModel::Contents(_) => {
            reveal(on_contents);
        },
        StageModel::Digests(_, _) => {
            reveal(on_digests);
        },
        StageModel::Publish(p, _) => {
            reveal(on_package_file);
            assert(p.plan.package_files.take(0) =~= seq![]);
            packages_left_agree(base, p, 0);
        },
        StageModel::PackagePath(_, _) => {
            reveal(on_package_path);
        },
        StageModel::PackageFile(p, i, _) => {
            reveal(on_package_file);
            packages_left_agree(base, p, i + 1);
        },
        StageModel::SourcePath(_, _) => {
            reveal(on_source_path);
        },
        StageModel::SourceFile(p, i, _) => {
            reveal(on_source_file);
            sources_left_agree(base, p, i + 1);
        },
        StageModel::Done => {},
    }
}

proof fn fresh_agrees(m: SyncModel)
    requires
        is_fresh(m),
    ensures
        agrees(m),
{
    assert(m.base.prefetched =~= seq![]);
    assert(m.base.prefetched_sources =~= seq![]);
}

/// Whatever happens in a run, what the sync notes agrees with what it did, under
/// the configuration that it began with.
pub proof fn run_agrees(
    states: Seq<SyncModel>,
    events: Seq<EventModel>,
    dates: Seq<Seq<char>>,
    k: int,
)
    requires
        is_run(states, events, dates),
        is_fresh(states[0]),
        0 <= k < states.len(),
    ensures
        well_formed(states[k]),
        agrees(states[k]),
        states[k].base.config == states[0].base.config,
    decreases k,
{
    if k == 0 {
        fresh_agrees(states[0]);
    } else {
        let j = k - 1;
        run_agrees(states, events, dates, j);
        assert(follows(states[j], events[j], dates[j], states[j + 1]));
        step_agrees(states[j], events[j], dates[j], states[k]);
    }
}

/// A sync that is done has the plan of each distribution, in their order, and has
/// fetched exactly the files that the plans have fetched, each once.
pub proof fn done_means_every_distribution_is_planned(
    states: Seq<SyncModel>,
    events: Seq<EventModel>,
    dates: Seq<Seq<char>>,
)
    requires
        is_run(states, events, dates),
        is_fresh(states[0]),
        states.last().stage is Done,
    ensures
        ({
            let base = states.last().base;
            &&& base.config == states[0].base.config
            &&& base.plans.len() == base.config.distributions.len()
            &&& plans_in_turn(base)
            &&& base.prefetched == text_set(all_package_downloads(base.plans))
            &&& base.prefetched_sources == text_set(all_source_downloads(base.plans))
        }),
{
    run_agrees(states, events, dates, states.len() - 1);
    let base = states.last().base;
    let none = Seq::<Seq<char>>::empty();
    assert(all_package_downloads(base.plans) + none =~= all_package_downloads(base.plans));
    assert(all_source_downloads(base.plans) + none =~= all_source_downloads(base.plans));
}

// ---------------------------------------------------------------------------
// Publications
// ---------------------------------------------------------------------------

/// The key under which the Release of a distribution is stored.
pub open spec fn release_key(distribution: Seq<char>) -> Seq<char> {
    "debian_synced_release:"@ + distribution
}

/// The key belongs to what is published of a distribution.
pub open spec fn is_of(distribution: Seq<char>, key: Seq<char>) -> bool {
    starts_with(key, synced_prefix(distribution)) || key == release_key(distribution)
}

/// A publication is whole: it clears what was published of a distribution before,
/// and stores indexes of that distribution and its Release.
pub open spec fn is_whole(distribution: Seq<char>, publication: PublicationModel) -> bool {
    &&& publication.cleared_prefix == synced_prefix(distribution)
    &&& publication.rows.len() > 0
    &&& publication.rows.last().0 == release_key(distribution)
    &&& forall|i: int|
        0 <= i < publication.rows.len() - 1 ==> starts_with(
            (#[trigger] publication.rows[i]).0,
            synced_prefix(distribution),
        )
}

proof fn publication_is_whole(
    base: BaseModel,
    p: PlannedModel,
    g: GeneratedModel,
    digests: Seq<(Seq<char>, Seq<char>)>,
    date: Seq<char>,
)
    ensures
        is_whole(at_distribution(base), publication(base, p, g, digests, date)),
{
    let d = at_distribution(base);
    let rows = publication(base, p, g, digests, date).rows;
    assert forall|i: int| 0 <= i < rows.len() - 1 implies starts_with(
        (#[trigger] rows[i]).0,
        synced_prefix(d),
    ) by {
        let path = g.plain_indexes[i].0;
        assert(rows[i].0 == synced_key(d, path));
        assert(synced_key(d, path).take(synced_prefix(d).len() as int) =~= synced_prefix(d));
    }
}

/// How far a sync is with a distribution: before, at or behind its publication.
pub open spec fn rank(stage: StageModel) -> nat {
    match stage {
        StageModel::Publish(_, _) => 1,
        StageModel::PackagePath(_, _) => 2,
        StageModel::PackageFile(_, _, _) => 2,
        StageModel::SourcePath(_, _) => 2,
        StageModel::SourceFile(_, _, _) => 2,
        StageModel::Done => 2,
        _ => 0,
    }
}

/// A sync has moved on: to a later distribution, or in the same one no further
/// back, and not from one publication to another.
spec fn moved_on(m: SyncModel, n: SyncModel) -> bool {
    n.base.turn > m.base.turn || (n.base.turn == m.base.turn && rank(n.stage) >= rank(m.stage) && (
    rank(m.stage) == 1 ==> rank(n.stage) > 1))
}

/// Where a publication of a sync comes from.
spec fn published_from(m: SyncModel, event: EventModel, date: Seq<char>, n: SyncModel) -> bool {
    n.stage matches StageModel::Publish(p, publication) ==> n.base == m.base && (match (
        m.stage,
        event,
    ) {
        (StageModel::Digests(q, g), EventModel::Digests(digests)) => q == p && publication
            == crate::sync::publication(m.base, p, g, digests, date),
        _ => false,
    })
}

#[verifier::rlimit(40)]
proof fn step_moves_on(m: SyncModel, event: EventModel, date: Seq<char>, n: SyncModel)
    requires
        well_formed(m),
        follows(m, event, date, n),
    ensures
        moved_on(m, n),
        published_from(m, event, date, n),
{
    reveal(follows);
    match m.stage {
        StageModel::Release => {
            reveal(on_release);
        },
        StageModel::InRelease(_) => {
            reveal(on_in_release);
        },
        StageModel::Signature(_) => {
            reveal(on_signature);
        },
        StageModel::Key(_, _) => {
            reveal(on_key);
        },
        StageModel::Cleartext(_, _) => {
            reveal(on_cleartext);
        },
        StageModel::Detached(_, _, _) => {
            reveal(on_detached);
        },
        StageModel::PackageIndex(_) => {
            reveal(on_package_index);
        },
        StageModel::SourceIndex(_) => {
            reveal(on_source_index);
        },
        StageModel::Paths(_) => {
            reveal(on_paths);
        },
        StageModel::Contents(_) => {
            reveal(on_contents);
        },
        StageModel::Digests(_, _) => {
            reveal(on_digests);
        },
        StageModel::Publish(_, _) => {
            reveal(on_package_file);
        },
        StageModel::PackagePath(_, _) => {
            reveal(on_package_path);
        },
        StageModel::PackageFile(_, _, _) => {
            reveal(on_package_file);
        },
        StageModel::SourcePath(_, _) => {
            reveal(on_source_path);
        },
        StageModel::SourceFile(_, _, _) => {
            reveal(on_source_file);
        },
        StageModel::Done => {},
    }
}

proof fn run_moves_on(
    states: Seq<SyncModel>,
    events: Seq<EventModel>,
    dates: Seq<Seq<char>>,
    i: int,
    j: int,
)
    requires
        is_run(states, events, dates),
        is_fresh(states[0]),
        0 <= i < j < states.len(),
    ensures
        moved_on(states[i], states[j]),
    decreases j,
{
    let k = j - 1;
    run_agrees(states, events, dates, k);
    assert(follows(states[k], events[k], dates[k], states[k + 1]));
    step_moves_on(states[k], events[k], dates[k], states[j]);
    if i < k {
        run_moves_on(states, events, dates, i, k);
    }
}

/// A run publishes at most once for each distribution that it comes to.
pub proof fn distribution_is_published_once(
    states: Seq<SyncModel>,
    events: Seq<EventModel>,
    dates: Seq<Seq<char>>,
    i: int,
    j: int,
)
    requires
        is_run(states, events, dates),
        is_fresh(states[0]),
        0 <= i < j < states.len(),
        states[i].stage is Publish,
        states[j].stage is Publish,
    ensures
        states[i].base.turn < states[j].base.turn,
{
    run_moves_on(states, events, dates, i, j);
}

/// What a run publishes of a distribution is one whole: it takes the place of
/// everything stored under the distribution's prefix, and holds every index that
/// was generated and, last, the Release that lists them.
pub proof fn publication_holds_generation(
    states: Seq<SyncModel>,
    events: Seq<EventModel>,
    dates: Seq<Seq<char>>,
    i: int,
)
    requires
        is_run(states, events, dates),
        is_fresh(states[0]),
        0 <= i < states.len(),
        states[i].stage is Publish,
    ensures
        i > 0,
        ({
            let base = states[i].base;
            let d = at_distribution(base);
            let p = states[i].stage->Publish_0;
            let publication = states[i].stage->Publish_1;
            &&& is_whole(d, publication)
            &&& states[i - 1].stage is Digests
            &&& events[i - 1] is Digests
            &&& states[i - 1].stage->Digests_0 == p
            &&& ({
                let g = states[i - 1].stage->Digests_1;
                &&& publication == crate::sync::publication(
                    base,
                    p,
                    g,
                    events[i - 1]->Digests_0,
                    dates[i - 1],
                )
                &&& publication.rows.len() == g.plain_indexes.len() + 1
                &&& forall|r: int|
                    0 <= r < g.plain_indexes.len() ==> #[trigger] publication.rows[r] == (
                        synced_key(d, g.plain_indexes[r].0),
                        g.plain_indexes[r].1,
                    )
            })
        }),
{
    let k = i - 1;
    run_agrees(states, events, dates, k);
    assert(follows(states[k], events[k], dates[k], states[k + 1]));
    step_moves_on(states[k], events[k], dates[k], states[i]);
    if let (StageModel::Digests(p, g), EventModel::Digests(digests)) = (
        states[k].stage,
        events[k],
    ) {
        publication_is_whole(states[k].base, p, g, digests, dates[k]);
    }
}

// ---------------------------------------------------------------------------
// What readers see
// ---------------------------------------------------------------------------

/// The value that the last row of a key gives it.
pub open spec fn row_value(rows: Seq<(Seq<char>, Seq<char>)>, key: Seq<char>) -> Option<Seq<char>>
    decreases rows.len(),
{
    if rows.len() == 0 {
        None
    } else if rows.last().0 == key {
        Some(rows.last().1)
    } else {
        row_value(rows.drop_last(), key)
    }
}

/// What is stored once a publication is, as one change.
pub open spec fn stored(
    store: Map<Seq<char>, Seq<char>>,
    publication: PublicationModel,
) -> Map<Seq<char>, Seq<char>> {
    Map::new(
        |key: Seq<char>|
            row_value(publication.rows, key) is Some || (store.contains_key(key) && !starts_with(
                key,
                publication.cleared_prefix,
            )),
        |key: Seq<char>|
            match row_value(publication.rows, key) {
                Some(value) => value,
                None => store[key],
            },
    )
}

/// What a publication consists of.
pub open spec fn generation(publication: PublicationModel) -> Map<Seq<char>, Seq<char>> {
    Map::new(
        |key: Seq<char>| row_value(publication.rows, key) is Some,
        |key: Seq<char>| row_value(publication.rows, key)->Some_0,
    )
}

/// What is stored of a distribution.
pub open spec fn seen(store: Map<Seq<char>, Seq<char>>, distribution: Seq<char>) -> Map<
    Seq<char>,
    Seq<char>,
> {
    Map::new(
        |key: Seq<char>| store.contains_key(key) && is_of(distribution, key),
        |key: Seq<char>| store[key],
    )
}

/// What is published of one distribution is not stored under the prefix of the
/// other.
pub open spec fn are_apart(a: Seq<char>, b: Seq<char>) -> bool {
    !starts_with(synced_prefix(a), synced_prefix(b)) && !starts_with(
        synced_prefix(b),
        synced_prefix(a),
    )
}

/// What a sync publishes with an event. A publication that fails stores nothing.
pub open spec fn published_by(m: SyncModel, event: EventModel) -> Option<PublicationModel> {
    match m.stage {
        StageModel::Publish(_, publication) => if event is Accepted {
            Some(publication)
        } else {
            None
        },
        _ => None,
    }
}

/// Each store follows from the one before by what the run publishes, if anything.
pub open spec fn stores_follow(
    stores: Seq<Map<Seq<char>, Seq<char>>>,
    states: Seq<SyncModel>,
    events: Seq<EventModel>,
) -> bool {
    &&& stores.len() == states.len()
    &&& forall|i: int|
        0 <= i < events.len() ==> #[trigger] stores[i + 1] == (match published_by(
            states[i],
            events[i],
        ) {
            Some(publication) => stored(stores[i], publication),
            None => stores[i],
        })
}

/// What a run last published of a distribution, before its k-th state.
pub open spec fn last_published(
    states: Seq<SyncModel>,
    events: Seq<EventModel>,
    distribution: Seq<char>,
    k: int,
) -> Option<PublicationModel>
    decreases k,
{
    if k <= 0 {
        None
    } else if published_by(states[k - 1], events[k - 1]) is Some && at_distribution(
        states[k - 1].base,
    ) == distribution {
        published_by(states[k - 1], events[k - 1])
    } else {
        last_published(states, events, distribution, k - 1)
    }
}

proof fn row_is_of(rows: Seq<(Seq<char>, Seq<char>)>, key: Seq<char>) -> (i: int)
    requires
        row_value(rows, key) is Some,
    ensures
        0 <= i < rows.len(),
        rows[i].0 == key,
    decreases rows.len(),
{
    if rows.last().0 == key {
        rows.len() - 1
    } else {
        row_is_of(rows.drop_last(), key)
    }
}

proof fn rows_are_of(distribution: Seq<char>, publication: PublicationModel, key: Seq<char>)
    requires
        is_whole(distribution, publication),
        row_value(publication.rows, key) is Some,
    ensures
        is_of(distribution, key),
{
    let i = row_is_of(publication.rows, key);
    if i < publication.rows.len() - 1 {
        assert(starts_with(publication.rows[i].0, synced_prefix(distribution)));
    }
}

/// A publication of a distribution is all that is then seen of it.
proof fn own_publication_is_seen(
    store: Map<Seq<char>, Seq<char>>,
    distribution: Seq<char>,
    publication: PublicationModel,
)
    requires
        is_whole(distribution, publication),
    ensures
        seen(stored(store, publication), distribution) == generation(publication),
{
    let a = seen(stored(store, publication), distribution);
    let b = generation(publication);
    assert forall|key: Seq<char>| a.contains_key(key) <==> b.contains_key(key) by {
        if row_value(publication.rows, key) is Some {
            rows_are_of(distribution, publication, key);
        }
        if key == release_key(distribution) {
            assert(publication.rows.last().0 == key);
        }
    }
    assert(a =~= b);
}

proof fn prefixes_of_one_key(key: Seq<char>, p: Seq<char>, q: Seq<char>)
    requires
        starts_with(key, p),
        starts_with(key, q),
    ensures
        starts_with(p, q) || starts_with(q, p),
{
    if p.len() <= q.len() {
        assert(q.take(p.len() as int) =~= key.take(p.len() as int));
    } else {
        assert(p.take(q.len() as int) =~= key.take(q.len() as int));
    }
}

proof fn release_key_has_no_prefix(d: Seq<char>, e: Seq<char>)
    ensures
        !starts_with(release_key(d), synced_prefix(e)),
        release_key(d) == release_key(e) ==> d == e,
{
    reveal_strlit("debian_synced_release:");
    reveal_strlit("debian_synced_dists:");
    let head = "debian_synced_release:"@;
    if starts_with(release_key(d), synced_prefix(e)) {
        let n = synced_prefix(e).len() as int;
        assert(release_key(d).take(n)[14] == synced_prefix(e)[14]);
        assert(release_key(d)[14] == head[14]);
        assert(synced_prefix(e)[14] == "debian_synced_dists:"@[14]);
    }
    if release_key(d) == release_key(e) {
        assert(release_key(d).skip(head.len() as int) =~= d);
        assert(release_key(e).skip(head.len() as int) =~= e);
    }
}

/// The publication of another distribution changes nothing that is seen of one.
proof fn other_publication_is_not_seen(
    store: Map<Seq<char>, Seq<char>>,
    distribution: Seq<char>,
    other: Seq<char>,
    publication: PublicationModel,
)
    requires
        is_whole(other, publication),
        other != distribution,
        are_apart(other, distribution),
    ensures
        seen(stored(store, publication), distribution) == seen(store, distribution),
{
    let a = seen(stored(store, publication), distribution);
    let b = seen(store, distribution);
    assert forall|key: Seq<char>| is_of(distribution, key) implies row_value(
        publication.rows,
        key,
    ) is None && !starts_with(key, publication.cleared_prefix) by {
        release_key_has_no_prefix(distribution, other);
        release_key_has_no_prefix(other, distribution);
        if starts_with(key, synced_prefix(distribution)) && starts_with(key, synced_prefix(other)) {
            prefixes_of_one_key(key, synced_prefix(distribution), synced_prefix(other));
        }
        if row_value(publication.rows, key) is Some {
            rows_are_of(other, publication, key);
        }
    }
    assert(a =~= b);
}

/// At every moment of a run, and wherever it ends, a reader sees of a distribution
/// either what was stored of it before the run or one whole generation that the
/// run published, and never a mix of the two. Only distributions whose digests
/// meet, so that one is stored under the prefix of the other, could disturb each
/// other.
pub proof fn readers_see_whole_generations(
    states: Seq<SyncModel>,
    events: Seq<EventModel>,
    dates: Seq<Seq<char>>,
    stores: Seq<Map<Seq<char>, Seq<char>>>,
    distribution: Seq<char>,
    k: int,
)
    requires
        is_run(states, events, dates),
        is_fresh(states[0]),
        stores_follow(stores, states, events),
        0 <= k < states.len(),
        forall|t: int|
            #![trigger states[0].base.config.distributions[t]]
            0 <= t < states[0].base.config.distributions.len() ==> ({
                let other = trim_char(states[0].base.config.distributions[t], '/');
                other == distribution || are_apart(other, distribution)
            }),
    ensures
        seen(stores[k], distribution) == (match last_published(states, events, distribution, k) {
            Some(publication) => generation(publication),
            None => seen(stores[0], distribution),
        }),
    decreases k,
{
    if k > 0 {
        let j = k - 1;
        readers_see_whole_generations(states, events, dates, stores, distribution, j);
        run_agrees(states, events, dates, j);
        assert(stores[j + 1] == (match published_by(states[j], events[j]) {
            Some(publication) => stored(stores[j], publication),
            None => stores[j],
        }));
        if let Some(publication) = published_by(states[j], events[j]) {
            let other = at_distribution(states[j].base);
            publication_holds_generation(states, events, dates, j);
            if other == distribution {
                own_publication_is_seen(stores[j], distribution, publication);
            } else {
                let turn = states[j].base.turn as int;
                assert(states[0].base.config.distributions[turn]
                    == states[j].base.config.distributions[turn]);
                other_publication_is_not_seen(stores[j], distribution, other, publication);
            }
        }
    }
}

} // verus!
