//! What stands behind a plan: everything that a sync plans was asked for in its
//! run, answered, and accepted.

use vstd::prelude::*;
use vstd::utf8::{decode_utf8, valid_utf8};

use crate::error::Failure;
use crate::http::RefusalModel;
use crate::index::{packages_index, sources_index, PackageModel, SourceModel};
use crate::ordered::{ascending, keys_of, lookup, lookup_after_put, put};
use crate::plan::{missing_indexes_law, source_index_paths, sync_plan, PlanModel};
use crate::release::{release_of, ReleaseModel};
use crate::select::{package_indexes, selection, source_indexes, IndexModel, SourceIndexModel};
use crate::sync::{filter_of, follows, is_run, key_reference, on_cleartext, on_contents, on_detached, on_digests};
use crate::sync::{on_in_release, on_key, on_package_file, on_package_index, on_package_path, on_paths, on_release};
use crate::sync::{on_signature, on_source_file, on_source_index, on_source_path, planned, policy_of, sync_action};
use crate::sync::{sync_step, upstream_path, well_formed, with_package_indexes_left, with_release};
use crate::sync::{with_source_indexes_left, ActionModel, BaseModel, EventModel, FetchedModel, PlannedModel};
use crate::sync::{SelectionModel, StageModel, SyncModel};
use crate::sync_run::{is_fresh, run_agrees};
use crate::text::{trim, trim_char};
use crate::verify::{index_verdict, package_digests, source_digests};

verus! {

// ---------------------------------------------------------------------------
// Questions and answers
// ---------------------------------------------------------------------------

/// Before a state of a run, and while the sync was at the same distribution, this
/// was to be done and that came of it.
pub open spec fn answered(
    states: Seq<SyncModel>,
    events: Seq<EventModel>,
    k: int,
    action: ActionModel,
    event: EventModel,
) -> bool {
    exists|i: int|
        0 <= i < k && (#[trigger] states[i]).base.turn == states[k].base.turn && sync_action(
            states[i],
        ) == action && events[i] == event
}

/// The path of a file of the distribution that a sync is at: below the directory of
/// the distribution, or at the root where the repository is flat.
pub open spec fn path_in(base: BaseModel, name: Seq<char>) -> Seq<char> {
    let distribution = trim_char(base.config.distributions[base.turn as int], '/');
    if base.config.flat_repository || distribution.len() == 0 {
        name
    } else {
        "dists/"@ + distribution + "/"@ + name
    }
}

/// The file of the distribution was fetched, and this was its content.
pub open spec fn was_fetched(
    states: Seq<SyncModel>,
    events: Seq<EventModel>,
    k: int,
    name: Seq<char>,
    content: Seq<u8>,
) -> bool {
    answered(
        states,
        events,
        k,
        ActionModel::Fetch(path_in(states[k].base, name)),
        EventModel::Fetched(content),
    )
}

/// The file of the distribution was asked for, and upstream did not have it.
pub open spec fn was_missing(
    states: Seq<SyncModel>,
    events: Seq<EventModel>,
    k: int,
    name: Seq<char>,
) -> bool {
    exists|refusal: RefusalModel|
        refusal.status == 404 && #[trigger] answered(
            states,
            events,
            k,
            ActionModel::Fetch(path_in(states[k].base, name)),
            EventModel::Failed(refusal),
        )
}

/// The key was looked up under the reference that is configured.
pub open spec fn key_was_given(
    states: Seq<SyncModel>,
    events: Seq<EventModel>,
    k: int,
    key: Seq<char>,
) -> bool {
    &&& states[k].base.config.upstream_gpg_key_id is Some
    &&& answered(
        states,
        events,
        k,
        ActionModel::LookUpKey(trim(states[k].base.config.upstream_gpg_key_id->0)),
        EventModel::Key(Some(key)),
    )
}

/// The bytes are those of a text.
pub open spec fn is_text_of(bytes: Seq<u8>, text: Seq<char>) -> bool {
    valid_utf8(bytes) && text == decode_utf8(bytes)
}

/// The text came out of the InRelease that was fetched, with the key.
pub open spec fn came_from_cleartext(
    states: Seq<SyncModel>,
    events: Seq<EventModel>,
    k: int,
    text: Seq<char>,
) -> bool {
    exists|key: Seq<char>, signed: Seq<u8>|
        key_was_given(states, events, k, key) && valid_utf8(signed) && #[trigger] was_fetched(
            states,
            events,
            k,
            "InRelease"@,
            signed,
        ) && #[trigger] answered(
            states,
            events,
            k,
            ActionModel::VerifyCleartext(key, decode_utf8(signed)),
            EventModel::Payload(text),
        )
}

/// The text is that of the Release that was fetched, whose detached signature, also
/// fetched, was accepted with the key; upstream has no InRelease.
pub open spec fn came_from_detached(
    states: Seq<SyncModel>,
    events: Seq<EventModel>,
    k: int,
    text: Seq<char>,
) -> bool {
    was_missing(states, events, k, "InRelease"@) && exists|key: Seq<char>, bytes: Seq<u8>, signature: Seq<u8>|
        key_was_given(states, events, k, key) && is_text_of(bytes, text) && was_fetched(
            states,
            events,
            k,
            "Release"@,
            bytes,
        ) && was_fetched(states, events, k, "Release.gpg"@, signature) && #[trigger] answered(
            states,
            events,
            k,
            ActionModel::VerifyDetached(key, bytes, signature),
            EventModel::Accepted,
        )
}

/// The text is that of the Release that was fetched.
pub open spec fn came_from_release(
    states: Seq<SyncModel>,
    events: Seq<EventModel>,
    k: int,
    text: Seq<char>,
) -> bool {
    exists|bytes: Seq<u8>|
        is_text_of(bytes, text) && #[trigger] was_fetched(states, events, k, "Release"@, bytes)
}

/// The text of a Release counts: where upstream metadata is verified it was signed
/// with the configured key, and else it was fetched.
pub open spec fn text_counts(
    states: Seq<SyncModel>,
    events: Seq<EventModel>,
    k: int,
    text: Seq<char>,
) -> bool {
    if states[k].base.config.verify_upstream_metadata {
        came_from_cleartext(states, events, k, text) || came_from_detached(states, events, k, text)
    } else {
        came_from_release(states, events, k, text)
    }
}

/// The Release was read out of a text that counts.
pub open spec fn release_was_read(
    states: Seq<SyncModel>,
    events: Seq<EventModel>,
    k: int,
    release: ReleaseModel,
) -> bool {
    exists|text: Seq<char>| #[trigger]
        text_counts(states, events, k, text) && release_of(text) == Ok::<ReleaseModel, Failure>(
            release,
        )
}

/// The Packages index was fetched, is the one that the Release advertises, and was
/// read as these entries.
pub open spec fn packages_were_read(
    states: Seq<SyncModel>,
    events: Seq<EventModel>,
    k: int,
    release: ReleaseModel,
    path: Seq<char>,
    entries: Seq<PackageModel>,
) -> bool {
    exists|content: Seq<u8>| #[trigger]
        was_fetched(states, events, k, path, content) && index_verdict(
            release,
            path,
            content,
            states[k].base.config.verify_upstream_metadata,
        ) is Ok && packages_index(path, content) == Ok::<Seq<PackageModel>, Failure>(entries)
}

/// The Sources index was fetched, is the one that the Release advertises, and was
/// read as these entries.
pub open spec fn sources_were_read(
    states: Seq<SyncModel>,
    events: Seq<EventModel>,
    k: int,
    release: ReleaseModel,
    path: Seq<char>,
    entries: Seq<SourceModel>,
) -> bool {
    exists|content: Seq<u8>| #[trigger]
        was_fetched(states, events, k, path, content) && index_verdict(
            release,
            path,
            content,
            states[k].base.config.verify_upstream_metadata,
        ) is Ok && sources_index(path, content) == Ok::<Seq<SourceModel>, Failure>(entries)
}

/// The Packages index was asked for: what was read of it is among the packages, or
/// upstream did not have it and the configuration lets that pass.
pub open spec fn packages_are_settled(
    states: Seq<SyncModel>,
    events: Seq<EventModel>,
    k: int,
    release: ReleaseModel,
    path: Seq<char>,
    packages: Seq<(Seq<char>, Seq<PackageModel>)>,
) -> bool {
    match lookup(packages, path) {
        Some(entries) => packages_were_read(states, events, k, release, path, entries),
        None => was_missing(states, events, k, path)
            && states[k].base.config.ignore_missing_indexes,
    }
}

/// The same of a Sources index.
pub open spec fn sources_are_settled(
    states: Seq<SyncModel>,
    events: Seq<EventModel>,
    k: int,
    release: ReleaseModel,
    path: Seq<char>,
    sources: Seq<(Seq<char>, Seq<SourceModel>)>,
) -> bool {
    match lookup(sources, path) {
        Some(entries) => sources_were_read(states, events, k, release, path, entries),
        None => was_missing(states, events, k, path)
            && states[k].base.config.ignore_missing_indexes,
    }
}

/// The paths of all indexes of a plan were handed over to be checked, and accepted.
pub open spec fn paths_were_checked(
    states: Seq<SyncModel>,
    events: Seq<EventModel>,
    k: int,
    plan: PlanModel,
) -> bool {
    answered(
        states,
        events,
        k,
        ActionModel::CheckIndexPaths(
            plan.package_indexes.map_values(|index: IndexModel| index.path)
                + plan.source_indexes.map_values(|index: SourceIndexModel| index.path),
        ),
        EventModel::Accepted,
    )
}

// ---------------------------------------------------------------------------
// What holds on the way
// ---------------------------------------------------------------------------

/// What was fetched so far of the Release of a distribution. Past its stage, what is
/// missing of the InRelease is missing upstream.
spec fn fetched_holds(
    states: Seq<SyncModel>,
    events: Seq<EventModel>,
    k: int,
    f: FetchedModel,
    past: bool,
) -> bool {
    &&& was_fetched(states, events, k, "Release"@, f.release)
    &&& is_text_of(f.release, f.text)
    &&& f.in_release matches Some(b) ==> was_fetched(states, events, k, "InRelease"@, b)
    &&& past && f.in_release is None ==> was_missing(states, events, k, "InRelease"@)
    &&& f.signature matches Some(b) ==> was_fetched(states, events, k, "Release.gpg"@, b)
}

/// All packages that are held were read.
spec fn only_packages_read(
    states: Seq<SyncModel>,
    events: Seq<EventModel>,
    k: int,
    release: ReleaseModel,
    packages: Seq<(Seq<char>, Seq<PackageModel>)>,
) -> bool {
    forall|path: Seq<char>|
        (#[trigger] lookup(packages, path)) matches Some(entries) ==> packages_were_read(
            states,
            events,
            k,
            release,
            path,
            entries,
        )
}

/// All sources that are held were read.
spec fn only_sources_read(
    states: Seq<SyncModel>,
    events: Seq<EventModel>,
    k: int,
    release: ReleaseModel,
    sources: Seq<(Seq<char>, Seq<SourceModel>)>,
) -> bool {
    forall|path: Seq<char>|
        (#[trigger] lookup(sources, path)) matches Some(entries) ==> sources_were_read(
            states,
            events,
            k,
            release,
            path,
            entries,
        )
}

/// What was read so far of the Packages indexes of a distribution.
#[verifier::opaque]
spec fn packages_hold(
    states: Seq<SyncModel>,
    events: Seq<EventModel>,
    k: int,
    release: ReleaseModel,
    indexes: Seq<IndexModel>,
    packages: Seq<(Seq<char>, Seq<PackageModel>)>,
    taken: nat,
) -> bool {
    &&& ascending(keys_of(packages))
    &&& only_packages_read(states, events, k, release, packages)
    &&& taken <= indexes.len()
    &&& forall|m: int|
        0 <= m < taken ==> packages_are_settled(
            states,
            events,
            k,
            release,
            (#[trigger] indexes[m]).path,
            packages,
        )
}

/// What was read so far of the Sources indexes of a distribution.
#[verifier::opaque]
spec fn sources_hold(
    states: Seq<SyncModel>,
    events: Seq<EventModel>,
    k: int,
    release: ReleaseModel,
    indexes: Seq<SourceIndexModel>,
    sources: Seq<(Seq<char>, Seq<SourceModel>)>,
    taken: nat,
) -> bool {
    &&& ascending(keys_of(sources))
    &&& only_sources_read(states, events, k, release, sources)
    &&& taken <= indexes.len()
    &&& forall|m: int|
        0 <= m < taken ==> sources_are_settled(
            states,
            events,
            k,
            release,
            (#[trigger] indexes[m]).path,
            sources,
        )
}

/// What was read so far of the indexes of a distribution.
spec fn selection_holds(
    states: Seq<SyncModel>,
    events: Seq<EventModel>,
    k: int,
    s: SelectionModel,
    packages_taken: nat,
    sources_taken: nat,
) -> bool {
    &&& release_was_read(states, events, k, s.release)
    &&& selection(s.release, states[k].base.filter.selection) is Ok
    &&& s.package_indexes == package_indexes(s.release, states[k].base.filter.selection)
    &&& s.source_indexes == source_indexes(s.release, states[k].base.filter.selection)
    &&& packages_hold(
        states,
        events,
        k,
        s.release,
        s.package_indexes,
        s.packages,
        packages_taken,
    )
    &&& sources_hold(states, events, k, s.release, s.source_indexes, s.sources, sources_taken)
}

/// The distribution that a stage has planned.
pub open spec fn planned_at(stage: StageModel) -> Option<PlannedModel> {
    match stage {
        StageModel::Paths(p) => Some(p),
        StageModel::Contents(p) => Some(p),
        StageModel::Digests(p, _) => Some(p),
        StageModel::Publish(p, _) => Some(p),
        StageModel::PackagePath(p, _) => Some(p),
        StageModel::PackageFile(p, _, _) => Some(p),
        StageModel::SourcePath(p, _) => Some(p),
        StageModel::SourceFile(p, _, _) => Some(p),
        _ => None,
    }
}

/// The selection that a planned distribution was planned from.
spec fn selection_behind(base: BaseModel, p: PlannedModel) -> SelectionModel {
    SelectionModel {
        release: p.release,
        package_indexes: package_indexes(p.release, base.filter.selection),
        source_indexes: source_indexes(p.release, base.filter.selection),
        taken: 0,
        packages: p.packages,
        sources: p.sources,
    }
}

/// What stands behind a planned distribution.
#[verifier::opaque]
spec fn plan_holds(states: Seq<SyncModel>, events: Seq<EventModel>, k: int, p: PlannedModel) -> bool {
    let base = states[k].base;
    let s = selection_behind(base, p);
    &&& selection_holds(
        states,
        events,
        k,
        s,
        s.package_indexes.len(),
        s.source_indexes.len(),
    )
    &&& p.plan == sync_plan(
        trim_char(base.config.distributions[base.turn as int], '/'),
        p.release,
        base.filter.selection,
        p.packages,
        p.sources,
        base.policy,
    )
    &&& p.package_digests == package_digests(p.packages)
    &&& p.source_digests == source_digests(p.sources)
}

/// What stands behind a state of a run.
spec fn state_holds(states: Seq<SyncModel>, events: Seq<EventModel>, k: int) -> bool {
    match states[k].stage {
        StageModel::Release => true,
        StageModel::InRelease(f) => fetched_holds(states, events, k, f, false) && f.in_release is None
            && f.signature is None,
        StageModel::Signature(f) => fetched_holds(states, events, k, f, true) && f.signature is None,
        StageModel::Key(f, key_ref) => fetched_holds(states, events, k, f, true) && key_reference(
            states[k].base.config,
        ) == Some(key_ref),
        StageModel::Cleartext(key, signed) => key_was_given(states, events, k, key)
            && exists|b: Seq<u8>|
            is_text_of(b, signed) && #[trigger] was_fetched(states, events, k, "InRelease"@, b),
        StageModel::Detached(f, signature, key) => fetched_holds(states, events, k, f, true)
            && f.in_release is None && f.signature == Some(signature) && key_was_given(states, events, k, key),
        StageModel::PackageIndex(s) => selection_holds(states, events, k, s, s.taken, 0),
        StageModel::SourceIndex(s) => selection_holds(
            states,
            events,
            k,
            s,
            s.package_indexes.len(),
            s.taken,
        ),
        StageModel::Done => true,
        StageModel::Paths(p) => plan_holds(states, events, k, p),
        _ => plan_holds(states, events, k, planned_at(states[k].stage)->0) && paths_were_checked(
            states,
            events,
            k,
            planned_at(states[k].stage)->0.plan,
        ),
    }
}

// ---------------------------------------------------------------------------
// What was answered stays answered
// ---------------------------------------------------------------------------

/// The next state is at the same distribution of the same mirror.
spec fn goes_on(states: Seq<SyncModel>, k: int) -> bool {
    &&& states[k + 1].base.turn == states[k].base.turn
    &&& states[k + 1].base.config == states[k].base.config
    &&& states[k + 1].base.filter == states[k].base.filter
    &&& states[k + 1].base.policy == states[k].base.policy
}

proof fn answer_stays(
    states: Seq<SyncModel>,
    events: Seq<EventModel>,
    k: int,
    action: ActionModel,
    event: EventModel,
)
    requires
        goes_on(states, k),
        answered(states, events, k, action, event),
    ensures
        answered(states, events, k + 1, action, event),
{
    let i = choose|i: int|
        0 <= i < k && (#[trigger] states[i]).base.turn == states[k].base.turn && sync_action(
            states[i],
        ) == action && events[i] == event;
    assert(states[i].base.turn == states[k + 1].base.turn);
}

proof fn answer_comes(states: Seq<SyncModel>, events: Seq<EventModel>, k: int)
    requires
        0 <= k,
        goes_on(states, k),
    ensures
        answered(states, events, k + 1, sync_action(states[k]), events[k]),
{
    assert(states[k].base.turn == states[k + 1].base.turn);
}

proof fn fetch_stays(
    states: Seq<SyncModel>,
    events: Seq<EventModel>,
    k: int,
    name: Seq<char>,
    content: Seq<u8>,
)
    requires
        goes_on(states, k),
        was_fetched(states, events, k, name, content),
    ensures
        was_fetched(states, events, k + 1, name, content),
{
    answer_stays(
        states,
        events,
        k,
        ActionModel::Fetch(path_in(states[k].base, name)),
        EventModel::Fetched(content),
    );
}

proof fn lack_stays(states: Seq<SyncModel>, events: Seq<EventModel>, k: int, name: Seq<char>)
    requires
        goes_on(states, k),
        was_missing(states, events, k, name),
    ensures
        was_missing(states, events, k + 1, name),
{
    let action = ActionModel::Fetch(path_in(states[k].base, name));
    let refusal = choose|refusal: RefusalModel|
        refusal.status == 404 && #[trigger] answered(
            states,
            events,
            k,
            action,
            EventModel::Failed(refusal),
        );
    answer_stays(states, events, k, action, EventModel::Failed(refusal));
    assert(action == ActionModel::Fetch(path_in(states[k + 1].base, name)));
}

proof fn key_stays(states: Seq<SyncModel>, events: Seq<EventModel>, k: int, key: Seq<char>)
    requires
        goes_on(states, k),
        key_was_given(states, events, k, key),
    ensures
        key_was_given(states, events, k + 1, key),
{
    answer_stays(
        states,
        events,
        k,
        ActionModel::LookUpKey(trim(states[k].base.config.upstream_gpg_key_id->0)),
        EventModel::Key(Some(key)),
    );
}

proof fn text_stays(states: Seq<SyncModel>, events: Seq<EventModel>, k: int, text: Seq<char>)
    requires
        goes_on(states, k),
        text_counts(states, events, k, text),
    ensures
        text_counts(states, events, k + 1, text),
{
    if states[k].base.config.verify_upstream_metadata {
        if came_from_cleartext(states, events, k, text) {
            let (key, signed) = choose|key: Seq<char>, signed: Seq<u8>|
                key_was_given(states, events, k, key) && valid_utf8(signed) && #[trigger] was_fetched(
                    states,
                    events,
                    k,
                    "InRelease"@,
                    signed,
                ) && #[trigger] answered(
                    states,
                    events,
                    k,
                    ActionModel::VerifyCleartext(key, decode_utf8(signed)),
                    EventModel::Payload(text),
                );
            key_stays(states, events, k, key);
            fetch_stays(states, events, k, "InRelease"@, signed);
            answer_stays(
                states,
                events,
                k,
                ActionModel::VerifyCleartext(key, decode_utf8(signed)),
                EventModel::Payload(text),
            );
        } else {
            lack_stays(states, events, k, "InRelease"@);
            let (key, bytes, signature) = choose|key: Seq<char>, bytes: Seq<u8>, signature: Seq<u8>|
                key_was_given(states, events, k, key) && is_text_of(bytes, text) && was_fetched(
                    states,
                    events,
                    k,
                    "Release"@,
                    bytes,
                ) && was_fetched(states, events, k, "Release.gpg"@, signature)
                    && #[trigger] answered(
                    states,
                    events,
                    k,
                    ActionModel::VerifyDetached(key, bytes, signature),
                    EventModel::Accepted,
                );
            key_stays(states, events, k, key);
            fetch_stays(states, events, k, "Release"@, bytes);
            fetch_stays(states, events, k, "Release.gpg"@, signature);
            answer_stays(
                states,
                events,
                k,
                ActionModel::VerifyDetached(key, bytes, signature),
                EventModel::Accepted,
            );
        }
    } else {
        let bytes = choose|bytes: Seq<u8>|
            is_text_of(bytes, text) && #[trigger] was_fetched(
                states,
                events,
                k,
                "Release"@,
                bytes,
            );
        fetch_stays(states, events, k, "Release"@, bytes);
    }
}

proof fn release_stays(
    states: Seq<SyncModel>,
    events: Seq<EventModel>,
    k: int,
    release: ReleaseModel,
)
    requires
        goes_on(states, k),
        release_was_read(states, events, k, release),
    ensures
        release_was_read(states, events, k + 1, release),
{
    let text = choose|text: Seq<char>| #[trigger]
        text_counts(states, events, k, text) && release_of(text) == Ok::<ReleaseModel, Failure>(
            release,
        );
    text_stays(states, events, k, text);
}

proof fn packages_stay_read(
    states: Seq<SyncModel>,
    events: Seq<EventModel>,
    k: int,
    release: ReleaseModel,
    path: Seq<char>,
    entries: Seq<PackageModel>,
)
    requires
        goes_on(states, k),
        packages_were_read(states, events, k, release, path, entries),
    ensures
        packages_were_read(states, events, k + 1, release, path, entries),
{
    let content = choose|content: Seq<u8>| #[trigger]
        was_fetched(states, events, k, path, content) && index_verdict(
            release,
            path,
            content,
            states[k].base.config.verify_upstream_metadata,
        ) is Ok && packages_index(path, content) == Ok::<Seq<PackageModel>, Failure>(entries);
    fetch_stays(states, events, k, path, content);
}

proof fn sources_stay_read(
    states: Seq<SyncModel>,
    events: Seq<EventModel>,
    k: int,
    release: ReleaseModel,
    path: Seq<char>,
    entries: Seq<SourceModel>,
)
    requires
        goes_on(states, k),
        sources_were_read(states, events, k, release, path, entries),
    ensures
        sources_were_read(states, events, k + 1, release, path, entries),
{
    let content = choose|content: Seq<u8>| #[trigger]
        was_fetched(states, events, k, path, content) && index_verdict(
            release,
            path,
            content,
            states[k].base.config.verify_upstream_metadata,
        ) is Ok && sources_index(path, content) == Ok::<Seq<SourceModel>, Failure>(entries);
    fetch_stays(states, events, k, path, content);
}

proof fn packages_stay(
    states: Seq<SyncModel>,
    events: Seq<EventModel>,
    k: int,
    release: ReleaseModel,
    indexes: Seq<IndexModel>,
    packages: Seq<(Seq<char>, Seq<PackageModel>)>,
    taken: nat,
)
    requires
        goes_on(states, k),
        packages_hold(states, events, k, release, indexes, packages, taken),
    ensures
        packages_hold(states, events, k + 1, release, indexes, packages, taken),
{
    reveal(packages_hold);
    assert forall|path: Seq<char>| (#[trigger] lookup(packages, path)) matches Some(
        entries,
    ) implies packages_were_read(
        states,
        events,
        k + 1,
        release,
        path,
        lookup(packages, path)->0,
    ) by {
        packages_stay_read(states, events, k, release, path, lookup(packages, path)->0);
    }
    assert forall|m: int| 0 <= m < taken implies packages_are_settled(
        states,
        events,
        k + 1,
        release,
        (#[trigger] indexes[m]).path,
        packages,
    ) by {
        let path = indexes[m].path;
        if lookup(packages, path) is None {
            lack_stays(states, events, k, path);
        }
    }
}

/// One more index was read.
proof fn one_more_package_index_read(
    states: Seq<SyncModel>,
    events: Seq<EventModel>,
    k: int,
    release: ReleaseModel,
    indexes: Seq<IndexModel>,
    packages: Seq<(Seq<char>, Seq<PackageModel>)>,
    taken: nat,
    entries: Seq<PackageModel>,
)
    requires
        taken < indexes.len(),
        packages_hold(states, events, k, release, indexes, packages, taken),
        packages_were_read(states, events, k, release, indexes[taken as int].path, entries),
    ensures
        packages_hold(
            states,
            events,
            k,
            release,
            indexes,
            put(packages, indexes[taken as int].path, entries),
            taken + 1,
        ),
{
    reveal(packages_hold);
    let path = indexes[taken as int].path;
    let after = put(packages, path, entries);
    lookup_after_put(packages, path, entries, path);
    assert forall|q: Seq<char>| (#[trigger] lookup(after, q)) matches Some(
        es,
    ) implies packages_were_read(states, events, k, release, q, lookup(after, q)->0) by {
        lookup_after_put(packages, path, entries, q);
        assert(lookup(packages, q) is Some || q == path);
    }
    assert forall|m: int| 0 <= m < taken + 1 implies packages_are_settled(
        states,
        events,
        k,
        release,
        (#[trigger] indexes[m]).path,
        after,
    ) by {
        let q = indexes[m].path;
        lookup_after_put(packages, path, entries, q);
        if q != path {
            assert(packages_are_settled(states, events, k, release, indexes[m].path, packages));
        }
    }
}

/// One more index is missing.
proof fn one_more_package_index_missing(
    states: Seq<SyncModel>,
    events: Seq<EventModel>,
    k: int,
    release: ReleaseModel,
    indexes: Seq<IndexModel>,
    packages: Seq<(Seq<char>, Seq<PackageModel>)>,
    taken: nat,
)
    requires
        taken < indexes.len(),
        packages_hold(states, events, k, release, indexes, packages, taken),
        was_missing(states, events, k, indexes[taken as int].path),
        states[k].base.config.ignore_missing_indexes,
    ensures
        packages_hold(states, events, k, release, indexes, packages, taken + 1),
{
    reveal(packages_hold);
    assert forall|m: int| 0 <= m < taken + 1 implies packages_are_settled(
        states,
        events,
        k,
        release,
        (#[trigger] indexes[m]).path,
        packages,
    ) by {
        if m < taken {
            assert(packages_are_settled(states, events, k, release, indexes[m].path, packages));
        }
    }
}

proof fn sources_stay(
    states: Seq<SyncModel>,
    events: Seq<EventModel>,
    k: int,
    release: ReleaseModel,
    indexes: Seq<SourceIndexModel>,
    sources: Seq<(Seq<char>, Seq<SourceModel>)>,
    taken: nat,
)
    requires
        goes_on(states, k),
        sources_hold(states, events, k, release, indexes, sources, taken),
    ensures
        sources_hold(states, events, k + 1, release, indexes, sources, taken),
{
    reveal(sources_hold);
    assert forall|path: Seq<char>| (#[trigger] lookup(sources, path)) matches Some(
        entries,
    ) implies sources_were_read(
        states,
        events,
        k + 1,
        release,
        path,
        lookup(sources, path)->0,
    ) by {
        sources_stay_read(states, events, k, release, path, lookup(sources, path)->0);
    }
    assert forall|m: int| 0 <= m < taken implies sources_are_settled(
        states,
        events,
        k + 1,
        release,
        (#[trigger] indexes[m]).path,
        sources,
    ) by {
        let path = indexes[m].path;
        if lookup(sources, path) is None {
            lack_stays(states, events, k, path);
        }
    }
}

/// One more index was read.
proof fn one_more_source_index_read(
    states: Seq<SyncModel>,
    events: Seq<EventModel>,
    k: int,
    release: ReleaseModel,
    indexes: Seq<SourceIndexModel>,
    sources: Seq<(Seq<char>, Seq<SourceModel>)>,
    taken: nat,
    entries: Seq<SourceModel>,
)
    requires
        taken < indexes.len(),
        sources_hold(states, events, k, release, indexes, sources, taken),
        sources_were_read(states, events, k, release, indexes[taken as int].path, entries),
    ensures
        sources_hold(
            states,
            events,
            k,
            release,
            indexes,
            put(sources, indexes[taken as int].path, entries),
            taken + 1,
        ),
{
    reveal(sources_hold);
    let path = indexes[taken as int].path;
    let after = put(sources, path, entries);
    lookup_after_put(sources, path, entries, path);
    assert forall|q: Seq<char>| (#[trigger] lookup(after, q)) matches Some(
        es,
    ) implies sources_were_read(states, events, k, release, q, lookup(after, q)->0) by {
        lookup_after_put(sources, path, entries, q);
        assert(lookup(sources, q) is Some || q == path);
    }
    assert forall|m: int| 0 <= m < taken + 1 implies sources_are_settled(
        states,
        events,
        k,
        release,
        (#[trigger] indexes[m]).path,
        after,
    ) by {
        let q = indexes[m].path;
        lookup_after_put(sources, path, entries, q);
        if q != path {
            assert(sources_are_settled(states, events, k, release, indexes[m].path, sources));
        }
    }
}

/// One more index is missing.
proof fn one_more_source_index_missing(
    states: Seq<SyncModel>,
    events: Seq<EventModel>,
    k: int,
    release: ReleaseModel,
    indexes: Seq<SourceIndexModel>,
    sources: Seq<(Seq<char>, Seq<SourceModel>)>,
    taken: nat,
)
    requires
        taken < indexes.len(),
        sources_hold(states, events, k, release, indexes, sources, taken),
        was_missing(states, events, k, indexes[taken as int].path),
        states[k].base.config.ignore_missing_indexes,
    ensures
        sources_hold(states, events, k, release, indexes, sources, taken + 1),
{
    reveal(sources_hold);
    assert forall|m: int| 0 <= m < taken + 1 implies sources_are_settled(
        states,
        events,
        k,
        release,
        (#[trigger] indexes[m]).path,
        sources,
    ) by {
        if m < taken {
            assert(sources_are_settled(states, events, k, release, indexes[m].path, sources));
        }
    }
}

proof fn selection_stays(
    states: Seq<SyncModel>,
    events: Seq<EventModel>,
    k: int,
    s: SelectionModel,
    packages_taken: nat,
    sources_taken: nat,
)
    requires
        goes_on(states, k),
        selection_holds(states, events, k, s, packages_taken, sources_taken),
    ensures
        selection_holds(states, events, k + 1, s, packages_taken, sources_taken),
{
    release_stays(states, events, k, s.release);
    packages_stay(states, events, k, s.release, s.package_indexes, s.packages, packages_taken);
    sources_stay(states, events, k, s.release, s.source_indexes, s.sources, sources_taken);
}

proof fn fetched_stays(
    states: Seq<SyncModel>,
    events: Seq<EventModel>,
    k: int,
    f: FetchedModel,
    past: bool,
)
    requires
        goes_on(states, k),
        fetched_holds(states, events, k, f, past),
    ensures
        fetched_holds(states, events, k + 1, f, past),
{
    if past && f.in_release is None {
        lack_stays(states, events, k, "InRelease"@);
    }
    fetch_stays(states, events, k, "Release"@, f.release);
    if let Some(b) = f.in_release {
        fetch_stays(states, events, k, "InRelease"@, b);
    }
    if let Some(b) = f.signature {
        fetch_stays(states, events, k, "Release.gpg"@, b);
    }
}

proof fn plan_stays(states: Seq<SyncModel>, events: Seq<EventModel>, k: int, p: PlannedModel)
    requires
        goes_on(states, k),
        plan_holds(states, events, k, p),
    ensures
        plan_holds(states, events, k + 1, p),
{
    reveal(plan_holds);
    let s = selection_behind(states[k].base, p);
    selection_stays(states, events, k, s, s.package_indexes.len(), s.source_indexes.len());
}

// ---------------------------------------------------------------------------
// Steps
// ---------------------------------------------------------------------------

/// A selection whose indexes are settled goes on to the next stage.
proof fn selection_goes_on(
    states: Seq<SyncModel>,
    events: Seq<EventModel>,
    k: int,
    base: BaseModel,
    s: SelectionModel,
)
    requires
        base == states[k].base,
        selection_holds(states, events, k, s, s.package_indexes.len(), s.taken),
        states[k] == with_source_indexes_left(base, s),
    ensures
        state_holds(states, events, k),
{
    if s.taken >= s.source_indexes.len() {
        reveal(plan_holds);
        let p = planned(base, s);
        let t = selection_behind(base, p);
        reveal(sources_hold);
        assert(selection_holds(
            states,
            events,
            k,
            t,
            t.package_indexes.len(),
            t.source_indexes.len(),
        ));
    }
}

proof fn packages_go_on(
    states: Seq<SyncModel>,
    events: Seq<EventModel>,
    k: int,
    base: BaseModel,
    s: SelectionModel,
)
    requires
        base == states[k].base,
        selection_holds(states, events, k, s, s.taken, 0),
        states[k] == with_package_indexes_left(base, s),
    ensures
        state_holds(states, events, k),
{
    if s.taken >= s.package_indexes.len() {
        let t = SelectionModel { taken: 0, ..s };
        reveal(packages_hold);
        assert(selection_holds(states, events, k, t, t.package_indexes.len(), 0));
        selection_goes_on(states, events, k, base, t);
    }
}

proof fn release_goes_on(
    states: Seq<SyncModel>,
    events: Seq<EventModel>,
    k: int,
    base: BaseModel,
    text: Seq<char>,
)
    requires
        base == states[k].base,
        text_counts(states, events, k, text),
        with_release(base, text) == Ok::<SyncModel, RefusalModel>(states[k]),
    ensures
        state_holds(states, events, k),
{
    let release = release_of(text)->Ok_0;
    let s = SelectionModel {
        release,
        package_indexes: package_indexes(release, base.filter.selection),
        source_indexes: source_indexes(release, base.filter.selection),
        taken: 0,
        packages: seq![],
        sources: seq![],
    };
    assert(release_was_read(states, events, k, release));
    reveal(packages_hold);
    reveal(sources_hold);
    assert(selection_holds(states, events, k, s, 0, 0));
    packages_go_on(states, events, k, base, s);
}

proof fn package_index_goes_on(
    states: Seq<SyncModel>,
    events: Seq<EventModel>,
    k: int,
    s: SelectionModel,
)
    requires
        0 <= k,
        goes_on(states, k),
        states[k + 1].base == states[k].base,
        states[k].stage == StageModel::PackageIndex(s),
        s.taken < s.package_indexes.len(),
        selection_holds(states, events, k, s, s.taken, 0),
        on_package_index(states[k].base, s, events[k]) == Ok::<SyncModel, RefusalModel>(
            states[k + 1],
        ),
    ensures
        state_holds(states, events, k + 1),
{
    reveal(on_package_index);
    let base = states[k].base;
    let path = s.package_indexes[s.taken as int].path;
    answer_comes(states, events, k);
    selection_stays(states, events, k, s, s.taken, 0);
    assert(upstream_path(base, path) == path_in(base, path));
    match events[k] {
        EventModel::Fetched(content) => {
            let entries = packages_index(path, content)->Ok_0;
            let t = SelectionModel {
                taken: s.taken + 1,
                packages: put(s.packages, path, entries),
                ..s
            };
            assert(was_fetched(states, events, k + 1, path, content));
            assert(packages_were_read(states, events, k + 1, s.release, path, entries));
            one_more_package_index_read(
                states,
                events,
                k + 1,
                s.release,
                s.package_indexes,
                s.packages,
                s.taken,
                entries,
            );
            packages_go_on(states, events, k + 1, base, t);
        },
        EventModel::Failed(refusal) => {
            let t = SelectionModel { taken: s.taken + 1, ..s };
            assert(answered(
                states,
                events,
                k + 1,
                ActionModel::Fetch(path_in(states[k + 1].base, path)),
                EventModel::Failed(refusal),
            ));
            assert(was_missing(states, events, k + 1, path));
            one_more_package_index_missing(
                states,
                events,
                k + 1,
                s.release,
                s.package_indexes,
                s.packages,
                s.taken,
            );
            packages_go_on(states, events, k + 1, base, t);
        },
        _ => {},
    }
}

proof fn source_index_goes_on(
    states: Seq<SyncModel>,
    events: Seq<EventModel>,
    k: int,
    s: SelectionModel,
)
    requires
        0 <= k,
        goes_on(states, k),
        states[k + 1].base == states[k].base,
        states[k].stage == StageModel::SourceIndex(s),
        s.taken < s.source_indexes.len(),
        selection_holds(states, events, k, s, s.package_indexes.len(), s.taken),
        on_source_index(states[k].base, s, events[k]) == Ok::<SyncModel, RefusalModel>(
            states[k + 1],
        ),
    ensures
        state_holds(states, events, k + 1),
{
    reveal(on_source_index);
    let base = states[k].base;
    let path = s.source_indexes[s.taken as int].path;
    answer_comes(states, events, k);
    selection_stays(states, events, k, s, s.package_indexes.len(), s.taken);
    assert(upstream_path(base, path) == path_in(base, path));
    match events[k] {
        EventModel::Fetched(content) => {
            let entries = sources_index(path, content)->Ok_0;
            let t = SelectionModel {
                taken: s.taken + 1,
                sources: put(s.sources, path, entries),
                ..s
            };
            assert(was_fetched(states, events, k + 1, path, content));
            assert(sources_were_read(states, events, k + 1, s.release, path, entries));
            one_more_source_index_read(
                states,
                events,
                k + 1,
                s.release,
                s.source_indexes,
                s.sources,
                s.taken,
                entries,
            );
            selection_goes_on(states, events, k + 1, base, t);
        },
        EventModel::Failed(refusal) => {
            let t = SelectionModel { taken: s.taken + 1, ..s };
            assert(answered(
                states,
                events,
                k + 1,
                ActionModel::Fetch(path_in(states[k + 1].base, path)),
                EventModel::Failed(refusal),
            ));
            assert(was_missing(states, events, k + 1, path));
            one_more_source_index_missing(
                states,
                events,
                k + 1,
                s.release,
                s.source_indexes,
                s.sources,
                s.taken,
            );
            selection_goes_on(states, events, k + 1, base, t);
        },
        _ => {},
    }
}

/// What a stage before the indexes goes on to.
proof fn fetched_goes_on(states: Seq<SyncModel>, events: Seq<EventModel>, dates: Seq<Seq<char>>, k: int)
    requires
        0 <= k,
        goes_on(states, k),
        states[k + 1].base == states[k].base,
        state_holds(states, events, k),
        well_formed(states[k]),
        states[k].stage is Release || states[k].stage is InRelease || states[k].stage is Signature,
        sync_step(states[k], events[k], dates[k]) == Ok::<SyncModel, RefusalModel>(states[k + 1]),
    ensures
        state_holds(states, events, k + 1),
{
    reveal(on_release);
    reveal(on_in_release);
    reveal(on_signature);
    let base = states[k].base;
    answer_comes(states, events, k);
    match states[k].stage {
        StageModel::Release => {
            let content = events[k]->Fetched_0;
            assert(upstream_path(base, "Release"@) == path_in(base, "Release"@));
            assert(was_fetched(states, events, k + 1, "Release"@, content));
        },
        StageModel::InRelease(f) => {
            fetched_stays(states, events, k, f, false);
            assert(upstream_path(base, "InRelease"@) == path_in(base, "InRelease"@));
            if let EventModel::Fetched(content) = events[k] {
                assert(was_fetched(states, events, k + 1, "InRelease"@, content));
            } else if let EventModel::Failed(refusal) = events[k] {
                assert(answered(
                    states,
                    events,
                    k + 1,
                    ActionModel::Fetch(path_in(states[k + 1].base, "InRelease"@)),
                    EventModel::Failed(refusal),
                ));
                assert(was_missing(states, events, k + 1, "InRelease"@));
            }
        },
        StageModel::Signature(f) => {
            fetched_stays(states, events, k, f, true);
            let g = match events[k] {
                EventModel::Fetched(content) => FetchedModel { signature: Some(content), ..f },
                _ => f,
            };
            if let EventModel::Fetched(content) = events[k] {
                assert(upstream_path(base, "Release.gpg"@) == path_in(base, "Release.gpg"@));
                assert(was_fetched(states, events, k + 1, "Release.gpg"@, content));
            }
            assert(fetched_holds(states, events, k + 1, g, true));
            if !base.config.verify_upstream_metadata {
                assert(came_from_release(states, events, k + 1, f.text));
                release_goes_on(states, events, k + 1, base, f.text);
            }
        },
        _ => {},
    }
}

proof fn signed_goes_on(states: Seq<SyncModel>, events: Seq<EventModel>, dates: Seq<Seq<char>>, k: int)
    requires
        0 <= k,
        goes_on(states, k),
        states[k + 1].base == states[k].base,
        state_holds(states, events, k),
        well_formed(states[k]),
        states[k].stage is Key || states[k].stage is Cleartext || states[k].stage is Detached,
        sync_step(states[k], events[k], dates[k]) == Ok::<SyncModel, RefusalModel>(states[k + 1]),
    ensures
        state_holds(states, events, k + 1),
{
    reveal(on_key);
    reveal(on_cleartext);
    reveal(on_detached);
    let base = states[k].base;
    answer_comes(states, events, k);
    match states[k].stage {
        StageModel::Key(f, _) => {
            fetched_stays(states, events, k, f, true);
            let key = events[k]->Key_0->0;
            assert(key_was_given(states, events, k + 1, key));
            if let Some(b) = f.in_release {
                assert(was_fetched(states, events, k + 1, "InRelease"@, b));
            }
        },
        StageModel::Cleartext(key, signed) => {
            key_stays(states, events, k, key);
            let b = choose|b: Seq<u8>|
                is_text_of(b, signed) && #[trigger] was_fetched(
                    states,
                    events,
                    k,
                    "InRelease"@,
                    b,
                );
            fetch_stays(states, events, k, "InRelease"@, b);
            let text = events[k]->Payload_0;
            assert(answered(
                states,
                events,
                k + 1,
                ActionModel::VerifyCleartext(key, decode_utf8(b)),
                EventModel::Payload(text),
            ));
            assert(came_from_cleartext(states, events, k + 1, text));
            release_goes_on(states, events, k + 1, base, text);
        },
        StageModel::Detached(f, signature, key) => {
            key_stays(states, events, k, key);
            fetched_stays(states, events, k, f, true);
            assert(answered(
                states,
                events,
                k + 1,
                ActionModel::VerifyDetached(key, f.release, signature),
                EventModel::Accepted,
            ));
            assert(came_from_detached(states, events, k + 1, f.text));
            release_goes_on(states, events, k + 1, base, f.text);
        },
        _ => {},
    }
}

/// Where a sync goes on from a stage: at the same distribution, unless everything
/// that it planned for one is fetched.
pub(crate) open spec fn went_on(m: SyncModel, n: SyncModel) -> bool {
    &&& n.base.config == m.base.config
    &&& n.base.filter == m.base.filter
    &&& n.base.policy == m.base.policy
    &&& match planned_at(m.stage) {
        None => n.base == m.base,
        Some(p) => (n.base.turn == m.base.turn && n.base.plans == m.base.plans && planned_at(
            n.stage,
        ) == Some(p)) || (n.base.turn == m.base.turn + 1 && n.base.plans == m.base.plans.push(
            p.plan,
        ) && (n.stage is Release || n.stage is Done)),
    }
}

#[verifier::rlimit(40)]
pub(crate) proof fn step_goes_on(m: SyncModel, event: EventModel, date: Seq<char>, n: SyncModel)
    requires
        sync_step(m, event, date) == Ok::<SyncModel, RefusalModel>(n),
    ensures
        went_on(m, n),
        !(m.stage is Done),
{
    match m.stage {
        StageModel::Release => {
            reveal(on_release);
        },
        StageModel::InRelease(_) => {
            reveal(on_in_release);
        },
        StageModel::Signature(_) => {
            reveal(on_signature);
        },
        StageModel::Key(_, _) => {
            reveal(on_key);
        },
        StageModel::Cleartext(_, _) => {
            reveal(on_cleartext);
        },
        StageModel::Detached(_, _, _) => {
            reveal(on_detached);
        },
        StageModel::PackageIndex(_) => {
            reveal(on_package_index);
        },
        StageModel::SourceIndex(_) => {
            reveal(on_source_index);
        },
        StageModel::Paths(_) => {
            reveal(on_paths);
        },
        StageModel::Contents(_) => {
            reveal(on_contents);
        },
        StageModel::Digests(_, _) => {
            reveal(on_digests);
        },
        StageModel::Publish(_, _) => {
            reveal(on_package_file);
        },
        StageModel::PackagePath(_, _) => {
            reveal(on_package_path);
        },
        StageModel::PackageFile(_, _, _) => {
            reveal(on_package_file);
        },
        StageModel::SourcePath(_, _) => {
            reveal(on_source_path);
        },
        StageModel::SourceFile(_, _, _) => {
            reveal(on_source_file);
        },
        StageModel::Done => {},
    }
}

proof fn checked_paths_count(m: SyncModel, event: EventModel, date: Seq<char>, n: SyncModel)
    requires
        m.stage is Paths,
        sync_step(m, event, date) == Ok::<SyncModel, RefusalModel>(n),
    ensures
        event == EventModel::Accepted,
        !(n.stage is Paths),
        ({
            let plan = m.stage->Paths_0.plan;
            sync_action(m) == ActionModel::CheckIndexPaths(
                plan.package_indexes.map_values(|index: IndexModel| index.path)
                    + plan.source_indexes.map_values(|index: SourceIndexModel| index.path),
            )
        }),
{
    reveal(on_paths);
}

proof fn run_holds(
    states: Seq<SyncModel>,
    events: Seq<EventModel>,
    dates: Seq<Seq<char>>,
    k: int,
)
    requires
        is_run(states, events, dates),
        is_fresh(states[0]),
        0 <= k < states.len(),
    ensures
        state_holds(states, events, k),
    decreases k,
{
    if k > 0 {
        let j = k - 1;
        run_holds(states, events, dates, j);
        run_agrees(states, events, dates, j);
        assert(follows(states[j], events[j], dates[j], states[j + 1]));
        reveal(follows);
        step_goes_on(states[j], events[j], dates[j], states[k]);
        match states[j].stage {
            StageModel::Release => fetched_goes_on(states, events, dates, j),
            StageModel::InRelease(_) => fetched_goes_on(states, events, dates, j),
            StageModel::Signature(_) => fetched_goes_on(states, events, dates, j),
            StageModel::Key(_, _) => signed_goes_on(states, events, dates, j),
            StageModel::Cleartext(_, _) => signed_goes_on(states, events, dates, j),
            StageModel::Detached(_, _, _) => signed_goes_on(states, events, dates, j),
            StageModel::PackageIndex(s) => package_index_goes_on(states, events, j, s),
            StageModel::SourceIndex(s) => source_index_goes_on(states, events, j, s),
            _ => {
                let p = planned_at(states[j].stage)->0;
                if states[k].base.turn == states[j].base.turn {
                    plan_stays(states, events, j, p);
                    if let StageModel::Paths(_) = states[j].stage {
                        checked_paths_count(states[j], events[j], dates[j], states[k]);
                        answer_comes(states, events, j);
                    } else {
                        answer_stays(
                            states,
                            events,
                            j,
                            ActionModel::CheckIndexPaths(
                                p.plan.package_indexes.map_values(|index: IndexModel| index.path)
                                    + p.plan.source_indexes.map_values(
                                    |index: SourceIndexModel| index.path,
                                ),
                            ),
                            EventModel::Accepted,
                        );
                    }
                }
            },
        }
    }
}

// ---------------------------------------------------------------------------
// Laws
// ---------------------------------------------------------------------------

/// The Release that a distribution is planned by was fetched in the run; where
/// upstream metadata is verified, its text is what came out of the signed InRelease,
/// or that of the Release whose detached signature was accepted, and the key was
/// the configured one.
pub proof fn planned_release_was_read(
    states: Seq<SyncModel>,
    events: Seq<EventModel>,
    dates: Seq<Seq<char>>,
    k: int,
    p: PlannedModel,
)
    requires
        is_run(states, events, dates),
        is_fresh(states[0]),
        0 <= k < states.len(),
        planned_at(states[k].stage) == Some(p),
    ensures
        release_was_read(states, events, k, p.release),
        selection(p.release, filter_of(states[0].base.config).selection) is Ok,
{
    run_holds(states, events, dates, k);
    run_agrees(states, events, dates, k);
    reveal(plan_holds);
}

/// A distribution is planned from all of its indexes. Each Packages and each
/// Sources index that the Release and the filter give was asked for in the run:
/// what was read of it is what the plan was made from, unless upstream did not have
/// it and the configuration lets that pass.
pub proof fn every_selected_index_is_settled(
    states: Seq<SyncModel>,
    events: Seq<EventModel>,
    dates: Seq<Seq<char>>,
    k: int,
    p: PlannedModel,
)
    requires
        is_run(states, events, dates),
        is_fresh(states[0]),
        0 <= k < states.len(),
        planned_at(states[k].stage) == Some(p),
    ensures
        ({
            let base = states[k].base;
            let filter = filter_of(states[0].base.config).selection;
            &&& p.plan.package_indexes == package_indexes(p.release, filter)
            &&& p.plan.source_indexes == source_indexes(p.release, filter)
            &&& forall|n: int|
                0 <= n < p.plan.package_indexes.len() ==> packages_are_settled(
                    states,
                    events,
                    k,
                    p.release,
                    (#[trigger] p.plan.package_indexes[n]).path,
                    p.packages,
                )
            &&& forall|n: int|
                0 <= n < p.plan.source_indexes.len() ==> sources_are_settled(
                    states,
                    events,
                    k,
                    p.release,
                    (#[trigger] p.plan.source_indexes[n]).path,
                    p.sources,
                )
            &&& p.plan == sync_plan(
                trim_char(base.config.distributions[base.turn as int], '/'),
                p.release,
                filter,
                p.packages,
                p.sources,
                policy_of(states[0].base.config),
            )
            &&& p.package_digests == package_digests(p.packages)
            &&& p.source_digests == source_digests(p.sources)
        }),
{
    run_holds(states, events, dates, k);
    run_agrees(states, events, dates, k);
    reveal(plan_holds);
    reveal(packages_hold);
    reveal(sources_hold);
}

/// No answer of the run at this distribution says that upstream does not have an
/// index of the plan.
pub open spec fn lacks_no_index(
    states: Seq<SyncModel>,
    events: Seq<EventModel>,
    k: int,
    p: PlannedModel,
) -> bool {
    &&& forall|n: int|
        0 <= n < p.plan.package_indexes.len() ==> !was_missing(
            states,
            events,
            k,
            (#[trigger] p.plan.package_indexes[n]).path,
        )
    &&& forall|n: int|
        0 <= n < p.plan.source_indexes.len() ==> !was_missing(
            states,
            events,
            k,
            (#[trigger] p.plan.source_indexes[n]).path,
        )
}

/// A plan for which upstream had every index misses none: the packages and the
/// sources that it is made from hold what was read of each.
pub proof fn plan_misses_no_index(
    states: Seq<SyncModel>,
    events: Seq<EventModel>,
    dates: Seq<Seq<char>>,
    k: int,
    p: PlannedModel,
)
    requires
        is_run(states, events, dates),
        is_fresh(states[0]),
        0 <= k < states.len(),
        planned_at(states[k].stage) == Some(p),
        lacks_no_index(states, events, k, p) || !states[0].base.config.ignore_missing_indexes,
    ensures
        p.plan.missing_package_indexes.len() == 0,
        p.plan.missing_source_indexes.len() == 0,
        forall|n: int|
            0 <= n < p.plan.package_indexes.len() ==> {
                let path = (#[trigger] p.plan.package_indexes[n]).path;
                &&& lookup(p.packages, path) is Some
                &&& packages_were_read(
                    states,
                    events,
                    k,
                    p.release,
                    path,
                    lookup(p.packages, path)->0,
                )
            },
        forall|n: int|
            0 <= n < p.plan.source_indexes.len() ==> {
                let path = (#[trigger] p.plan.source_indexes[n]).path;
                &&& lookup(p.sources, path) is Some
                &&& sources_were_read(states, events, k, p.release, path, lookup(p.sources, path)->0)
            },
{
    every_selected_index_is_settled(states, events, dates, k, p);
    run_agrees(states, events, dates, k);
    assert forall|n: int| 0 <= n < p.plan.package_indexes.len() implies lookup(
        p.packages,
        (#[trigger] p.plan.package_indexes[n]).path,
    ) is Some by {
        assert(packages_are_settled(
            states,
            events,
            k,
            p.release,
            p.plan.package_indexes[n].path,
            p.packages,
        ));
    }
    assert forall|n: int| 0 <= n < p.plan.source_indexes.len() implies lookup(
        p.sources,
        (#[trigger] p.plan.source_indexes[n]).path,
    ) is Some by {
        assert(sources_are_settled(
            states,
            events,
            k,
            p.release,
            p.plan.source_indexes[n].path,
            p.sources,
        ));
    }
    let base = states[k].base;
    let distribution = trim_char(base.config.distributions[base.turn as int], '/');
    let missing = p.plan.missing_package_indexes;
    if missing.len() > 0 {
        let path = missing[0];
        assert(missing.contains(path));
        missing_indexes_law(
            distribution,
            p.release,
            base.filter.selection,
            p.packages,
            p.sources,
            base.policy,
            path,
        );
        let n = crate::plan::index_paths(p.plan.package_indexes).index_of(path);
        assert(p.plan.package_indexes[n].path == path);
    }
    let missing = p.plan.missing_source_indexes;
    if missing.len() > 0 {
        let path = missing[0];
        assert(missing.contains(path));
        missing_indexes_law(
            distribution,
            p.release,
            base.filter.selection,
            p.packages,
            p.sources,
            base.policy,
            path,
        );
        let n = source_index_paths(p.plan.source_indexes).index_of(path);
        assert(p.plan.source_indexes[n].path == path);
    }
}

/// Nothing is generated, published or fetched for a distribution before the paths of all
/// of its indexes were checked and accepted.
pub proof fn every_index_path_was_checked(
    states: Seq<SyncModel>,
    events: Seq<EventModel>,
    dates: Seq<Seq<char>>,
    k: int,
    p: PlannedModel,
)
    requires
        is_run(states, events, dates),
        is_fresh(states[0]),
        0 <= k < states.len(),
        planned_at(states[k].stage) == Some(p),
        !(states[k].stage is Paths),
    ensures
        paths_were_checked(states, events, k, p.plan),
{
    run_holds(states, events, dates, k);
}

} // verus!
