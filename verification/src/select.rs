//! Which indexes of a Release a filtered mirror takes.

use vstd::prelude::*;

use crate::error::{outcome, AppError, Failure, Result};
use crate::ordered::{text_set, text_set_holds, TextSet};
use crate::release::{HashModel, Release, ReleaseHash, ReleaseModel};
use crate::sort::{key_lt, key_lt_asymmetric, key_lt_irreflexive, key_lt_total, key_lt_transitive, text_comes_before, Sortable};
use crate::text::{begins, cat2, cat4, chars_of, ends, is_text, join_texts, same_text, split_at_char, text_of, trim_of};
use crate::text::{ends_with, join, pieces, split, starts_with, text_lt_irreflexive, trim, trim_start_text, trim_start_text_of};

verus! {

/// A Packages index that a mirror takes.
#[derive(Clone, Debug, PartialEq, Eq)]
pub struct DebianIndexPath {
    pub component: String,
    pub architecture: String,
    pub path: String,
}

/// A Sources index that a mirror takes.
#[derive(Clone, Debug, PartialEq, Eq)]
pub struct DebianSourceIndexPath {
    pub component: String,
    pub path: String,
}

/// What a mirror takes of a remote repository. An empty list takes everything.
#[derive(Clone, Debug, PartialEq, Eq)]
pub struct DebianSyncFilter {
    pub distributions: Vec<String>,
    pub components: Vec<String>,
    pub architectures: Vec<String>,
    pub include_source_packages: bool,
}

impl Default for DebianSyncFilter {
    fn default() -> (r: Self)
        ensures
            r.deep_view() == (FilterModel {
                distributions: seq![],
                components: seq![],
                architectures: seq![],
                include_source_packages: false,
            }),
    {
        let distributions: Vec<String> = Vec::new();
        let components: Vec<String> = Vec::new();
        let architectures: Vec<String> = Vec::new();
        assert(distributions.deep_view() =~= seq![]);
        assert(components.deep_view() =~= seq![]);
        assert(architectures.deep_view() =~= seq![]);
        DebianSyncFilter { distributions, components, architectures, include_source_packages: false }
    }
}

/// What a mirror takes, and which of the packages: those that the queries choose
/// and, where it is asked for, what they depend on.
#[derive(Clone, Debug, PartialEq, Eq)]
pub struct DebianMirrorFilter {
    pub selection: DebianSyncFilter,
    pub package_queries: Vec<String>,
    pub resolve_dependencies: bool,
}

impl Default for DebianMirrorFilter {
    fn default() -> (r: Self)
        ensures
            r.deep_view() == (MirrorFilterModel {
                selection: FilterModel {
                    distributions: seq![],
                    components: seq![],
                    architectures: seq![],
                    include_source_packages: false,
                },
                package_queries: seq![],
                resolve_dependencies: false,
            }),
    {
        let package_queries: Vec<String> = Vec::new();
        assert(package_queries.deep_view() =~= seq![]);
        DebianMirrorFilter {
            selection: DebianSyncFilter::default(),
            package_queries,
            resolve_dependencies: false,
        }
    }
}

// ---------------------------------------------------------------------------
// Model
// ---------------------------------------------------------------------------

/// What a `DebianIndexPath` holds.
#[verifier::ext_equal]
pub struct IndexModel {
    pub component: Seq<char>,
    pub architecture: Seq<char>,
    pub path: Seq<char>,
}

impl DeepView for DebianIndexPath {
    type V = IndexModel;

    open spec fn deep_view(&self) -> IndexModel {
        IndexModel {
            component: self.component@,
            architecture: self.architecture@,
            path: self.path@,
        }
    }
}

/// What a `DebianSourceIndexPath` holds.
#[verifier::ext_equal]
pub struct SourceIndexModel {
    pub component: Seq<char>,
    pub path: Seq<char>,
}

impl DeepView for DebianSourceIndexPath {
    type V = SourceIndexModel;

    open spec fn deep_view(&self) -> SourceIndexModel {
        SourceIndexModel { component: self.component@, path: self.path@ }
    }
}

/// What a `DebianSyncFilter` holds.
#[verifier::ext_equal]
pub struct FilterModel {
    pub distributions: Seq<Seq<char>>,
    pub components: Seq<Seq<char>>,
    pub architectures: Seq<Seq<char>>,
    pub include_source_packages: bool,
}

impl DeepView for DebianSyncFilter {
    type V = FilterModel;

    open spec fn deep_view(&self) -> FilterModel {
        FilterModel {
            distributions: self.distributions.deep_view(),
            components: self.components.deep_view(),
            architectures: self.architectures.deep_view(),
            include_source_packages: self.include_source_packages,
        }
    }
}

/// What a `DebianMirrorFilter` holds.
#[verifier::ext_equal]
pub struct MirrorFilterModel {
    pub selection: FilterModel,
    pub package_queries: Seq<Seq<char>>,
    pub resolve_dependencies: bool,
}

impl DeepView for DebianMirrorFilter {
    type V = MirrorFilterModel;

    open spec fn deep_view(&self) -> MirrorFilterModel {
        MirrorFilterModel {
            selection: self.selection.deep_view(),
            package_queries: self.package_queries.deep_view(),
            resolve_dependencies: self.resolve_dependencies,
        }
    }
}

/// An index file: it has a path besides the key under which it is chosen.
pub trait IndexFile: Sortable {
    /// The path of an index.
    spec fn path_of(item: Self::V) -> Seq<char>;

    /// The path of this index.
    fn index_path(&self) -> (r: &String)
        ensures
            r@ == Self::path_of(self.deep_view()),
    ;
}

/// How well an index is compressed: by xz, by gzip, or not at all.
pub open spec fn compression_rank(path: Seq<char>) -> u8 {
    if ends_with(path, ".xz"@) {
        3
    } else if ends_with(path, ".gz"@) {
        2
    } else {
        1
    }
}

/// The number of indexes at the start of `s` whose key comes before `k`.
pub open spec fn key_slot<T: Sortable>(s: Seq<T::V>, k: Seq<Seq<char>>) -> nat
    decreases s.len(),
{
    if s.len() > 0 && key_lt(T::key(s[0]), k) {
        1 + key_slot::<T>(s.drop_first(), k)
    } else {
        0
    }
}

/// The chosen indexes with one more to choose from: of two indexes of one key
/// the better compressed one stays, and the first of two that are equally good.
#[verifier::opaque]
pub open spec fn with_better<T: IndexFile>(chosen: Seq<T::V>, x: T::V) -> Seq<T::V> {
    let i = key_slot::<T>(chosen, T::key(x)) as int;
    if i < chosen.len() && T::key(chosen[i]) == T::key(x) {
        if compression_rank(T::path_of(chosen[i])) >= compression_rank(T::path_of(x)) {
            chosen
        } else {
            chosen.update(i, x)
        }
    } else {
        chosen.insert(i, x)
    }
}

/// The best of the indexes for each key, in the order of the keys.
pub open spec fn best_of<T: IndexFile>(xs: Seq<T::V>) -> Seq<T::V>
    decreases xs.len(),
{
    if xs.len() == 0 {
        seq![]
    } else {
        with_better::<T>(best_of::<T>(xs.drop_last()), xs.last())
    }
}

/// The keys stand in strictly ascending order.
pub open spec fn keys_ascend<T: Sortable>(s: Seq<T::V>) -> bool {
    forall|i: int, j: int|
        0 <= i < j < s.len() ==> key_lt(T::key(#[trigger] s[i]), T::key(#[trigger] s[j]))
}

/// An empty list of values admits every value.
pub open spec fn admits(values: Seq<Seq<char>>, value: Seq<char>) -> bool {
    values.len() == 0 || values.contains(value)
}

/// The filter takes the distribution that the Release describes.
pub open spec fn takes_distribution(release: ReleaseModel, filter: FilterModel) -> bool {
    filter.distributions.len() == 0 || filter.distributions.contains(release.suite) || (
    release.codename is Some && filter.distributions.contains(release.codename->0))
}

/// The name is that of an index file, plain or compressed.
pub open spec fn is_index_name(name: Seq<char>, base: Seq<char>) -> bool {
    name == base || name == base + ".gz"@ || name == base + ".xz"@
}

/// The Packages index that a path of a Release names.
pub open spec fn package_index_of(path: Seq<char>) -> Option<IndexModel> {
    let parts = split(path, '/');
    if parts.len() == 1 && is_index_name(parts[0], "Packages"@) {
        Some(IndexModel { component: seq![], architecture: seq![], path })
    } else if parts.len() == 3 && starts_with(parts[1], "binary-"@) && is_index_name(
        parts[2],
        "Packages"@,
    ) {
        Some(
            IndexModel {
                component: parts[0],
                architecture: trim_start_text(parts[1], "binary-"@),
                path,
            },
        )
    } else {
        None
    }
}

/// The Sources index that a path of a Release names.
pub open spec fn source_index_of(path: Seq<char>) -> Option<SourceIndexModel> {
    let parts = split(path, '/');
    if parts.len() == 1 && is_index_name(parts[0], "Sources"@) {
        Some(SourceIndexModel { component: seq![], path })
    } else if parts.len() == 3 && parts[1] == "source"@ && is_index_name(parts[2], "Sources"@) {
        Some(SourceIndexModel { component: parts[0], path })
    } else {
        None
    }
}

/// All files that a Release lists.
pub open spec fn listed(release: ReleaseModel) -> Seq<HashModel> {
    release.sha256 + release.sha512 + release.sha1 + release.md5sum
}

/// The filter takes the Packages index. An index without an architecture holds
/// packages of all of them.
pub open spec fn takes_index(filter: FilterModel, index: IndexModel) -> bool {
    admits(filter.components, index.component) && (index.architecture.len() == 0 || admits(
        filter.architectures,
        index.architecture,
    ))
}

/// The Packages indexes among the listed files that the filter takes.
pub open spec fn listed_packages(hashes: Seq<HashModel>, filter: FilterModel) -> Seq<IndexModel>
    decreases hashes.len(),
{
    if hashes.len() == 0 {
        seq![]
    } else {
        let before = listed_packages(hashes.drop_last(), filter);
        match package_index_of(hashes.last().path) {
            Some(index) => if takes_index(filter, index) {
                before.push(index)
            } else {
                before
            },
            None => before,
        }
    }
}

/// The Packages index that a component has for an architecture by convention.
pub open spec fn usual_package_index(component: Seq<char>, arch: Seq<char>) -> IndexModel {
    IndexModel {
        component,
        architecture: arch,
        path: component + "/binary-"@ + arch + "/Packages.xz"@,
    }
}

/// The usual Packages indexes of a component for the architectures that the
/// filter admits.
pub open spec fn usual_for_component(
    component: Seq<char>,
    archs: Seq<Seq<char>>,
    filter: FilterModel,
) -> Seq<IndexModel>
    decreases archs.len(),
{
    if archs.len() == 0 {
        seq![]
    } else {
        let before = usual_for_component(component, archs.drop_last(), filter);
        if admits(filter.architectures, archs.last()) {
            before.push(usual_package_index(component, archs.last()))
        } else {
            before
        }
    }
}

/// The usual Packages indexes for the components and architectures that the
/// filter admits.
pub open spec fn usual_packages(
    components: Seq<Seq<char>>,
    archs: Seq<Seq<char>>,
    filter: FilterModel,
) -> Seq<IndexModel>
    decreases components.len(),
{
    if components.len() == 0 {
        seq![]
    } else {
        let before = usual_packages(components.drop_last(), archs, filter);
        if admits(filter.components, components.last()) {
            before + usual_for_component(components.last(), archs, filter)
        } else {
            before
        }
    }
}

/// The Packages indexes that a mirror takes: the best one listed for each
/// component and architecture, or the usual ones where none is listed.
pub open spec fn package_indexes(release: ReleaseModel, filter: FilterModel) -> Seq<IndexModel> {
    let found = listed_packages(listed(release), filter);
    if !takes_distribution(release, filter) {
        seq![]
    } else if found.len() > 0 {
        best_of::<DebianIndexPath>(found)
    } else {
        best_of::<DebianIndexPath>(
            usual_packages(release.components, release.architectures, filter),
        )
    }
}

/// The Sources indexes among the listed files that the filter takes.
pub open spec fn listed_sources(hashes: Seq<HashModel>, filter: FilterModel) -> Seq<
    SourceIndexModel,
>
    decreases hashes.len(),
{
    if hashes.len() == 0 {
        seq![]
    } else {
        let before = listed_sources(hashes.drop_last(), filter);
        match source_index_of(hashes.last().path) {
            Some(index) => if admits(filter.components, index.component) {
                before.push(index)
            } else {
                before
            },
            None => before,
        }
    }
}

/// The usual Sources indexes of the components that the filter admits.
pub open spec fn usual_sources(components: Seq<Seq<char>>, filter: FilterModel) -> Seq<
    SourceIndexModel,
>
    decreases components.len(),
{
    if components.len() == 0 {
        seq![]
    } else {
        let before = usual_sources(components.drop_last(), filter);
        let component = components.last();
        if admits(filter.components, component) {
            before.push(SourceIndexModel { component, path: component + "/source/Sources.xz"@ })
        } else {
            before
        }
    }
}

/// The Sources indexes that a mirror takes: the best one listed for each
/// component, or the usual ones where none is listed.
pub open spec fn source_indexes(release: ReleaseModel, filter: FilterModel) -> Seq<
    SourceIndexModel,
> {
    let found = listed_sources(listed(release), filter);
    if !filter.include_source_packages {
        seq![]
    } else if found.len() > 0 {
        best_of::<DebianSourceIndexPath>(found)
    } else {
        best_of::<DebianSourceIndexPath>(usual_sources(release.components, filter))
    }
}

/// The values that a filter asks for, trimmed; the wildcard asks for none.
pub open spec fn wanted(values: Seq<Seq<char>>) -> Seq<Seq<char>>
    decreases values.len(),
{
    if values.len() == 0 {
        seq![]
    } else {
        let before = wanted(values.drop_last());
        let value = trim(values.last());
        if value.len() > 0 && value != "*"@ {
            before.push(value)
        } else {
            before
        }
    }
}

/// The values that are not among the advertised ones, in order.
pub open spec fn not_advertised(values: Seq<Seq<char>>, advertised: Seq<Seq<char>>) -> Seq<
    Seq<char>,
>
    decreases values.len(),
{
    if values.len() == 0 {
        seq![]
    } else {
        let before = not_advertised(values.drop_last(), advertised);
        if advertised.contains(values.last()) {
            before
        } else {
            before.push(values.last())
        }
    }
}

/// The values that a filter asks for and that are not advertised, each once, in
/// ascending order.
pub open spec fn missing_values(selected: Seq<Seq<char>>, advertised: Seq<Seq<char>>) -> Seq<
    Seq<char>,
> {
    not_advertised(text_set(wanted(selected)), advertised)
}

/// Whether a Release advertises what a filter asks for.
pub open spec fn selection(release: ReleaseModel, filter: FilterModel) -> std::result::Result<
    (),
    Failure,
> {
    let components = missing_values(filter.components, release.components);
    let architectures = missing_values(filter.architectures, release.architectures);
    if components.len() > 0 {
        Err(
            Failure::Validation(
                "Selected Debian component(s) not advertised by upstream Release metadata: "@
                    + join(components, ", "@),
            ),
        )
    } else if architectures.len() > 0 {
        Err(
            Failure::Validation(
                "Selected Debian architecture(s) not advertised by upstream Release metadata: "@
                    + join(architectures, ", "@),
            ),
        )
    } else {
        Ok(())
    }
}

/// A package belongs in a mirror of the architectures. One for all
/// architectures belongs in every mirror.
pub open spec fn matches_architecture(arch: Seq<char>, selected: Seq<Seq<char>>) -> bool {
    arch == "all"@ || admits(selected, arch)
}

/// A package belongs in a mirror of an index. An index without an architecture
/// takes packages by the selected architectures alone.
pub open spec fn matches_index(
    arch: Seq<char>,
    index_arch: Seq<char>,
    selected: Seq<Seq<char>>,
) -> bool {
    if index_arch.len() == 0 {
        matches_architecture(arch, selected)
    } else {
        arch == "all"@ || (arch == index_arch && matches_architecture(arch, selected))
    }
}

// ---------------------------------------------------------------------------
// Laws
// ---------------------------------------------------------------------------

proof fn key_slot_cuts<T: Sortable>(s: Seq<T::V>, k: Seq<Seq<char>>)
    ensures
        key_slot::<T>(s, k) <= s.len(),
        forall|i: int| 0 <= i < key_slot::<T>(s, k) ==> key_lt(T::key(#[trigger] s[i]), k),
        key_slot::<T>(s, k) < s.len() ==> !key_lt(T::key(s[key_slot::<T>(s, k) as int]), k),
    decreases s.len(),
{
    if s.len() > 0 && key_lt(T::key(s[0]), k) {
        let t = s.drop_first();
        key_slot_cuts::<T>(t, k);
        assert forall|i: int| 0 <= i < key_slot::<T>(s, k) implies key_lt(
            T::key(#[trigger] s[i]),
            k,
        ) by {
            if i > 0 {
                assert(s[i] == t[i - 1]);
            }
        }
    }
}

proof fn key_slot_is<T: Sortable>(s: Seq<T::V>, k: Seq<Seq<char>>, n: int)
    requires
        0 <= n <= s.len(),
        forall|i: int| 0 <= i < n ==> key_lt(T::key(#[trigger] s[i]), k),
        n < s.len() ==> !key_lt(T::key(s[n]), k),
    ensures
        key_slot::<T>(s, k) == n,
{
    key_slot_cuts::<T>(s, k);
    let p = key_slot::<T>(s, k) as int;
    if p < n {
        assert(key_lt(T::key(s[p]), k));
    }
    if n < p {
        assert(key_lt(T::key(s[n]), k));
    }
}

/// The index `y` does for `x`: it has the same key and is compressed no worse.
pub open spec fn stands_for<T: IndexFile>(y: T::V, x: T::V) -> bool {
    T::key(y) == T::key(x) && compression_rank(T::path_of(y)) >= compression_rank(T::path_of(x))
}

/// Some index of `s` does for `x`.
pub open spec fn has_stand_in<T: IndexFile>(s: Seq<T::V>, x: T::V) -> bool {
    exists|i: int| 0 <= i < s.len() && stands_for::<T>(#[trigger] s[i], x)
}

/// Each index of `xs` has one in `s` that does for it.
pub open spec fn covers<T: IndexFile>(s: Seq<T::V>, xs: Seq<T::V>) -> bool {
    forall|i: int| 0 <= i < xs.len() ==> has_stand_in::<T>(s, #[trigger] xs[i])
}

/// Each index of `s` is one of `xs`.
pub open spec fn all_among<T: IndexFile>(s: Seq<T::V>, xs: Seq<T::V>) -> bool {
    forall|i: int| 0 <= i < s.len() ==> xs.contains(#[trigger] s[i])
}

proof fn covers_transitive<T: IndexFile>(r: Seq<T::V>, s: Seq<T::V>, xs: Seq<T::V>)
    requires
        covers::<T>(r, s),
        covers::<T>(s, xs),
    ensures
        covers::<T>(r, xs),
{
    assert forall|i: int| 0 <= i < xs.len() implies has_stand_in::<T>(r, #[trigger] xs[i]) by {
        let j = choose|j: int| 0 <= j < s.len() && stands_for::<T>(#[trigger] s[j], xs[i]);
        let m = choose|m: int| 0 <= m < r.len() && stands_for::<T>(#[trigger] r[m], s[j]);
        assert(stands_for::<T>(r[m], xs[i]));
    }
}

proof fn covers_more<T: IndexFile>(s: Seq<T::V>, xs: Seq<T::V>, x: T::V)
    requires
        covers::<T>(s, xs),
        has_stand_in::<T>(s, x),
    ensures
        covers::<T>(s, xs.push(x)),
{
    assert forall|i: int| 0 <= i < xs.push(x).len() implies has_stand_in::<T>(
        s,
        #[trigger] xs.push(x)[i],
    ) by {
        if i < xs.len() {
            assert(xs.push(x)[i] == xs[i]);
        }
    }
}

proof fn all_among_transitive<T: IndexFile>(r: Seq<T::V>, s: Seq<T::V>, x: T::V, xs: Seq<T::V>)
    requires
        all_among::<T>(r, s.push(x)),
        all_among::<T>(s, xs),
    ensures
        all_among::<T>(r, xs.push(x)),
{
    assert forall|i: int| 0 <= i < r.len() implies xs.push(x).contains(#[trigger] r[i]) by {
        let j = choose|j: int| 0 <= j < s.push(x).len() && s.push(x)[j] == r[i];
        if j < s.len() {
            assert(xs.contains(s[j]));
            let m = choose|m: int| 0 <= m < xs.len() && xs[m] == s[j];
            assert(xs.push(x)[m] == r[i]);
        } else {
            assert(xs.push(x)[xs.len() as int] == r[i]);
        }
    }
}

proof fn with_better_ascends<T: IndexFile>(chosen: Seq<T::V>, x: T::V)
    requires
        keys_ascend::<T>(chosen),
    ensures
        keys_ascend::<T>(with_better::<T>(chosen, x)),
{
    reveal(with_better);
    let k = T::key(x);
    let n = key_slot::<T>(chosen, k) as int;
    let r = with_better::<T>(chosen, x);
    key_slot_cuts::<T>(chosen, k);
    assert forall|i: int, j: int| 0 <= i < j < r.len() implies key_lt(
        T::key(#[trigger] r[i]),
        T::key(#[trigger] r[j]),
    ) by {
        if n < chosen.len() && T::key(chosen[n]) == k {
            assert(key_lt(T::key(chosen[i]), T::key(chosen[j])));
        } else {
            let a = if i < n { i } else { i - 1 };
            let b = if j < n { j } else { j - 1 };
            if i == n {
                if !key_lt(k, T::key(chosen[n])) {
                    key_lt_total(k, T::key(chosen[n]));
                }
                if b > n {
                    assert(key_lt(T::key(chosen[n]), T::key(chosen[b])));
                    key_lt_asymmetric(k, T::key(chosen[n]));
                    key_lt_transitive(k, T::key(chosen[n]), T::key(chosen[b]));
                }
            } else if j != n {
                assert(key_lt(T::key(chosen[a]), T::key(chosen[b])));
            }
        }
    }
}

proof fn with_better_covers<T: IndexFile>(chosen: Seq<T::V>, x: T::V)
    ensures
        has_stand_in::<T>(with_better::<T>(chosen, x), x),
        covers::<T>(with_better::<T>(chosen, x), chosen),
        with_better::<T>(chosen, x).len() > 0,
{
    reveal(with_better);
    let k = T::key(x);
    let n = key_slot::<T>(chosen, k) as int;
    let r = with_better::<T>(chosen, x);
    key_slot_cuts::<T>(chosen, k);
    assert(stands_for::<T>(r[n], x));
    assert forall|i: int| 0 <= i < chosen.len() implies has_stand_in::<T>(
        r,
        #[trigger] chosen[i],
    ) by {
        if n < chosen.len() && T::key(chosen[n]) == k {
            assert(stands_for::<T>(r[i], chosen[i]));
        } else {
            let at = if i < n { i } else { i + 1 };
            assert(stands_for::<T>(r[at], chosen[i]));
        }
    }
}

proof fn with_better_among<T: IndexFile>(chosen: Seq<T::V>, x: T::V)
    ensures
        all_among::<T>(with_better::<T>(chosen, x), chosen.push(x)),
{
    reveal(with_better);
    let k = T::key(x);
    let n = key_slot::<T>(chosen, k) as int;
    let r = with_better::<T>(chosen, x);
    let all = chosen.push(x);
    key_slot_cuts::<T>(chosen, k);
    assert(all[chosen.len() as int] == x);
    assert forall|i: int| 0 <= i < r.len() implies all.contains(#[trigger] r[i]) by {
        if n < chosen.len() && T::key(chosen[n]) == k {
            if i != n || r[n] != x {
                assert(all[i] == r[i]);
            }
        } else if i != n {
            let at = if i < n { i } else { i - 1 };
            assert(all[at] == r[i]);
        }
    }
}

/// What is chosen stands in strictly ascending order of its keys, so that there
/// is one index for each key; it is among the indexes to choose from; and each
/// of those has one of the same key chosen that is compressed no worse.
pub proof fn best_of_law<T: IndexFile>(xs: Seq<T::V>)
    ensures
        keys_ascend::<T>(best_of::<T>(xs)),
        all_among::<T>(best_of::<T>(xs), xs),
        covers::<T>(best_of::<T>(xs), xs),
        xs.len() > 0 ==> best_of::<T>(xs).len() > 0,
    decreases xs.len(),
{
    if xs.len() > 0 {
        let rest = xs.drop_last();
        let before = best_of::<T>(rest);
        let x = xs.last();
        let r = best_of::<T>(xs);
        best_of_law::<T>(rest);
        with_better_ascends::<T>(before, x);
        with_better_covers::<T>(before, x);
        with_better_among::<T>(before, x);
        all_among_transitive::<T>(r, before, x, rest);
        assert(rest.push(x) =~= xs);
        covers_transitive::<T>(r, before, rest);
        covers_more::<T>(r, rest, x);
    }
}

proof fn listed_packages_taken(hashes: Seq<HashModel>, filter: FilterModel)
    ensures
        forall|i: int|
            0 <= i < listed_packages(hashes, filter).len() ==> takes_index(
                filter,
                #[trigger] listed_packages(hashes, filter)[i],
            ),
    decreases hashes.len(),
{
    if hashes.len() > 0 {
        let before = listed_packages(hashes.drop_last(), filter);
        let r = listed_packages(hashes, filter);
        listed_packages_taken(hashes.drop_last(), filter);
        assert forall|i: int| 0 <= i < r.len() implies takes_index(filter, #[trigger] r[i]) by {
            if i < before.len() {
                assert(r[i] == before[i]);
            }
        }
    }
}

proof fn usual_for_component_taken(
    component: Seq<char>,
    archs: Seq<Seq<char>>,
    filter: FilterModel,
)
    requires
        admits(filter.components, component),
    ensures
        forall|i: int|
            0 <= i < usual_for_component(component, archs, filter).len() ==> takes_index(
                filter,
                #[trigger] usual_for_component(component, archs, filter)[i],
            ),
    decreases archs.len(),
{
    if archs.len() > 0 {
        let before = usual_for_component(component, archs.drop_last(), filter);
        let r = usual_for_component(component, archs, filter);
        usual_for_component_taken(component, archs.drop_last(), filter);
        assert forall|i: int| 0 <= i < r.len() implies takes_index(filter, #[trigger] r[i]) by {
            if i < before.len() {
                assert(r[i] == before[i]);
            }
        }
    }
}

proof fn usual_packages_taken(
    components: Seq<Seq<char>>,
    archs: Seq<Seq<char>>,
    filter: FilterModel,
)
    ensures
        forall|i: int|
            0 <= i < usual_packages(components, archs, filter).len() ==> takes_index(
                filter,
                #[trigger] usual_packages(components, archs, filter)[i],
            ),
    decreases components.len(),
{
    if components.len() > 0 {
        let component = components.last();
        let before = usual_packages(components.drop_last(), archs, filter);
        let more = usual_for_component(component, archs, filter);
        let r = usual_packages(components, archs, filter);
        usual_packages_taken(components.drop_last(), archs, filter);
        if admits(filter.components, component) {
            usual_for_component_taken(component, archs, filter);
        }
        assert forall|i: int| 0 <= i < r.len() implies takes_index(filter, #[trigger] r[i]) by {
            if i < before.len() {
                assert(r[i] == before[i]);
            } else {
                assert(r[i] == more[i - before.len()]);
            }
        }
    }
}

/// A mirror takes no Packages index outside its filter, and one index for each
/// component and architecture, in their order.
pub proof fn package_indexes_law(release: ReleaseModel, filter: FilterModel)
    ensures
        keys_ascend::<DebianIndexPath>(package_indexes(release, filter)),
        forall|i: int|
            0 <= i < package_indexes(release, filter).len() ==> takes_index(
                filter,
                #[trigger] package_indexes(release, filter)[i],
            ),
        !takes_distribution(release, filter) ==> package_indexes(release, filter).len() == 0,
{
    let found = listed_packages(listed(release), filter);
    let usual = usual_packages(release.components, release.architectures, filter);
    listed_packages_taken(listed(release), filter);
    usual_packages_taken(release.components, release.architectures, filter);
    best_of_law::<DebianIndexPath>(found);
    best_of_law::<DebianIndexPath>(usual);
    let r = package_indexes(release, filter);
    assert forall|i: int| 0 <= i < r.len() implies takes_index(filter, #[trigger] r[i]) by {
        if found.len() > 0 {
            assert(found.contains(r[i]));
        } else {
            assert(usual.contains(r[i]));
        }
    }
}

/// Every Packages index that a Release lists and the filter takes is taken, or
/// one for the same component and architecture that is compressed no worse.
pub proof fn package_indexes_complete(release: ReleaseModel, filter: FilterModel, i: int)
    requires
        takes_distribution(release, filter),
        0 <= i < listed_packages(listed(release), filter).len(),
    ensures
        has_stand_in::<DebianIndexPath>(
            package_indexes(release, filter),
            listed_packages(listed(release), filter)[i],
        ),
{
    best_of_law::<DebianIndexPath>(listed_packages(listed(release), filter));
}

proof fn listed_sources_taken(hashes: Seq<HashModel>, filter: FilterModel)
    ensures
        forall|i: int|
            0 <= i < listed_sources(hashes, filter).len() ==> admits(
                filter.components,
                (#[trigger] listed_sources(hashes, filter)[i]).component,
            ),
    decreases hashes.len(),
{
    if hashes.len() > 0 {
        let before = listed_sources(hashes.drop_last(), filter);
        let r = listed_sources(hashes, filter);
        listed_sources_taken(hashes.drop_last(), filter);
        assert forall|i: int| 0 <= i < r.len() implies admits(
            filter.components,
            (#[trigger] r[i]).component,
        ) by {
            if i < before.len() {
                assert(r[i] == before[i]);
            }
        }
    }
}

proof fn usual_sources_taken(components: Seq<Seq<char>>, filter: FilterModel)
    ensures
        forall|i: int|
            0 <= i < usual_sources(components, filter).len() ==> admits(
                filter.components,
                (#[trigger] usual_sources(components, filter)[i]).component,
            ),
    decreases components.len(),
{
    if components.len() > 0 {
        let before = usual_sources(components.drop_last(), filter);
        let r = usual_sources(components, filter);
        usual_sources_taken(components.drop_last(), filter);
        assert forall|i: int| 0 <= i < r.len() implies admits(
            filter.components,
            (#[trigger] r[i]).component,
        ) by {
            if i < before.len() {
                assert(r[i] == before[i]);
            }
        }
    }
}

/// A mirror takes no Sources index outside its filter, none where it takes no
/// sources, and one index for each component, in their order.
pub proof fn source_indexes_law(release: ReleaseModel, filter: FilterModel)
    ensures
        keys_ascend::<DebianSourceIndexPath>(source_indexes(release, filter)),
        forall|i: int|
            0 <= i < source_indexes(release, filter).len() ==> admits(
                filter.components,
                (#[trigger] source_indexes(release, filter)[i]).component,
            ),
        !filter.include_source_packages ==> source_indexes(release, filter).len() == 0,
{
    let found = listed_sources(listed(release), filter);
    let usual = usual_sources(release.components, filter);
    listed_sources_taken(listed(release), filter);
    usual_sources_taken(release.components, filter);
    best_of_law::<DebianSourceIndexPath>(found);
    best_of_law::<DebianSourceIndexPath>(usual);
    let r = source_indexes(release, filter);
    assert forall|i: int| 0 <= i < r.len() implies admits(
        filter.components,
        (#[trigger] r[i]).component,
    ) by {
        if found.len() > 0 {
            assert(found.contains(r[i]));
        } else {
            assert(usual.contains(r[i]));
        }
    }
}

/// Every Sources index that a Release lists and the filter takes is taken, or one
/// for the same component that is compressed no worse.
pub proof fn source_indexes_complete(release: ReleaseModel, filter: FilterModel, i: int)
    requires
        filter.include_source_packages,
        0 <= i < listed_sources(listed(release), filter).len(),
    ensures
        has_stand_in::<DebianSourceIndexPath>(
            source_indexes(release, filter),
            listed_sources(listed(release), filter)[i],
        ),
{
    best_of_law::<DebianSourceIndexPath>(listed_sources(listed(release), filter));
}

/// A package for all architectures belongs in every index of every mirror.
pub proof fn all_matches_everything(index_arch: Seq<char>, selected: Seq<Seq<char>>)
    ensures
        matches_architecture("all"@, selected),
        matches_index("all"@, index_arch, selected),
{
}

proof fn not_advertised_holds(values: Seq<Seq<char>>, advertised: Seq<Seq<char>>)
    ensures
        forall|v: Seq<char>|
            not_advertised(values, advertised).contains(v) <==> (values.contains(v)
                && !advertised.contains(v)),
    decreases values.len(),
{
    if values.len() > 0 {
        let rest = values.drop_last();
        let before = not_advertised(rest, advertised);
        let r = not_advertised(values, advertised);
        not_advertised_holds(rest, advertised);
        assert forall|v: Seq<char>| r.contains(v) <==> (values.contains(v)
            && !advertised.contains(v)) by {
            if values.contains(v) {
                let i = choose|i: int| 0 <= i < values.len() && values[i] == v;
                if i < rest.len() {
                    assert(rest[i] == v);
                }
            }
            if rest.contains(v) {
                let i = choose|i: int| 0 <= i < rest.len() && rest[i] == v;
                assert(values[i] == v);
            }
            if before.contains(v) {
                let i = choose|i: int| 0 <= i < before.len() && before[i] == v;
                assert(r[i] == v);
            }
            if !advertised.contains(values.last()) {
                assert(r[before.len() as int] == values.last());
                assert(values[values.len() - 1] == values.last());
                if r.contains(v) {
                    let i = choose|i: int| 0 <= i < r.len() && r[i] == v;
                    if i < before.len() {
                        assert(before[i] == v);
                    }
                }
            }
        }
    }
}

/// A filter is accepted exactly where the Release advertises each component and
/// each architecture that the filter asks for.
pub proof fn selection_law(release: ReleaseModel, filter: FilterModel)
    ensures
        selection(release, filter) is Ok <==> {
            &&& forall|v: Seq<char>|
                #[trigger] wanted(filter.components).contains(v) ==> release.components.contains(v)
            &&& forall|v: Seq<char>|
                #[trigger] wanted(filter.architectures).contains(v)
                    ==> release.architectures.contains(v)
        },
{
    missing_values_law(filter.components, release.components);
    missing_values_law(filter.architectures, release.architectures);
}

proof fn missing_values_law(selected: Seq<Seq<char>>, advertised: Seq<Seq<char>>)
    ensures
        missing_values(selected, advertised).len() == 0 <==> forall|v: Seq<char>|
            #[trigger] wanted(selected).contains(v) ==> advertised.contains(v),
{
    let m = missing_values(selected, advertised);
    text_set_holds(wanted(selected));
    not_advertised_holds(text_set(wanted(selected)), advertised);
    if m.len() > 0 {
        assert(m.contains(m[0]));
        assert(wanted(selected).contains(m[0]));
    }
    assert forall|v: Seq<char>| m.len() == 0 && #[trigger] wanted(selected).contains(
        v,
    ) implies advertised.contains(v) by {
        if !advertised.contains(v) {
            assert(text_set(wanted(selected)).contains(v));
            assert(m.contains(v));
        }
    }
}

// ---------------------------------------------------------------------------
// Selection
// ---------------------------------------------------------------------------

impl Sortable for DebianIndexPath {
    open spec fn key(item: IndexModel) -> Seq<Seq<char>> {
        seq![item.component, item.architecture]
    }

    fn comes_before(&self, other: &Self) -> (r: bool) {
        let ghost a = Self::key(self.deep_view());
        let ghost b = Self::key(other.deep_view());
        proof {
            reveal_with_fuel(key_lt, 3);
            assert(a.drop_first() =~= seq![self.architecture@]);
            assert(b.drop_first() =~= seq![other.architecture@]);
            assert(a.drop_first().drop_first() =~= seq![]);
            assert(b.drop_first().drop_first() =~= seq![]);
            if self.architecture@ == other.architecture@ {
                text_lt_irreflexive(self.architecture@);
            }
        }
        if same_text(self.component.as_str(), other.component.as_str()) {
            text_comes_before(self.architecture.as_str(), other.architecture.as_str())
        } else {
            text_comes_before(self.component.as_str(), other.component.as_str())
        }
    }
}

impl IndexFile for DebianIndexPath {
    open spec fn path_of(item: IndexModel) -> Seq<char> {
        item.path
    }

    fn index_path(&self) -> (r: &String) {
        &self.path
    }
}

impl Sortable for DebianSourceIndexPath {
    open spec fn key(item: SourceIndexModel) -> Seq<Seq<char>> {
        seq![item.component]
    }

    fn comes_before(&self, other: &Self) -> (r: bool) {
        let ghost a = Self::key(self.deep_view());
        let ghost b = Self::key(other.deep_view());
        proof {
            reveal_with_fuel(key_lt, 2);
            assert(a.drop_first() =~= seq![]);
            assert(b.drop_first() =~= seq![]);
            if self.component@ == other.component@ {
                text_lt_irreflexive(self.component@);
            }
        }
        text_comes_before(self.component.as_str(), other.component.as_str())
    }
}

impl IndexFile for DebianSourceIndexPath {
    open spec fn path_of(item: SourceIndexModel) -> Seq<char> {
        item.path
    }

    fn index_path(&self) -> (r: &String) {
        &self.path
    }
}

/// How well an index is compressed.
pub fn package_index_compression_rank(path: &str) -> (r: u8)
    ensures
        r == compression_rank(path@),
{
    let chars = chars_of(path);
    if ends(chars.as_slice(), ".xz") {
        3
    } else if ends(chars.as_slice(), ".gz") {
        2
    } else {
        1
    }
}

/// Puts an index to those chosen before, unless a better one is there.
fn keep_better<T: IndexFile>(chosen: &mut Vec<T>, x: T)
    requires
        keys_ascend::<T>(old(chosen).deep_view()),
    ensures
        final(chosen).deep_view() == with_better::<T>(old(chosen).deep_view(), x.deep_view()),
{
    let ghost before = chosen.deep_view();
    let ghost m = x.deep_view();
    let ghost k = T::key(m);
    let mut i: usize = 0;
    while i < chosen.len() && chosen[i].comes_before(&x)
        invariant
            i <= chosen.len(),
            before == chosen.deep_view(),
            m == x.deep_view(),
            k == T::key(m),
            forall|j: int| 0 <= j < i ==> key_lt(T::key(#[trigger] before[j]), k),
        decreases chosen.len() - i,
    {
        assert(before[i as int] == chosen[i as int].deep_view());
        i += 1;
    }
    proof {
        if i < chosen.len() {
            assert(before[i as int] == chosen[i as int].deep_view());
        }
        key_slot_is::<T>(before, k, i as int);
        reveal(with_better);
    }
    if i < chosen.len() && !x.comes_before(&chosen[i]) {
        proof {
            key_lt_total(k, T::key(before[i as int]));
        }
        let current: u8 = package_index_compression_rank(chosen[i].index_path().as_str());
        let other: u8 = package_index_compression_rank(x.index_path().as_str());
        if current < other {
            chosen.set(i, x);
            assert(chosen.deep_view() =~= before.update(i as int, m));
        }
    } else {
        proof {
            if i < chosen.len() {
                key_lt_irreflexive(k);
            }
        }
        chosen.insert(i, x);
        assert(chosen.deep_view() =~= before.insert(i as int, m));
    }
}

/// Chooses the best index for each key.
fn choose_best<T: IndexFile>(xs: Vec<T>) -> (r: Vec<T>)
    ensures
        r.deep_view() == best_of::<T>(xs.deep_view()),
{
    let ghost all = xs.deep_view();
    let mut chosen: Vec<T> = Vec::new();
    assert(chosen.deep_view() =~= best_of::<T>(all.take(0)));
    for x in it: xs
        invariant
            it.seq().len() == all.len(),
            forall|i: int| 0 <= i < all.len() ==> all[i] == (#[trigger] it.seq()[i]).deep_view(),
            chosen.deep_view() == best_of::<T>(all.take(it.index() as int)),
    {
        let ghost n = it.index() as int;
        proof {
            best_of_law::<T>(all.take(n));
            assert(all.take(n + 1).drop_last() =~= all.take(n));
            assert(all.take(n + 1).last() == x.deep_view());
        }
        keep_better(&mut chosen, x);
    }
    assert(all.take(all.len() as int) =~= all);
    chosen
}

/// The list admits the value.
pub(crate) fn list_admits(values: &[String], value: &str) -> (r: bool)
    ensures
        r == admits(values.deep_view(), value@),
{
    values.len() == 0 || list_holds(values, value)
}

/// The list holds the value.
pub(crate) fn list_holds(values: &[String], value: &str) -> (r: bool)
    ensures
        r == values.deep_view().contains(value@),
{
    let ghost all = values.deep_view();
    let mut i: usize = 0;
    while i < values.len()
        invariant
            i <= values.len(),
            all == values.deep_view(),
            forall|j: int| 0 <= j < i ==> all[j] != value@,
        decreases values.len() - i,
    {
        if same_text(values[i].as_str(), value) {
            assert(all[i as int] == value@);
            return true;
        }
        assert(all[i as int] == values[i as int]@);
        i += 1;
    }
    false
}

/// The filter takes the distribution that the Release describes.
fn filter_takes_distribution(release: &Release, filter: &DebianSyncFilter) -> (r: bool)
    ensures
        r == takes_distribution(release.deep_view(), filter.deep_view()),
{
    if filter.distributions.len() == 0 || list_holds(filter.distributions.as_slice(),
        release.suite.as_str(),
    ) {
        return true;
    }
    match &release.codename {
        Some(codename) => list_holds(filter.distributions.as_slice(), codename.as_str()),
        None => false,
    }
}

/// The name is that of an index file, plain or compressed.
fn names_index(name: &[char], base: &str) -> (r: bool)
    ensures
        r == is_index_name(name@, base@),
{
    let gz = cat2(base, ".gz");
    let xz = cat2(base, ".xz");
    is_text(name, base) || is_text(name, gz.as_str()) || is_text(name, xz.as_str())
}

/// The Packages index that a path of a Release names.
pub fn parse_release_package_index_path(path: &str) -> (r: Option<DebianIndexPath>)
    ensures
        r.deep_view() == package_index_of(path@),
{
    let chars = chars_of(path);
    let parts = split_at_char(chars.as_slice(), '/');
    let ghost ps = pieces(parts@);
    if parts.len() == 1 {
        assert(ps[0] == parts[0]@);
        if names_index(parts[0], "Packages") {
            return Some(
                DebianIndexPath {
                    component: String::new(),
                    architecture: String::new(),
                    path: path.to_string(),
                },
            );
        }
        return None;
    }
    if parts.len() != 3 || !begins(parts[1], "binary-") || !names_index(parts[2], "Packages") {
        return None;
    }
    Some(
        DebianIndexPath {
            component: text_of(parts[0]),
            architecture: text_of(trim_start_text_of(parts[1], "binary-")),
            path: path.to_string(),
        },
    )
}

/// The Sources index that a path of a Release names.
pub fn parse_release_source_index_path(path: &str) -> (r: Option<DebianSourceIndexPath>)
    ensures
        r.deep_view() == source_index_of(path@),
{
    let chars = chars_of(path);
    let parts = split_at_char(chars.as_slice(), '/');
    let ghost ps = pieces(parts@);
    if parts.len() == 1 {
        assert(ps[0] == parts[0]@);
        if names_index(parts[0], "Sources") {
            return Some(
                DebianSourceIndexPath { component: String::new(), path: path.to_string() },
            );
        }
        return None;
    }
    if parts.len() != 3 || !is_text(parts[1], "source") || !names_index(parts[2], "Sources") {
        return None;
    }
    Some(DebianSourceIndexPath { component: text_of(parts[0]), path: path.to_string() })
}

/// Adds the Packages indexes among the listed files that the filter takes.
fn push_listed_packages(
    found: &mut Vec<DebianIndexPath>,
    hashes: &Vec<ReleaseHash>,
    filter: &DebianSyncFilter,
    Ghost(seen): Ghost<Seq<HashModel>>,
)
    requires
        old(found).deep_view() == listed_packages(seen, filter.deep_view()),
    ensures
        final(found).deep_view() == listed_packages(
            seen + hashes.deep_view(),
            filter.deep_view(),
        ),
{
    let ghost all = hashes.deep_view();
    assert(seen + all.take(0) =~= seen);
    for i in 0..hashes.len()
        invariant
            all == hashes.deep_view(),
            found.deep_view() == listed_packages(seen + all.take(i as int), filter.deep_view()),
    {
        let ghost before = found.deep_view();
        proof {
            let next = seen + all.take(i + 1);
            assert(next.drop_last() =~= seen + all.take(i as int));
            assert(next.last() == hashes[i as int].deep_view());
        }
        if let Some(index) = parse_release_package_index_path(hashes[i].path.as_str()) {
            let ghost m = index.deep_view();
            if list_admits(filter.components.as_slice(), index.component.as_str()) && (
            index.architecture.as_str().is_empty() || list_admits(filter.architectures.as_slice(),
                index.architecture.as_str(),
            )) {
                found.push(index);
                assert(found.deep_view() =~= before.push(m));
            }
        }
    }
    assert(all.take(all.len() as int) =~= all);
}

/// Adds the Sources indexes among the listed files that the filter takes.
fn push_listed_sources(
    found: &mut Vec<DebianSourceIndexPath>,
    hashes: &Vec<ReleaseHash>,
    filter: &DebianSyncFilter,
    Ghost(seen): Ghost<Seq<HashModel>>,
)
    requires
        old(found).deep_view() == listed_sources(seen, filter.deep_view()),
    ensures
        final(found).deep_view() == listed_sources(seen + hashes.deep_view(), filter.deep_view()),
{
    let ghost all = hashes.deep_view();
    assert(seen + all.take(0) =~= seen);
    for i in 0..hashes.len()
        invariant
            all == hashes.deep_view(),
            found.deep_view() == listed_sources(seen + all.take(i as int), filter.deep_view()),
    {
        let ghost before = found.deep_view();
        proof {
            let next = seen + all.take(i + 1);
            assert(next.drop_last() =~= seen + all.take(i as int));
            assert(next.last() == hashes[i as int].deep_view());
        }
        if let Some(index) = parse_release_source_index_path(hashes[i].path.as_str()) {
            let ghost m = index.deep_view();
            if list_admits(filter.components.as_slice(), index.component.as_str()) {
                found.push(index);
                assert(found.deep_view() =~= before.push(m));
            }
        }
    }
    assert(all.take(all.len() as int) =~= all);
}

/// Adds the usual Packages indexes of a component.
fn push_usual_packages(
    found: &mut Vec<DebianIndexPath>,
    component: &String,
    archs: &Vec<String>,
    filter: &DebianSyncFilter,
)
    ensures
        final(found).deep_view() == old(found).deep_view() + usual_for_component(
            component@,
            archs.deep_view(),
            filter.deep_view(),
        ),
{
    let ghost start = found.deep_view();
    let ghost all = archs.deep_view();
    let ghost f = filter.deep_view();
    assert(found.deep_view() =~= start + usual_for_component(component@, all.take(0), f));
    for i in 0..archs.len()
        invariant
            all == archs.deep_view(),
            f == filter.deep_view(),
            found.deep_view() == start + usual_for_component(component@, all.take(i as int), f),
    {
        let ghost before = found.deep_view();
        proof {
            assert(all.take(i + 1).drop_last() =~= all.take(i as int));
            assert(all.take(i + 1).last() == archs[i as int]@);
        }
        if list_admits(filter.architectures.as_slice(), archs[i].as_str()) {
            let path = cat4(component.as_str(), "/binary-", archs[i].as_str(), "/Packages.xz");
            let index = DebianIndexPath {
                component: component.clone(),
                architecture: archs[i].clone(),
                path,
            };
            let ghost m = usual_package_index(component@, archs[i as int]@);
            assert(index.deep_view() == m);
            found.push(index);
            assert(found.deep_view() =~= before.push(m));
            assert(start + usual_for_component(component@, all.take(i as int), f).push(m)
                =~= before.push(m));
        }
    }
    assert(all.take(all.len() as int) =~= all);
}

/// The Packages indexes that a mirror takes of a Release.
pub fn filter_release_package_indexes(release: &Release, filter: &DebianSyncFilter) -> (r: Vec<
    DebianIndexPath,
>)
    ensures
        r.deep_view() == package_indexes(release.deep_view(), filter.deep_view()),
{
    let mut found: Vec<DebianIndexPath> = Vec::new();
    assert(found.deep_view() =~= seq![]);
    if !filter_takes_distribution(release, filter) {
        return found;
    }
    let ghost model = release.deep_view();
    let ghost f = filter.deep_view();
    let ghost seen = Seq::<HashModel>::empty();
    push_listed_packages(&mut found, &release.sha256, filter, Ghost(seen));
    let ghost seen = seen + model.sha256;
    push_listed_packages(&mut found, &release.sha512, filter, Ghost(seen));
    let ghost seen = seen + model.sha512;
    push_listed_packages(&mut found, &release.sha1, filter, Ghost(seen));
    let ghost seen = seen + model.sha1;
    push_listed_packages(&mut found, &release.md5sum, filter, Ghost(seen));
    assert(seen + model.md5sum =~= listed(model));
    if found.len() == 0 {
        let ghost all = model.components;
        let ghost archs = model.architectures;
        assert(found.deep_view() =~= usual_packages(all.take(0), archs, f));
        for i in 0..release.components.len()
            invariant
                all == release.components.deep_view(),
                archs == release.architectures.deep_view(),
                f == filter.deep_view(),
                found.deep_view() == usual_packages(all.take(i as int), archs, f),
        {
            proof {
                assert(all.take(i + 1).drop_last() =~= all.take(i as int));
                assert(all.take(i + 1).last() == release.components[i as int]@);
            }
            if list_admits(filter.components.as_slice(), release.components[i].as_str()) {
                push_usual_packages(
                    &mut found,
                    &release.components[i],
                    &release.architectures,
                    filter,
                );
            }
        }
        assert(all.take(all.len() as int) =~= all);
    }
    choose_best(found)
}

/// The Sources indexes that a mirror takes of a Release.
pub fn filter_release_source_indexes(release: &Release, filter: &DebianSyncFilter) -> (r: Vec<
    DebianSourceIndexPath,
>)
    ensures
        r.deep_view() == source_indexes(release.deep_view(), filter.deep_view()),
{
    let mut found: Vec<DebianSourceIndexPath> = Vec::new();
    assert(found.deep_view() =~= seq![]);
    if !filter.include_source_packages {
        return found;
    }
    let ghost model = release.deep_view();
    let ghost f = filter.deep_view();
    let ghost seen = Seq::<HashModel>::empty();
    push_listed_sources(&mut found, &release.sha256, filter, Ghost(seen));
    let ghost seen = seen + model.sha256;
    push_listed_sources(&mut found, &release.sha512, filter, Ghost(seen));
    let ghost seen = seen + model.sha512;
    push_listed_sources(&mut found, &release.sha1, filter, Ghost(seen));
    let ghost seen = seen + model.sha1;
    push_listed_sources(&mut found, &release.md5sum, filter, Ghost(seen));
    assert(seen + model.md5sum =~= listed(model));
    if found.len() == 0 {
        let ghost all = model.components;
        assert(found.deep_view() =~= usual_sources(all.take(0), f));
        for i in 0..release.components.len()
            invariant
                all == release.components.deep_view(),
                f == filter.deep_view(),
                found.deep_view() == usual_sources(all.take(i as int), f),
        {
            let ghost before = found.deep_view();
            proof {
                assert(all.take(i + 1).drop_last() =~= all.take(i as int));
                assert(all.take(i + 1).last() == release.components[i as int]@);
            }
            if list_admits(filter.components.as_slice(), release.components[i].as_str()) {
                let index = DebianSourceIndexPath {
                    component: release.components[i].clone(),
                    path: cat2(release.components[i].as_str(), "/source/Sources.xz"),
                };
                let ghost m = index.deep_view();
                found.push(index);
                assert(found.deep_view() =~= before.push(m));
            }
        }
        assert(all.take(all.len() as int) =~= all);
    }
    choose_best(found)
}

/// The values that a filter asks for.
fn wanted_values(values: &Vec<String>) -> (r: Vec<String>)
    ensures
        r.deep_view() == wanted(values.deep_view()),
{
    let ghost all = values.deep_view();
    let mut r: Vec<String> = Vec::new();
    assert(r.deep_view() =~= wanted(all.take(0)));
    for i in 0..values.len()
        invariant
            all == values.deep_view(),
            r.deep_view() == wanted(all.take(i as int)),
    {
        let ghost before = r.deep_view();
        proof {
            assert(all.take(i + 1).drop_last() =~= all.take(i as int));
            assert(all.take(i + 1).last() == values[i as int]@);
        }
        let chars = chars_of(values[i].as_str());
        let value = trim_of(chars.as_slice());
        if value.len() > 0 && !is_text(value, "*") {
            r.push(text_of(value));
            assert(r.deep_view() =~= before.push(value@));
        }
    }
    assert(all.take(all.len() as int) =~= all);
    r
}

/// The values that a filter asks for and that are not advertised.
fn missing_release_filter_values(selected: &Vec<String>, advertised: &Vec<String>) -> (r: Vec<
    String,
>)
    ensures
        r.deep_view() == missing_values(selected.deep_view(), advertised.deep_view()),
{
    let asked = wanted_values(selected);
    let set = TextSet::of(&asked);
    let values = set.items();
    let ghost all = values.deep_view();
    let ghost adv = advertised.deep_view();
    let mut r: Vec<String> = Vec::new();
    assert(r.deep_view() =~= not_advertised(all.take(0), adv));
    for i in 0..values.len()
        invariant
            all == values.deep_view(),
            adv == advertised.deep_view(),
            r.deep_view() == not_advertised(all.take(i as int), adv),
    {
        let ghost before = r.deep_view();
        proof {
            assert(all.take(i + 1).drop_last() =~= all.take(i as int));
            assert(all.take(i + 1).last() == values[i as int]@);
        }
        if !list_holds(advertised.as_slice(), values[i].as_str()) {
            r.push(values[i].clone());
            assert(r.deep_view() =~= before.push(values[i as int]@));
        }
    }
    assert(all.take(all.len() as int) =~= all);
    r
}

/// Checks that a Release advertises what a filter asks for.
pub fn validate_release_filter_selection(release: &Release, filter: &DebianSyncFilter) -> (r: Result<
    (),
>)
    ensures
        outcome(r) == selection(release.deep_view(), filter.deep_view()),
{
    let components = missing_release_filter_values(&filter.components, &release.components);
    if components.len() > 0 {
        let names = join_texts(components.as_slice(), ", ");
        return Err(
            AppError::Validation(
                cat2(
                    "Selected Debian component(s) not advertised by upstream Release metadata: ",
                    names.as_str(),
                ),
            ),
        );
    }
    let architectures = missing_release_filter_values(
        &filter.architectures,
        &release.architectures,
    );
    if architectures.len() > 0 {
        let names = join_texts(architectures.as_slice(), ", ");
        return Err(
            AppError::Validation(
                cat2(
                    "Selected Debian architecture(s) not advertised by upstream Release metadata: ",
                    names.as_str(),
                ),
            ),
        );
    }
    Ok(())
}

/// Packages for all architectures belong in every mirror; others in those of
/// their own architecture.
pub fn package_matches_sync_architecture(
    package_arch: &str,
    selected_architectures: &[String],
) -> (r: bool)
    ensures
        r == matches_architecture(package_arch@, selected_architectures.deep_view()),
{
    same_text(package_arch, "all") || list_admits(selected_architectures, package_arch)
}

/// The package belongs in a mirror of the index.
pub fn package_matches_sync_index(
    package_arch: &str,
    index_architecture: &str,
    selected_architectures: &[String],
) -> (r: bool)
    ensures
        r == matches_index(
            package_arch@,
            index_architecture@,
            selected_architectures.deep_view(),
        ),
{
    if index_architecture.is_empty() {
        return package_matches_sync_architecture(package_arch, selected_architectures);
    }
    same_text(package_arch, "all") || (same_text(package_arch, index_architecture)
        && package_matches_sync_architecture(package_arch, selected_architectures))
}

} // verus!
