//! Which indexes a mirror takes, said of the paths that a Release lists.

use vstd::prelude::*;

use crate::release::{HashModel, ReleaseModel};
use crate::select::{admits, best_of, best_of_law, has_stand_in, is_index_name, listed, listed_packages};
use crate::select::{listed_sources, matches_architecture, matches_index, package_index_of, package_indexes};
use crate::select::{package_indexes_law, selection, selection_law, source_index_of, source_indexes};
use crate::select::{source_indexes_law, stands_for, takes_index, usual_for_component, usual_packages, usual_sources};
use crate::select::{wanted, DebianIndexPath, DebianSourceIndexPath, FilterModel, IndexModel, SourceIndexModel};
use crate::sort::{key_lt, key_lt_irreflexive};
use crate::text::{ends_with, is_blank, split, split_first, split_last, split_single, starts_with, trim};
use crate::text::{trim_empty_iff_blank, trim_start_text};
use crate::verify::advertised;

use crate::sort::Sortable;

verus! {

// ---------------------------------------------------------------------------
// Paths
// ---------------------------------------------------------------------------

/// The path is that of a file, plain or compressed.
pub open spec fn is_form_of(path: Seq<char>, plain: Seq<char>) -> bool {
    path == plain || path == plain + ".gz"@ || path == plain + ".xz"@
}

/// Some section of the Release lists the path.
pub open spec fn is_listed_at(release: ReleaseModel, path: Seq<char>) -> bool {
    ||| exists|i: int| 0 <= i < release.sha256.len() && (#[trigger] release.sha256[i]).path == path
    ||| exists|i: int| 0 <= i < release.sha512.len() && (#[trigger] release.sha512[i]).path == path
    ||| exists|i: int| 0 <= i < release.sha1.len() && (#[trigger] release.sha1[i]).path == path
    ||| exists|i: int| 0 <= i < release.md5sum.len() && (#[trigger] release.md5sum[i]).path == path
}

/// The mirror is after the distribution: it names none, or its suite or codename.
pub open spec fn is_after(filter: FilterModel, release: ReleaseModel) -> bool {
    ||| filter.distributions.len() == 0
    ||| filter.distributions.contains(release.suite)
    ||| (release.codename is Some && filter.distributions.contains(release.codename->0))
}

/// The mirror is after the value: it names none, or this one.
pub open spec fn asks_for(values: Seq<Seq<char>>, value: Seq<char>) -> bool {
    values.len() == 0 || exists|i: int| 0 <= i < values.len() && #[trigger] values[i] == value
}

/// The path is that of the Packages index of a component for an architecture, or, with
/// neither, that of a flat repository.
pub open spec fn names_packages(path: Seq<char>, component: Seq<char>, arch: Seq<char>) -> bool {
    ||| {
        &&& component.len() == 0
        &&& arch.len() == 0
        &&& is_form_of(path, "Packages"@)
    }
    ||| {
        &&& !component.contains('/')
        &&& !arch.contains('/')
        &&& !starts_with(arch, "binary-"@)
        &&& is_form_of(path, component + "/binary-"@ + arch + "/Packages"@)
    }
}

/// The path is that of the Sources index of a component, or, without one, that of a
/// flat repository.
pub open spec fn names_sources(path: Seq<char>, component: Seq<char>) -> bool {
    ||| {
        &&& component.len() == 0
        &&& is_form_of(path, "Sources"@)
    }
    ||| {
        &&& !component.contains('/')
        &&& is_form_of(path, component + "/source/Sources"@)
    }
}

/// A path compressed no worse than another.
pub open spec fn is_as_small(path: Seq<char>, other: Seq<char>) -> bool {
    &&& ends_with(other, ".xz"@) ==> ends_with(path, ".xz"@)
    &&& ends_with(other, ".gz"@) ==> ends_with(path, ".gz"@) || ends_with(path, ".xz"@)
}

proof fn three_parts(a: Seq<char>, b: Seq<char>, c: Seq<char>)
    requires
        !a.contains('/'),
        !b.contains('/'),
        !c.contains('/'),
    ensures
        split(a + "/"@ + b + "/"@ + c, '/') == seq![a, b, c],
{
    reveal_strlit("/");
    assert("/"@ =~= seq!['/']);
    let rest = b + seq!['/'] + c;
    assert(a + "/"@ + b + "/"@ + c =~= a + seq!['/'] + rest);
    split_first(a, rest, '/');
    split_first(b, c, '/');
    split_single(c, '/');
    assert(seq![a] + (seq![b] + seq![c]) =~= seq![a, b, c]);
}

proof fn form_is_name(path: Seq<char>, plain: Seq<char>) -> (name: Seq<char>)
    requires
        is_form_of(path, plain + "Packages"@),
    ensures
        path == plain + name,
        is_index_name(name, "Packages"@),
        !name.contains('/'),
{
    reveal_strlit("Packages");
    reveal_strlit(".gz");
    reveal_strlit(".xz");
    if path == plain + "Packages"@ {
        "Packages"@
    } else if path == plain + "Packages"@ + ".gz"@ {
        assert(path =~= plain + ("Packages"@ + ".gz"@));
        "Packages"@ + ".gz"@
    } else {
        assert(path =~= plain + ("Packages"@ + ".xz"@));
        "Packages"@ + ".xz"@
    }
}

proof fn form_is_source_name(path: Seq<char>, plain: Seq<char>) -> (name: Seq<char>)
    requires
        is_form_of(path, plain + "Sources"@),
    ensures
        path == plain + name,
        is_index_name(name, "Sources"@),
        !name.contains('/'),
{
    reveal_strlit("Sources");
    reveal_strlit(".gz");
    reveal_strlit(".xz");
    if path == plain + "Sources"@ {
        "Sources"@
    } else if path == plain + "Sources"@ + ".gz"@ {
        assert(path =~= plain + ("Sources"@ + ".gz"@));
        "Sources"@ + ".gz"@
    } else {
        assert(path =~= plain + ("Sources"@ + ".xz"@));
        "Sources"@ + ".xz"@
    }
}

/// A path that names the Packages index of a component for an architecture is read
/// as one.
pub proof fn packages_path_is_read(path: Seq<char>, component: Seq<char>, arch: Seq<char>)
    requires
        names_packages(path, component, arch),
    ensures
        package_index_of(path) == Some(IndexModel { component, architecture: arch, path }),
{
    reveal_strlit("Packages");
    reveal_strlit("binary-");
    reveal_strlit("/");
    reveal_strlit("/binary-");
    reveal_strlit("/Packages");
    if component.len() == 0 && arch.len() == 0 && is_form_of(path, "Packages"@) {
        assert(Seq::<char>::empty() + "Packages"@ =~= "Packages"@);
        let name = form_is_name(path, seq![]);
        assert(path =~= name);
        split_single(name, '/');
        assert(component =~= seq![]);
        assert(arch =~= seq![]);
    } else {
        let dir = "binary-"@ + arch;
        let plain = component + "/"@ + dir + "/"@;
        assert(component + "/binary-"@ + arch + "/Packages"@ =~= plain + "Packages"@);
        let name = form_is_name(path, plain);
        assert(!dir.contains('/')) by {
            if dir.contains('/') {
                let i = choose|i: int| 0 <= i < dir.len() && dir[i] == '/';
                if i >= 7 {
                    assert(arch[i - 7] == '/');
                    assert(arch.contains('/'));
                }
            }
        }
        three_parts(component, dir, name);
        assert(split(path, '/').len() == 3);
        assert(dir.take(7) =~= "binary-"@);
        assert(dir.skip(7) =~= arch);
        reveal_with_fuel(trim_start_text, 2);
        assert(trim_start_text(dir, "binary-"@) == arch);
    }
}

/// A path that names the Sources index of a component is read as one.
pub proof fn sources_path_is_read(path: Seq<char>, component: Seq<char>)
    requires
        names_sources(path, component),
    ensures
        source_index_of(path) == Some(SourceIndexModel { component, path }),
{
    reveal_strlit("Sources");
    reveal_strlit("source");
    reveal_strlit("/");
    reveal_strlit("/source/Sources");
    if component.len() == 0 && is_form_of(path, "Sources"@) {
        assert(Seq::<char>::empty() + "Sources"@ =~= "Sources"@);
        let name = form_is_source_name(path, seq![]);
        assert(path =~= name);
        split_single(name, '/');
        assert(component =~= seq![]);
    } else {
        let plain = component + "/"@ + "source"@ + "/"@;
        assert(component + "/source/Sources"@ =~= plain + "Sources"@);
        let name = form_is_source_name(path, plain);
        three_parts(component, "source"@, name);
        assert(split(path, '/').len() == 3);
    }
}

/// A path whose last part is the name of no index is none.
pub proof fn other_path_is_no_index(directory: Seq<char>, name: Seq<char>)
    requires
        !name.contains('/'),
    ensures
        !is_form_of(name, "Packages"@) ==> package_index_of(directory + "/"@ + name) is None
            && package_index_of(name) is None,
        !is_form_of(name, "Sources"@) ==> source_index_of(directory + "/"@ + name) is None
            && source_index_of(name) is None,
{
    reveal_strlit("/");
    assert("/"@ =~= seq!['/']);
    split_last(directory, name, '/');
    split_single(name, '/');
}

// ---------------------------------------------------------------------------
// Packages indexes
// ---------------------------------------------------------------------------

proof fn listed_at_is_among(release: ReleaseModel, path: Seq<char>)
    ensures
        is_listed_at(release, path) <==> exists|i: int|
            0 <= i < listed(release).len() && (#[trigger] listed(release)[i]).path == path,
{
    let all = listed(release);
    let a = release.sha256.len();
    let b = a + release.sha512.len();
    let c = b + release.sha1.len();
    if is_listed_at(release, path) {
        if exists|i: int| 0 <= i < a && (#[trigger] release.sha256[i]).path == path {
            let i = choose|i: int| 0 <= i < a && (#[trigger] release.sha256[i]).path == path;
            assert(all[i].path == path);
        } else if exists|i: int|
            0 <= i < release.sha512.len() && (#[trigger] release.sha512[i]).path == path {
            let i = choose|i: int|
                0 <= i < release.sha512.len() && (#[trigger] release.sha512[i]).path == path;
            assert(all[a + i].path == path);
        } else if exists|i: int|
            0 <= i < release.sha1.len() && (#[trigger] release.sha1[i]).path == path {
            let i = choose|i: int|
                0 <= i < release.sha1.len() && (#[trigger] release.sha1[i]).path == path;
            assert(all[b + i].path == path);
        } else {
            let i = choose|i: int|
                0 <= i < release.md5sum.len() && (#[trigger] release.md5sum[i]).path == path;
            assert(all[c + i].path == path);
        }
    }
    if exists|i: int| 0 <= i < all.len() && (#[trigger] all[i]).path == path {
        let i = choose|i: int| 0 <= i < all.len() && (#[trigger] all[i]).path == path;
        if i < a {
            assert(release.sha256[i].path == path);
        } else if i < b {
            assert(release.sha512[i - a].path == path);
        } else if i < c {
            assert(release.sha1[i - b].path == path);
        } else {
            assert(release.md5sum[i - c].path == path);
        }
    }
}

proof fn listed_packages_hold(hashes: Seq<HashModel>, filter: FilterModel, x: IndexModel)
    ensures
        listed_packages(hashes, filter).contains(x) <==> exists|i: int|
            0 <= i < hashes.len() && package_index_of((#[trigger] hashes[i]).path) == Some(x)
                && takes_index(filter, x),
    decreases hashes.len(),
{
    let r = listed_packages(hashes, filter);
    if hashes.len() > 0 {
        let t = hashes.drop_last();
        let before = listed_packages(t, filter);
        listed_packages_hold(t, filter, x);
        if r.contains(x) {
            let j = choose|j: int| 0 <= j < r.len() && r[j] == x;
            if j < before.len() {
                assert(before[j] == x);
                let i = choose|i: int|
                    0 <= i < t.len() && package_index_of((#[trigger] t[i]).path) == Some(x)
                        && takes_index(filter, x);
                assert(hashes[i] == t[i]);
            } else {
                assert(package_index_of(hashes[hashes.len() - 1].path) == Some(x));
            }
        }
        if exists|i: int|
            0 <= i < hashes.len() && package_index_of((#[trigger] hashes[i]).path) == Some(x)
                && takes_index(filter, x) {
            let i = choose|i: int|
                0 <= i < hashes.len() && package_index_of((#[trigger] hashes[i]).path) == Some(x)
                    && takes_index(filter, x);
            if i < t.len() {
                assert(t[i] == hashes[i]);
                let j = choose|j: int| 0 <= j < before.len() && before[j] == x;
                assert(r[j] == x);
            } else {
                assert(r[before.len() as int] == x);
            }
        }
    }
}

proof fn asking_admits(values: Seq<Seq<char>>, value: Seq<char>)
    ensures
        asks_for(values, value) <==> admits(values, value),
{
}

/// A taken Packages index that a listed one is as good as.
spec fn takes_for(indexes: Seq<IndexModel>, i: int, x: IndexModel) -> bool {
    0 <= i < indexes.len() && indexes[i].component == x.component && indexes[i].architecture
        == x.architecture && is_as_small(indexes[i].path, x.path)
}

proof fn stand_in_is_taken(indexes: Seq<IndexModel>, x: IndexModel) -> (i: int)
    requires
        has_stand_in::<DebianIndexPath>(indexes, x),
    ensures
        takes_for(indexes, i, x),
{
    let i = choose|i: int|
        0 <= i < indexes.len() && stands_for::<DebianIndexPath>(#[trigger] indexes[i], x);
    let a = DebianIndexPath::key(indexes[i]);
    let b = DebianIndexPath::key(x);
    assert(a[0] == b[0] && a[1] == b[1]);
    i
}

/// Every Packages index that some section of the Release lists, for a component and
/// an architecture that the mirror is after, is taken: from its own path, or from
/// another path listed for the same component and architecture that is compressed
/// no worse.
pub proof fn listed_packages_are_taken(
    release: ReleaseModel,
    filter: FilterModel,
    path: Seq<char>,
    component: Seq<char>,
    arch: Seq<char>,
)
    requires
        is_after(filter, release),
        is_listed_at(release, path),
        names_packages(path, component, arch),
        asks_for(filter.components, component),
        arch.len() == 0 || asks_for(filter.architectures, arch),
    ensures
        exists|i: int|
            0 <= i < package_indexes(release, filter).len() && {
                let index = #[trigger] package_indexes(release, filter)[i];
                &&& index.component == component
                &&& index.architecture == arch
                &&& is_listed_at(release, index.path)
                &&& is_as_small(index.path, path)
            },
{
    let x = IndexModel { component, architecture: arch, path };
    packages_path_is_read(path, component, arch);
    listed_at_is_among(release, path);
    let hashes = listed(release);
    let h = choose|h: int| 0 <= h < hashes.len() && (#[trigger] hashes[h]).path == path;
    assert(package_index_of(hashes[h].path) == Some(x));
    listed_packages_hold(hashes, filter, x);
    let found = listed_packages(hashes, filter);
    assert(found.contains(x));
    let j = choose|j: int| 0 <= j < found.len() && found[j] == x;
    best_of_law::<DebianIndexPath>(found);
    let taken = package_indexes(release, filter);
    assert(taken == best_of::<DebianIndexPath>(found));
    assert(has_stand_in::<DebianIndexPath>(taken, found[j]));
    let i = stand_in_is_taken(taken, x);
    assert(found.contains(taken[i]));
    listed_packages_hold(hashes, filter, taken[i]);
    let g = choose|g: int|
        0 <= g < hashes.len() && package_index_of((#[trigger] hashes[g]).path) == Some(taken[i])
            && takes_index(filter, taken[i]);
    assert(hashes[g].path == taken[i].path);
    listed_at_is_among(release, taken[i].path);
}

/// The Release lists no Packages index that the mirror is after.
pub open spec fn lists_no_packages(release: ReleaseModel, filter: FilterModel) -> bool {
    forall|path: Seq<char>| #[trigger]
        is_listed_at(release, path) ==> match package_index_of(path) {
            Some(x) => !(asks_for(filter.components, x.component) && (x.architecture.len() == 0
                || asks_for(filter.architectures, x.architecture))),
            None => true,
        }
}

proof fn nothing_listed_iff(release: ReleaseModel, filter: FilterModel)
    ensures
        lists_no_packages(release, filter) <==> listed_packages(listed(release), filter).len()
            == 0,
{
    let hashes = listed(release);
    let found = listed_packages(hashes, filter);
    if found.len() > 0 {
        let x = found[0];
        assert(found.contains(x));
        listed_packages_hold(hashes, filter, x);
        let g = choose|g: int|
            0 <= g < hashes.len() && package_index_of((#[trigger] hashes[g]).path) == Some(x)
                && takes_index(filter, x);
        listed_at_is_among(release, hashes[g].path);
        assert(is_listed_at(release, hashes[g].path));
    } else {
        assert forall|path: Seq<char>| #[trigger] is_listed_at(
            release,
            path,
        ) implies match package_index_of(path) {
            Some(x) => !(asks_for(filter.components, x.component) && (x.architecture.len() == 0
                || asks_for(filter.architectures, x.architecture))),
            None => true,
        } by {
            if let Some(x) = package_index_of(path) {
                listed_packages_hold(hashes, filter, x);
                listed_at_is_among(release, path);
                assert(!found.contains(x));
            }
        }
    }
}

proof fn usual_for_component_holds(
    component: Seq<char>,
    archs: Seq<Seq<char>>,
    filter: FilterModel,
    x: IndexModel,
)
    ensures
        usual_for_component(component, archs, filter).contains(x) <==> x.component == component
            && archs.contains(x.architecture) && admits(filter.architectures, x.architecture)
            && x.path == component + "/binary-"@ + x.architecture + "/Packages.xz"@,
    decreases archs.len(),
{
    let r = usual_for_component(component, archs, filter);
    if archs.len() > 0 {
        let t = archs.drop_last();
        let before = usual_for_component(component, t, filter);
        usual_for_component_holds(component, t, filter, x);
        if r.contains(x) {
            let j = choose|j: int| 0 <= j < r.len() && r[j] == x;
            if j < before.len() {
                assert(before[j] == x);
                let i = choose|i: int| 0 <= i < t.len() && t[i] == x.architecture;
                assert(archs[i] == x.architecture);
            } else {
                assert(archs[archs.len() - 1] == x.architecture);
            }
        }
        if archs.contains(x.architecture) && admits(filter.architectures, x.architecture)
            && x.component == component && x.path == component + "/binary-"@ + x.architecture
            + "/Packages.xz"@ {
            let i = choose|i: int| 0 <= i < archs.len() && archs[i] == x.architecture;
            if i < t.len() {
                assert(t[i] == x.architecture);
                let j = choose|j: int| 0 <= j < before.len() && before[j] == x;
                assert(r[j] == x);
            } else {
                assert(r[before.len() as int] == x);
            }
        }
    }
}

proof fn usual_packages_hold(
    components: Seq<Seq<char>>,
    archs: Seq<Seq<char>>,
    filter: FilterModel,
    x: IndexModel,
)
    ensures
        usual_packages(components, archs, filter).contains(x) <==> components.contains(
            x.component,
        ) && admits(filter.components, x.component) && archs.contains(x.architecture) && admits(
            filter.architectures,
            x.architecture,
        ) && x.path == x.component + "/binary-"@ + x.architecture + "/Packages.xz"@,
    decreases components.len(),
{
    let r = usual_packages(components, archs, filter);
    if components.len() > 0 {
        let t = components.drop_last();
        let component = components.last();
        let before = usual_packages(t, archs, filter);
        let more = usual_for_component(component, archs, filter);
        usual_packages_hold(t, archs, filter, x);
        usual_for_component_holds(component, archs, filter, x);
        if r.contains(x) {
            let j = choose|j: int| 0 <= j < r.len() && r[j] == x;
            if j < before.len() {
                assert(before[j] == x);
                let i = choose|i: int| 0 <= i < t.len() && t[i] == x.component;
                assert(components[i] == x.component);
            } else {
                assert(more[j - before.len()] == x);
                assert(components[components.len() - 1] == x.component);
            }
        }
        if components.contains(x.component) {
            let i = choose|i: int| 0 <= i < components.len() && components[i] == x.component;
            if before.contains(x) {
                let j = choose|j: int| 0 <= j < before.len() && before[j] == x;
                assert(r[j] == x);
            } else if i < t.len() {
                assert(t[i] == x.component);
            } else if admits(filter.components, component) && more.contains(x) {
                let j = choose|j: int| 0 <= j < more.len() && more[j] == x;
                assert(r[before.len() + j] == x);
            }
        }
    }
}

/// Where the Release lists no Packages index that the mirror is after, those at the
/// usual paths are taken: for each component and each architecture that the Release
/// names and the mirror is after.
pub proof fn usual_packages_are_taken(
    release: ReleaseModel,
    filter: FilterModel,
    component: Seq<char>,
    arch: Seq<char>,
)
    requires
        is_after(filter, release),
        lists_no_packages(release, filter),
        release.components.contains(component),
        release.architectures.contains(arch),
        asks_for(filter.components, component),
        asks_for(filter.architectures, arch),
    ensures
        package_indexes(release, filter).contains(
            (IndexModel {
                component,
                architecture: arch,
                path: component + "/binary-"@ + arch + "/Packages.xz"@,
            }),
        ),
{
    nothing_listed_iff(release, filter);
    let usual = usual_packages(release.components, release.architectures, filter);
    let x = IndexModel {
        component,
        architecture: arch,
        path: component + "/binary-"@ + arch + "/Packages.xz"@,
    };
    usual_packages_hold(release.components, release.architectures, filter, x);
    best_of_law::<DebianIndexPath>(usual);
    let taken = package_indexes(release, filter);
    assert(taken == best_of::<DebianIndexPath>(usual));
    let j = choose|j: int| 0 <= j < usual.len() && usual[j] == x;
    assert(has_stand_in::<DebianIndexPath>(taken, usual[j]));
    let i = stand_in_is_taken(taken, x);
    assert(usual.contains(taken[i]));
    usual_packages_hold(release.components, release.architectures, filter, taken[i]);
    assert(taken[i] == x);
}

/// A mirror takes no Packages index that it is not after: the distribution, the
/// component and the architecture of each are asked for. Each is listed under its
/// path, which names it, or, where none is listed, stands at the usual path of a
/// component and an architecture that the Release names. No two are for the same
/// component and architecture.
pub proof fn taken_packages_are_asked_for(release: ReleaseModel, filter: FilterModel, i: int)
    requires
        0 <= i < package_indexes(release, filter).len(),
    ensures
        ({
            let taken = package_indexes(release, filter);
            let index = taken[i];
            &&& is_after(filter, release)
            &&& asks_for(filter.components, index.component)
            &&& index.architecture.len() == 0 || asks_for(filter.architectures, index.architecture)
            &&& if lists_no_packages(release, filter) {
                &&& release.components.contains(index.component)
                &&& release.architectures.contains(index.architecture)
                &&& index.path == index.component + "/binary-"@ + index.architecture
                    + "/Packages.xz"@
            } else {
                &&& is_listed_at(release, index.path)
                &&& package_index_of(index.path) == Some(index)
            }
            &&& forall|j: int|
                0 <= j < taken.len() && j != i ==> (#[trigger] taken[j]).component
                    != index.component || taken[j].architecture != index.architecture
        }),
{
    let taken = package_indexes(release, filter);
    let hashes = listed(release);
    let found = listed_packages(hashes, filter);
    let usual = usual_packages(release.components, release.architectures, filter);
    let index = taken[i];
    nothing_listed_iff(release, filter);
    package_indexes_law(release, filter);
    assert(takes_index(filter, taken[i]));
    asking_admits(filter.components, index.component);
    asking_admits(filter.architectures, index.architecture);
    if lists_no_packages(release, filter) {
        best_of_law::<DebianIndexPath>(usual);
        assert(usual.contains(index));
        usual_packages_hold(release.components, release.architectures, filter, index);
    } else {
        best_of_law::<DebianIndexPath>(found);
        assert(found.contains(index));
        listed_packages_hold(hashes, filter, index);
        let g = choose|g: int|
            0 <= g < hashes.len() && package_index_of((#[trigger] hashes[g]).path) == Some(index)
                && takes_index(filter, index);
        assert(hashes[g].path == index.path);
        listed_at_is_among(release, index.path);
    }
    assert forall|j: int| 0 <= j < taken.len() && j != i implies (
    #[trigger] taken[j]).component != index.component || taken[j].architecture
        != index.architecture by {
        let a = DebianIndexPath::key(taken[i]);
        let b = DebianIndexPath::key(taken[j]);
        if taken[j].component == index.component && taken[j].architecture == index.architecture {
            assert(a == b);
            key_lt_irreflexive(a);
            if i < j {
                assert(key_lt(a, b));
            } else {
                assert(key_lt(b, a));
            }
        }
    }
}

// ---------------------------------------------------------------------------
// Sources indexes
// ---------------------------------------------------------------------------

proof fn listed_sources_hold(hashes: Seq<HashModel>, filter: FilterModel, x: SourceIndexModel)
    ensures
        listed_sources(hashes, filter).contains(x) <==> exists|i: int|
            0 <= i < hashes.len() && source_index_of((#[trigger] hashes[i]).path) == Some(x)
                && admits(filter.components, x.component),
    decreases hashes.len(),
{
    let r = listed_sources(hashes, filter);
    if hashes.len() > 0 {
        let t = hashes.drop_last();
        let before = listed_sources(t, filter);
        listed_sources_hold(t, filter, x);
        if r.contains(x) {
            let j = choose|j: int| 0 <= j < r.len() && r[j] == x;
            if j < before.len() {
                assert(before[j] == x);
                let i = choose|i: int|
                    0 <= i < t.len() && source_index_of((#[trigger] t[i]).path) == Some(x)
                        && admits(filter.components, x.component);
                assert(hashes[i] == t[i]);
            } else {
                assert(source_index_of(hashes[hashes.len() - 1].path) == Some(x));
            }
        }
        if exists|i: int|
            0 <= i < hashes.len() && source_index_of((#[trigger] hashes[i]).path) == Some(x)
                && admits(filter.components, x.component) {
            let i = choose|i: int|
                0 <= i < hashes.len() && source_index_of((#[trigger] hashes[i]).path) == Some(x)
                    && admits(filter.components, x.component);
            if i < t.len() {
                assert(t[i] == hashes[i]);
                let j = choose|j: int| 0 <= j < before.len() && before[j] == x;
                assert(r[j] == x);
            } else {
                assert(r[before.len() as int] == x);
            }
        }
    }
}

/// A taken Sources index that a listed one is as good as.
spec fn takes_source_for(indexes: Seq<SourceIndexModel>, i: int, x: SourceIndexModel) -> bool {
    0 <= i < indexes.len() && indexes[i].component == x.component && is_as_small(indexes[i].path, x.path)
}

proof fn source_stand_in_is_taken(indexes: Seq<SourceIndexModel>, x: SourceIndexModel) -> (i: int)
    requires
        has_stand_in::<DebianSourceIndexPath>(indexes, x),
    ensures
        takes_source_for(indexes, i, x),
{
    let i = choose|i: int|
        0 <= i < indexes.len() && stands_for::<DebianSourceIndexPath>(#[trigger] indexes[i], x);
    let a = DebianSourceIndexPath::key(indexes[i]);
    let b = DebianSourceIndexPath::key(x);
    assert(a[0] == b[0]);
    i
}

/// Where the mirror is after sources, every Sources index that some section of the
/// Release lists, for a component that the mirror is after, is taken: from its own
/// path, or from another path listed for the same component that is compressed no
/// worse.
pub proof fn listed_sources_are_taken(
    release: ReleaseModel,
    filter: FilterModel,
    path: Seq<char>,
    component: Seq<char>,
)
    requires
        filter.include_source_packages,
        is_listed_at(release, path),
        names_sources(path, component),
        asks_for(filter.components, component),
    ensures
        exists|i: int|
            0 <= i < source_indexes(release, filter).len() && {
                let index = #[trigger] source_indexes(release, filter)[i];
                &&& index.component == component
                &&& is_listed_at(release, index.path)
                &&& is_as_small(index.path, path)
            },
{
    let x = SourceIndexModel { component, path };
    sources_path_is_read(path, component);
    listed_at_is_among(release, path);
    let hashes = listed(release);
    let h = choose|h: int| 0 <= h < hashes.len() && (#[trigger] hashes[h]).path == path;
    assert(source_index_of(hashes[h].path) == Some(x));
    listed_sources_hold(hashes, filter, x);
    let found = listed_sources(hashes, filter);
    assert(found.contains(x));
    let j = choose|j: int| 0 <= j < found.len() && found[j] == x;
    best_of_law::<DebianSourceIndexPath>(found);
    let taken = source_indexes(release, filter);
    assert(taken == best_of::<DebianSourceIndexPath>(found));
    assert(has_stand_in::<DebianSourceIndexPath>(taken, found[j]));
    let i = source_stand_in_is_taken(taken, x);
    assert(found.contains(taken[i]));
    listed_sources_hold(hashes, filter, taken[i]);
    let g = choose|g: int|
        0 <= g < hashes.len() && source_index_of((#[trigger] hashes[g]).path) == Some(taken[i])
            && admits(filter.components, taken[i].component);
    assert(hashes[g].path == taken[i].path);
    listed_at_is_among(release, taken[i].path);
}

/// The Release lists no Sources index that the mirror is after.
pub open spec fn lists_no_sources(release: ReleaseModel, filter: FilterModel) -> bool {
    forall|path: Seq<char>| #[trigger]
        is_listed_at(release, path) ==> match source_index_of(path) {
            Some(x) => !asks_for(filter.components, x.component),
            None => true,
        }
}

proof fn no_source_listed_iff(release: ReleaseModel, filter: FilterModel)
    ensures
        lists_no_sources(release, filter) <==> listed_sources(listed(release), filter).len() == 0,
{
    let hashes = listed(release);
    let found = listed_sources(hashes, filter);
    if found.len() > 0 {
        let x = found[0];
        assert(found.contains(x));
        listed_sources_hold(hashes, filter, x);
        let g = choose|g: int|
            0 <= g < hashes.len() && source_index_of((#[trigger] hashes[g]).path) == Some(x)
                && admits(filter.components, x.component);
        listed_at_is_among(release, hashes[g].path);
        assert(is_listed_at(release, hashes[g].path));
    } else {
        assert forall|path: Seq<char>| #[trigger] is_listed_at(
            release,
            path,
        ) implies match source_index_of(path) {
            Some(x) => !asks_for(filter.components, x.component),
            None => true,
        } by {
            if let Some(x) = source_index_of(path) {
                listed_sources_hold(hashes, filter, x);
                listed_at_is_among(release, path);
                assert(!found.contains(x));
            }
        }
    }
}

proof fn usual_sources_hold(components: Seq<Seq<char>>, filter: FilterModel, x: SourceIndexModel)
    ensures
        usual_sources(components, filter).contains(x) <==> components.contains(x.component)
            && admits(filter.components, x.component) && x.path == x.component
            + "/source/Sources.xz"@,
    decreases components.len(),
{
    let r = usual_sources(components, filter);
    if components.len() > 0 {
        let t = components.drop_last();
        let before = usual_sources(t, filter);
        usual_sources_hold(t, filter, x);
        if r.contains(x) {
            let j = choose|j: int| 0 <= j < r.len() && r[j] == x;
            if j < before.len() {
                assert(before[j] == x);
                let i = choose|i: int| 0 <= i < t.len() && t[i] == x.component;
                assert(components[i] == x.component);
            } else {
                assert(components[components.len() - 1] == x.component);
            }
        }
        if components.contains(x.component) && admits(filter.components, x.component) && x.path
            == x.component + "/source/Sources.xz"@ {
            let i = choose|i: int| 0 <= i < components.len() && components[i] == x.component;
            if i < t.len() {
                assert(t[i] == x.component);
                let j = choose|j: int| 0 <= j < before.len() && before[j] == x;
                assert(r[j] == x);
            } else {
                assert(r[before.len() as int] == x);
            }
        }
    }
}

/// Where the Release lists no Sources index that the mirror is after, and the mirror
/// is after sources, those at the usual paths are taken: for each component that the
/// Release names and the mirror is after.
pub proof fn usual_sources_are_taken(
    release: ReleaseModel,
    filter: FilterModel,
    component: Seq<char>,
)
    requires
        filter.include_source_packages,
        lists_no_sources(release, filter),
        release.components.contains(component),
        asks_for(filter.components, component),
    ensures
        source_indexes(release, filter).contains(
            (SourceIndexModel { component, path: component + "/source/Sources.xz"@ }),
        ),
{
    no_source_listed_iff(release, filter);
    let usual = usual_sources(release.components, filter);
    let x = SourceIndexModel { component, path: component + "/source/Sources.xz"@ };
    usual_sources_hold(release.components, filter, x);
    best_of_law::<DebianSourceIndexPath>(usual);
    let taken = source_indexes(release, filter);
    assert(taken == best_of::<DebianSourceIndexPath>(usual));
    let j = choose|j: int| 0 <= j < usual.len() && usual[j] == x;
    assert(has_stand_in::<DebianSourceIndexPath>(taken, usual[j]));
    let i = source_stand_in_is_taken(taken, x);
    assert(usual.contains(taken[i]));
    usual_sources_hold(release.components, filter, taken[i]);
    assert(taken[i] == x);
}

/// A mirror takes no Sources index that it is not after: it asks for sources and for
/// the component of each. Each is listed under its path, which names it, or, where
/// none is listed, stands at the usual path of a component that the Release names.
/// No two are for the same component.
pub proof fn taken_sources_are_asked_for(release: ReleaseModel, filter: FilterModel, i: int)
    requires
        0 <= i < source_indexes(release, filter).len(),
    ensures
        ({
            let taken = source_indexes(release, filter);
            let index = taken[i];
            &&& filter.include_source_packages
            &&& asks_for(filter.components, index.component)
            &&& if lists_no_sources(release, filter) {
                &&& release.components.contains(index.component)
                &&& index.path == index.component + "/source/Sources.xz"@
            } else {
                &&& is_listed_at(release, index.path)
                &&& source_index_of(index.path) == Some(index)
            }
            &&& forall|j: int|
                0 <= j < taken.len() && j != i ==> (#[trigger] taken[j]).component
                    != index.component
        }),
{
    let taken = source_indexes(release, filter);
    let hashes = listed(release);
    let found = listed_sources(hashes, filter);
    let usual = usual_sources(release.components, filter);
    let index = taken[i];
    no_source_listed_iff(release, filter);
    source_indexes_law(release, filter);
    assert(admits(filter.components, taken[i].component));
    asking_admits(filter.components, index.component);
    if lists_no_sources(release, filter) {
        best_of_law::<DebianSourceIndexPath>(usual);
        assert(usual.contains(index));
        usual_sources_hold(release.components, filter, index);
    } else {
        best_of_law::<DebianSourceIndexPath>(found);
        assert(found.contains(index));
        listed_sources_hold(hashes, filter, index);
        let g = choose|g: int|
            0 <= g < hashes.len() && source_index_of((#[trigger] hashes[g]).path) == Some(index)
                && admits(filter.components, index.component);
        assert(hashes[g].path == index.path);
        listed_at_is_among(release, index.path);
    }
    assert forall|j: int| 0 <= j < taken.len() && j != i implies (
    #[trigger] taken[j]).component != index.component by {
        let a = DebianSourceIndexPath::key(taken[i]);
        let b = DebianSourceIndexPath::key(taken[j]);
        if taken[j].component == index.component {
            assert(a == b);
            key_lt_irreflexive(a);
            if i < j {
                assert(key_lt(a, b));
            } else {
                assert(key_lt(b, a));
            }
        }
    }
}

// ---------------------------------------------------------------------------
// What a mirror asks for
// ---------------------------------------------------------------------------

/// The value asks for something: it is neither blank nor the wildcard.
pub open spec fn asks(value: Seq<char>) -> bool {
    !is_blank(value) && trim(value) != "*"@
}

proof fn wanted_holds(values: Seq<Seq<char>>, v: Seq<char>)
    ensures
        wanted(values).contains(v) <==> exists|i: int|
            0 <= i < values.len() && asks(#[trigger] values[i]) && trim(values[i]) == v,
    decreases values.len(),
{
    let r = wanted(values);
    if values.len() > 0 {
        let t = values.drop_last();
        let before = wanted(t);
        wanted_holds(t, v);
        trim_empty_iff_blank(values.last());
        if r.contains(v) {
            let j = choose|j: int| 0 <= j < r.len() && r[j] == v;
            if j < before.len() {
                assert(before[j] == v);
                let i = choose|i: int|
                    0 <= i < t.len() && asks(#[trigger] t[i]) && trim(t[i]) == v;
                assert(asks(values[i]));
            } else {
                assert(asks(values[values.len() - 1]));
            }
        }
        if exists|i: int| 0 <= i < values.len() && asks(#[trigger] values[i]) && trim(values[i]) == v {
            let i = choose|i: int|
                0 <= i < values.len() && asks(#[trigger] values[i]) && trim(values[i]) == v;
            if i < t.len() {
                assert(asks(t[i]));
                let j = choose|j: int| 0 <= j < before.len() && before[j] == v;
                assert(r[j] == v);
            } else {
                assert(r[before.len() as int] == v);
            }
        }
    }
}

/// Everything that the values ask for is advertised.
pub open spec fn all_advertised(values: Seq<Seq<char>>, advertised: Seq<Seq<char>>) -> bool {
    forall|i: int|
        0 <= i < values.len() && asks(#[trigger] values[i]) ==> advertised.contains(trim(values[i]))
}

proof fn wanted_is_advertised(values: Seq<Seq<char>>, advertised: Seq<Seq<char>>)
    ensures
        all_advertised(values, advertised) <==> forall|v: Seq<char>|
            #[trigger] wanted(values).contains(v) ==> advertised.contains(v),
{
    if all_advertised(values, advertised) {
        assert forall|v: Seq<char>| #[trigger] wanted(values).contains(v) implies advertised.contains(
            v,
        ) by {
            wanted_holds(values, v);
        }
    }
    if forall|v: Seq<char>| #[trigger] wanted(values).contains(v) ==> advertised.contains(v) {
        assert forall|i: int| 0 <= i < values.len() && asks(#[trigger] values[i]) implies advertised.contains(
            trim(values[i]),
        ) by {
            wanted_holds(values, trim(values[i]));
        }
    }
}

/// A selection is accepted if and only if the Release advertises every component and
/// every architecture that it asks for, whatever white space stands round them.
pub proof fn selection_is_accepted_iff_advertised(release: ReleaseModel, filter: FilterModel)
    ensures
        selection(release, filter) is Ok <==> all_advertised(filter.components, release.components)
            && all_advertised(filter.architectures, release.architectures),
{
    selection_law(release, filter);
    wanted_is_advertised(filter.components, release.components);
    wanted_is_advertised(filter.architectures, release.architectures);
}

/// A package belongs in a mirror's index if and only if it is for all architectures,
/// or for one that the mirror is after and that is that of the index, where the index
/// has one.
pub proof fn package_belongs_by_architecture(
    arch: Seq<char>,
    index_arch: Seq<char>,
    selected: Seq<Seq<char>>,
)
    ensures
        matches_index(arch, index_arch, selected) <==> arch == "all"@ || (asks_for(selected, arch)
            && (index_arch.len() == 0 || arch == index_arch)),
        matches_architecture(arch, selected) <==> arch == "all"@ || asks_for(selected, arch),
{
    asking_admits(selected, arch);
}

} // verus!
