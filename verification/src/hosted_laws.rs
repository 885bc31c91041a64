//! What a hosted repository lists, said of the packages that are stored.

use vstd::prelude::*;
use vstd::utf8::encode_utf8;

use crate::codec::{gzipped, xzed};
use crate::control::ControlModel;
use crate::deb::name_parts;
use crate::digest::sha256_hex;
use crate::hosted::{aliased, aliases_law, configured, deb_info, file_at, found_architectures, found_components};
use crate::hosted::{has_path, hash_path, hosted_entries, hosted_entry, layout, no_aliases, pool_component};
use crate::hosted::{row_architecture, row_architectures, row_component, row_components, stored_control, with_aliases};
use crate::hosted::{with_hosted_indexes, DebInfoModel, HostedModel, MetadataModel, RowModel};
use crate::ordered::{ascending, with_text, with_text_ascending};
use crate::request_laws::counts;
use crate::text::{ends_with, is_blank, split, split_first, starts_with, trim, trim_empty_iff_blank};

verus! {

// ---------------------------------------------------------------------------
// Packages
// ---------------------------------------------------------------------------

/// The stored package belongs in the distribution: it was stored for that one, or
/// for none in particular.
pub open spec fn is_stored_for(row: RowModel, distribution: Seq<char>) -> bool {
    row.metadata is None || row.metadata->0.distribution is None || is_blank(
        row.metadata->0.distribution->0,
    ) || trim(row.metadata->0.distribution->0) == distribution
}

/// The control stanza that a stored package is listed with.
pub open spec fn row_control(row: RowModel) -> ControlModel {
    stored_control(row.metadata, deb_info(split(row.path, '/').last())->0)
}

/// The stored package belongs in the index of a distribution and an architecture:
/// its file has the name of a package file, it was stored for the distribution, and
/// it is for the architecture or for all of them.
pub open spec fn is_listed_in(row: RowModel, distribution: Seq<char>, arch: Seq<char>) -> bool {
    &&& name_parts(split(row.path, '/').last()) is Some
    &&& is_stored_for(row, distribution)
    &&& row_control(row).architecture == arch || row_control(row).architecture == "all"@
}

/// The entry of a stored package: its control stanza, and its path, size and
/// digests as they are stored.
pub open spec fn row_entry(row: RowModel) -> HostedModel {
    HostedModel {
        control: row_control(row),
        filename: row.path,
        size: row.size,
        sha256: row.sha256,
        sha1: row.sha1,
        md5: row.md5,
    }
}

proof fn row_is_listed(row: RowModel, distribution: Seq<char>, arch: Seq<char>)
    ensures
        hosted_entry(row, distribution, arch) == (if is_listed_in(row, distribution, arch) {
            Some(row_entry(row))
        } else {
            None
        }),
{
    if let Some(meta) = row.metadata {
        if let Some(d) = meta.distribution {
            trim_empty_iff_blank(d);
        }
    }
}

/// The Packages index of a hosted repository lists the stored packages that belong
/// in it, all of them, in the order in which they are stored, and no other.
pub proof fn index_lists_what_is_stored(
    rows: Seq<RowModel>,
    distribution: Seq<char>,
    arch: Seq<char>,
)
    ensures
        hosted_entries(rows, distribution, arch) == rows.filter(
            |row: RowModel| is_listed_in(row, distribution, arch),
        ).map_values(|row: RowModel| row_entry(row)),
    decreases rows.len(),
{
    reveal(Seq::filter);
    let pred = |row: RowModel| is_listed_in(row, distribution, arch);
    let make = |row: RowModel| row_entry(row);
    let r = hosted_entries(rows, distribution, arch);
    if rows.len() == 0 {
        assert(r =~= rows.filter(pred).map_values(make));
    } else {
        index_lists_what_is_stored(rows.drop_last(), distribution, arch);
        row_is_listed(rows.last(), distribution, arch);
        assert(r =~= rows.filter(pred).map_values(make));
    }
}

/// The number of stored packages that belong in an index.
pub open spec fn listed_count(rows: Seq<RowModel>, distribution: Seq<char>, arch: Seq<char>) -> nat
    decreases rows.len(),
{
    if rows.len() == 0 {
        0
    } else {
        listed_count(rows.drop_first(), distribution, arch) + (if is_listed_in(
            rows[0],
            distribution,
            arch,
        ) {
            1nat
        } else {
            0nat
        })
    }
}

proof fn count_from_behind(rows: Seq<RowModel>, distribution: Seq<char>, arch: Seq<char>)
    requires
        rows.len() > 0,
    ensures
        listed_count(rows, distribution, arch) == listed_count(
            rows.drop_last(),
            distribution,
            arch,
        ) + (if is_listed_in(rows.last(), distribution, arch) {
            1nat
        } else {
            0nat
        }),
    decreases rows.len(),
{
    if rows.len() == 1 {
        assert(rows.drop_last() =~= seq![]);
        assert(rows.drop_first() =~= seq![]);
        assert(listed_count(seq![], distribution, arch) == 0);
    } else {
        let t = rows.drop_first();
        count_from_behind(t, distribution, arch);
        assert(t.drop_last() =~= rows.drop_last().drop_first());
        assert(rows.drop_last()[0] == rows[0]);
        assert(t.last() == rows.last());
    }
}

/// Every stored package that belongs in an index has its entry there, and there
/// are as many entries as there are such packages: none stands for another.
pub proof fn every_stored_package_is_listed(
    rows: Seq<RowModel>,
    distribution: Seq<char>,
    arch: Seq<char>,
)
    ensures
        forall|i: int|
            0 <= i < rows.len() && is_listed_in(#[trigger] rows[i], distribution, arch)
                ==> hosted_entries(rows, distribution, arch).contains(row_entry(rows[i])),
        hosted_entries(rows, distribution, arch).len() == listed_count(rows, distribution, arch),
    decreases rows.len(),
{
    if rows.len() > 0 {
        let t = rows.drop_last();
        let r = hosted_entries(rows, distribution, arch);
        let before = hosted_entries(t, distribution, arch);
        every_stored_package_is_listed(t, distribution, arch);
        count_from_behind(rows, distribution, arch);
        row_is_listed(rows.last(), distribution, arch);
        assert forall|i: int|
            0 <= i < rows.len() && is_listed_in(#[trigger] rows[i], distribution, arch) implies r.contains(
            row_entry(rows[i]),
        ) by {
            if i < t.len() {
                assert(t[i] == rows[i]);
                let k = choose|k: int| 0 <= k < before.len() && before[k] == row_entry(rows[i]);
                assert(r[k] == row_entry(rows[i]));
            } else {
                assert(r[before.len() as int] == row_entry(rows[i]));
            }
        }
    }
}

/// One more stored package changes nothing of the index of the others: where it
/// belongs there its entry is added at the end, else nothing is.
pub proof fn one_more_stored_package(
    rows: Seq<RowModel>,
    row: RowModel,
    distribution: Seq<char>,
    arch: Seq<char>,
)
    ensures
        hosted_entries(rows.push(row), distribution, arch) == (if is_listed_in(
            row,
            distribution,
            arch,
        ) {
            hosted_entries(rows, distribution, arch).push(row_entry(row))
        } else {
            hosted_entries(rows, distribution, arch)
        }),
{
    assert(rows.push(row).drop_last() =~= rows);
    row_is_listed(row, distribution, arch);
}

/// A stored package is listed with the control stanza that was stored with it,
/// where that names a package, a version and an architecture. Without one it is
/// listed with what else was stored of it, and what was not is taken from the name
/// of its file.
pub proof fn stored_control_is_listed(meta: MetadataModel, info: DebInfoModel, c: ControlModel)
    ensures
        meta.control == Some(c) && c.package.len() > 0 && c.version.len() > 0
            && c.architecture.len() > 0 ==> stored_control(Some(meta), info) == c,
        meta.control is None ==> {
            let s = stored_control(Some(meta), info);
            &&& s.package == (if meta.package is Some {
                meta.package->0
            } else if meta.name is Some {
                meta.name->0
            } else {
                info.name
            })
            &&& s.version == (if meta.version is Some {
                meta.version->0
            } else {
                info.version
            })
            &&& s.architecture == (if meta.architecture is Some {
                meta.architecture->0
            } else {
                info.arch
            })
            &&& meta.description is Some ==> s.description == meta.description
            &&& s.maintainer == meta.maintainer
            &&& s.section == meta.section
            &&& s.priority == meta.priority
            &&& s.homepage == meta.homepage
            &&& s.source == meta.source
        },
        ({
            let s = stored_control(None, info);
            s.package == info.name && s.version == info.version && s.architecture == info.arch
        }),
{
}

// ---------------------------------------------------------------------------
// The layout of a Release
// ---------------------------------------------------------------------------

/// The component that a package was stored under, or that its path in the pool
/// gives.
pub open spec fn stored_component(row: RowModel) -> Option<Seq<char>> {
    if row.metadata is Some && row.metadata->0.component is Some {
        row.metadata->0.component
    } else {
        pool_component(row.path)
    }
}

proof fn components_hold_stored(rows: Seq<RowModel>)
    ensures
        ascending(row_components(rows)),
        forall|c: Seq<char>| #[trigger]
            row_components(rows).contains(c) <==> exists|i: int|
                0 <= i < rows.len() && stored_component(#[trigger] rows[i]) == Some(c),
    decreases rows.len(),
{
    let r = row_components(rows);
    if rows.len() > 0 {
        let t = rows.drop_last();
        let before = row_components(t);
        components_hold_stored(t);
        let own = stored_component(rows.last());
        assert(row_component(rows.last()) == own);
        assert(r == if own is Some {
            with_text(before, own->0)
        } else {
            before
        });
        assert(rows[rows.len() - 1] == rows.last());
        if own is Some {
            with_text_ascending(before, own->0);
        }
        assert forall|c: Seq<char>| #[trigger] r.contains(c) <==> exists|i: int|
            0 <= i < rows.len() && stored_component(#[trigger] rows[i]) == Some(c) by {
            if r.contains(c) {
                assert(before.contains(c) || own == Some(c));
                if before.contains(c) {
                    let i = choose|i: int|
                        0 <= i < t.len() && stored_component(#[trigger] t[i]) == Some(c);
                    assert(rows[i] == t[i]);
                } else {
                    assert(stored_component(rows[rows.len() - 1]) == Some(c));
                }
            }
            if exists|i: int|
                0 <= i < rows.len() && stored_component(#[trigger] rows[i]) == Some(c) {
                let i = choose|i: int|
                    0 <= i < rows.len() && stored_component(#[trigger] rows[i]) == Some(c);
                if i < t.len() {
                    assert(t[i] == rows[i]);
                    assert(before.contains(c));
                }
            }
        }
    }
}

/// The architecture of a stored package whose file has the name of a package file;
/// one for all architectures has none of its own.
pub open spec fn stored_architecture(row: RowModel) -> Option<Seq<char>> {
    if name_parts(split(row.path, '/').last()) is Some && row_control(row).architecture != "all"@ {
        Some(row_control(row).architecture)
    } else {
        None
    }
}

/// Some stored package is for the architecture.
pub open spec fn some_is_for(rows: Seq<RowModel>, arch: Seq<char>) -> bool {
    exists|i: int| 0 <= i < rows.len() && stored_architecture(#[trigger] rows[i]) == Some(arch)
}

proof fn one_more_is_for(rows: Seq<RowModel>, arch: Seq<char>)
    requires
        rows.len() > 0,
    ensures
        some_is_for(rows, arch) <==> some_is_for(rows.drop_last(), arch) || stored_architecture(
            rows.last(),
        ) == Some(arch),
{
    let t = rows.drop_last();
    if some_is_for(rows, arch) {
        let i = choose|i: int|
            0 <= i < rows.len() && stored_architecture(#[trigger] rows[i]) == Some(arch);
        if i < t.len() {
            assert(stored_architecture(t[i]) == Some(arch));
        }
    }
    if some_is_for(t, arch) {
        let i = choose|i: int|
            0 <= i < t.len() && stored_architecture(#[trigger] t[i]) == Some(arch);
        assert(stored_architecture(rows[i]) == Some(arch));
    }
    assert(rows[rows.len() - 1] == rows.last());
}

proof fn architectures_hold_stored(rows: Seq<RowModel>)
    ensures
        ascending(row_architectures(rows)),
        forall|a: Seq<char>| #[trigger]
            row_architectures(rows).contains(a) <==> some_is_for(rows, a),
    decreases rows.len(),
{
    let r = row_architectures(rows);
    if rows.len() > 0 {
        let t = rows.drop_last();
        let before = row_architectures(t);
        architectures_hold_stored(t);
        let own = stored_architecture(rows.last());
        assert(row_architecture(rows.last()) == own);
        if own is Some {
            with_text_ascending(before, own->0);
        }
        assert forall|a: Seq<char>| #[trigger] r.contains(a) <==> some_is_for(rows, a) by {
            one_more_is_for(rows, a);
            assert(before.contains(a) <==> some_is_for(t, a));
        }
    }
}

/// A Release names the components and the architectures of the stored packages,
/// each once and in ascending order; where no package has one, `main`, and `amd64`
/// and `arm64`.
pub proof fn release_names_what_is_stored(rows: Seq<RowModel>)
    ensures
        ascending(found_components(rows)),
        ascending(found_architectures(rows)),
        forall|c: Seq<char>| #[trigger]
            found_components(rows).contains(c) <==> if exists|i: int|
                0 <= i < rows.len() && stored_component(#[trigger] rows[i]) is Some {
                exists|i: int| 0 <= i < rows.len() && stored_component(#[trigger] rows[i]) == Some(c)
            } else {
                c == "main"@
            },
        forall|a: Seq<char>| #[trigger]
            found_architectures(rows).contains(a) <==> if exists|i: int|
                0 <= i < rows.len() && stored_architecture(#[trigger] rows[i]) is Some {
                some_is_for(rows, a)
            } else {
                a == "amd64"@ || a == "arm64"@
            },
{
    components_hold_stored(rows);
    architectures_hold_stored(rows);
    let cs = row_components(rows);
    let archs = row_architectures(rows);
    if cs.len() > 0 {
        assert(cs.contains(cs[0]));
    }
    if exists|i: int| 0 <= i < rows.len() && stored_component(#[trigger] rows[i]) is Some {
        let i = choose|i: int| 0 <= i < rows.len() && stored_component(#[trigger] rows[i]) is Some;
        assert(cs.contains(stored_component(rows[i])->0));
    }
    if archs.len() > 0 {
        assert(archs.contains(archs[0]));
        assert(some_is_for(rows, archs[0]));
    }
    if exists|i: int| 0 <= i < rows.len() && stored_architecture(#[trigger] rows[i]) is Some {
        let i = choose|i: int|
            0 <= i < rows.len() && stored_architecture(#[trigger] rows[i]) is Some;
        assert(some_is_for(rows, stored_architecture(rows[i])->0));
        assert(archs.contains(stored_architecture(rows[i])->0));
    }
    let one = seq!["amd64"@];
    with_text_ascending(one, "arm64"@);
    assert forall|a: Seq<char>| #[trigger] one.contains(a) <==> a == "amd64"@ by {
        assert(one[0] == "amd64"@);
    }
    assert forall|a: Seq<char>| #[trigger] with_text(one, "arm64"@).contains(a) <==> (a
        == "amd64"@ || a == "arm64"@) by {
        assert(one.contains(a) <==> a == "amd64"@);
    }
    let main = seq!["main"@];
    assert(main[0] == "main"@);
}

/// A path in the pool gives its component: what stands between the pool and the
/// next slash.
pub proof fn pool_path_gives_component(component: Seq<char>, rest: Seq<char>)
    requires
        component.len() > 0,
        !component.contains('/'),
    ensures
        pool_component("pool/"@ + component + "/"@ + rest) == Some(component),
{
    reveal_strlit("/");
    let path = "pool/"@ + component + "/"@ + rest;
    let tail = component + seq!['/'] + rest;
    assert(path.take("pool/"@.len() as int) =~= "pool/"@);
    assert(path.skip("pool/"@.len() as int) =~= tail);
    split_first(component, rest, '/');
}

/// The values that a configuration names are those that it lists, trimmed, each
/// once and in ascending order. Blank ones and the wildcard name nothing, nor does
/// the word for all architectures where only particular ones count.
pub proof fn configured_values_count(values: Seq<Seq<char>>, include_all: bool)
    ensures
        ascending(configured(values, include_all)),
        forall|v: Seq<char>| #[trigger]
            configured(values, include_all).contains(v) <==> v.len() > 0 && v != "*"@ && (
            include_all || v != "all"@) && exists|i: int|
                0 <= i < values.len() && trim(#[trigger] values[i]) == v,
    decreases values.len(),
{
    let r = configured(values, include_all);
    if values.len() > 0 {
        let t = values.drop_last();
        let before = configured(t, include_all);
        configured_values_count(t, include_all);
        let own = trim(values.last());
        assert(values[values.len() - 1] == values.last());
        with_text_ascending(before, own);
        let counts = own.len() > 0 && own != "*"@ && (include_all || own != "all"@);
        assert(r == if counts {
            with_text(before, own)
        } else {
            before
        });
        assert forall|v: Seq<char>| #[trigger] r.contains(v) <==> v.len() > 0 && v != "*"@ && (
        include_all || v != "all"@) && exists|i: int|
            0 <= i < values.len() && trim(#[trigger] values[i]) == v by {
            if r.contains(v) {
                assert(before.contains(v) || (counts && v == own));
                if before.contains(v) {
                    let i = choose|i: int| 0 <= i < t.len() && trim(#[trigger] t[i]) == v;
                    assert(values[i] == t[i]);
                } else {
                    assert(trim(values[values.len() - 1]) == v);
                }
            }
            if v.len() > 0 && v != "*"@ && (include_all || v != "all"@) && exists|i: int|
                0 <= i < values.len() && trim(#[trigger] values[i]) == v {
                let i = choose|i: int| 0 <= i < values.len() && trim(#[trigger] values[i]) == v;
                if i < t.len() {
                    assert(t[i] == values[i]);
                    assert(before.contains(v));
                }
            }
        }
    }
}

/// What is configured comes before what was found; what was found counts where
/// nothing is configured.
pub proof fn configuration_comes_first(
    values: Seq<Seq<char>>,
    include_all: bool,
    found: Seq<Seq<char>>,
)
    ensures
        layout(None, include_all, found) == found,
        (exists|i: int|
            0 <= i < values.len() && configured(values, include_all).contains(
                trim(#[trigger] values[i]),
            )) ==> layout(Some(values), include_all, found) == configured(values, include_all),
        (forall|i: int|
            0 <= i < values.len() ==> !configured(values, include_all).contains(
                trim(#[trigger] values[i]),
            )) ==> layout(Some(values), include_all, found) == found,
{
    configured_values_count(values, include_all);
    let c = configured(values, include_all);
    if c.len() > 0 {
        assert(c.contains(c[0]));
    }
}

// ---------------------------------------------------------------------------
// The files of a Release
// ---------------------------------------------------------------------------

/// Making the indexes of a component for an architecture adds the Packages index
/// and the Contents index, each plain, as gzip makes it and as xz makes it, and
/// nothing else; what was there stays.
pub proof fn indexes_are_added_in_every_form(
    files: Seq<(Seq<char>, Seq<u8>)>,
    component: Seq<char>,
    arch: Seq<char>,
    packages: Seq<char>,
    contents: Seq<char>,
)
    requires
        with_hosted_indexes(files, component, arch, packages, contents).1 is Ok,
    ensures
        ({
            let p = component + "/binary-"@ + arch + "/Packages"@;
            let c = component + "/Contents-"@ + arch;
            let pb = encode_utf8(packages);
            let cb = encode_utf8(contents);
            &&& gzipped(pb) is Ok && xzed(pb) is Ok && gzipped(cb) is Ok && xzed(cb) is Ok
            &&& with_hosted_indexes(files, component, arch, packages, contents).0 == files + seq![
                (p, pb),
                (p + ".gz"@, gzipped(pb)->Ok_0),
                (p + ".xz"@, xzed(pb)->Ok_0),
                (c, cb),
                (c + ".gz"@, gzipped(cb)->Ok_0),
                (c + ".xz"@, xzed(cb)->Ok_0),
            ]
        }),
{
    let p = component + "/binary-"@ + arch + "/Packages"@;
    let c = component + "/Contents-"@ + arch;
    let pb = encode_utf8(packages);
    let cb = encode_utf8(contents);
    assert(with_hosted_indexes(files, component, arch, packages, contents).0 =~= files + seq![
        (p, pb),
        (p + ".gz"@, gzipped(pb)->Ok_0),
        (p + ".xz"@, xzed(pb)->Ok_0),
        (c, cb),
        (c + ".gz"@, gzipped(cb)->Ok_0),
        (c + ".xz"@, xzed(cb)->Ok_0),
    ]);
}

proof fn no_aliases_holds(files: Seq<(Seq<char>, Seq<u8>)>, f: (Seq<char>, Seq<u8>))
    ensures
        no_aliases(files).contains(f) <==> files.contains(f) && !starts_with(f.0, "by-hash/"@),
    decreases files.len(),
{
    if files.len() > 0 {
        let t = files.drop_last();
        let before = no_aliases(t);
        let r = no_aliases(files);
        no_aliases_holds(t, f);
        if files.contains(f) {
            let i = choose|i: int| 0 <= i < files.len() && files[i] == f;
            if i < t.len() {
                assert(t[i] == f);
            }
        }
        if t.contains(f) {
            let i = choose|i: int| 0 <= i < t.len() && t[i] == f;
            assert(files[i] == f);
        }
        if before.contains(f) {
            let i = choose|i: int| 0 <= i < before.len() && before[i] == f;
            assert(r[i] == f);
        }
        if !starts_with(files.last().0, "by-hash/"@) {
            assert(r[before.len() as int] == files.last());
            assert(files[files.len() - 1] == files.last());
            if r.contains(f) {
                let i = choose|i: int| 0 <= i < r.len() && r[i] == f;
                if i < before.len() {
                    assert(before[i] == f);
                }
            }
        }
    }
}

proof fn added_files_are_aliases(
    files: Seq<(Seq<char>, Seq<u8>)>,
    named: Seq<(Seq<char>, Seq<u8>)>,
    i: int,
)
    requires
        files.len() <= i < with_aliases(files, named).len(),
    ensures
        exists|k: int|
            0 <= k < named.len() && with_aliases(files, named)[i] == (
                "by-hash/SHA256/"@ + sha256_hex((#[trigger] named[k]).1),
                named[k].1,
            ),
    decreases named.len(),
{
    if named.len() > 0 {
        let t = named.drop_last();
        let before = with_aliases(files, t);
        reveal_strlit("by-hash/");
        reveal_strlit("SHA256");
        reveal_strlit("/");
        reveal_strlit("by-hash/SHA256/");
        assert("by-hash/"@ + "SHA256"@ + "/"@ =~= "by-hash/SHA256/"@);
        if i < before.len() {
            added_files_are_aliases(files, t, i);
            let k = choose|k: int|
                0 <= k < t.len() && before[i] == (
                    "by-hash/SHA256/"@ + sha256_hex((#[trigger] t[k]).1),
                    t[k].1,
                );
            assert(named[k] == t[k]);
            assert(with_aliases(files, named)[i] == before[i]);
        } else {
            let k = named.len() - 1;
            assert(with_aliases(files, named)[i] == (
                "by-hash/SHA256/"@ + sha256_hex(named[k].1),
                named[k].1,
            ));
        }
    }
}

/// Every file that is not itself an alias can then be fetched by its SHA-256
/// digest: some file stands under that name. What is added is an alias of a file
/// that was there, with that file's bytes, and nothing else is added.
pub proof fn every_file_has_an_alias(files: Seq<(Seq<char>, Seq<u8>)>, n: int)
    requires
        0 <= n < files.len(),
        !starts_with(files[n].0, "by-hash/"@),
    ensures
        exists|i: int|
            0 <= i < aliased(files).len() && (#[trigger] aliased(files)[i]).0 == "by-hash/SHA256/"@
                + sha256_hex(files[n].1),
        files.is_prefix_of(aliased(files)),
        forall|i: int|
            files.len() <= i < aliased(files).len() ==> exists|k: int|
                0 <= k < files.len() && #[trigger] aliased(files)[i] == (
                    "by-hash/SHA256/"@ + sha256_hex((#[trigger] files[k]).1),
                    files[k].1,
                ),
{
    let named = no_aliases(files);
    let r = aliased(files);
    aliases_law(files);
    no_aliases_holds(files, files[n]);
    assert(files.contains(files[n]));
    let k = choose|k: int| 0 <= k < named.len() && named[k] == files[n];
    let path = hash_path("SHA256"@, sha256_hex(named[k].1));
    assert(has_path(r, path));
    reveal_strlit("by-hash/");
    reveal_strlit("SHA256");
    reveal_strlit("/");
    reveal_strlit("by-hash/SHA256/");
    assert("by-hash/"@ + "SHA256"@ + "/"@ =~= "by-hash/SHA256/"@);
    let i = choose|i: int| 0 <= i < r.len() && (#[trigger] r[i]).0 == path;
    assert(r[i].0 == "by-hash/SHA256/"@ + sha256_hex(files[n].1));
    assert forall|i: int| files.len() <= i < r.len() implies exists|k: int|
        0 <= k < files.len() && #[trigger] r[i] == (
            "by-hash/SHA256/"@ + sha256_hex((#[trigger] files[k]).1),
            files[k].1,
        ) by {
        added_files_are_aliases(files, named, i);
        let k = choose|k: int|
            0 <= k < named.len() && r[i] == (
                "by-hash/SHA256/"@ + sha256_hex((#[trigger] named[k]).1),
                named[k].1,
            );
        no_aliases_holds(files, named[k]);
        assert(named.contains(named[k]));
        let m = choose|m: int| 0 <= m < files.len() && files[m] == named[k];
        assert(r[i] == ("by-hash/SHA256/"@ + sha256_hex(files[m].1), files[m].1));
    }
}

/// What is handed out for a path is the first file of that path, and where none has
/// it, nothing is.
pub proof fn first_file_of_a_path_is_found(
    files: Seq<(Seq<char>, Seq<u8>)>,
    path: Seq<char>,
    n: int,
)
    ensures
        0 <= n < files.len() && files[n].0 == path && (forall|i: int|
            0 <= i < n ==> (#[trigger] files[i]).0 != path) ==> file_at(files, path) == Some(
            files[n].1,
        ),
        (forall|i: int| 0 <= i < files.len() ==> (#[trigger] files[i]).0 != path) ==> file_at(
            files,
            path,
        ) is None,
    decreases files.len(),
{
    if files.len() > 0 && files[0].0 != path {
        let t = files.drop_first();
        first_file_of_a_path_is_found(t, path, n - 1);
        if 0 <= n < files.len() && files[n].0 == path && (forall|i: int|
            0 <= i < n ==> (#[trigger] files[i]).0 != path) {
            assert(n > 0);
            assert forall|i: int| 0 <= i < n - 1 implies (#[trigger] t[i]).0 != path by {
                assert(t[i] == files[i + 1]);
            }
            assert(t[n - 1] == files[n]);
        }
        if forall|i: int| 0 <= i < files.len() ==> (#[trigger] files[i]).0 != path {
            assert forall|i: int| 0 <= i < t.len() implies (#[trigger] t[i]).0 != path by {
                assert(t[i] == files[i + 1]);
            }
        }
    }
}

/// A stored control stanza that lacks the package, the version or the architecture counts
/// for nothing.
pub proof fn incomplete_control_counts_for_nothing(
    meta: MetadataModel,
    info: DebInfoModel,
    c: ControlModel,
)
    requires
        meta.control == Some(c),
        c.package.len() == 0 || c.version.len() == 0 || c.architecture.len() == 0,
    ensures
        stored_control(Some(meta), info) == stored_control(
            Some(MetadataModel { control: None, ..meta }),
            info,
        ),
{
}

/// The name of a package file says what kind of a package it is.
pub proof fn extension_says_the_kind(stem: Seq<char>)
    ensures
        deb_info(stem + ".udeb"@) matches Some(info) ==> info.package_type == "udeb"@,
        deb_info(stem + ".deb"@) matches Some(info) ==> info.package_type == "deb"@,
        deb_info(stem + ".deb"@) is Some <==> deb_info(stem + ".udeb"@) is Some,
{
    reveal_strlit(".udeb");
    reveal_strlit(".deb");
    let a = stem + ".udeb"@;
    let b = stem + ".deb"@;
    assert(a.skip(a.len() - 5) =~= ".udeb"@);
    assert(b.skip(b.len() - 4) =~= ".deb"@);
    assert(a.take(a.len() - 5) =~= stem);
    assert(b.take(b.len() - 4) =~= stem);
    assert(a[a.len() - 4] == 'u');
    if ends_with(a, ".deb"@) {
        assert(a.skip(a.len() - 4)[0] == '.');
    }
    if ends_with(b, ".udeb"@) {
        assert(b.skip(b.len() - 5)[1] == 'u');
        assert(b[b.len() - 4] == '.');
    }
}

} // verus!
