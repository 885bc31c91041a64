//! What a mirror generates, said of the entries that were read.

use vstd::prelude::*;
use vstd::utf8::encode_utf8;

use crate::codec::{gzipped, xz, xzed};
use crate::digest::sha256_hex;
use crate::dists::plain_path;
use crate::error::Failure;
use crate::generated::{alias_of, contents_pairs, contents_path, every_form_is_listed, generated_metadata};
use crate::generated::{given_contents, kept_packages, mirrored_text, sources_text, with_index, with_package_index};
use crate::generated::{with_package_indexes, with_source_indexes, GeneratedModel};
use crate::index::{packages_of, sources_of, PackageModel, SourceModel};
use crate::ordered::{ascending, keys_of, lookup, lookup_after_put, put};
use crate::roundtrip_packages::{is_writable_entry, written_index_reads_back};
use crate::roundtrip_release::kept;
use crate::roundtrip_sources::{is_writable_source, written_sources_read_back};
use crate::select::{package_indexes, source_indexes, IndexModel, SourceIndexModel};
use crate::text::{is_blank, starts_with, trim, trim_empty_iff_blank};

verus! {

// ---------------------------------------------------------------------------
// Which packages are kept
// ---------------------------------------------------------------------------

/// An entry is kept in a generated index: it is for all architectures, or for that of
/// the index; where the index has none, for one that the mirror is after.
pub open spec fn is_kept(
    entry: PackageModel,
    index_arch: Seq<char>,
    selected: Seq<Seq<char>>,
) -> bool {
    let arch = entry.control.architecture;
    arch == "all"@ || (if index_arch.len() == 0 {
        selected.len() == 0 || selected.contains(arch)
    } else {
        arch == index_arch
    })
}

/// A generated Packages index holds every entry that is kept, in the order of the
/// index that was read, and no other.
pub proof fn kept_entries_stay(
    entries: Seq<PackageModel>,
    index_arch: Seq<char>,
    selected: Seq<Seq<char>>,
)
    ensures
        kept_packages(entries, index_arch, selected) == entries.filter(
            |entry: PackageModel| is_kept(entry, index_arch, selected),
        ),
    decreases entries.len(),
{
    reveal(Seq::filter);
    if entries.len() > 0 {
        kept_entries_stay(entries.drop_last(), index_arch, selected);
    }
}

/// The files of a Contents index are those of all entries that name one, each with
/// its package, in the order of the entries.
pub proof fn contents_name_every_file(entries: Seq<PackageModel>)
    ensures
        contents_pairs(entries) == entries.filter(
            |entry: PackageModel| entry.filename is Some && !is_blank(entry.filename->0),
        ).map_values(
            |entry: PackageModel| (trim(entry.filename->0), entry.control.package),
        ),
    decreases entries.len(),
{
    reveal(Seq::filter);
    let named = |entry: PackageModel| entry.filename is Some && !is_blank(entry.filename->0);
    let pair = |entry: PackageModel| (trim(entry.filename->0), entry.control.package);
    if entries.len() > 0 {
        let t = entries.drop_last();
        contents_name_every_file(t);
        if let Some(filename) = entries.last().filename {
            trim_empty_iff_blank(filename);
        }
        assert(contents_pairs(entries) =~= entries.filter(named).map_values(pair));
    } else {
        assert(contents_pairs(entries) =~= entries.filter(named).map_values(pair));
    }
}

// ---------------------------------------------------------------------------
// What is stored
// ---------------------------------------------------------------------------

/// The text is stored under the path, and the Release lists it there, plain and in
/// both compressed forms, and under the digest of each form.
pub open spec fn is_generated(g: GeneratedModel, base: Seq<char>, text: Seq<char>) -> bool {
    let bytes = encode_utf8(text);
    &&& lookup(g.plain_indexes, base) == Some(text)
    &&& g.release_files.contains((base, bytes))
    &&& g.release_files.contains(("by-hash/SHA256/"@ + sha256_hex(bytes), bytes))
    &&& gzipped(bytes) matches Ok(gz) && g.release_files.contains((base + ".gz"@, gz))
        && g.release_files.contains(("by-hash/SHA256/"@ + sha256_hex(gz), gz))
    &&& xzed(bytes) matches Ok(xz) && g.release_files.contains((base + ".xz"@, xz))
        && g.release_files.contains(("by-hash/SHA256/"@ + sha256_hex(xz), xz))
}

/// The path is none of those by digest.
pub open spec fn is_plain_name(path: Seq<char>) -> bool {
    !starts_with(path, "by-hash/"@)
}

proof fn alias_is_by_digest(bytes: Seq<u8>, path: Seq<char>)
    requires
        is_plain_name(path),
    ensures
        alias_of(bytes) == "by-hash/SHA256/"@ + sha256_hex(bytes),
        alias_of(bytes) != path,
{
    reveal_strlit("by-hash/");
    reveal_strlit("by-hash/SHA256/");
    reveal_strlit("SHA256");
    reveal_strlit("/");
    let alias = alias_of(bytes);
    assert(alias =~= "by-hash/SHA256/"@ + sha256_hex(bytes));
    assert(alias.take(8) =~= "by-hash/"@);
}

/// What was generated stays, and where nothing was stored the index now is.
proof fn index_is_generated(
    g: GeneratedModel,
    path: Seq<char>,
    text: Seq<char>,
    other: Seq<char>,
)
    requires
        ascending(keys_of(g.plain_indexes)),
        with_index(g, path, text) is Ok,
        is_plain_name(other),
    ensures
        ({
            let h = with_index(g, path, text)->Ok_0;
            &&& ascending(keys_of(h.plain_indexes))
            &&& lookup(h.plain_indexes, other) == if other == plain_path(path) && lookup(
                g.plain_indexes,
                other,
            ) is None {
                Some(text)
            } else {
                lookup(g.plain_indexes, other)
            }
            &&& g.release_files.is_prefix_of(h.release_files)
            &&& other == plain_path(path) && lookup(g.plain_indexes, other) is None
                ==> is_generated(h, other, text)
        }),
{
    let base = plain_path(path);
    let h = with_index(g, path, text)->Ok_0;
    if lookup(g.plain_indexes, base) is None {
        let bytes = encode_utf8(text);
        let gz = gzipped(bytes)->Ok_0;
        let xz = xzed(bytes)->Ok_0;
        let m0 = g.plain_indexes;
        let m1 = put(m0, alias_of(bytes), "@ref:"@ + base);
        let m2 = put(m1, alias_of(gz), "@ref:"@ + (base + ".gz"@));
        let m3 = put(m2, alias_of(xz), "@ref:"@ + (base + ".xz"@));
        alias_is_by_digest(bytes, other);
        alias_is_by_digest(gz, other);
        alias_is_by_digest(xz, other);
        lookup_after_put(m0, alias_of(bytes), "@ref:"@ + base, other);
        lookup_after_put(m1, alias_of(gz), "@ref:"@ + (base + ".gz"@), other);
        lookup_after_put(m2, alias_of(xz), "@ref:"@ + (base + ".xz"@), other);
        lookup_after_put(m3, base, text, other);
        every_form_is_listed(g, base, text, gz, xz);
    } else {
        assert(h == g);
    }
}

proof fn generated_stays(g: GeneratedModel, h: GeneratedModel, base: Seq<char>, text: Seq<char>)
    requires
        is_generated(g, base, text),
        lookup(h.plain_indexes, base) == Some(text),
        g.release_files.is_prefix_of(h.release_files),
    ensures
        is_generated(h, base, text),
{
    let bytes = encode_utf8(text);
    let gz = gzipped(bytes)->Ok_0;
    let xz = xzed(bytes)->Ok_0;
    prefix_holds(g.release_files, h.release_files, (base, bytes));
    prefix_holds(
        g.release_files,
        h.release_files,
        ("by-hash/SHA256/"@ + sha256_hex(bytes), bytes),
    );
    prefix_holds(g.release_files, h.release_files, (base + ".gz"@, gz));
    prefix_holds(g.release_files, h.release_files, ("by-hash/SHA256/"@ + sha256_hex(gz), gz));
    prefix_holds(g.release_files, h.release_files, (base + ".xz"@, xz));
    prefix_holds(g.release_files, h.release_files, ("by-hash/SHA256/"@ + sha256_hex(xz), xz));
}

proof fn prefix_holds<T>(a: Seq<T>, b: Seq<T>, x: T)
    requires
        a.is_prefix_of(b),
        a.contains(x),
    ensures
        b.contains(x),
{
    let i = choose|i: int| 0 <= i < a.len() && a[i] == x;
    assert(b[i] == x);
}

/// The metadata with one more read index holds what it held, and what the index adds.
proof fn package_index_is_generated(
    g: GeneratedModel,
    index: IndexModel,
    entries: Seq<PackageModel>,
    selected: Seq<Seq<char>>,
    contents: Seq<char>,
    other: Seq<char>,
)
    requires
        ascending(keys_of(g.plain_indexes)),
        with_package_index(g, index, entries, selected, contents) is Ok,
        is_plain_name(other),
    ensures
        ({
            let h = with_package_index(g, index, entries, selected, contents)->Ok_0;
            let text = mirrored_text(kept_packages(entries, index.architecture, selected));
            &&& ascending(keys_of(h.plain_indexes))
            &&& g.release_files.is_prefix_of(h.release_files)
            &&& lookup(g.plain_indexes, other) is Some ==> lookup(h.plain_indexes, other) == lookup(
                g.plain_indexes,
                other,
            )
            &&& lookup(g.plain_indexes, other) is None && lookup(h.plain_indexes, other) is Some
                ==> other == plain_path(index.path) || other == plain_path(contents_path(index))
            &&& lookup(g.plain_indexes, other) is None && other == plain_path(index.path)
                ==> is_generated(h, other, text)
            &&& lookup(g.plain_indexes, other) is None && other != plain_path(index.path) && other
                == contents_path(index) && plain_path(other) == other ==> is_generated(
                h,
                other,
                contents,
            )
        }),
{
    let text = mirrored_text(kept_packages(entries, index.architecture, selected));
    let next = with_index(g, index.path, text)->Ok_0;
    index_is_generated(g, index.path, text, other);
    if lookup(next.plain_indexes, contents_path(index)) is None {
        index_is_generated(next, contents_path(index), contents, other);
        let h = with_index(next, contents_path(index), contents)->Ok_0;
        assert(g.release_files.is_prefix_of(h.release_files)) by {
            assert forall|i: int| 0 <= i < g.release_files.len() implies g.release_files[i]
                == h.release_files[i] by {
                assert(g.release_files[i] == next.release_files[i]);
            }
        }
        if lookup(g.plain_indexes, other) is None && other == plain_path(index.path) {
            generated_stays(next, h, other, text);
        }
    }
}

/// No index before this one goes by the path: neither the index itself nor the
/// Contents index that goes with it.
pub open spec fn is_new_path(indexes: Seq<IndexModel>, n: int, base: Seq<char>) -> bool {
    forall|m: int|
        0 <= m < n ==> plain_path((#[trigger] indexes[m]).path) != base && plain_path(
            contents_path(indexes[m]),
        ) != base
}

proof fn stored_path_is_an_indexs(
    indexes: Seq<IndexModel>,
    packages: Seq<(Seq<char>, Seq<PackageModel>)>,
    selected: Seq<Seq<char>>,
    contents: Seq<(Seq<char>, Seq<char>)>,
    other: Seq<char>,
)
    requires
        with_package_indexes(indexes, packages, selected, contents) is Ok,
        is_plain_name(other),
    ensures
        ({
            let g = with_package_indexes(indexes, packages, selected, contents)->Ok_0;
            &&& ascending(keys_of(g.plain_indexes))
            &&& is_new_path(indexes, indexes.len() as int, other) ==> lookup(
                g.plain_indexes,
                other,
            ) is None
        }),
    decreases indexes.len(),
{
    if indexes.len() > 0 {
        let t = indexes.drop_last();
        let index = indexes.last();
        stored_path_is_an_indexs(t, packages, selected, contents, other);
        let before = with_package_indexes(t, packages, selected, contents)->Ok_0;
        if is_new_path(indexes, indexes.len() as int, other) {
            assert forall|m: int| 0 <= m < t.len() implies plain_path((#[trigger] t[m]).path)
                != other && plain_path(contents_path(t[m])) != other by {
                assert(t[m] == indexes[m]);
            }
            assert(plain_path(indexes[indexes.len() - 1].path) != other);
        }
        if let Some(entries) = lookup(packages, index.path) {
            package_index_is_generated(
                before,
                index,
                entries,
                selected,
                given_contents(contents, index.path),
                other,
            );
        }
    }
}

proof fn read_index_is_generated(
    indexes: Seq<IndexModel>,
    packages: Seq<(Seq<char>, Seq<PackageModel>)>,
    selected: Seq<Seq<char>>,
    contents: Seq<(Seq<char>, Seq<char>)>,
    n: int,
)
    requires
        with_package_indexes(indexes, packages, selected, contents) is Ok,
        0 <= n < indexes.len(),
        lookup(packages, indexes[n].path) is Some,
    ensures
        ({
            let g = with_package_indexes(indexes, packages, selected, contents)->Ok_0;
            let index = indexes[n];
            let entries = lookup(packages, index.path)->0;
            let base = plain_path(index.path);
            let listing = contents_path(index);
            &&& is_new_path(indexes, n, base) && is_plain_name(base) ==> is_generated(
                g,
                base,
                mirrored_text(kept_packages(entries, index.architecture, selected)),
            )
            &&& is_new_path(indexes, n, listing) && is_plain_name(listing) && listing != base
                && plain_path(listing) == listing ==> is_generated(
                g,
                listing,
                given_contents(contents, index.path),
            )
        }),
    decreases indexes.len(),
{
    let t = indexes.drop_last();
    let last = indexes.last();
    let before = with_package_indexes(t, packages, selected, contents)->Ok_0;
    let g = with_package_indexes(indexes, packages, selected, contents)->Ok_0;
    let index = indexes[n];
    let base = plain_path(index.path);
    let listing = contents_path(index);
    let entries = lookup(packages, index.path)->0;
    let text = mirrored_text(kept_packages(entries, index.architecture, selected));
    let given = given_contents(contents, index.path);
    let more = given_contents(contents, last.path);
    if is_plain_name(base) {
        stored_path_is_an_indexs(t, packages, selected, contents, base);
    }
    if is_plain_name(listing) {
        stored_path_is_an_indexs(t, packages, selected, contents, listing);
    }
    if n == t.len() {
        assert forall|x: Seq<char>| is_new_path(indexes, n, x) implies is_new_path(t, n, x) by {
            assert forall|m: int| 0 <= m < n implies plain_path((#[trigger] t[m]).path) != x
                && plain_path(contents_path(t[m])) != x by {
                assert(t[m] == indexes[m]);
            }
        }
        if is_plain_name(base) {
            package_index_is_generated(before, index, entries, selected, given, base);
        }
        if is_plain_name(listing) {
            package_index_is_generated(before, index, entries, selected, given, listing);
        }
    } else {
        assert(t[n] == indexes[n]);
        assert forall|x: Seq<char>| is_new_path(indexes, n, x) implies is_new_path(t, n, x) by {
            assert forall|m: int| 0 <= m < n implies plain_path((#[trigger] t[m]).path) != x
                && plain_path(contents_path(t[m])) != x by {
                assert(t[m] == indexes[m]);
            }
        }
        read_index_is_generated(t, packages, selected, contents, n);
        if let Some(es) = lookup(packages, last.path) {
            if is_plain_name(base) {
                package_index_is_generated(before, last, es, selected, more, base);
                if is_new_path(indexes, n, base) {
                    generated_stays(before, g, base, text);
                }
            }
            if is_plain_name(listing) {
                package_index_is_generated(before, last, es, selected, more, listing);
                if is_new_path(indexes, n, listing) && listing != base && plain_path(listing)
                    == listing {
                    generated_stays(before, g, listing, given);
                }
            }
        }
    }
}

proof fn sources_keep_generated(
    start: GeneratedModel,
    indexes: Seq<SourceIndexModel>,
    sources: Seq<(Seq<char>, Seq<SourceModel>)>,
    base: Seq<char>,
    text: Seq<char>,
)
    requires
        with_source_indexes(Ok(start), indexes, sources) is Ok,
        ascending(keys_of(start.plain_indexes)),
        is_plain_name(base),
    ensures
        ({
            let g = with_source_indexes(Ok(start), indexes, sources)->Ok_0;
            &&& ascending(keys_of(g.plain_indexes))
            &&& start.release_files.is_prefix_of(g.release_files)
            &&& is_generated(start, base, text) ==> is_generated(g, base, text)
            &&& lookup(start.plain_indexes, base) is None && (forall|m: int|
                0 <= m < indexes.len() ==> plain_path((#[trigger] indexes[m]).path) != base)
                ==> lookup(g.plain_indexes, base) is None
        }),
    decreases indexes.len(),
{
    if indexes.len() > 0 {
        let t = indexes.drop_last();
        sources_keep_generated(start, t, sources, base, text);
        let before = with_source_indexes(Ok(start), t, sources)->Ok_0;
        let g = with_source_indexes(Ok(start), indexes, sources)->Ok_0;
        if forall|m: int|
            0 <= m < indexes.len() ==> plain_path((#[trigger] indexes[m]).path) != base {
            assert forall|m: int| 0 <= m < t.len() implies plain_path((#[trigger] t[m]).path)
                != base by {
                assert(t[m] == indexes[m]);
            }
            assert(plain_path(indexes[indexes.len() - 1].path) != base);
        }
        if let Some(entries) = lookup(sources, indexes.last().path) {
            index_is_generated(before, indexes.last().path, sources_text(entries), base);
            assert(start.release_files.is_prefix_of(g.release_files)) by {
                assert forall|i: int| 0 <= i < start.release_files.len() implies
                    start.release_files[i] == g.release_files[i] by {
                    assert(start.release_files[i] == before.release_files[i]);
                }
            }
            if is_generated(start, base, text) {
                generated_stays(before, g, base, text);
            }
        }
    }
}

/// Every Packages index that was read is generated anew: a text is stored under its
/// plain path, listed in every form, and holds the entries that are kept; where these
/// can be written, it reads back as exactly them. The Contents text given for it is
/// stored beside it. Left out are indexes whose path an earlier one has taken or that
/// is one by digest.
pub proof fn every_read_index_is_generated(
    package_indexes: Seq<IndexModel>,
    source_indexes: Seq<SourceIndexModel>,
    packages: Seq<(Seq<char>, Seq<PackageModel>)>,
    sources: Seq<(Seq<char>, Seq<SourceModel>)>,
    selected: Seq<Seq<char>>,
    contents: Seq<(Seq<char>, Seq<char>)>,
    n: int,
)
    requires
        generated_metadata(
            package_indexes,
            source_indexes,
            packages,
            sources,
            selected,
            contents,
        ) is Ok,
        0 <= n < package_indexes.len(),
        lookup(packages, package_indexes[n].path) is Some,
    ensures
        ({
            let g = generated_metadata(
                package_indexes,
                source_indexes,
                packages,
                sources,
                selected,
                contents,
            )->Ok_0;
            let index = package_indexes[n];
            let kept = lookup(packages, index.path)->0.filter(
                |entry: PackageModel| is_kept(entry, index.architecture, selected),
            );
            let base = plain_path(index.path);
            let listing = index.component + "/Contents-"@ + index.architecture;
            let given = match lookup(contents, index.path) {
                Some(text) => text,
                None => seq![],
            };
            &&& is_new_path(package_indexes, n, base) && is_plain_name(base) ==> exists|
                text: Seq<char>,
            | #[trigger]
                is_generated(g, base, text) && ((forall|i: int|
                    0 <= i < kept.len() ==> is_writable_entry(#[trigger] kept[i])) ==> packages_of(
                    text,
                ) == Ok::<Seq<PackageModel>, Failure>(kept))
            &&& is_new_path(package_indexes, n, listing) && is_plain_name(listing) && listing
                != base && plain_path(listing) == listing ==> is_generated(g, listing, given)
        }),
{
    let start = with_package_indexes(package_indexes, packages, selected, contents);
    starts_well(start, source_indexes, sources);
    let index = package_indexes[n];
    let entries = lookup(packages, index.path)->0;
    let base = plain_path(index.path);
    let listing = contents_path(index);
    let given = given_contents(contents, index.path);
    let kept = entries.filter(|entry: PackageModel| is_kept(entry, index.architecture, selected));
    let text = mirrored_text(kept);
    kept_entries_stay(entries, index.architecture, selected);
    read_index_is_generated(package_indexes, packages, selected, contents, n);
    if is_plain_name(base) {
        stored_path_is_an_indexs(package_indexes, packages, selected, contents, base);
        sources_keep_generated(start->Ok_0, source_indexes, sources, base, text);
    }
    if is_plain_name(listing) {
        stored_path_is_an_indexs(package_indexes, packages, selected, contents, listing);
        sources_keep_generated(start->Ok_0, source_indexes, sources, listing, given);
    }
    if forall|i: int| 0 <= i < kept.len() ==> is_writable_entry(#[trigger] kept[i]) {
        written_index_reads_back(kept);
    }
}

proof fn starts_well(
    start: std::result::Result<GeneratedModel, Seq<char>>,
    indexes: Seq<SourceIndexModel>,
    sources: Seq<(Seq<char>, Seq<SourceModel>)>,
)
    requires
        with_source_indexes(start, indexes, sources) is Ok,
    ensures
        start is Ok,
    decreases indexes.len(),
{
    if indexes.len() > 0 {
        starts_well(start, indexes.drop_last(), sources);
    }
}

/// Every Sources index that was read is generated anew: a text is stored under its
/// plain path, listed in every form, and where its entries can be written, it reads
/// back as exactly them. Left out are indexes whose path an earlier one has taken or
/// that is one by digest.
pub proof fn every_read_source_index_is_generated(
    package_indexes: Seq<IndexModel>,
    source_indexes: Seq<SourceIndexModel>,
    packages: Seq<(Seq<char>, Seq<PackageModel>)>,
    sources: Seq<(Seq<char>, Seq<SourceModel>)>,
    selected: Seq<Seq<char>>,
    contents: Seq<(Seq<char>, Seq<char>)>,
    n: int,
)
    requires
        generated_metadata(
            package_indexes,
            source_indexes,
            packages,
            sources,
            selected,
            contents,
        ) is Ok,
        0 <= n < source_indexes.len(),
        lookup(sources, source_indexes[n].path) is Some,
        is_plain_name(plain_path(source_indexes[n].path)),
        is_new_path(
            package_indexes,
            package_indexes.len() as int,
            plain_path(source_indexes[n].path),
        ),
        forall|m: int|
            0 <= m < n ==> plain_path((#[trigger] source_indexes[m]).path) != plain_path(
                source_indexes[n].path,
            ),
    ensures
        ({
            let g = generated_metadata(
                package_indexes,
                source_indexes,
                packages,
                sources,
                selected,
                contents,
            )->Ok_0;
            let entries = lookup(sources, source_indexes[n].path)->0;
            let base = plain_path(source_indexes[n].path);
            exists|text: Seq<char>| #[trigger]
                is_generated(g, base, text) && ((forall|i: int|
                    0 <= i < entries.len() ==> is_writable_source(#[trigger] entries[i]))
                    ==> sources_of(text) == Ok::<Seq<SourceModel>, Failure>(entries))
        }),
{
    let start = with_package_indexes(package_indexes, packages, selected, contents);
    starts_well(start, source_indexes, sources);
    let base = plain_path(source_indexes[n].path);
    let entries = lookup(sources, source_indexes[n].path)->0;
    stored_path_is_an_indexs(package_indexes, packages, selected, contents, base);
    read_source_index_is_generated(start->Ok_0, source_indexes, sources, n);
    if forall|i: int| 0 <= i < entries.len() ==> is_writable_source(#[trigger] entries[i]) {
        written_sources_read_back(entries);
    }
}

proof fn read_source_index_is_generated(
    start: GeneratedModel,
    indexes: Seq<SourceIndexModel>,
    sources: Seq<(Seq<char>, Seq<SourceModel>)>,
    n: int,
)
    requires
        with_source_indexes(Ok(start), indexes, sources) is Ok,
        ascending(keys_of(start.plain_indexes)),
        0 <= n < indexes.len(),
        lookup(sources, indexes[n].path) is Some,
        is_plain_name(plain_path(indexes[n].path)),
        lookup(start.plain_indexes, plain_path(indexes[n].path)) is None,
        forall|m: int|
            0 <= m < n ==> plain_path((#[trigger] indexes[m]).path) != plain_path(indexes[n].path),
    ensures
        is_generated(
            with_source_indexes(Ok(start), indexes, sources)->Ok_0,
            plain_path(indexes[n].path),
            sources_text(lookup(sources, indexes[n].path)->0),
        ),
    decreases indexes.len(),
{
    let t = indexes.drop_last();
    let base = plain_path(indexes[n].path);
    let text = sources_text(lookup(sources, indexes[n].path)->0);
    let before = with_source_indexes(Ok(start), t, sources)->Ok_0;
    let g = with_source_indexes(Ok(start), indexes, sources)->Ok_0;
    sources_keep_generated(start, t, sources, base, text);
    if n == t.len() {
        assert forall|m: int| 0 <= m < t.len() implies plain_path((#[trigger] t[m]).path)
            != base by {
            assert(t[m] == indexes[m]);
        }
        index_is_generated(before, indexes[n].path, text, base);
    } else {
        assert(t[n] == indexes[n]);
        assert forall|m: int| 0 <= m < n implies plain_path((#[trigger] t[m]).path) != plain_path(
            t[n].path,
        ) by {
            assert(t[m] == indexes[m]);
        }
        read_source_index_is_generated(start, t, sources, n);
        if let Some(entries) = lookup(sources, indexes.last().path) {
            index_is_generated(before, indexes.last().path, sources_text(entries), base);
            generated_stays(before, g, base, text);
        }
    }
}

/// Nothing else is stored: a path that is not one by digest is that of an index, or of
/// the Contents index that goes with one.
pub proof fn nothing_else_is_generated(
    package_indexes: Seq<IndexModel>,
    source_indexes: Seq<SourceIndexModel>,
    packages: Seq<(Seq<char>, Seq<PackageModel>)>,
    sources: Seq<(Seq<char>, Seq<SourceModel>)>,
    selected: Seq<Seq<char>>,
    contents: Seq<(Seq<char>, Seq<char>)>,
    path: Seq<char>,
)
    requires
        generated_metadata(
            package_indexes,
            source_indexes,
            packages,
            sources,
            selected,
            contents,
        ) is Ok,
        is_plain_name(path),
        is_new_path(package_indexes, package_indexes.len() as int, path),
        forall|m: int|
            0 <= m < source_indexes.len() ==> plain_path((#[trigger] source_indexes[m]).path)
                != path,
    ensures
        lookup(
            generated_metadata(
                package_indexes,
                source_indexes,
                packages,
                sources,
                selected,
                contents,
            )->Ok_0.plain_indexes,
            path,
        ) is None,
{
    let start = with_package_indexes(package_indexes, packages, selected, contents);
    starts_well(start, source_indexes, sources);
    stored_path_is_an_indexs(package_indexes, packages, selected, contents, path);
    sources_keep_generated(start->Ok_0, source_indexes, sources, path, seq![]);
}

/// What is stored stands in ascending order of its paths.
pub proof fn generated_is_ordered(
    package_indexes: Seq<IndexModel>,
    source_indexes: Seq<SourceIndexModel>,
    packages: Seq<(Seq<char>, Seq<PackageModel>)>,
    sources: Seq<(Seq<char>, Seq<SourceModel>)>,
    selected: Seq<Seq<char>>,
    contents: Seq<(Seq<char>, Seq<char>)>,
)
    ensures
        generated_metadata(
            package_indexes,
            source_indexes,
            packages,
            sources,
            selected,
            contents,
        ) matches Ok(g) ==> ascending(keys_of(g.plain_indexes)),
{
    if generated_metadata(
        package_indexes,
        source_indexes,
        packages,
        sources,
        selected,
        contents,
    ) is Ok {
        reveal_strlit("by-hash/");
        let start = with_package_indexes(package_indexes, packages, selected, contents);
        starts_well(start, source_indexes, sources);
        let path = Seq::<char>::empty();
        stored_path_is_an_indexs(package_indexes, packages, selected, contents, path);
        sources_keep_generated(start->Ok_0, source_indexes, sources, path, path);
    }
}

/// Each form of an index that is generated can be asked for by its digest: what is stored
/// under it refers to the path of that very form.
pub proof fn digest_leads_to_its_form(g: GeneratedModel, path: Seq<char>, text: Seq<char>)
    requires
        ascending(keys_of(g.plain_indexes)),
        with_index(g, path, text) is Ok,
        is_plain_name(plain_path(path)),
        lookup(g.plain_indexes, plain_path(path)) is None,
        sha256_hex(encode_utf8(text)) != sha256_hex(gzipped(encode_utf8(text))->Ok_0),
        sha256_hex(encode_utf8(text)) != sha256_hex(xzed(encode_utf8(text))->Ok_0),
        sha256_hex(gzipped(encode_utf8(text))->Ok_0) != sha256_hex(xzed(encode_utf8(text))->Ok_0),
    ensures
        ({
            let h = with_index(g, path, text)->Ok_0;
            let base = plain_path(path);
            let bytes = encode_utf8(text);
            let gz = gzipped(bytes)->Ok_0;
            let xz = xzed(bytes)->Ok_0;
            let by = "by-hash/SHA256/"@;
            &&& lookup(h.plain_indexes, by + sha256_hex(bytes)) == Some("@ref:"@ + base)
            &&& lookup(h.plain_indexes, by + sha256_hex(gz)) == Some("@ref:"@ + (base + ".gz"@))
            &&& lookup(h.plain_indexes, by + sha256_hex(xz)) == Some("@ref:"@ + (base + ".xz"@))
        }),
{
    let base = plain_path(path);
    let bytes = encode_utf8(text);
    let gz = gzipped(bytes)->Ok_0;
    let xz = xzed(bytes)->Ok_0;
    let by = "by-hash/SHA256/"@;
    alias_is_by_digest(bytes, base);
    alias_is_by_digest(gz, base);
    alias_is_by_digest(xz, base);
    let a = alias_of(bytes);
    let b = alias_of(gz);
    let c = alias_of(xz);
    assert(a != b && a != c && b != c) by {
        assert(a.skip(by.len() as int) =~= sha256_hex(bytes));
        assert(b.skip(by.len() as int) =~= sha256_hex(gz));
        assert(c.skip(by.len() as int) =~= sha256_hex(xz));
    }
    let m0 = g.plain_indexes;
    let m1 = put(m0, a, "@ref:"@ + base);
    let m2 = put(m1, b, "@ref:"@ + (base + ".gz"@));
    let m3 = put(m2, c, "@ref:"@ + (base + ".xz"@));
    lookup_after_put(m0, a, "@ref:"@ + base, a);
    lookup_after_put(m1, b, "@ref:"@ + (base + ".gz"@), a);
    lookup_after_put(m2, c, "@ref:"@ + (base + ".xz"@), a);
    lookup_after_put(m3, base, text, a);
    lookup_after_put(m2, c, "@ref:"@ + (base + ".xz"@), b);
    lookup_after_put(m3, base, text, b);
    lookup_after_put(m3, base, text, c);
}

} // verus!
