//! What is accepted, said of what the metadata lists.

use vstd::prelude::*;

use crate::digest::{sha256_hex, sha512_hex};
use crate::index::{packages_of, PackageModel, SourceFileModel, SourceModel};
use crate::ordered::{ascending, keys_of, lookup, lookup_after_put};
use crate::plan::source_path;
use crate::release::{HashModel, ReleaseModel};
use crate::select::listed;
use crate::sync::at;
use crate::text::{ascii_lower, ends_with, is_blank, starts_with, trim, trim_empty_iff_blank, trim_start_char};
use crate::verify::{digest_in_texts, digest_of_file, entry_digest, entry_name, first_digest, first_hash, fits};
use crate::verify::{index_verdict, is_listed, package_digests, prefetch_digest, source_digests, stored_entries};
use crate::verify::{with_package_digest, with_package_digests, with_source_digests, with_source_files};

verus! {

// ---------------------------------------------------------------------------
// Indexes
// ---------------------------------------------------------------------------

/// The line is the first of its section for the path.
pub open spec fn is_first_line(hashes: Seq<HashModel>, path: Seq<char>, i: int) -> bool {
    &&& 0 <= i < hashes.len()
    &&& hashes[i].path == path
    &&& forall|j: int| 0 <= j < i ==> (#[trigger] hashes[j]).path != path
}

/// No line of the section is for the path.
pub open spec fn has_no_line(hashes: Seq<HashModel>, path: Seq<char>) -> bool {
    forall|j: int| 0 <= j < hashes.len() ==> (#[trigger] hashes[j]).path != path
}

proof fn first_line_is_found(hashes: Seq<HashModel>, path: Seq<char>, i: int)
    requires
        is_first_line(hashes, path, i),
    ensures
        first_hash(hashes, path) == Some(hashes[i]),
    decreases hashes.len(),
{
    if i > 0 {
        assert(hashes[0].path != path);
        assert forall|j: int| 0 <= j < i - 1 implies (
        #[trigger] hashes.drop_first()[j]).path != path by {
            assert(hashes[j + 1].path != path);
        }
        first_line_is_found(hashes.drop_first(), path, i - 1);
    }
}

proof fn no_line_is_found(hashes: Seq<HashModel>, path: Seq<char>)
    requires
        has_no_line(hashes, path),
    ensures
        first_hash(hashes, path) is None,
    decreases hashes.len(),
{
    if hashes.len() > 0 {
        assert(hashes[0].path != path);
        assert forall|j: int| 0 <= j < hashes.drop_first().len() implies (
        #[trigger] hashes.drop_first()[j]).path != path by {
            assert(hashes[j + 1].path != path);
        }
        no_line_is_found(hashes.drop_first(), path);
    }
}

/// An index that a Release has a SHA-512 line for is accepted if and only if its
/// length and its SHA-512 digest are those of the first such line, whatever any
/// SHA-256 line says and whether verification is required or not.
pub proof fn index_is_held_to_sha512(
    release: ReleaseModel,
    path: Seq<char>,
    content: Seq<u8>,
    require: bool,
    i: int,
)
    requires
        is_first_line(release.sha512, path, i),
    ensures
        index_verdict(release, path, content, require) is Ok <==> content.len()
            == release.sha512[i].size && ascii_lower(sha512_hex(content)) == ascii_lower(
            release.sha512[i].hash,
        ),
{
    first_line_is_found(release.sha512, path, i);
}

/// An index that a Release has a SHA-256 line for and no SHA-512 line is accepted if
/// and only if its length and its SHA-256 digest are those of the first such line.
pub proof fn index_is_held_to_sha256(
    release: ReleaseModel,
    path: Seq<char>,
    content: Seq<u8>,
    require: bool,
    i: int,
)
    requires
        has_no_line(release.sha512, path),
        is_first_line(release.sha256, path, i),
    ensures
        index_verdict(release, path, content, require) is Ok <==> content.len()
            == release.sha256[i].size && ascii_lower(sha256_hex(content)) == ascii_lower(
            release.sha256[i].hash,
        ),
{
    no_line_is_found(release.sha512, path);
    first_line_is_found(release.sha256, path, i);
}

/// An index that a Release has neither line for is accepted if and only if no
/// verification is required.
pub proof fn unlisted_index_is_refused_where_required(
    release: ReleaseModel,
    path: Seq<char>,
    content: Seq<u8>,
    require: bool,
)
    requires
        has_no_line(release.sha512, path),
        has_no_line(release.sha256, path),
    ensures
        index_verdict(release, path, content, require) is Ok <==> !require,
{
    no_line_is_found(release.sha512, path);
    no_line_is_found(release.sha256, path);
}

// ---------------------------------------------------------------------------
// Digests of package files
// ---------------------------------------------------------------------------

/// The entry gives the file of this name a digest.
pub open spec fn vouches_for(entry: PackageModel, name: Seq<char>) -> bool {
    &&& entry.filename is Some
    &&& entry.sha256 is Some
    &&& !is_blank(entry.filename->0)
    &&& !is_blank(entry.sha256->0)
    &&& trim(entry.filename->0) == name
}

/// All entries of the indexes, one index after the other.
pub open spec fn all_entries<E>(indexes: Seq<(Seq<char>, Seq<E>)>) -> Seq<E> {
    indexes.map_values(|index: (Seq<char>, Seq<E>)| index.1).flatten()
}

proof fn digest_is_noted(map: Seq<(Seq<char>, Seq<char>)>, entry: PackageModel, name: Seq<char>)
    requires
        ascending(keys_of(map)),
    ensures
        ascending(keys_of(with_package_digest(map, entry))),
        lookup(with_package_digest(map, entry), name) == if vouches_for(entry, name) {
            Some(ascii_lower(trim(entry.sha256->0)))
        } else {
            lookup(map, name)
        },
{
    if let Some(filename) = entry.filename {
        trim_empty_iff_blank(filename);
        if let Some(sha256) = entry.sha256 {
            trim_empty_iff_blank(sha256);
            lookup_after_put(map, trim(filename), ascii_lower(trim(sha256)), name);
        }
    }
}

/// The digest of the last entry that vouches for the file.
spec fn last_voucher(entries: Seq<PackageModel>, name: Seq<char>) -> Option<Seq<char>>
    decreases entries.len(),
{
    if entries.len() == 0 {
        None
    } else if vouches_for(entries.last(), name) {
        Some(ascii_lower(trim(entries.last().sha256->0)))
    } else {
        last_voucher(entries.drop_last(), name)
    }
}

proof fn last_voucher_of_both(a: Seq<PackageModel>, b: Seq<PackageModel>, name: Seq<char>)
    ensures
        last_voucher(a + b, name) == (match last_voucher(b, name) {
            Some(digest) => Some(digest),
            None => last_voucher(a, name),
        }),
    decreases b.len(),
{
    if b.len() == 0 {
        assert(a + b =~= a);
    } else {
        assert((a + b).last() == b.last());
        assert((a + b).drop_last() =~= a + b.drop_last());
        last_voucher_of_both(a, b.drop_last(), name);
    }
}

proof fn index_digests_are_noted(
    map: Seq<(Seq<char>, Seq<char>)>,
    entries: Seq<PackageModel>,
    name: Seq<char>,
)
    requires
        ascending(keys_of(map)),
    ensures
        ascending(keys_of(with_package_digests(map, entries))),
        lookup(with_package_digests(map, entries), name) == (match last_voucher(entries, name) {
            Some(digest) => Some(digest),
            None => lookup(map, name),
        }),
    decreases entries.len(),
{
    if entries.len() > 0 {
        index_digests_are_noted(map, entries.drop_last(), name);
        digest_is_noted(
            with_package_digests(map, entries.drop_last()),
            entries.last(),
            name,
        );
    }
}

proof fn all_entries_step<E>(indexes: Seq<(Seq<char>, Seq<E>)>)
    ensures
        indexes.len() == 0 ==> all_entries(indexes) == Seq::<E>::empty(),
        indexes.len() > 0 ==> all_entries(indexes) == all_entries(indexes.drop_last())
            + indexes.last().1,
{
    let each = |index: (Seq<char>, Seq<E>)| index.1;
    let ss = indexes.map_values(each);
    ss.lemma_flatten_and_flatten_alt_are_equivalent();
    if indexes.len() > 0 {
        let ts = indexes.drop_last().map_values(each);
        ts.lemma_flatten_and_flatten_alt_are_equivalent();
        assert(ss.drop_last() =~= ts);
    }
}

proof fn package_digests_are_noted(packages: Seq<(Seq<char>, Seq<PackageModel>)>, name: Seq<char>)
    ensures
        ascending(keys_of(package_digests(packages))),
        lookup(package_digests(packages), name) == last_voucher(all_entries(packages), name),
    decreases packages.len(),
{
    all_entries_step(packages);
    if packages.len() > 0 {
        let t = packages.drop_last();
        package_digests_are_noted(t, name);
        index_digests_are_noted(package_digests(t), packages.last().1, name);
        last_voucher_of_both(all_entries(t), packages.last().1, name);
    }
}

proof fn last_voucher_is(entries: Seq<PackageModel>, name: Seq<char>, i: int)
    requires
        0 <= i < entries.len(),
        vouches_for(entries[i], name),
        forall|j: int| i < j < entries.len() ==> !vouches_for(#[trigger] entries[j], name),
    ensures
        last_voucher(entries, name) == Some(ascii_lower(trim(entries[i].sha256->0))),
    decreases entries.len(),
{
    if i < entries.len() - 1 {
        assert(!vouches_for(entries[entries.len() - 1], name));
        assert forall|j: int| i < j < entries.len() - 1 implies !vouches_for(
            #[trigger] entries.drop_last()[j],
            name,
        ) by {
            assert(!vouches_for(entries[j], name));
        }
        last_voucher_is(entries.drop_last(), name, i);
    }
}

proof fn no_voucher(entries: Seq<PackageModel>, name: Seq<char>)
    requires
        forall|j: int| 0 <= j < entries.len() ==> !vouches_for(#[trigger] entries[j], name),
    ensures
        last_voucher(entries, name) is None,
    decreases entries.len(),
{
    if entries.len() > 0 {
        assert(!vouches_for(entries[entries.len() - 1], name));
        assert forall|j: int| 0 <= j < entries.len() - 1 implies !vouches_for(
            #[trigger] entries.drop_last()[j],
            name,
        ) by {
            assert(!vouches_for(entries[j], name));
        }
        no_voucher(entries.drop_last(), name);
    }
}

/// A package file is fetched against the SHA-256 digest that the indexes give it:
/// that of the last entry, in whichever index, which gives its name one.
pub proof fn package_file_has_listed_digest(
    packages: Seq<(Seq<char>, Seq<PackageModel>)>,
    name: Seq<char>,
    require: bool,
    i: int,
)
    requires
        0 <= i < all_entries(packages).len(),
        vouches_for(all_entries(packages)[i], name),
        forall|j: int|
            i < j < all_entries(packages).len() ==> !vouches_for(
                #[trigger] all_entries(packages)[j],
                name,
            ),
    ensures
        prefetch_digest(package_digests(packages), name, require) == Ok::<
            Option<Seq<char>>,
            Seq<char>,
        >(Some(ascii_lower(trim(all_entries(packages)[i].sha256->0)))),
{
    package_digests_are_noted(packages, name);
    last_voucher_is(all_entries(packages), name, i);
}

/// A package file that no entry gives a digest is fetched without one, unless
/// verification is required: then it is not fetched.
pub proof fn package_file_without_digest(
    packages: Seq<(Seq<char>, Seq<PackageModel>)>,
    name: Seq<char>,
)
    requires
        forall|j: int|
            0 <= j < all_entries(packages).len() ==> !vouches_for(
                #[trigger] all_entries(packages)[j],
                name,
            ),
    ensures
        prefetch_digest(package_digests(packages), name, true) is Err,
        prefetch_digest(package_digests(packages), name, false) == Ok::<
            Option<Seq<char>>,
            Seq<char>,
        >(None),
{
    package_digests_are_noted(packages, name);
    no_voucher(all_entries(packages), name);
}

// ---------------------------------------------------------------------------
// Digests of source files
// ---------------------------------------------------------------------------

/// A file of a source package, with the directory of the package.
pub open spec fn files_with_directory(entry: SourceModel) -> Seq<(Seq<char>, SourceFileModel)> {
    entry.files.map_values(|file: SourceFileModel| (entry.directory, file))
}

/// All files of the source packages of the indexes, in their order.
pub open spec fn all_source_files(
    sources: Seq<(Seq<char>, Seq<SourceModel>)>,
) -> Seq<(Seq<char>, SourceFileModel)> {
    all_entries(sources).map_values(|entry: SourceModel| files_with_directory(entry)).flatten()
}

/// The file is at this path and has a digest.
pub open spec fn vouches_for_source(file: (Seq<char>, SourceFileModel), path: Seq<char>) -> bool {
    &&& file.1.sha256 is Some
    &&& !is_blank(file.1.sha256->0)
    &&& source_path(file.0, file.1.filename) == path
}

spec fn last_source_voucher(
    files: Seq<(Seq<char>, SourceFileModel)>,
    path: Seq<char>,
) -> Option<Seq<char>>
    decreases files.len(),
{
    if files.len() == 0 {
        None
    } else if vouches_for_source(files.last(), path) {
        Some(ascii_lower(trim(files.last().1.sha256->0)))
    } else {
        last_source_voucher(files.drop_last(), path)
    }
}

proof fn last_source_voucher_of_both(
    a: Seq<(Seq<char>, SourceFileModel)>,
    b: Seq<(Seq<char>, SourceFileModel)>,
    path: Seq<char>,
)
    ensures
        last_source_voucher(a + b, path) == (match last_source_voucher(b, path) {
            Some(digest) => Some(digest),
            None => last_source_voucher(a, path),
        }),
    decreases b.len(),
{
    if b.len() == 0 {
        assert(a + b =~= a);
    } else {
        assert((a + b).last() == b.last());
        assert((a + b).drop_last() =~= a + b.drop_last());
        last_source_voucher_of_both(a, b.drop_last(), path);
    }
}

proof fn source_files_are_noted(
    map: Seq<(Seq<char>, Seq<char>)>,
    directory: Seq<char>,
    files: Seq<SourceFileModel>,
    path: Seq<char>,
)
    requires
        ascending(keys_of(map)),
    ensures
        ascending(keys_of(with_source_files(map, directory, files))),
        lookup(with_source_files(map, directory, files), path) == (match last_source_voucher(
            files.map_values(|file: SourceFileModel| (directory, file)),
            path,
        ) {
            Some(digest) => Some(digest),
            None => lookup(map, path),
        }),
    decreases files.len(),
{
    let paired = files.map_values(|file: SourceFileModel| (directory, file));
    if files.len() > 0 {
        let t = files.drop_last();
        let before = with_source_files(map, directory, t);
        let file = files.last();
        source_files_are_noted(map, directory, t, path);
        assert(paired.drop_last() =~= t.map_values(|file: SourceFileModel| (directory, file)));
        if let Some(sha256) = file.sha256 {
            trim_empty_iff_blank(sha256);
            lookup_after_put(
                before,
                source_path(directory, file.filename),
                ascii_lower(trim(sha256)),
                path,
            );
        }
    }
}

proof fn index_source_digests_are_noted(
    map: Seq<(Seq<char>, Seq<char>)>,
    entries: Seq<SourceModel>,
    path: Seq<char>,
)
    requires
        ascending(keys_of(map)),
    ensures
        ascending(keys_of(with_source_digests(map, entries))),
        lookup(with_source_digests(map, entries), path) == (match last_source_voucher(
            entries.map_values(|entry: SourceModel| files_with_directory(entry)).flatten(),
            path,
        ) {
            Some(digest) => Some(digest),
            None => lookup(map, path),
        }),
    decreases entries.len(),
{
    let each = |entry: SourceModel| files_with_directory(entry);
    let ss = entries.map_values(each);
    ss.lemma_flatten_and_flatten_alt_are_equivalent();
    if entries.len() > 0 {
        let t = entries.drop_last();
        let ts = t.map_values(each);
        ts.lemma_flatten_and_flatten_alt_are_equivalent();
        assert(ss.drop_last() =~= ts);
        index_source_digests_are_noted(map, t, path);
        source_files_are_noted(
            with_source_digests(map, t),
            entries.last().directory,
            entries.last().files,
            path,
        );
        assert(files_with_directory(entries.last()) =~= entries.last().files.map_values(
            |file: SourceFileModel| (entries.last().directory, file),
        ));
        last_source_voucher_of_both(ts.flatten(), files_with_directory(entries.last()), path);
    }
}

proof fn flattened_both<A, B>(a: Seq<A>, b: Seq<A>, each: spec_fn(A) -> Seq<B>)
    ensures
        (a + b).map_values(each).flatten() == a.map_values(each).flatten() + b.map_values(
            each,
        ).flatten(),
    decreases b.len(),
{
    let ab = (a + b).map_values(each);
    let bs = b.map_values(each);
    ab.lemma_flatten_and_flatten_alt_are_equivalent();
    bs.lemma_flatten_and_flatten_alt_are_equivalent();
    if b.len() == 0 {
        assert(a + b =~= a);
        assert(a.map_values(each).flatten() + bs.flatten() =~= a.map_values(each).flatten());
    } else {
        let t = b.drop_last();
        flattened_both(a, t, each);
        let at = (a + t).map_values(each);
        at.lemma_flatten_and_flatten_alt_are_equivalent();
        t.map_values(each).lemma_flatten_and_flatten_alt_are_equivalent();
        assert(ab.drop_last() =~= at);
        assert(bs.drop_last() =~= t.map_values(each));
        assert(ab.last() == bs.last());
        assert(ab.flatten() =~= a.map_values(each).flatten() + bs.flatten());
    }
}

proof fn source_digests_are_noted(sources: Seq<(Seq<char>, Seq<SourceModel>)>, path: Seq<char>)
    ensures
        ascending(keys_of(source_digests(sources))),
        lookup(source_digests(sources), path) == last_source_voucher(
            all_source_files(sources),
            path,
        ),
    decreases sources.len(),
{
    let each = |entry: SourceModel| files_with_directory(entry);
    all_entries_step(sources);
    if sources.len() > 0 {
        let t = sources.drop_last();
        source_digests_are_noted(t, path);
        index_source_digests_are_noted(source_digests(t), sources.last().1, path);
        flattened_both(all_entries(t), sources.last().1, each);
        last_source_voucher_of_both(
            all_source_files(t),
            sources.last().1.map_values(each).flatten(),
            path,
        );
    } else {
        assert(all_source_files(sources) =~= seq![]);
    }
}

proof fn last_source_voucher_is(
    files: Seq<(Seq<char>, SourceFileModel)>,
    path: Seq<char>,
    i: int,
)
    requires
        0 <= i < files.len(),
        vouches_for_source(files[i], path),
        forall|j: int| i < j < files.len() ==> !vouches_for_source(#[trigger] files[j], path),
    ensures
        last_source_voucher(files, path) == Some(ascii_lower(trim(files[i].1.sha256->0))),
    decreases files.len(),
{
    if i < files.len() - 1 {
        assert(!vouches_for_source(files[files.len() - 1], path));
        assert forall|j: int| i < j < files.len() - 1 implies !vouches_for_source(
            #[trigger] files.drop_last()[j],
            path,
        ) by {
            assert(!vouches_for_source(files[j], path));
        }
        last_source_voucher_is(files.drop_last(), path, i);
    }
}

proof fn no_source_voucher(files: Seq<(Seq<char>, SourceFileModel)>, path: Seq<char>)
    requires
        forall|j: int| 0 <= j < files.len() ==> !vouches_for_source(#[trigger] files[j], path),
    ensures
        last_source_voucher(files, path) is None,
    decreases files.len(),
{
    if files.len() > 0 {
        assert(!vouches_for_source(files[files.len() - 1], path));
        assert forall|j: int| 0 <= j < files.len() - 1 implies !vouches_for_source(
            #[trigger] files.drop_last()[j],
            path,
        ) by {
            assert(!vouches_for_source(files[j], path));
        }
        no_source_voucher(files.drop_last(), path);
    }
}

/// A source file is fetched against the SHA-256 digest that the indexes give it:
/// that of the last file, of whichever source package, listed at its path with one.
pub proof fn source_file_has_listed_digest(
    sources: Seq<(Seq<char>, Seq<SourceModel>)>,
    path: Seq<char>,
    require: bool,
    i: int,
)
    requires
        0 <= i < all_source_files(sources).len(),
        vouches_for_source(all_source_files(sources)[i], path),
        forall|j: int|
            i < j < all_source_files(sources).len() ==> !vouches_for_source(
                #[trigger] all_source_files(sources)[j],
                path,
            ),
    ensures
        prefetch_digest(source_digests(sources), path, require) == Ok::<
            Option<Seq<char>>,
            Seq<char>,
        >(Some(ascii_lower(trim(all_source_files(sources)[i].1.sha256->0)))),
{
    source_digests_are_noted(sources, path);
    last_source_voucher_is(all_source_files(sources), path, i);
}

/// A source file that has no digest anywhere is fetched without one, unless
/// verification is required: then it is not fetched.
pub proof fn source_file_without_digest(
    sources: Seq<(Seq<char>, Seq<SourceModel>)>,
    path: Seq<char>,
)
    requires
        forall|j: int|
            0 <= j < all_source_files(sources).len() ==> !vouches_for_source(
                #[trigger] all_source_files(sources)[j],
                path,
            ),
    ensures
        prefetch_digest(source_digests(sources), path, true) is Err,
        prefetch_digest(source_digests(sources), path, false) == Ok::<
            Option<Seq<char>>,
            Seq<char>,
        >(None),
{
    source_digests_are_noted(sources, path);
    no_source_voucher(all_source_files(sources), path);
}

// ---------------------------------------------------------------------------
// Files that are asked for by name
// ---------------------------------------------------------------------------

/// The entry lists its file under this name, slashes before it aside.
pub open spec fn goes_by(entry: PackageModel, name: Seq<char>) -> bool {
    &&& entry.filename is Some
    &&& name.len() > 0
    &&& trim_start_char(trim(entry.filename->0), '/') == name
}

/// The entry gives its file a digest.
pub open spec fn has_digest(entry: PackageModel) -> bool {
    entry.sha256 is Some && !is_blank(entry.sha256->0)
}

/// One name ends in the other, from a slash on.
pub open spec fn ends_below(long: Seq<char>, short: Seq<char>) -> bool {
    exists|above: Seq<char>| long == #[trigger] (above + "/"@ + short)
}

/// The entry lists its file under a name of which this is the end, or that is the end
/// of this one.
pub open spec fn goes_by_part(entry: PackageModel, name: Seq<char>) -> bool {
    exists|own: Seq<char>| #[trigger]
        goes_by(entry, own) && (own == name || ends_below(own, name) || ends_below(name, own))
}

proof fn end_is_below(long: Seq<char>, short: Seq<char>)
    ensures
        ends_with(long, "/"@ + short) <==> ends_below(long, short),
{
    let p = "/"@ + short;
    if ends_with(long, p) {
        let above = long.take(long.len() - p.len());
        assert(long =~= above + long.skip(long.len() - p.len()));
        assert(above + p =~= above + "/"@ + short);
    }
    if ends_below(long, short) {
        let above = choose|above: Seq<char>| long == #[trigger] (above + "/"@ + short);
        assert(long.skip(long.len() - p.len()) =~= p);
    }
}

proof fn name_of_entry(entry: PackageModel, name: Seq<char>)
    requires
        name.len() > 0,
    ensures
        entry_name(entry) == Some(name) <==> goes_by(entry, name),
        fits(entry, name, false) <==> goes_by_part(entry, name),
        fits(entry, name, true) <==> goes_by(entry, name),
        entry_digest(entry) == if has_digest(entry) {
            Some(ascii_lower(trim(entry.sha256->0)))
        } else {
            None
        },
{
    if let Some(sha256) = entry.sha256 {
        trim_empty_iff_blank(sha256);
    }
    match entry.filename {
        Some(filename) => {
            let own = trim_start_char(trim(filename), '/');
            if trim(filename).len() == 0 {
                assert(own.len() == 0);
            }
            end_is_below(own, name);
            end_is_below(name, own);
            if own.len() > 0 {
                assert(goes_by(entry, own));
            }
            if goes_by_part(entry, name) {
                let mine = choose|mine: Seq<char>| #[trigger]
                    goes_by(entry, mine) && (mine == name || ends_below(mine, name) || ends_below(
                        name,
                        mine,
                    ));
                assert(mine == own);
            }
        },
        None => {},
    }
}

proof fn first_digest_is(entries: Seq<PackageModel>, name: Seq<char>, exactly: bool, i: int)
    requires
        0 <= i < entries.len(),
        fits(entries[i], name, exactly),
        entry_digest(entries[i]) is Some,
        forall|j: int|
            0 <= j < i ==> !(fits(#[trigger] entries[j], name, exactly) && entry_digest(
                entries[j],
            ) is Some),
    ensures
        first_digest(entries, name, exactly) == entry_digest(entries[i]),
    decreases entries.len(),
{
    if i > 0 {
        assert(!(fits(entries[0], name, exactly) && entry_digest(entries[0]) is Some));
        let t = entries.drop_first();
        assert forall|j: int| 0 <= j < i - 1 implies !(fits(#[trigger] t[j], name, exactly)
            && entry_digest(t[j]) is Some) by {
            assert(t[j] == entries[j + 1]);
        }
        first_digest_is(t, name, exactly, i - 1);
    }
}

proof fn no_first_digest(entries: Seq<PackageModel>, name: Seq<char>, exactly: bool)
    requires
        forall|j: int|
            0 <= j < entries.len() ==> !(fits(#[trigger] entries[j], name, exactly)
                && entry_digest(entries[j]) is Some),
    ensures
        first_digest(entries, name, exactly) is None,
    decreases entries.len(),
{
    if entries.len() > 0 {
        assert(!(fits(entries[0], name, exactly) && entry_digest(entries[0]) is Some));
        let t = entries.drop_first();
        assert forall|j: int| 0 <= j < t.len() implies !(fits(#[trigger] t[j], name, exactly)
            && entry_digest(t[j]) is Some) by {
            assert(t[j] == entries[j + 1]);
        }
        no_first_digest(t, name, exactly);
    }
}

/// A file that some entry lists under its own name is given the digest of the first
/// entry that lists it so and has one; where none of those has one, it has none,
/// whatever entries of other names say.
pub proof fn own_name_gives_digest(entries: Seq<PackageModel>, filename: Seq<char>, listed: int)
    requires
        0 <= listed < entries.len(),
        goes_by(entries[listed], trim_start_char(trim(filename), '/')),
    ensures
        ({
            let name = trim_start_char(trim(filename), '/');
            &&& forall|i: int|
                0 <= i < entries.len() && goes_by(#[trigger] entries[i], name) && has_digest(
                    entries[i],
                ) && (forall|j: int|
                    0 <= j < i ==> !(goes_by(#[trigger] entries[j], name) && has_digest(
                        entries[j],
                    ))) ==> digest_of_file(entries, filename) == Some(
                    ascii_lower(trim(entries[i].sha256->0)),
                )
            &&& (forall|j: int|
                0 <= j < entries.len() ==> !(goes_by(#[trigger] entries[j], name) && has_digest(
                    entries[j],
                ))) ==> digest_of_file(entries, filename) is None
        }),
{
    let name = trim_start_char(trim(filename), '/');
    assert forall|j: int| 0 <= j < entries.len() implies (goes_by(#[trigger] entries[j], name)
        && has_digest(entries[j])) == (fits(entries[j], name, true) && entry_digest(
        entries[j],
    ) is Some) by {
        name_of_entry(entries[j], name);
    }
    name_of_entry(entries[listed], name);
    assert(is_listed(entries, name));
    assert forall|i: int|
        0 <= i < entries.len() && goes_by(#[trigger] entries[i], name) && has_digest(entries[i])
            && (forall|j: int|
            0 <= j < i ==> !(goes_by(#[trigger] entries[j], name) && has_digest(
                entries[j],
            ))) implies digest_of_file(entries, filename) == Some(
        ascii_lower(trim(entries[i].sha256->0)),
    ) by {
        name_of_entry(entries[i], name);
        first_digest_is(entries, name, true, i);
    }
    if forall|j: int|
        0 <= j < entries.len() ==> !(goes_by(#[trigger] entries[j], name) && has_digest(
            entries[j],
        )) {
        no_first_digest(entries, name, true);
    }
}

/// A file that no entry lists under its own name is given the digest of the first
/// entry that has one and whose name meets that of the file, and none where there is
/// no such entry.
pub proof fn other_name_gives_digest(entries: Seq<PackageModel>, filename: Seq<char>)
    requires
        trim_start_char(trim(filename), '/').len() > 0,
        forall|j: int|
            0 <= j < entries.len() ==> !goes_by(
                #[trigger] entries[j],
                trim_start_char(trim(filename), '/'),
            ),
    ensures
        ({
            let name = trim_start_char(trim(filename), '/');
            &&& forall|i: int|
                0 <= i < entries.len() && goes_by_part(#[trigger] entries[i], name) && has_digest(
                    entries[i],
                ) && (forall|j: int|
                    0 <= j < i ==> !(goes_by_part(#[trigger] entries[j], name) && has_digest(
                        entries[j],
                    ))) ==> digest_of_file(entries, filename) == Some(
                    ascii_lower(trim(entries[i].sha256->0)),
                )
            &&& (forall|j: int|
                0 <= j < entries.len() ==> !(goes_by_part(#[trigger] entries[j], name)
                    && has_digest(entries[j]))) ==> digest_of_file(entries, filename) is None
        }),
{
    let name = trim_start_char(trim(filename), '/');
    assert forall|j: int| 0 <= j < entries.len() implies (goes_by_part(#[trigger] entries[j], name)
        && has_digest(entries[j])) == (fits(entries[j], name, false) && entry_digest(
        entries[j],
    ) is Some) by {
        name_of_entry(entries[j], name);
    }
    assert(!is_listed(entries, name)) by {
        if is_listed(entries, name) {
            let j = choose|j: int|
                0 <= j < entries.len() && entry_name(#[trigger] entries[j]) == Some(name);
            name_of_entry(entries[j], name);
        }
    }
    assert forall|i: int|
        0 <= i < entries.len() && goes_by_part(#[trigger] entries[i], name) && has_digest(
            entries[i],
        ) && (forall|j: int|
            0 <= j < i ==> !(goes_by_part(#[trigger] entries[j], name) && has_digest(
                entries[j],
            ))) implies digest_of_file(entries, filename) == Some(
        ascii_lower(trim(entries[i].sha256->0)),
    ) by {
        name_of_entry(entries[i], name);
        first_digest_is(entries, name, false, i);
    }
    if forall|j: int|
        0 <= j < entries.len() ==> !(goes_by_part(#[trigger] entries[j], name) && has_digest(
            entries[j],
        )) {
        no_first_digest(entries, name, false);
    }
}

/// The digest that stored texts give a file is the one that all their entries give it,
/// taken together in the order of the texts: references count for nothing, and
/// neither does a text that cannot be read.
pub proof fn stored_texts_count_together(texts: Seq<Seq<char>>, filename: Seq<char>)
    ensures
        digest_in_texts(texts, filename) == digest_of_file(
            texts.filter(
                |text: Seq<char>| !starts_with(text, "@ref:"@) && packages_of(text) is Ok,
            ).map_values(|text: Seq<char>| packages_of(text)->Ok_0).flatten(),
            filename,
        ),
{
    stored_entries_are(texts);
}

proof fn stored_entries_are(texts: Seq<Seq<char>>)
    ensures
        stored_entries(texts) == texts.filter(
            |text: Seq<char>| !starts_with(text, "@ref:"@) && packages_of(text) is Ok,
        ).map_values(|text: Seq<char>| packages_of(text)->Ok_0).flatten(),
    decreases texts.len(),
{
    reveal(Seq::filter);
    let counts = |text: Seq<char>| !starts_with(text, "@ref:"@) && packages_of(text) is Ok;
    let each = |text: Seq<char>| packages_of(text)->Ok_0;
    let ss = texts.filter(counts).map_values(each);
    ss.lemma_flatten_and_flatten_alt_are_equivalent();
    if texts.len() > 0 {
        let t = texts.drop_last();
        stored_entries_are(t);
        let ts = t.filter(counts).map_values(each);
        ts.lemma_flatten_and_flatten_alt_are_equivalent();
        if counts(texts.last()) {
            assert(ss.drop_last() =~= ts);
            assert(ss.last() == packages_of(texts.last())->Ok_0);
        } else {
            assert(ss =~= ts);
            let before = stored_entries(t);
            assert(before + Seq::<PackageModel>::empty() =~= before);
        }
    } else {
        assert(ss =~= seq![]);
    }
}

} // verus!
