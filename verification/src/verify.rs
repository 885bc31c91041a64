//! Checking what was fetched against what the metadata advertises.

use vstd::prelude::*;

use crate::digest::{calculate_sha256_hex, calculate_sha512_hex, sha256_hex, sha512_hex};
use crate::index::{packages_of, parse_packages, PackageModel, PackagesEntry, SourceFileEntry, SourceFileModel, SourceModel, SourcesEntry};
use crate::number::{decimal_text, write_u64};
use crate::ordered::{lookup, put, TextMap};
use crate::plan::{source_file_path, source_path};
use crate::release::{HashModel, Release, ReleaseHash, ReleaseModel};
use crate::text::{ascii_lower, begins, cat2, cat3, cat4, chars_of, ends_with, has_suffix, same_chars, same_ignoring_ascii_case};
use crate::text::{same_text, starts_with, text_of, to_ascii_lower, trim, trim_of, trim_start_char, trim_start_char_of};

verus! {

// ---------------------------------------------------------------------------
// Model
// ---------------------------------------------------------------------------

/// The first entry of a hash section for a path.
pub open spec fn first_hash(hashes: Seq<HashModel>, path: Seq<char>) -> Option<HashModel>
    decreases hashes.len(),
{
    if hashes.len() == 0 {
        None
    } else if hashes[0].path == path {
        Some(hashes[0])
    } else {
        first_hash(hashes.drop_first(), path)
    }
}

/// The strongest digest that a Release advertises for an index: whether it is
/// SHA-512 (else SHA-256), the digest, and the size.
pub open spec fn advertised(release: ReleaseModel, path: Seq<char>) -> Option<
    (bool, Seq<char>, u64),
> {
    match first_hash(release.sha512, path) {
        Some(hash) => Some((true, hash.hash, hash.size)),
        None => match first_hash(release.sha256, path) {
            Some(hash) => Some((false, hash.hash, hash.size)),
            None => None,
        },
    }
}

/// The digest of the content in the algorithm.
pub open spec fn digest_of(content: Seq<u8>, is_sha512: bool) -> Seq<char> {
    if is_sha512 {
        sha512_hex(content)
    } else {
        sha256_hex(content)
    }
}

/// Whether an index is what a Release advertises. Where verification is
/// required, an index that the Release gives no digest for is turned down too.
pub open spec fn index_verdict(
    release: ReleaseModel,
    path: Seq<char>,
    content: Seq<u8>,
    require: bool,
) -> std::result::Result<(), Seq<char>> {
    match advertised(release, path) {
        Some((is_sha512, digest, size)) => if content.len() != size {
            Err(
                "index "@ + path + " size "@ + decimal_text(content.len())
                    + " does not match Release size "@ + decimal_text(size as nat),
            )
        } else if ascii_lower(digest_of(content, is_sha512)) != ascii_lower(digest) {
            Err(
                "index "@ + path + (if is_sha512 {
                    " SHA512"@
                } else {
                    " SHA256"@
                }) + " checksum does not match Release"@,
            )
        } else {
            Ok(())
        },
        None => if require {
            Err("index "@ + path + " has no SHA256/SHA512 entry in the verified Release"@)
        } else {
            Ok(())
        },
    }
}

/// A result that holds a text where it failed.
pub open spec fn complaint<T: DeepView>(
    r: std::result::Result<T, String>,
) -> std::result::Result<T::V, Seq<char>> {
    match r {
        Ok(value) => Ok(value.deep_view()),
        Err(text) => Err(text@),
    }
}

/// An optional text, trimmed, where it holds more than white space.
pub open spec fn filled(value: Option<Seq<char>>) -> Option<Seq<char>> {
    match value {
        Some(text) => if trim(text).len() > 0 {
            Some(trim(text))
        } else {
            None
        },
        None => None,
    }
}

/// The digests with that of one more package.
pub open spec fn with_package_digest(
    map: Seq<(Seq<char>, Seq<char>)>,
    entry: PackageModel,
) -> Seq<(Seq<char>, Seq<char>)> {
    match (filled(entry.filename), filled(entry.sha256)) {
        (Some(filename), Some(sha256)) => put(map, filename, ascii_lower(sha256)),
        _ => map,
    }
}

/// The digests with those of more packages.
pub open spec fn with_package_digests(
    map: Seq<(Seq<char>, Seq<char>)>,
    entries: Seq<PackageModel>,
) -> Seq<(Seq<char>, Seq<char>)>
    decreases entries.len(),
{
    if entries.len() == 0 {
        map
    } else {
        with_package_digest(with_package_digests(map, entries.drop_last()), entries.last())
    }
}

/// The SHA-256 digests of the packages of all indexes, in lower case, under
/// their filenames.
pub open spec fn package_digests(packages: Seq<(Seq<char>, Seq<PackageModel>)>) -> Seq<
    (Seq<char>, Seq<char>),
>
    decreases packages.len(),
{
    if packages.len() == 0 {
        seq![]
    } else {
        with_package_digests(package_digests(packages.drop_last()), packages.last().1)
    }
}

/// The digests with that of one more source file.
pub open spec fn with_source_digest(
    map: Seq<(Seq<char>, Seq<char>)>,
    directory: Seq<char>,
    file: SourceFileModel,
) -> Seq<(Seq<char>, Seq<char>)> {
    match filled(file.sha256) {
        Some(sha256) => put(map, source_path(directory, file.filename), ascii_lower(sha256)),
        None => map,
    }
}

/// The digests with those of the files of a source package.
pub open spec fn with_source_files(
    map: Seq<(Seq<char>, Seq<char>)>,
    directory: Seq<char>,
    files: Seq<SourceFileModel>,
) -> Seq<(Seq<char>, Seq<char>)>
    decreases files.len(),
{
    if files.len() == 0 {
        map
    } else {
        with_source_digest(
            with_source_files(map, directory, files.drop_last()),
            directory,
            files.last(),
        )
    }
}

/// The digests with those of more source packages.
pub open spec fn with_source_digests(
    map: Seq<(Seq<char>, Seq<char>)>,
    entries: Seq<SourceModel>,
) -> Seq<(Seq<char>, Seq<char>)>
    decreases entries.len(),
{
    if entries.len() == 0 {
        map
    } else {
        with_source_files(
            with_source_digests(map, entries.drop_last()),
            entries.last().directory,
            entries.last().files,
        )
    }
}

/// The SHA-256 digests of the source files of all indexes, in lower case, under
/// their paths.
pub open spec fn source_digests(sources: Seq<(Seq<char>, Seq<SourceModel>)>) -> Seq<
    (Seq<char>, Seq<char>),
>
    decreases sources.len(),
{
    if sources.len() == 0 {
        seq![]
    } else {
        with_source_digests(source_digests(sources.drop_last()), sources.last().1)
    }
}

/// The digest that a prefetched file has to have. Where verification is
/// required, a file without an advertised digest is not cached.
pub open spec fn prefetch_digest(
    digests: Seq<(Seq<char>, Seq<char>)>,
    filename: Seq<char>,
    require: bool,
) -> std::result::Result<Option<Seq<char>>, Seq<char>> {
    match lookup(digests, filename) {
        Some(sha256) => Ok(Some(sha256)),
        None => if require {
            Err(
                filename
                    + " has no advertised SHA256 in the verified metadata; refusing to cache"@,
            )
        } else {
            Ok(None)
        },
    }
}

/// The name by which an entry lists its file.
pub open spec fn entry_name(entry: PackageModel) -> Option<Seq<char>> {
    match filled(entry.filename) {
        Some(text) => {
            let name = trim_start_char(text, '/');
            if name.len() > 0 {
                Some(name)
            } else {
                None
            }
        },
        None => None,
    }
}

/// The digest that an entry gives its file.
pub open spec fn entry_digest(entry: PackageModel) -> Option<Seq<char>> {
    match filled(entry.sha256) {
        Some(sha256) => Some(ascii_lower(sha256)),
        None => None,
    }
}

/// One path is the other, or the end of it that begins after a slash.
pub open spec fn names_meet(a: Seq<char>, b: Seq<char>) -> bool {
    a == b || ends_with(a, "/"@ + b) || ends_with(b, "/"@ + a)
}

/// An entry lists the file under exactly this name.
pub open spec fn is_listed(entries: Seq<PackageModel>, name: Seq<char>) -> bool {
    exists|i: int| 0 <= i < entries.len() && entry_name(#[trigger] entries[i]) == Some(name)
}

/// The entry fits the name: it is the entry's own, or, where that is not asked
/// for, one that meets it.
pub open spec fn fits(entry: PackageModel, name: Seq<char>, exactly: bool) -> bool {
    match entry_name(entry) {
        Some(own) => own == name || (!exactly && names_meet(own, name)),
        None => false,
    }
}

/// The digest of the first fitting entry that has one.
pub open spec fn first_digest(
    entries: Seq<PackageModel>,
    name: Seq<char>,
    exactly: bool,
) -> Option<Seq<char>>
    decreases entries.len(),
{
    if entries.len() == 0 {
        None
    } else if fits(entries[0], name, exactly) && entry_digest(entries[0]) is Some {
        entry_digest(entries[0])
    } else {
        first_digest(entries.drop_first(), name, exactly)
    }
}

/// The digest that the entries give a file. Where one lists the file under
/// exactly this name, no other file's digest is taken for it.
pub open spec fn listed_digest(entries: Seq<PackageModel>, name: Seq<char>) -> Option<Seq<char>> {
    first_digest(entries, name, is_listed(entries, name))
}

/// The entries of the text of a Packages index; none where it cannot be read.
pub open spec fn readable_entries(text: Seq<char>) -> Seq<PackageModel> {
    match packages_of(text) {
        Ok(entries) => entries,
        Err(_) => seq![],
    }
}

/// The entries of the stored texts, one text after the other; references are
/// passed over.
pub open spec fn stored_entries(texts: Seq<Seq<char>>) -> Seq<PackageModel>
    decreases texts.len(),
{
    if texts.len() == 0 {
        seq![]
    } else if starts_with(texts.last(), "@ref:"@) {
        stored_entries(texts.drop_last())
    } else {
        stored_entries(texts.drop_last()) + readable_entries(texts.last())
    }
}

/// The digest that the entries give a file, white space and leading slashes of
/// its name aside.
pub open spec fn digest_of_file(entries: Seq<PackageModel>, filename: Seq<char>) -> Option<
    Seq<char>,
> {
    let name = trim_start_char(trim(filename), '/');
    if name.len() == 0 {
        None
    } else {
        listed_digest(entries, name)
    }
}

/// The digest that the text of a Packages index gives a file.
pub open spec fn digest_in_text(text: Seq<char>, filename: Seq<char>) -> Option<Seq<char>> {
    digest_of_file(readable_entries(text), filename)
}

/// The digest that the stored texts, taken together, give a file.
pub open spec fn digest_in_texts(texts: Seq<Seq<char>>, filename: Seq<char>) -> Option<Seq<char>> {
    digest_of_file(stored_entries(texts), filename)
}

// ---------------------------------------------------------------------------
// Laws
// ---------------------------------------------------------------------------

/// An index is accepted exactly where it has the advertised size and digest, or
/// where none is advertised and none is required.
pub proof fn accepted_index_law(
    release: ReleaseModel,
    path: Seq<char>,
    content: Seq<u8>,
    require: bool,
)
    ensures
        index_verdict(release, path, content, require) is Ok <==> match advertised(release, path) {
            Some((is_sha512, digest, size)) => content.len() == size && ascii_lower(
                digest_of(content, is_sha512),
            ) == ascii_lower(digest),
            None => !require,
        },
{
}

/// Where verification is required, a file is only ever cached against a digest.
pub proof fn required_prefetch_has_digest(
    digests: Seq<(Seq<char>, Seq<char>)>,
    filename: Seq<char>,
)
    ensures
        prefetch_digest(digests, filename, true) matches Ok(digest) ==> digest is Some && lookup(
            digests,
            filename,
        ) == digest,
{
}

proof fn first_digest_is_an_entrys(entries: Seq<PackageModel>, name: Seq<char>, exactly: bool)
    ensures
        first_digest(entries, name, exactly) matches Some(digest) ==> exists|i: int|
            0 <= i < entries.len() && fits(#[trigger] entries[i], name, exactly) && entry_digest(
                entries[i],
            ) == Some(digest),
    decreases entries.len(),
{
    if entries.len() > 0 && !(fits(entries[0], name, exactly) && entry_digest(
        entries[0],
    ) is Some) {
        let rest = entries.drop_first();
        first_digest_is_an_entrys(rest, name, exactly);
        if let Some(digest) = first_digest(rest, name, exactly) {
            let i = choose|i: int|
                0 <= i < rest.len() && fits(#[trigger] rest[i], name, exactly) && entry_digest(
                    rest[i],
                ) == Some(digest);
            assert(entries[i + 1] == rest[i]);
        }
    }
}

/// A file that the entries list is only ever given a digest listed for that very
/// name; any other is given one of a file whose path meets its own at a slash.
pub proof fn listed_file_has_its_own_digest(entries: Seq<PackageModel>, filename: Seq<char>)
    ensures
        digest_of_file(entries, filename) matches Some(digest) ==> exists|i: int|
            0 <= i < entries.len() && entry_digest(#[trigger] entries[i]) == Some(digest) && fits(
                entries[i],
                trim_start_char(trim(filename), '/'),
                is_listed(entries, trim_start_char(trim(filename), '/')),
            ),
{
    let name = trim_start_char(trim(filename), '/');
    let exactly = is_listed(entries, name);
    first_digest_is_an_entrys(entries, name, exactly);
    if let Some(digest) = digest_of_file(entries, filename) {
        let i = choose|i: int|
            0 <= i < entries.len() && fits(#[trigger] entries[i], name, exactly) && entry_digest(
                entries[i],
            ) == Some(digest);
        assert(entry_digest(entries[i]) == Some(digest));
    }
}

// ---------------------------------------------------------------------------
// Indexes
// ---------------------------------------------------------------------------

/// The position of the first entry of a hash section for a path.
fn find_hash(hashes: &Vec<ReleaseHash>, path: &str) -> (r: Option<usize>)
    ensures
        match r {
            Some(i) => i < hashes.len() && first_hash(hashes.deep_view(), path@) == Some(
                hashes[i as int].deep_view(),
            ),
            None => first_hash(hashes.deep_view(), path@) is None,
        },
{
    let ghost all = hashes.deep_view();
    let mut i: usize = 0;
    assert(all.skip(0) =~= all);
    while i < hashes.len()
        invariant
            i <= hashes.len(),
            all == hashes.deep_view(),
            first_hash(all, path@) == first_hash(all.skip(i as int), path@),
        decreases hashes.len() - i,
    {
        assert(all.skip(i as int)[0] == hashes[i as int].deep_view());
        if same_text(hashes[i].path.as_str(), path) {
            return Some(i);
        }
        assert(all.skip(i as int).drop_first() =~= all.skip(i + 1));
        i += 1;
    }
    None
}

/// The strongest digest that a Release advertises for an index: whether it is
/// SHA-512 (else SHA-256), the digest, and the size.
pub fn release_index_digest<'a>(release: &'a Release, index_path: &str) -> (r: Option<
    (bool, &'a str, u64),
>)
    ensures
        (match r {
            Some((is_sha512, digest, size)) => Some((is_sha512, digest@, size)),
            None => None,
        }) == advertised(release.deep_view(), index_path@),
{
    if let Some(i) = find_hash(&release.sha512, index_path) {
        let hash = &release.sha512[i];
        return Some((true, hash.hash.as_str(), hash.size));
    }
    if let Some(i) = find_hash(&release.sha256, index_path) {
        let hash = &release.sha256[i];
        return Some((false, hash.hash.as_str(), hash.size));
    }
    None
}

/// Checks an index against the size and the strongest digest that a Release
/// advertises for it.
pub fn verify_index_against_release(
    release: &Release,
    index_path: &str,
    content: &[u8],
    require: bool,
) -> (r: std::result::Result<(), String>)
    ensures
        complaint(r) == index_verdict(release.deep_view(), index_path@, content@, require),
{
    match release_index_digest(release, index_path) {
        Some((is_sha512, expected, expected_size)) => {
            let size: u64 = content.len() as u64;
            if size != expected_size {
                let actual_text = write_u64(size);
                let expected_text = write_u64(expected_size);
                let head = cat3("index ", index_path, " size ");
                return Err(
                    cat4(
                        head.as_str(),
                        actual_text.as_str(),
                        " does not match Release size ",
                        expected_text.as_str(),
                    ),
                );
            }
            let actual = if is_sha512 {
                calculate_sha512_hex(content)
            } else {
                calculate_sha256_hex(content)
            };
            if !same_ignoring_ascii_case(actual.as_str(), expected) {
                let algorithm = if is_sha512 {
                    " SHA512"
                } else {
                    " SHA256"
                };
                let head = cat3("index ", index_path, algorithm);
                return Err(cat2(head.as_str(), " checksum does not match Release"));
            }
            Ok(())
        },
        None => if require {
            Err(
                cat3(
                    "index ",
                    index_path,
                    " has no SHA256/SHA512 entry in the verified Release",
                ),
            )
        } else {
            Ok(())
        },
    }
}

// ---------------------------------------------------------------------------
// Digests of files
// ---------------------------------------------------------------------------

/// An optional text, trimmed, where it holds more than white space.
pub(crate) fn filled_text(value: &Option<String>) -> (r: Option<String>)
    ensures
        r.deep_view() == filled(value.deep_view()),
{
    match value {
        Some(text) => {
            let chars = chars_of(text.as_str());
            let trimmed = trim_of(chars.as_slice());
            if trimmed.len() > 0 {
                Some(text_of(trimmed))
            } else {
                None
            }
        },
        None => None,
    }
}

/// The text in lower case, where ASCII has one.
fn lowered(text: &str) -> (r: String)
    ensures
        r@ == ascii_lower(text@),
{
    let chars = chars_of(text);
    to_ascii_lower(chars.as_slice())
}

/// Adds the digests of packages.
fn add_package_digests(map: &mut TextMap<String>, entries: &Vec<PackagesEntry>)
    ensures
        final(map).deep_view() == with_package_digests(old(map).deep_view(), entries.deep_view()),
{
    let ghost start = map.deep_view();
    let ghost all = entries.deep_view();
    for i in 0..entries.len()
        invariant
            all == entries.deep_view(),
            map.deep_view() == with_package_digests(start, all.take(i as int)),
    {
        proof {
            assert(all.take(i + 1).drop_last() =~= all.take(i as int));
            assert(all.take(i + 1).last() == entries[i as int].deep_view());
        }
        if let Some(filename) = filled_text(&entries[i].filename) {
            if let Some(sha256) = filled_text(&entries[i].sha256) {
                map.insert(filename, lowered(sha256.as_str()));
            }
        }
    }
    assert(all.take(all.len() as int) =~= all);
}

/// The SHA-256 digests of the packages of all indexes under their filenames.
pub fn package_sha256_by_filename(packages_by_index_path: &TextMap<Vec<PackagesEntry>>) -> (r: TextMap<
    String,
>)
    ensures
        r.deep_view() == package_digests(packages_by_index_path.deep_view()),
{
    let ghost all = packages_by_index_path.deep_view();
    let mut map: TextMap<String> = TextMap::new();
    let count: usize = packages_by_index_path.len();
    for i in 0..count
        invariant
            count == all.len(),
            all == packages_by_index_path.deep_view(),
            map.deep_view() == package_digests(all.take(i as int)),
    {
        assert(all.take(i + 1).drop_last() =~= all.take(i as int));
        add_package_digests(&mut map, packages_by_index_path.value_at(i));
    }
    assert(all.take(all.len() as int) =~= all);
    map
}

/// Adds the digests of the files of a source package.
fn add_source_files(map: &mut TextMap<String>, directory: &str, files: &Vec<SourceFileEntry>)
    ensures
        final(map).deep_view() == with_source_files(
            old(map).deep_view(),
            directory@,
            files.deep_view(),
        ),
{
    let ghost start = map.deep_view();
    let ghost all = files.deep_view();
    for i in 0..files.len()
        invariant
            all == files.deep_view(),
            map.deep_view() == with_source_files(start, directory@, all.take(i as int)),
    {
        proof {
            assert(all.take(i + 1).drop_last() =~= all.take(i as int));
            assert(all.take(i + 1).last() == files[i as int].deep_view());
        }
        if let Some(sha256) = filled_text(&files[i].sha256) {
            let path = source_file_path(directory, files[i].filename.as_str());
            map.insert(path, lowered(sha256.as_str()));
        }
    }
    assert(all.take(all.len() as int) =~= all);
}

/// Adds the digests of source packages.
fn add_source_digests(map: &mut TextMap<String>, entries: &Vec<SourcesEntry>)
    ensures
        final(map).deep_view() == with_source_digests(old(map).deep_view(), entries.deep_view()),
{
    let ghost start = map.deep_view();
    let ghost all = entries.deep_view();
    for i in 0..entries.len()
        invariant
            all == entries.deep_view(),
            map.deep_view() == with_source_digests(start, all.take(i as int)),
    {
        proof {
            assert(all.take(i + 1).drop_last() =~= all.take(i as int));
            assert(all.take(i + 1).last() == entries[i as int].deep_view());
        }
        add_source_files(map, entries[i].directory.as_str(), &entries[i].files);
    }
    assert(all.take(all.len() as int) =~= all);
}

/// The SHA-256 digests of the source files of all indexes under their paths.
pub fn source_sha256_by_filename(sources_by_index_path: &TextMap<Vec<SourcesEntry>>) -> (r: TextMap<
    String,
>)
    ensures
        r.deep_view() == source_digests(sources_by_index_path.deep_view()),
{
    let ghost all = sources_by_index_path.deep_view();
    let mut map: TextMap<String> = TextMap::new();
    let count: usize = sources_by_index_path.len();
    for i in 0..count
        invariant
            count == all.len(),
            all == sources_by_index_path.deep_view(),
            map.deep_view() == source_digests(all.take(i as int)),
    {
        assert(all.take(i + 1).drop_last() =~= all.take(i as int));
        add_source_digests(&mut map, sources_by_index_path.value_at(i));
    }
    assert(all.take(all.len() as int) =~= all);
    map
}

/// The digest that a prefetched file has to have.
pub fn expected_prefetch_digest(digests: &TextMap<String>, filename: &str, require: bool) -> (r: std::result::Result<
    Option<String>,
    String,
>)
    ensures
        complaint(r) == prefetch_digest(digests.deep_view(), filename@, require),
{
    match digests.get(filename) {
        Some(sha256) => Ok(Some(sha256.clone())),
        None => if require {
            Err(
                cat2(
                    filename,
                    " has no advertised SHA256 in the verified metadata; refusing to cache",
                ),
            )
        } else {
            Ok(None)
        },
    }
}

/// The two paths meet.
fn paths_meet(a: &[char], b: &[char]) -> (r: bool)
    ensures
        r == names_meet(a@, b@),
{
    if same_chars(a, b) {
        return true;
    }
    proof {
        reveal_strlit("/");
        assert("/"@ =~= seq!['/']);
    }
    let mut slash_a: Vec<char> = Vec::new();
    slash_a.push('/');
    slash_a.extend_from_slice(a);
    assert(slash_a@ =~= "/"@ + a@);
    let mut slash_b: Vec<char> = Vec::new();
    slash_b.push('/');
    slash_b.extend_from_slice(b);
    assert(slash_b@ =~= "/"@ + b@);
    has_suffix(a, slash_b.as_slice()) || has_suffix(b, slash_a.as_slice())
}

/// The entry fits the name.
fn entry_fits(entry: &PackagesEntry, name: &[char], exactly: bool) -> (r: bool)
    ensures
        r == fits(entry.deep_view(), name@, exactly),
{
    if let Some(listed) = filled_text(&entry.filename) {
        let listed_chars = chars_of(listed.as_str());
        let own = trim_start_char_of(listed_chars.as_slice(), '/');
        if own.len() > 0 {
            return same_chars(own, name) || (!exactly && paths_meet(own, name));
        }
    }
    false
}

/// An entry lists the file under exactly this name.
fn lists_exactly(entries: &Vec<PackagesEntry>, name: &[char]) -> (r: bool)
    ensures
        r == is_listed(entries.deep_view(), name@),
{
    let ghost all = entries.deep_view();
    let mut i: usize = 0;
    while i < entries.len()
        invariant
            i <= entries.len(),
            all == entries.deep_view(),
            forall|j: int| 0 <= j < i ==> entry_name(#[trigger] all[j]) != Some(name@),
        decreases entries.len() - i,
    {
        assert(all[i as int] == entries[i as int].deep_view());
        if entry_fits(&entries[i], name, true) {
            return true;
        }
        i += 1;
    }
    false
}

/// The digest that the entries give a file.
fn find_digest(entries: &Vec<PackagesEntry>, filename: &str) -> (r: Option<String>)
    ensures
        r.deep_view() == digest_of_file(entries.deep_view(), filename@),
{
    let filename_chars = chars_of(filename);
    let name = trim_start_char_of(trim_of(filename_chars.as_slice()), '/');
    if name.len() == 0 {
        return None;
    }
    let exactly = lists_exactly(entries, name);
    let ghost all = entries.deep_view();
    let mut i: usize = 0;
    assert(all.skip(0) =~= all);
    while i < entries.len()
        invariant
            i <= entries.len(),
            name@.len() > 0,
            name@ == trim_start_char(trim(filename@), '/'),
            all == entries.deep_view(),
            exactly == is_listed(all, name@),
            first_digest(all, name@, exactly) == first_digest(all.skip(i as int), name@, exactly),
        decreases entries.len() - i,
    {
        proof {
            assert(all.skip(i as int)[0] == entries[i as int].deep_view());
            assert(all.skip(i as int).drop_first() =~= all.skip(i + 1));
        }
        if entry_fits(&entries[i], name, exactly) {
            if let Some(sha256) = filled_text(&entries[i].sha256) {
                return Some(lowered(sha256.as_str()));
            }
        }
        i += 1;
    }
    None
}

/// The digest that the text of a Packages index gives a file.
pub fn sha256_for_filename_in_packages_text(text: &str, filename: &str) -> (r: Option<String>)
    ensures
        r.deep_view() == digest_in_text(text@, filename@),
{
    match parse_packages(text) {
        Ok(entries) => find_digest(&entries, filename),
        Err(_) => None,
    }
}

/// The digest that the stored indexes give a file.
pub fn find_synced_package_sha256(texts: &Vec<String>, filename: &str) -> (r: Option<String>)
    ensures
        r.deep_view() == digest_in_texts(texts.deep_view(), filename@),
{
    let ghost all = texts.deep_view();
    let mut entries: Vec<PackagesEntry> = Vec::new();
    let mut i: usize = 0;
    assert(entries.deep_view() =~= stored_entries(all.take(0)));
    while i < texts.len()
        invariant
            i <= texts.len(),
            all == texts.deep_view(),
            entries.deep_view() == stored_entries(all.take(i as int)),
        decreases texts.len() - i,
    {
        proof {
            assert(all.take(i + 1).last() == texts[i as int]@);
            assert(all.take(i + 1).drop_last() =~= all.take(i as int));
        }
        let ghost before = entries.deep_view();
        let chars = chars_of(texts[i].as_str());
        if !begins(chars.as_slice(), "@ref:") {
            if let Ok(mut read) = parse_packages(texts[i].as_str()) {
                let ghost more = read.deep_view();
                entries.append(&mut read);
                assert(entries.deep_view() =~= before + more);
            } else {
                assert(before + seq![] =~= before);
            }
        }
        i += 1;
    }
    assert(all.take(all.len() as int) =~= all);
    find_digest(&entries, filename)
}

} // verus!
