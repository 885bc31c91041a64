//! Packages and Sources indexes.

use vstd::prelude::*;
use vstd::utf8::{decode_utf8, valid_utf8};

use crate::codec::{gunzip, gunzipped, unxz, unxzed, utf8_fault, utf8_text};
use crate::control::{control_of, ControlModel, DebControl};
use crate::deb::DebianHandler;
use crate::error::{invalid, outcome, AppError, Failure, Result};
use crate::number::{decimal_u64, parse_u64};
use crate::ordered::{keys_of, lookup, put, text_set, without_all, without_all_step, TextMap, TextSet};
use crate::release::copy_field;
use crate::stanza::{blank_has_no_stanza, field_map, joined_files_hold_both, parse_field_map, split_debian_stanzas, stanzas};
use crate::text::{cat2, cat3, cat4, cat5, chars_of, ends, is_blank_chars, is_blank_text, lines_of, text_of, words_of};
use crate::text::{ends_with, is_blank, lines, pieces, trim, words};

verus! {

/// One package of a Packages index.
#[derive(Clone, Debug, PartialEq, Eq)]
pub struct PackagesEntry {
    pub control: DebControl,
    pub filename: Option<String>,
    pub size: Option<u64>,
    pub md5sum: Option<String>,
    pub sha1: Option<String>,
    pub sha256: Option<String>,
}

/// One file of a source package.
#[derive(Clone, Debug, PartialEq, Eq)]
pub struct SourceFileEntry {
    pub filename: String,
    pub size: u64,
    pub md5sum: Option<String>,
    pub sha1: Option<String>,
    pub sha256: Option<String>,
    pub sha512: Option<String>,
}

/// One source package of a Sources index.
#[derive(Clone, Debug, PartialEq, Eq)]
pub struct SourcesEntry {
    pub package: String,
    pub version: String,
    pub directory: String,
    pub files: Vec<SourceFileEntry>,
    pub extra: TextMap<String>,
}

// ---------------------------------------------------------------------------
// Model: Packages
// ---------------------------------------------------------------------------

/// What a `PackagesEntry` holds.
#[verifier::ext_equal]
pub struct PackageModel {
    pub control: ControlModel,
    pub filename: Option<Seq<char>>,
    pub size: Option<u64>,
    pub md5sum: Option<Seq<char>>,
    pub sha1: Option<Seq<char>>,
    pub sha256: Option<Seq<char>>,
}

impl DeepView for PackagesEntry {
    type V = PackageModel;

    open spec fn deep_view(&self) -> PackageModel {
        PackageModel {
            control: self.control.deep_view(),
            filename: self.filename.deep_view(),
            size: self.size,
            md5sum: self.md5sum.deep_view(),
            sha1: self.sha1.deep_view(),
            sha256: self.sha256.deep_view(),
        }
    }
}

/// The fields of a Packages stanza that describe the package file.
pub open spec fn file_fields() -> Seq<Seq<char>> {
    seq!["Filename"@, "Size"@, "MD5sum"@, "SHA1"@, "SHA256"@]
}

/// What a stanza of a Packages index says. The fields that describe the package
/// file, written in exactly this way, are taken out of the control stanza.
pub open spec fn package_of(stanza: Seq<char>) -> std::result::Result<PackageModel, Failure> {
    match control_of(stanza) {
        Err(failure) => Err(failure),
        Ok(c) => {
            let size = lookup(c.extra, "Size"@);
            if size is Some && decimal_u64(size->0) is None {
                Err(Failure::Validation("Invalid Packages Size value '"@ + size->0 + "'"@))
            } else {
                Ok(
                    PackageModel {
                        control: ControlModel { extra: without_all(c.extra, file_fields()), ..c },
                        filename: lookup(c.extra, "Filename"@),
                        size: match size {
                            Some(text) => decimal_u64(text),
                            None => None,
                        },
                        md5sum: lookup(c.extra, "MD5sum"@),
                        sha1: lookup(c.extra, "SHA1"@),
                        sha256: lookup(c.extra, "SHA256"@),
                    },
                )
            }
        },
    }
}

/// What the stanzas of a Packages index say, up to the first bad one.
pub open spec fn packages_from(ss: Seq<Seq<char>>) -> std::result::Result<
    Seq<PackageModel>,
    Failure,
>
    decreases ss.len(),
{
    if ss.len() == 0 {
        Ok(seq![])
    } else {
        match packages_from(ss.drop_last()) {
            Err(failure) => Err(failure),
            Ok(before) => match package_of(ss.last()) {
                Ok(package) => Ok(before.push(package)),
                Err(failure) => Err(failure),
            },
        }
    }
}

/// What a Packages file says.
pub open spec fn packages_of(content: Seq<char>) -> std::result::Result<
    Seq<PackageModel>,
    Failure,
> {
    packages_from(stanzas(content))
}

/// The text of an index, which its path's extension says how to read.
pub open spec fn index_text(path: Seq<char>, content: Seq<u8>, label: Seq<char>) -> std::result::Result<
    Seq<char>,
    Failure,
> {
    if ends_with(path, ".gz"@) {
        match gunzipped(content) {
            Ok(text) => Ok(text),
            Err(fault) => Err(
                Failure::Validation("Failed to decompress "@ + label + ".gz: "@ + fault),
            ),
        }
    } else if ends_with(path, ".xz"@) {
        match unxzed(content) {
            Ok(text) => Ok(text),
            Err(fault) => Err(
                Failure::Validation("Failed to decompress "@ + label + ".xz: "@ + fault),
            ),
        }
    } else if valid_utf8(content) {
        Ok(decode_utf8(content))
    } else {
        Err(Failure::Validation(label + " index is not UTF-8: "@ + utf8_fault(content)))
    }
}

/// What a Packages index says.
pub open spec fn packages_index(path: Seq<char>, content: Seq<u8>) -> std::result::Result<
    Seq<PackageModel>,
    Failure,
> {
    match index_text(path, content, "Packages"@) {
        Err(failure) => Err(failure),
        Ok(text) => packages_of(text),
    }
}

// ---------------------------------------------------------------------------
// Model: Sources
// ---------------------------------------------------------------------------

/// What a `SourceFileEntry` holds.
#[verifier::ext_equal]
pub struct SourceFileModel {
    pub filename: Seq<char>,
    pub size: u64,
    pub md5sum: Option<Seq<char>>,
    pub sha1: Option<Seq<char>>,
    pub sha256: Option<Seq<char>>,
    pub sha512: Option<Seq<char>>,
}

impl DeepView for SourceFileEntry {
    type V = SourceFileModel;

    open spec fn deep_view(&self) -> SourceFileModel {
        SourceFileModel {
            filename: self.filename@,
            size: self.size,
            md5sum: self.md5sum.deep_view(),
            sha1: self.sha1.deep_view(),
            sha256: self.sha256.deep_view(),
            sha512: self.sha512.deep_view(),
        }
    }
}

/// What a `SourcesEntry` holds.
#[verifier::ext_equal]
pub struct SourceModel {
    pub package: Seq<char>,
    pub version: Seq<char>,
    pub directory: Seq<char>,
    pub files: Seq<SourceFileModel>,
    pub extra: Seq<(Seq<char>, Seq<char>)>,
}

impl DeepView for SourcesEntry {
    type V = SourceModel;

    open spec fn deep_view(&self) -> SourceModel {
        SourceModel {
            package: self.package@,
            version: self.version@,
            directory: self.directory@,
            files: self.files.deep_view(),
            extra: self.extra.deep_view(),
        }
    }
}

/// A line of a checksum section: the file, its hash and its size.
pub open spec fn source_hash_of(line: Seq<char>, field: Seq<char>) -> std::result::Result<
    (Seq<char>, (Seq<char>, u64)),
    Failure,
> {
    let w = words(line);
    if w.len() < 1 {
        Err(Failure::Validation(field + " entry missing hash"@))
    } else if w.len() < 2 {
        Err(Failure::Validation(field + " entry missing size"@))
    } else {
        match decimal_u64(w[1]) {
            None => Err(
                Failure::Validation("Invalid "@ + field + " size in '"@ + line + "'"@),
            ),
            Some(size) => if w.len() < 3 {
                Err(Failure::Validation(field + " entry missing filename"@))
            } else {
                Ok((w[2], (w[0], size)))
            },
        }
    }
}

/// The lines of a checksum section under their files, up to the first bad one.
pub open spec fn source_hashes_from(ls: Seq<Seq<char>>, field: Seq<char>) -> std::result::Result<
    Seq<(Seq<char>, (Seq<char>, u64))>,
    Failure,
>
    decreases ls.len(),
{
    if ls.len() == 0 {
        Ok(seq![])
    } else {
        match source_hashes_from(ls.drop_last(), field) {
            Err(failure) => Err(failure),
            Ok(before) => if is_blank(ls.last()) {
                Ok(before)
            } else {
                match source_hash_of(ls.last(), field) {
                    Ok((file, hash)) => Ok(put(before, file, hash)),
                    Err(failure) => Err(failure),
                }
            },
        }
    }
}

/// A checksum section; empty where the field is missing.
pub open spec fn source_hashes(
    fields: Seq<(Seq<char>, Seq<char>)>,
    field: Seq<char>,
) -> std::result::Result<Seq<(Seq<char>, (Seq<char>, u64))>, Failure> {
    match lookup(fields, field) {
        None => Ok(seq![]),
        Some(value) => source_hashes_from(lines(value), field),
    }
}

/// The checksum sections of a source package.
#[verifier::ext_equal]
pub struct SourceHashes {
    pub md5: Seq<(Seq<char>, (Seq<char>, u64))>,
    pub sha1: Seq<(Seq<char>, (Seq<char>, u64))>,
    pub sha256: Seq<(Seq<char>, (Seq<char>, u64))>,
    pub sha512: Seq<(Seq<char>, (Seq<char>, u64))>,
}

/// The hash that a checksum section gives a file.
pub open spec fn hash_in(section: Seq<(Seq<char>, (Seq<char>, u64))>, file: Seq<char>) -> Option<
    Seq<char>,
> {
    match lookup(section, file) {
        Some((hash, _)) => Some(hash),
        None => None,
    }
}

/// What the checksum sections say of a file. Its size is the one that goes with
/// the first hash of SHA-256, SHA-512, SHA-1 and MD5 that there is.
pub open spec fn source_file(hashes: SourceHashes, file: Seq<char>) -> SourceFileModel {
    SourceFileModel {
        filename: file,
        size: match lookup(hashes.sha256, file) {
            Some((_, size)) => size,
            None => match lookup(hashes.sha512, file) {
                Some((_, size)) => size,
                None => match lookup(hashes.sha1, file) {
                    Some((_, size)) => size,
                    None => match lookup(hashes.md5, file) {
                        Some((_, size)) => size,
                        None => 0,
                    },
                },
            },
        },
        md5sum: hash_in(hashes.md5, file),
        sha1: hash_in(hashes.sha1, file),
        sha256: hash_in(hashes.sha256, file),
        sha512: hash_in(hashes.sha512, file),
    }
}

/// The files that some checksum section names, in ascending order.
pub open spec fn source_file_names(hashes: SourceHashes) -> Seq<Seq<char>> {
    text_set(
        keys_of(hashes.md5) + keys_of(hashes.sha1) + keys_of(hashes.sha256) + keys_of(
            hashes.sha512,
        ),
    )
}

/// The fields that a Sources stanza gives a meaning of their own.
pub open spec fn source_fields() -> Seq<Seq<char>> {
    seq![
        "Package"@,
        "Version"@,
        "Directory"@,
        "Files"@,
        "Checksums-Sha1"@,
        "Checksums-Sha256"@,
        "Checksums-Sha512"@,
    ]
}

/// The field is there and holds more than white space.
pub open spec fn is_filled(fields: Seq<(Seq<char>, Seq<char>)>, key: Seq<char>) -> bool {
    lookup(fields, key) is Some && trim(lookup(fields, key)->0).len() > 0
}

/// A source package made of its fields and its checksum sections.
pub open spec fn source_with(
    fields: Seq<(Seq<char>, Seq<char>)>,
    hashes: SourceHashes,
) -> SourceModel {
    SourceModel {
        package: lookup(fields, "Package"@)->0,
        version: lookup(fields, "Version"@)->0,
        directory: lookup(fields, "Directory"@)->0,
        files: source_file_names(hashes).map_values(|file: Seq<char>| source_file(hashes, file)),
        extra: without_all(fields, source_fields()),
    }
}

/// What the fields of a Sources stanza say. Package, version and directory must
/// be there.
pub open spec fn source_from(fields: Seq<(Seq<char>, Seq<char>)>) -> std::result::Result<
    SourceModel,
    Failure,
> {
    if !is_filled(fields, "Package"@) {
        Err(Failure::Validation("Sources entry missing Package field"@))
    } else if !is_filled(fields, "Version"@) {
        Err(Failure::Validation("Sources entry missing Version field"@))
    } else if !is_filled(fields, "Directory"@) {
        Err(Failure::Validation("Sources entry missing Directory field"@))
    } else {
        match (
            source_hashes(fields, "Files"@),
            source_hashes(fields, "Checksums-Sha1"@),
            source_hashes(fields, "Checksums-Sha256"@),
            source_hashes(fields, "Checksums-Sha512"@),
        ) {
            (Err(failure), _, _, _) => Err(failure),
            (_, Err(failure), _, _) => Err(failure),
            (_, _, Err(failure), _) => Err(failure),
            (_, _, _, Err(failure)) => Err(failure),
            (Ok(md5), Ok(sha1), Ok(sha256), Ok(sha512)) => Ok(
                source_with(fields, SourceHashes { md5, sha1, sha256, sha512 }),
            ),
        }
    }
}

/// What a stanza of a Sources index says.
pub open spec fn source_of(stanza: Seq<char>) -> std::result::Result<SourceModel, Failure> {
    match field_map(stanza) {
        Err(failure) => Err(failure),
        Ok(fields) => source_from(fields),
    }
}

/// What the stanzas of a Sources index say, up to the first bad one.
pub open spec fn sources_from(ss: Seq<Seq<char>>) -> std::result::Result<Seq<SourceModel>, Failure>
    decreases ss.len(),
{
    if ss.len() == 0 {
        Ok(seq![])
    } else {
        match sources_from(ss.drop_last()) {
            Err(failure) => Err(failure),
            Ok(before) => match source_of(ss.last()) {
                Ok(source) => Ok(before.push(source)),
                Err(failure) => Err(failure),
            },
        }
    }
}

/// What a Sources file says.
pub open spec fn sources_of(content: Seq<char>) -> std::result::Result<Seq<SourceModel>, Failure> {
    sources_from(stanzas(content))
}

/// What a Sources index says.
pub open spec fn sources_index(path: Seq<char>, content: Seq<u8>) -> std::result::Result<
    Seq<SourceModel>,
    Failure,
> {
    match index_text(path, content, "Sources"@) {
        Err(failure) => Err(failure),
        Ok(text) => sources_of(text),
    }
}

// ---------------------------------------------------------------------------
// Facts about the model
// ---------------------------------------------------------------------------

proof fn packages_fail(ss: Seq<Seq<char>>, n: int)
    requires
        0 <= n <= ss.len(),
        packages_from(ss.take(n)) is Err,
    ensures
        packages_from(ss) == packages_from(ss.take(n)),
    decreases ss.len(),
{
    if n == ss.len() {
        assert(ss.take(n) =~= ss);
    } else {
        assert(ss.drop_last().take(n) =~= ss.take(n));
        packages_fail(ss.drop_last(), n);
    }
}

proof fn sources_fail(ss: Seq<Seq<char>>, n: int)
    requires
        0 <= n <= ss.len(),
        sources_from(ss.take(n)) is Err,
    ensures
        sources_from(ss) == sources_from(ss.take(n)),
    decreases ss.len(),
{
    if n == ss.len() {
        assert(ss.take(n) =~= ss);
    } else {
        assert(ss.drop_last().take(n) =~= ss.take(n));
        sources_fail(ss.drop_last(), n);
    }
}

proof fn source_hashes_fail(ls: Seq<Seq<char>>, field: Seq<char>, n: int)
    requires
        0 <= n <= ls.len(),
        source_hashes_from(ls.take(n), field) is Err,
    ensures
        source_hashes_from(ls, field) == source_hashes_from(ls.take(n), field),
    decreases ls.len(),
{
    if n == ls.len() {
        assert(ls.take(n) =~= ls);
    } else {
        assert(ls.drop_last().take(n) =~= ls.take(n));
        source_hashes_fail(ls.drop_last(), field, n);
    }
}

proof fn packages_from_add(a: Seq<Seq<char>>, b: Seq<Seq<char>>)
    ensures
        packages_from(a + b) == one_after_the_other(packages_from(a), packages_from(b)),
    decreases b.len(),
{
    if b.len() == 0 {
        assert(a + b =~= a);
        if let Ok(x) = packages_from(a) {
            assert(x + Seq::<PackageModel>::empty() =~= x);
        }
    } else {
        packages_from_add(a, b.drop_last());
        assert((a + b).drop_last() =~= a + b.drop_last());
        if let (Ok(x), Ok(y), Ok(last)) = (
            packages_from(a),
            packages_from(b.drop_last()),
            package_of(b.last()),
        ) {
            assert((x + y).push(last) =~= x + y.push(last));
        }
    }
}

proof fn sources_from_add(a: Seq<Seq<char>>, b: Seq<Seq<char>>)
    ensures
        sources_from(a + b) == one_after_the_other(sources_from(a), sources_from(b)),
    decreases b.len(),
{
    if b.len() == 0 {
        assert(a + b =~= a);
        if let Ok(x) = sources_from(a) {
            assert(x + Seq::<SourceModel>::empty() =~= x);
        }
    } else {
        sources_from_add(a, b.drop_last());
        assert((a + b).drop_last() =~= a + b.drop_last());
        if let (Ok(x), Ok(y), Ok(last)) = (
            sources_from(a),
            sources_from(b.drop_last()),
            source_of(b.last()),
        ) {
            assert((x + y).push(last) =~= x + y.push(last));
        }
    }
}

// ---------------------------------------------------------------------------
// Laws
// ---------------------------------------------------------------------------

/// Two lists, one after the other; nothing where one of them could not be read.
pub open spec fn one_after_the_other<T>(
    a: std::result::Result<Seq<T>, Failure>,
    b: std::result::Result<Seq<T>, Failure>,
) -> std::result::Result<Seq<T>, Failure> {
    match (a, b) {
        (Err(failure), _) => Err(failure),
        (Ok(_), Err(failure)) => Err(failure),
        (Ok(x), Ok(y)) => Ok(x + y),
    }
}

/// Two Packages files with an empty line between them read as the packages of the
/// one and then those of the other. Where one of them cannot be read, neither can
/// the whole.
pub proof fn joined_packages_read_in_turn(x: Seq<char>, y: Seq<char>)
    ensures
        packages_of(x + "\n\n"@ + y) == one_after_the_other(packages_of(x), packages_of(y)),
{
    joined_files_hold_both(x, y);
    packages_from_add(stanzas(x), stanzas(y));
}

/// The same of two Sources files.
pub proof fn joined_sources_read_in_turn(x: Seq<char>, y: Seq<char>)
    ensures
        sources_of(x + "\n\n"@ + y) == one_after_the_other(sources_of(x), sources_of(y)),
{
    joined_files_hold_both(x, y);
    sources_from_add(stanzas(x), stanzas(y));
}

/// A blank file lists nothing.
pub proof fn blank_file_lists_nothing(content: Seq<char>)
    requires
        is_blank(content),
    ensures
        packages_of(content) == Ok::<Seq<PackageModel>, Failure>(seq![]),
        sources_of(content) == Ok::<Seq<SourceModel>, Failure>(seq![]),
{
    blank_has_no_stanza(content);
}

// ---------------------------------------------------------------------------
// Packages
// ---------------------------------------------------------------------------

/// Parses a stanza of a Packages index.
fn parse_packages_entry(stanza: &str) -> (r: Result<PackagesEntry>)
    ensures
        outcome(r) == package_of(stanza@),
{
    let mut control = match DebianHandler::parse_control(stanza) {
        Ok(control) => control,
        Err(error) => {
            return Err(error);
        },
    };
    let ghost all = control.extra.deep_view();
    let ghost names = file_fields();
    let filename = copy_field(&control.extra, "Filename");
    let size = match copy_field(&control.extra, "Size") {
        Some(text) => {
            let chars = chars_of(text.as_str());
            let size = parse_u64(chars.as_slice());
            if size.is_none() {
                return Err(
                    AppError::Validation(
                        cat3("Invalid Packages Size value '", text.as_str(), "'"),
                    ),
                );
            }
            size
        },
        None => None,
    };
    let md5sum = copy_field(&control.extra, "MD5sum");
    let sha1 = copy_field(&control.extra, "SHA1");
    let sha256 = copy_field(&control.extra, "SHA256");
    control.extra.remove("Filename");
    control.extra.remove("Size");
    control.extra.remove("MD5sum");
    control.extra.remove("SHA1");
    control.extra.remove("SHA256");
    proof {
        assert(names.take(0) =~= seq![]);
        assert(names.take(5) =~= names);
        without_all_step(all, names, 0);
        without_all_step(all, names, 1);
        without_all_step(all, names, 2);
        without_all_step(all, names, 3);
        without_all_step(all, names, 4);
    }
    Ok(PackagesEntry { control, filename, size, md5sum, sha1, sha256 })
}

/// Parses a Packages file.
pub fn parse_packages(content: &str) -> (r: Result<Vec<PackagesEntry>>)
    ensures
        outcome(r) == packages_of(content@),
{
    let ss = split_debian_stanzas(content);
    let ghost all = ss.deep_view();
    let mut entries: Vec<PackagesEntry> = Vec::new();
    assert(entries.deep_view() =~= seq![]);
    for i in 0..ss.len()
        invariant
            all == ss.deep_view(),
            all == stanzas(content@),
            packages_from(all.take(i as int)) == Ok::<Seq<PackageModel>, Failure>(
                entries.deep_view(),
            ),
    {
        let ghost before = entries.deep_view();
        proof {
            assert(all.take(i + 1).drop_last() =~= all.take(i as int));
            assert(all.take(i + 1).last() == ss[i as int]@);
        }
        match parse_packages_entry(ss[i].as_str()) {
            Ok(entry) => {
                entries.push(entry);
                assert(entries.deep_view() =~= before.push(entry.deep_view()));
            },
            Err(error) => {
                proof {
                    packages_fail(all, i + 1);
                }
                return Err(error);
            },
        }
    }
    assert(all.take(all.len() as int) =~= all);
    Ok(entries)
}

/// The text of an index, decompressed as the extension of its path says.
pub fn decode_debian_index_text(path: &str, content: &[u8], label: &str) -> (r: Result<String>)
    ensures
        outcome(r) == index_text(path@, content@, label@),
{
    let chars = chars_of(path);
    if ends(chars.as_slice(), ".gz") {
        match gunzip(content) {
            Ok(text) => Ok(text),
            Err(fault) => Err(
                AppError::Validation(
                    cat4("Failed to decompress ", label, ".gz: ", fault.as_str()),
                ),
            ),
        }
    } else if ends(chars.as_slice(), ".xz") {
        match unxz(content) {
            Ok(text) => Ok(text),
            Err(fault) => Err(
                AppError::Validation(
                    cat4("Failed to decompress ", label, ".xz: ", fault.as_str()),
                ),
            ),
        }
    } else {
        match utf8_text(content) {
            Ok(text) => Ok(text),
            Err(fault) => Err(
                AppError::Validation(cat3(label, " index is not UTF-8: ", fault.as_str())),
            ),
        }
    }
}

/// Parses a Packages index; `.gz` and `.xz` paths are decompressed first.
pub fn parse_packages_index(path: &str, content: &[u8]) -> (r: Result<Vec<PackagesEntry>>)
    ensures
        outcome(r) == packages_index(path@, content@),
{
    match decode_debian_index_text(path, content, "Packages") {
        Ok(text) => parse_packages(text.as_str()),
        Err(error) => Err(error),
    }
}

// ---------------------------------------------------------------------------
// Sources
// ---------------------------------------------------------------------------

/// Parses one line of a checksum section.
fn parse_source_file_hash(line: &[char], field_name: &str) -> (r: Result<(String, (String, u64))>)
    ensures
        outcome(r) == source_hash_of(line@, field_name@),
{
    let w = words_of(line);
    if w.len() < 1 {
        return Err(AppError::Validation(cat2(field_name, " entry missing hash")));
    }
    if w.len() < 2 {
        return Err(AppError::Validation(cat2(field_name, " entry missing size")));
    }
    let size: u64 = match parse_u64(w[1]) {
        Some(size) => size,
        None => {
            let text = text_of(line);
            return Err(
                AppError::Validation(
                    cat5("Invalid ", field_name, " size in '", text.as_str(), "'"),
                ),
            );
        },
    };
    if w.len() < 3 {
        return Err(AppError::Validation(cat2(field_name, " entry missing filename")));
    }
    Ok((text_of(w[2]), (text_of(w[0]), size)))
}

/// Parses a checksum section.
fn parse_source_file_hashes(fields: &TextMap<String>, field_name: &str) -> (r: Result<
    TextMap<(String, u64)>,
>)
    ensures
        outcome(r) == source_hashes(fields.deep_view(), field_name@),
{
    let mut entries: TextMap<(String, u64)> = TextMap::new();
    if let Some(text) = fields.get(field_name) {
        let chars = chars_of(text.as_str());
        let ls = lines_of(chars.as_slice());
        let ghost all = pieces(ls@);
        for i in 0..ls.len()
            invariant
                all == pieces(ls@),
                lookup(fields.deep_view(), field_name@) is Some,
                all == lines(lookup(fields.deep_view(), field_name@)->0),
                source_hashes_from(all.take(i as int), field_name@) == Ok::<
                    Seq<(Seq<char>, (Seq<char>, u64))>,
                    Failure,
                >(entries.deep_view()),
        {
            let line = ls[i];
            proof {
                assert(all.take(i + 1).drop_last() =~= all.take(i as int));
                assert(all.take(i + 1).last() == line@);
            }
            if !is_blank_chars(line) {
                match parse_source_file_hash(line, field_name) {
                    Ok((file, hash)) => {
                        entries.insert(file, hash);
                    },
                    Err(error) => {
                        proof {
                            source_hashes_fail(all, field_name@, i + 1);
                        }
                        return Err(error);
                    },
                }
            }
        }
        assert(all.take(all.len() as int) =~= all);
    }
    Ok(entries)
}

/// Appends the keys of a checksum section.
fn push_keys(names: &mut Vec<String>, section: &TextMap<(String, u64)>)
    ensures
        final(names).deep_view() == old(names).deep_view() + keys_of(section.deep_view()),
{
    let ghost before = names.deep_view();
    let ghost all = keys_of(section.deep_view());
    assert(before + all.take(0) =~= before);
    let count: usize = section.len();
    for i in 0..count
        invariant
            count == all.len(),
            all == keys_of(section.deep_view()),
            names.deep_view() == before + all.take(i as int),
    {
        let ghost old_names = names.deep_view();
        names.push(section.key_at(i).clone());
        assert(names.deep_view() =~= old_names.push(all[i as int]));
        assert(before + all.take(i + 1) =~= old_names.push(all[i as int]));
    }
    assert(all.take(all.len() as int) =~= all);
}

/// The hash that a checksum section gives a file.
fn hash_for(section: &TextMap<(String, u64)>, file: &str) -> (r: Option<String>)
    ensures
        r.deep_view() == hash_in(section.deep_view(), file@),
{
    match section.get(file) {
        Some(entry) => Some(entry.0.clone()),
        None => None,
    }
}

/// What the checksum sections say of a file.
fn source_file_entry(
    md5: &TextMap<(String, u64)>,
    sha1: &TextMap<(String, u64)>,
    sha256: &TextMap<(String, u64)>,
    sha512: &TextMap<(String, u64)>,
    file: &String,
) -> (r: SourceFileEntry)
    ensures
        r.deep_view() == source_file(
            (SourceHashes {
                md5: md5.deep_view(),
                sha1: sha1.deep_view(),
                sha256: sha256.deep_view(),
                sha512: sha512.deep_view(),
            }),
            file@,
        ),
{
    let size: u64 = if let Some(entry) = sha256.get(file.as_str()) {
        entry.1
    } else if let Some(entry) = sha512.get(file.as_str()) {
        entry.1
    } else if let Some(entry) = sha1.get(file.as_str()) {
        entry.1
    } else if let Some(entry) = md5.get(file.as_str()) {
        entry.1
    } else {
        0
    };
    SourceFileEntry {
        filename: file.clone(),
        size,
        md5sum: hash_for(md5, file.as_str()),
        sha1: hash_for(sha1, file.as_str()),
        sha256: hash_for(sha256, file.as_str()),
        sha512: hash_for(sha512, file.as_str()),
    }
}

/// The value of a field that holds more than white space.
fn filled_field(fields: &TextMap<String>, key: &str) -> (r: Option<String>)
    ensures
        r is Some == is_filled(fields.deep_view(), key@),
        r matches Some(value) ==> lookup(fields.deep_view(), key@) == Some(value@),
{
    match fields.get(key) {
        Some(value) => if is_blank_text(value.as_str()) {
            None
        } else {
            Some(value.clone())
        },
        None => None,
    }
}

/// The fields without those that a Sources stanza gives a meaning of their own.
fn extra_source_fields(fields: TextMap<String>) -> (r: TextMap<String>)
    ensures
        r.deep_view() == without_all(fields.deep_view(), source_fields()),
{
    let ghost all = fields.deep_view();
    let ghost names = source_fields();
    let mut rest = fields;
    rest.remove("Package");
    rest.remove("Version");
    rest.remove("Directory");
    rest.remove("Files");
    rest.remove("Checksums-Sha1");
    rest.remove("Checksums-Sha256");
    rest.remove("Checksums-Sha512");
    proof {
        assert(names.take(0) =~= seq![]);
        assert(names.take(7) =~= names);
        without_all_step(all, names, 0);
        without_all_step(all, names, 1);
        without_all_step(all, names, 2);
        without_all_step(all, names, 3);
        without_all_step(all, names, 4);
        without_all_step(all, names, 5);
        without_all_step(all, names, 6);
    }
    rest
}

/// Makes a source package of the fields of its stanza.
fn source_from_fields(fields: TextMap<String>) -> (r: Result<SourcesEntry>)
    ensures
        outcome(r) == source_from(fields.deep_view()),
{
    let package = match filled_field(&fields, "Package") {
        Some(value) => value,
        None => {
            return Err(invalid("Sources entry missing Package field"));
        },
    };
    let version = match filled_field(&fields, "Version") {
        Some(value) => value,
        None => {
            return Err(invalid("Sources entry missing Version field"));
        },
    };
    let directory = match filled_field(&fields, "Directory") {
        Some(value) => value,
        None => {
            return Err(invalid("Sources entry missing Directory field"));
        },
    };
    let md5 = match parse_source_file_hashes(&fields, "Files") {
        Ok(section) => section,
        Err(error) => {
            return Err(error);
        },
    };
    let sha1 = match parse_source_file_hashes(&fields, "Checksums-Sha1") {
        Ok(section) => section,
        Err(error) => {
            return Err(error);
        },
    };
    let sha256 = match parse_source_file_hashes(&fields, "Checksums-Sha256") {
        Ok(section) => section,
        Err(error) => {
            return Err(error);
        },
    };
    let sha512 = match parse_source_file_hashes(&fields, "Checksums-Sha512") {
        Ok(section) => section,
        Err(error) => {
            return Err(error);
        },
    };
    let ghost hashes = SourceHashes {
        md5: md5.deep_view(),
        sha1: sha1.deep_view(),
        sha256: sha256.deep_view(),
        sha512: sha512.deep_view(),
    };
    let mut names: Vec<String> = Vec::new();
    push_keys(&mut names, &md5);
    push_keys(&mut names, &sha1);
    push_keys(&mut names, &sha256);
    push_keys(&mut names, &sha512);
    assert(names.deep_view() =~= keys_of(hashes.md5) + keys_of(hashes.sha1) + keys_of(
        hashes.sha256,
    ) + keys_of(hashes.sha512));
    let set = TextSet::of(&names);
    let filenames = set.items();
    let mut files: Vec<SourceFileEntry> = Vec::new();
    let ghost all = source_file_names(hashes).map_values(
        |file: Seq<char>| source_file(hashes, file),
    );
    assert(files.deep_view() =~= all.take(0));
    for i in 0..filenames.len()
        invariant
            filenames.deep_view() == source_file_names(hashes),
            all == source_file_names(hashes).map_values(
                |file: Seq<char>| source_file(hashes, file),
            ),
            hashes.md5 == md5.deep_view(),
            hashes.sha1 == sha1.deep_view(),
            hashes.sha256 == sha256.deep_view(),
            hashes.sha512 == sha512.deep_view(),
            files.deep_view() == all.take(i as int),
    {
        let ghost before = files.deep_view();
        let entry = source_file_entry(&md5, &sha1, &sha256, &sha512, &filenames[i]);
        assert(filenames.deep_view()[i as int] == filenames[i as int]@);
        assert(entry.deep_view() == all[i as int]);
        files.push(entry);
        assert(files.deep_view() =~= before.push(all[i as int]));
        assert(all.take(i + 1) =~= before.push(all[i as int]));
    }
    assert(all.take(all.len() as int) =~= all);
    Ok(SourcesEntry { package, version, directory, files, extra: extra_source_fields(fields) })
}

/// Parses a stanza of a Sources index.
fn parse_sources_entry(stanza: &str) -> (r: Result<SourcesEntry>)
    ensures
        outcome(r) == source_of(stanza@),
{
    match parse_field_map(stanza) {
        Ok(fields) => source_from_fields(fields),
        Err(error) => Err(error),
    }
}

/// Parses a Sources file.
pub fn parse_sources(content: &str) -> (r: Result<Vec<SourcesEntry>>)
    ensures
        outcome(r) == sources_of(content@),
{
    let ss = split_debian_stanzas(content);
    let ghost all = ss.deep_view();
    let mut entries: Vec<SourcesEntry> = Vec::new();
    assert(entries.deep_view() =~= seq![]);
    for i in 0..ss.len()
        invariant
            all == ss.deep_view(),
            all == stanzas(content@),
            sources_from(all.take(i as int)) == Ok::<Seq<SourceModel>, Failure>(
                entries.deep_view(),
            ),
    {
        let ghost before = entries.deep_view();
        proof {
            assert(all.take(i + 1).drop_last() =~= all.take(i as int));
            assert(all.take(i + 1).last() == ss[i as int]@);
        }
        match parse_sources_entry(ss[i].as_str()) {
            Ok(entry) => {
                entries.push(entry);
                assert(entries.deep_view() =~= before.push(entry.deep_view()));
            },
            Err(error) => {
                proof {
                    sources_fail(all, i + 1);
                }
                return Err(error);
            },
        }
    }
    assert(all.take(all.len() as int) =~= all);
    Ok(entries)
}

/// Parses a Sources index; `.gz` and `.xz` paths are decompressed first.
pub fn parse_sources_index(path: &str, content: &[u8]) -> (r: Result<Vec<SourcesEntry>>)
    ensures
        outcome(r) == sources_index(path@, content@),
{
    match decode_debian_index_text(path, content, "Sources") {
        Ok(text) => parse_sources(text.as_str()),
        Err(error) => Err(error),
    }
}

} // verus!
