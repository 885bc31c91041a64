//! Metadata that a filtered mirror generates for what it took from upstream.

use vstd::prelude::*;
use vstd::utf8::{encode_utf8, encode_utf8_decode_utf8, encode_utf8_valid_utf8};

use crate::codec::{gzip, gzipped, xz, xzed};
use crate::digest::{calculate_sha256_hex, sha256_hex};
use crate::dists::{canonical_plain_dists_index_path, copy_bytes, ext_of, index_reply, plain_path};
use crate::emit::{as_text, field_text, fields_text, hash_line, push_control_field, push_fields, push_hash_line};
use crate::hosted::{belongs_in, by_hash_path, bytes_view, hash_path, index_entry_text, package_matches_requested_arch, push_packages_fields};
use crate::http::{reply_of, RefusalModel, ReplyModel};
use crate::index::{PackageModel, PackagesEntry, SourceFileEntry, SourceFileModel, SourceModel, SourcesEntry};
use crate::index_laws::{form_reads_as, reads_as};
use crate::ordered::{ascending, keys_of, lookup, lookup_after_put, put, TextMap};
use crate::plan::DebianSyncPlan;

use crate::select::{matches_architecture, package_matches_sync_architecture, DebianIndexPath, IndexModel, SourceIndexModel};
use crate::text::{cat2, cat3, ends_with, is_empty_text, opt_text};
use crate::verify::{complaint, filled, filled_text};

verus! {

/// The metadata that is generated for a distribution.
#[derive(Debug)]
pub struct GeneratedDistsMetadata {
    /// The plain indexes under their paths, and references to them under the
    /// paths by digest.
    pub plain_indexes: TextMap<String>,
    /// The files that the Release lists.
    pub release_files: Vec<(String, Vec<u8>)>,
}

/// The digests of a source file.
#[derive(Clone, Copy, Debug, PartialEq, Eq, Structural)]
pub enum SourceHash {
    Md5,
    Sha1,
    Sha256,
    Sha512,
}

// ---------------------------------------------------------------------------
// Model: index texts
// ---------------------------------------------------------------------------

/// A package belongs in a generated index. An index without an architecture
/// takes packages by the selected architectures alone.
pub open spec fn belongs_in_generated(
    arch: Seq<char>,
    index_arch: Seq<char>,
    selected: Seq<Seq<char>>,
) -> bool {
    if index_arch.len() == 0 {
        matches_architecture(arch, selected)
    } else {
        belongs_in(arch, index_arch)
    }
}

/// The entry of a mirrored package.
pub open spec fn mirrored_entry_text(entry: PackageModel) -> Seq<char> {
    index_entry_text(
        entry.control,
        entry.filename,
        entry.size,
        entry.md5sum,
        entry.sha1,
        entry.sha256,
    )
}

/// The packages that belong in a generated index.
pub open spec fn kept_packages(
    entries: Seq<PackageModel>,
    index_arch: Seq<char>,
    selected: Seq<Seq<char>>,
) -> Seq<PackageModel>
    decreases entries.len(),
{
    if entries.len() == 0 {
        seq![]
    } else {
        let before = kept_packages(entries.drop_last(), index_arch, selected);
        if belongs_in_generated(entries.last().control.architecture, index_arch, selected) {
            before.push(entries.last())
        } else {
            before
        }
    }
}

/// The Packages index of mirrored packages, an empty line between each two.
pub open spec fn mirrored_text(entries: Seq<PackageModel>) -> Seq<char>
    decreases entries.len(),
{
    if entries.len() == 0 {
        seq![]
    } else if entries.len() == 1 {
        mirrored_entry_text(entries[0])
    } else {
        mirrored_text(entries.drop_last()) + seq!['\n'] + mirrored_entry_text(entries.last())
    }
}

/// A digest of a source file.
pub open spec fn source_hash(file: SourceFileModel, which: SourceHash) -> Option<Seq<char>> {
    match which {
        SourceHash::Md5 => file.md5sum,
        SourceHash::Sha1 => file.sha1,
        SourceHash::Sha256 => file.sha256,
        SourceHash::Sha512 => file.sha512,
    }
}

/// The lines of a checksum section: the files that have the digest.
pub open spec fn source_hash_lines(files: Seq<SourceFileModel>, which: SourceHash) -> Seq<char>
    decreases files.len(),
{
    if files.len() == 0 {
        seq![]
    } else {
        let before = source_hash_lines(files.drop_last(), which);
        match source_hash(files.last(), which) {
            Some(hash) => before + hash_line(
                hash,
                files.last().size as nat,
                files.last().filename,
            ),
            None => before,
        }
    }
}

/// Some file has the digest.
pub open spec fn any_has_hash(files: Seq<SourceFileModel>, which: SourceHash) -> bool {
    exists|i: int| 0 <= i < files.len() && source_hash(#[trigger] files[i], which) is Some
}

/// A checksum section; none where no file has the digest.
pub open spec fn source_section(
    field: Seq<char>,
    files: Seq<SourceFileModel>,
    which: SourceHash,
) -> Seq<char> {
    if any_has_hash(files, which) {
        field + ":\n"@ + source_hash_lines(files, which)
    } else {
        seq![]
    }
}

/// The entry of a mirrored source package.
pub open spec fn source_entry_text(entry: SourceModel) -> Seq<char> {
    field_text("Package"@, entry.package) + field_text("Version"@, entry.version) + field_text(
        "Directory"@,
        entry.directory,
    ) + fields_text(entry.extra) + source_section("Files"@, entry.files, SourceHash::Md5)
        + source_section("Checksums-Sha1"@, entry.files, SourceHash::Sha1) + source_section(
        "Checksums-Sha256"@,
        entry.files,
        SourceHash::Sha256,
    ) + source_section("Checksums-Sha512"@, entry.files, SourceHash::Sha512)
}

/// The Sources index of mirrored source packages, an empty line between each two.
pub open spec fn sources_text(entries: Seq<SourceModel>) -> Seq<char>
    decreases entries.len(),
{
    if entries.len() == 0 {
        seq![]
    } else if entries.len() == 1 {
        source_entry_text(entries[0])
    } else {
        sources_text(entries.drop_last()) + seq!['\n'] + source_entry_text(entries.last())
    }
}

/// The files and packages that a Contents index is made of.
pub open spec fn contents_pairs(entries: Seq<PackageModel>) -> Seq<(Seq<char>, Seq<char>)>
    decreases entries.len(),
{
    if entries.len() == 0 {
        seq![]
    } else {
        let before = contents_pairs(entries.drop_last());
        match filled(entries.last().filename) {
            Some(filename) => before.push((filename, entries.last().control.package)),
            None => before,
        }
    }
}

// ---------------------------------------------------------------------------
// Model: generated metadata
// ---------------------------------------------------------------------------

/// What a `GeneratedDistsMetadata` holds.
#[verifier::ext_equal]
pub struct GeneratedModel {
    pub plain_indexes: Seq<(Seq<char>, Seq<char>)>,
    pub release_files: Seq<(Seq<char>, Seq<u8>)>,
}

impl DeepView for GeneratedDistsMetadata {
    type V = GeneratedModel;

    open spec fn deep_view(&self) -> GeneratedModel {
        GeneratedModel {
            plain_indexes: self.plain_indexes.deep_view(),
            release_files: self.release_files.deep_view(),
        }
    }
}

/// The metadata without any index.
pub open spec fn nothing_generated() -> GeneratedModel {
    GeneratedModel { plain_indexes: seq![], release_files: seq![] }
}

/// The path by which a file is fetched by its digest.
pub open spec fn alias_of(bytes: Seq<u8>) -> Seq<char> {
    hash_path("SHA256"@, sha256_hex(bytes))
}

/// The metadata with one form of an index: the file, its alias, and a reference
/// from the alias to the path.
pub open spec fn with_form(g: GeneratedModel, path: Seq<char>, bytes: Seq<u8>) -> GeneratedModel {
    GeneratedModel {
        plain_indexes: put(g.plain_indexes, alias_of(bytes), "@ref:"@ + path),
        release_files: g.release_files.push((path, bytes)).push((alias_of(bytes), bytes)),
    }
}

/// The metadata with an index in its three forms, and the plain text of it.
pub open spec fn with_forms(
    g: GeneratedModel,
    base: Seq<char>,
    text: Seq<char>,
    gz: Seq<u8>,
    xz: Seq<u8>,
) -> GeneratedModel {
    let a = with_form(g, base, encode_utf8(text));
    let b = with_form(a, base + ".gz"@, gz);
    let c = with_form(b, base + ".xz"@, xz);
    GeneratedModel { plain_indexes: put(c.plain_indexes, base, text), ..c }
}

/// The metadata with an index, unless one of that path is there.
pub open spec fn with_index(g: GeneratedModel, path: Seq<char>, text: Seq<char>) -> std::result::Result<
    GeneratedModel,
    Seq<char>,
> {
    let base = plain_path(path);
    if lookup(g.plain_indexes, base) is Some {
        Ok(g)
    } else {
        match gzipped(encode_utf8(text)) {
            Err(fault) => Err(fault),
            Ok(gz) => match xzed(encode_utf8(text)) {
                Err(fault) => Err(fault),
                Ok(xz) => Ok(with_forms(g, base, text, gz, xz)),
            },
        }
    }
}

/// The path of the Contents index that goes with a Packages index.
pub open spec fn contents_path(index: IndexModel) -> Seq<char> {
    index.component + "/Contents-"@ + index.architecture
}

/// The metadata with the Packages index of a mirrored index, and the Contents
/// index that goes with it.
pub open spec fn with_package_index(
    g: GeneratedModel,
    index: IndexModel,
    entries: Seq<PackageModel>,
    selected: Seq<Seq<char>>,
    contents: Seq<char>,
) -> std::result::Result<GeneratedModel, Seq<char>> {
    match with_index(
        g,
        index.path,
        mirrored_text(kept_packages(entries, index.architecture, selected)),
    ) {
        Err(fault) => Err(fault),
        Ok(next) => if lookup(next.plain_indexes, contents_path(index)) is Some {
            Ok(next)
        } else {
            with_index(next, contents_path(index), contents)
        },
    }
}

/// The Contents text that is given for an index; empty where none is.
pub open spec fn given_contents(contents: Seq<(Seq<char>, Seq<char>)>, path: Seq<char>) -> Seq<char> {
    match lookup(contents, path) {
        Some(text) => text,
        None => seq![],
    }
}

/// The metadata with those Packages indexes that entries are given for.
pub open spec fn with_package_indexes(
    indexes: Seq<IndexModel>,
    packages: Seq<(Seq<char>, Seq<PackageModel>)>,
    selected: Seq<Seq<char>>,
    contents: Seq<(Seq<char>, Seq<char>)>,
) -> std::result::Result<GeneratedModel, Seq<char>>
    decreases indexes.len(),
{
    if indexes.len() == 0 {
        Ok(nothing_generated())
    } else {
        let index = indexes.last();
        match with_package_indexes(indexes.drop_last(), packages, selected, contents) {
            Err(fault) => Err(fault),
            Ok(g) => match lookup(packages, index.path) {
                None => Ok(g),
                Some(entries) => with_package_index(
                    g,
                    index,
                    entries,
                    selected,
                    given_contents(contents, index.path),
                ),
            },
        }
    }
}

/// The metadata with those Sources indexes that entries are given for.
pub open spec fn with_source_indexes(
    start: std::result::Result<GeneratedModel, Seq<char>>,
    indexes: Seq<SourceIndexModel>,
    sources: Seq<(Seq<char>, Seq<SourceModel>)>,
) -> std::result::Result<GeneratedModel, Seq<char>>
    decreases indexes.len(),
{
    if indexes.len() == 0 {
        start
    } else {
        match with_source_indexes(start, indexes.drop_last(), sources) {
            Err(fault) => Err(fault),
            Ok(g) => match lookup(sources, indexes.last().path) {
                None => Ok(g),
                Some(entries) => with_index(g, indexes.last().path, sources_text(entries)),
            },
        }
    }
}

/// The metadata that is generated for a plan.
pub open spec fn generated_metadata(
    package_indexes: Seq<IndexModel>,
    source_indexes: Seq<SourceIndexModel>,
    packages: Seq<(Seq<char>, Seq<PackageModel>)>,
    sources: Seq<(Seq<char>, Seq<SourceModel>)>,
    selected: Seq<Seq<char>>,
    contents: Seq<(Seq<char>, Seq<char>)>,
) -> std::result::Result<GeneratedModel, Seq<char>> {
    with_source_indexes(
        with_package_indexes(package_indexes, packages, selected, contents),
        source_indexes,
        sources,
    )
}

// ---------------------------------------------------------------------------
// Laws
// ---------------------------------------------------------------------------

/// An index that is stored stays stored, and its text with it, whatever else is
/// generated after it.
pub proof fn stored_index_stays(
    g: GeneratedModel,
    path: Seq<char>,
    text: Seq<char>,
    other: Seq<char>,
)
    requires
        ascending(keys_of(g.plain_indexes)),
        with_index(g, path, text) is Ok,
        lookup(g.plain_indexes, other) is Some,
        other != alias_of(encode_utf8(text)),
        other != alias_of(gzipped(encode_utf8(text))->Ok_0),
        other != alias_of(xzed(encode_utf8(text))->Ok_0),
    ensures
        lookup(with_index(g, path, text)->Ok_0.plain_indexes, other) == lookup(
            g.plain_indexes,
            other,
        ),
{
    let base = plain_path(path);
    if lookup(g.plain_indexes, base) is None {
        let bytes = encode_utf8(text);
        let gz = gzipped(bytes)->Ok_0;
        let xz = xzed(bytes)->Ok_0;
        let m0 = g.plain_indexes;
        let m1 = put(m0, alias_of(bytes), "@ref:"@ + base);
        let m2 = put(m1, alias_of(gz), "@ref:"@ + (base + ".gz"@));
        let m3 = put(m2, alias_of(xz), "@ref:"@ + (base + ".xz"@));
        lookup_after_put(m0, alias_of(bytes), "@ref:"@ + base, other);
        lookup_after_put(m1, alias_of(gz), "@ref:"@ + (base + ".gz"@), other);
        lookup_after_put(m2, alias_of(xz), "@ref:"@ + (base + ".xz"@), other);
        lookup_after_put(m3, base, text, other);
    }
}

/// After an index was generated, its plain text is stored under its plain path,
/// unless one was stored there before.
pub proof fn generated_index_is_stored(g: GeneratedModel, path: Seq<char>, text: Seq<char>)
    requires
        ascending(keys_of(g.plain_indexes)),
        with_index(g, path, text) is Ok,
    ensures
        lookup(g.plain_indexes, plain_path(path)) is None ==> lookup(
            with_index(g, path, text)->Ok_0.plain_indexes,
            plain_path(path),
        ) == Some(text),
        ascending(keys_of(with_index(g, path, text)->Ok_0.plain_indexes)),
{
    let base = plain_path(path);
    if lookup(g.plain_indexes, base) is None {
        let bytes = encode_utf8(text);
        let gz = gzipped(bytes)->Ok_0;
        let xz = xzed(bytes)->Ok_0;
        let m0 = g.plain_indexes;
        let m1 = put(m0, alias_of(bytes), "@ref:"@ + base);
        let m2 = put(m1, alias_of(gz), "@ref:"@ + (base + ".gz"@));
        let m3 = put(m2, alias_of(xz), "@ref:"@ + (base + ".xz"@));
        lookup_after_put(m0, alias_of(bytes), "@ref:"@ + base, base);
        lookup_after_put(m1, alias_of(gz), "@ref:"@ + (base + ".gz"@), base);
        lookup_after_put(m2, alias_of(xz), "@ref:"@ + (base + ".xz"@), base);
        lookup_after_put(m3, base, text, base);
    }
}

/// The Release lists each form of an index by its path and by its digest.
pub proof fn every_form_is_listed(
    g: GeneratedModel,
    base: Seq<char>,
    text: Seq<char>,
    gz: Seq<u8>,
    xz: Seq<u8>,
)
    ensures
        ({
            let files = with_forms(g, base, text, gz, xz).release_files;
            &&& files.contains((base, encode_utf8(text)))
            &&& files.contains((alias_of(encode_utf8(text)), encode_utf8(text)))
            &&& files.contains((base + ".gz"@, gz))
            &&& files.contains((alias_of(gz), gz))
            &&& files.contains((base + ".xz"@, xz))
            &&& files.contains((alias_of(xz), xz))
            &&& g.release_files.is_prefix_of(files)
        }),
{
    let n = g.release_files.len() as int;
    let files = with_forms(g, base, text, gz, xz).release_files;
    assert(files[n] == (base, encode_utf8(text)));
    assert(files[n + 1] == (alias_of(encode_utf8(text)), encode_utf8(text)));
    assert(files[n + 2] == (base + ".gz"@, gz));
    assert(files[n + 3] == (alias_of(gz), gz));
    assert(files[n + 4] == (base + ".xz"@, xz));
    assert(files[n + 5] == (alias_of(xz), xz));
}

/// The mirror serves what its Release lists: what is handed out for a stored
/// index in any form is byte for byte the file of that form that was listed.
pub proof fn served_index_is_the_listed_one(
    base: Seq<char>,
    text: Seq<char>,
    gz: Seq<u8>,
    xz: Seq<u8>,
    plain_type: Seq<char>,
)
    requires
        plain_path(base) == base,
        gzipped(encode_utf8(text)) == Ok::<Seq<u8>, Seq<char>>(gz),
        xzed(encode_utf8(text)) == Ok::<Seq<u8>, Seq<char>>(xz),
    ensures
        index_reply(ext_of(base), text, plain_type) == Ok::<ReplyModel, RefusalModel>(
            reply_of(plain_type, encode_utf8(text)),
        ),
        index_reply(ext_of(base + ".gz"@), text, plain_type) == Ok::<ReplyModel, RefusalModel>(
            reply_of("application/gzip"@, gz),
        ),
        index_reply(ext_of(base + ".xz"@), text, plain_type) == Ok::<ReplyModel, RefusalModel>(
            reply_of("application/x-xz"@, xz),
        ),
{
    reveal_strlit(".gz");
    reveal_strlit(".xz");
    let a = base + ".gz"@;
    let b = base + ".xz"@;
    assert(a.skip(a.len() - 3) =~= ".gz"@);
    assert(b.skip(b.len() - 3) =~= ".xz"@);
    if ends_with(b, ".gz"@) {
        assert(b.skip(b.len() - 3)[1] == ".gz"@[1]);
    }
    if ends_with(base, ".gz"@) || ends_with(base, ".xz"@) {
        assert(plain_path(base).len() < base.len());
    }
}

// ---------------------------------------------------------------------------
// Index texts
// ---------------------------------------------------------------------------

/// The package belongs in the generated index.
pub fn package_matches_generated_index(
    package_architecture: &str,
    index_architecture: &str,
    selected_architectures: &[String],
) -> (r: bool)
    ensures
        r == belongs_in_generated(
            package_architecture@,
            index_architecture@,
            selected_architectures.deep_view(),
        ),
{
    if is_empty_text(index_architecture) {
        package_matches_sync_architecture(package_architecture, selected_architectures)
    } else {
        package_matches_requested_arch(package_architecture, index_architecture)
    }
}

/// Writes the entry of a mirrored package.
pub fn push_generated_packages_entry(text: &mut String, entry: &PackagesEntry)
    ensures
        final(text)@ == old(text)@ + mirrored_entry_text(entry.deep_view()),
{
    push_packages_fields(
        text,
        &entry.control,
        as_text(&entry.filename),
        entry.size,
        as_text(&entry.md5sum),
        as_text(&entry.sha1),
        as_text(&entry.sha256),
    );
}

/// Writes the generated Packages index of mirrored packages.
pub fn build_generated_packages_text(
    entries: &[PackagesEntry],
    index_architecture: &str,
    selected_architectures: &[String],
) -> (r: String)
    ensures
        r@ == mirrored_text(
            kept_packages(
                entries.deep_view(),
                index_architecture@,
                selected_architectures.deep_view(),
            ),
        ),
{
    let ghost all = entries.deep_view();
    let ghost arch = index_architecture@;
    let ghost sel = selected_architectures.deep_view();
    let mut text = String::new();
    let mut first = true;
    assert(text@ =~= mirrored_text(kept_packages(all.take(0), arch, sel)));
    for i in 0..entries.len()
        invariant
            all == entries.deep_view(),
            arch == index_architecture@,
            sel == selected_architectures.deep_view(),
            first == (kept_packages(all.take(i as int), arch, sel).len() == 0),
            text@ == mirrored_text(kept_packages(all.take(i as int), arch, sel)),
    {
        let ghost before = kept_packages(all.take(i as int), arch, sel);
        proof {
            assert(all.take(i + 1).drop_last() =~= all.take(i as int));
            assert(all.take(i + 1).last() == entries[i as int].deep_view());
        }
        if package_matches_generated_index(
            entries[i].control.architecture.as_str(),
            index_architecture,
            selected_architectures,
        ) {
            if !first {
                text.push('\n');
                assert(text@ =~= mirrored_text(before) + seq!['\n']);
            }
            push_generated_packages_entry(&mut text, &entries[i]);
            proof {
                let m = entries[i as int].deep_view();
                assert(before.push(m).drop_last() =~= before);
                if first {
                    assert(text@ =~= mirrored_entry_text(m));
                }
            }
            first = false;
        }
    }
    assert(all.take(all.len() as int) =~= all);
    text
}

/// A digest of a source file.
fn source_file_hash(file: &SourceFileEntry, which: SourceHash) -> (r: Option<&str>)
    ensures
        opt_text(r) == source_hash(file.deep_view(), which),
{
    match which {
        SourceHash::Md5 => as_text(&file.md5sum),
        SourceHash::Sha1 => as_text(&file.sha1),
        SourceHash::Sha256 => as_text(&file.sha256),
        SourceHash::Sha512 => as_text(&file.sha512),
    }
}

/// Writes a checksum section of source files.
pub fn push_source_hash_section(
    text: &mut String,
    field: &str,
    files: &Vec<SourceFileEntry>,
    which: SourceHash,
)
    ensures
        final(text)@ == old(text)@ + source_section(field@, files.deep_view(), which),
{
    let ghost all = files.deep_view();
    let mut any = false;
    let mut k: usize = 0;
    while k < files.len() && !any
        invariant
            k <= files.len(),
            all == files.deep_view(),
            any ==> any_has_hash(all, which),
            !any ==> forall|j: int|
                0 <= j < k ==> source_hash(#[trigger] all[j], which) is None,
        decreases files.len() - k,
    {
        assert(all[k as int] == files[k as int].deep_view());
        if source_file_hash(&files[k], which).is_some() {
            any = true;
        }
        k += 1;
    }
    let ghost start = text@;
    if !any {
        assert(start + Seq::<char>::empty() =~= start);
        return;
    }
    text.append(field);
    text.append(":\n");
    let ghost head = field@ + ":\n"@;
    assert(text@ =~= start + (head + source_hash_lines(all.take(0), which)));
    for i in 0..files.len()
        invariant
            all == files.deep_view(),
            text@ == start + (head + source_hash_lines(all.take(i as int), which)),
    {
        proof {
            assert(all.take(i + 1).drop_last() =~= all.take(i as int));
            assert(all.take(i + 1).last() == files[i as int].deep_view());
        }
        if let Some(hash) = source_file_hash(&files[i], which) {
            push_hash_line(text, hash, files[i].size, files[i].filename.as_str());
            assert(text@ =~= start + (head + source_hash_lines(all.take(i + 1), which)));
        }
    }
    assert(all.take(all.len() as int) =~= all);
}

/// Writes the entry of a mirrored source package.
pub fn push_sources_entry(text: &mut String, entry: &SourcesEntry)
    ensures
        final(text)@ == old(text)@ + source_entry_text(entry.deep_view()),
{
    let mut out = String::new();
    push_control_field(&mut out, "Package", entry.package.as_str());
    assert(Seq::<char>::empty() + field_text("Package"@, entry.package@) =~= field_text(
        "Package"@,
        entry.package@,
    ));
    push_control_field(&mut out, "Version", entry.version.as_str());
    push_control_field(&mut out, "Directory", entry.directory.as_str());
    push_fields(&mut out, &entry.extra);
    push_source_hash_section(&mut out, "Files", &entry.files, SourceHash::Md5);
    push_source_hash_section(&mut out, "Checksums-Sha1", &entry.files, SourceHash::Sha1);
    push_source_hash_section(&mut out, "Checksums-Sha256", &entry.files, SourceHash::Sha256);
    push_source_hash_section(&mut out, "Checksums-Sha512", &entry.files, SourceHash::Sha512);
    assert(out@ == source_entry_text(entry.deep_view()));
    text.append(out.as_str());
}

/// Writes the generated Sources index of mirrored source packages.
pub fn build_generated_sources_text(entries: &[SourcesEntry]) -> (r: String)
    ensures
        r@ == sources_text(entries.deep_view()),
{
    let ghost all = entries.deep_view();
    let mut text = String::new();
    assert(text@ =~= sources_text(all.take(0)));
    for i in 0..entries.len()
        invariant
            all == entries.deep_view(),
            text@ == sources_text(all.take(i as int)),
    {
        proof {
            assert(all.take(i + 1).drop_last() =~= all.take(i as int));
            assert(all.take(i + 1).last() == entries[i as int].deep_view());
        }
        if i > 0 {
            text.push('\n');
            assert(text@ =~= sources_text(all.take(i as int)) + seq!['\n']);
        }
        push_sources_entry(&mut text, &entries[i]);
        assert(i == 0 ==> text@ =~= source_entry_text(all[0]));
    }
    assert(all.take(all.len() as int) =~= all);
    text
}

/// The files and packages that the Contents index of a generated index is made of.
pub fn generated_contents_entries(
    entries: &[PackagesEntry],
    index_architecture: &str,
    selected_architectures: &[String],
) -> (r: Vec<(String, String)>)
    ensures
        r.deep_view() == contents_pairs(
            kept_packages(
                entries.deep_view(),
                index_architecture@,
                selected_architectures.deep_view(),
            ),
        ),
{
    let ghost all = entries.deep_view();
    let ghost arch = index_architecture@;
    let ghost sel = selected_architectures.deep_view();
    let mut r: Vec<(String, String)> = Vec::new();
    assert(r.deep_view() =~= contents_pairs(kept_packages(all.take(0), arch, sel)));
    for i in 0..entries.len()
        invariant
            all == entries.deep_view(),
            arch == index_architecture@,
            sel == selected_architectures.deep_view(),
            r.deep_view() == contents_pairs(kept_packages(all.take(i as int), arch, sel)),
    {
        let ghost before = r.deep_view();
        let ghost kept = kept_packages(all.take(i as int), arch, sel);
        proof {
            assert(all.take(i + 1).drop_last() =~= all.take(i as int));
            assert(all.take(i + 1).last() == entries[i as int].deep_view());
        }
        if package_matches_generated_index(
            entries[i].control.architecture.as_str(),
            index_architecture,
            selected_architectures,
        ) {
            proof {
                assert(kept.push(entries[i as int].deep_view()).drop_last() =~= kept);
            }
            if let Some(filename) = filled_text(&entries[i].filename) {
                let ghost m = (filename@, entries[i as int].control.package@);
                r.push((filename, entries[i].control.package.clone()));
                assert(r.deep_view() =~= before.push(m));
            }
        }
    }
    assert(all.take(all.len() as int) =~= all);
    r
}

// ---------------------------------------------------------------------------
// Generated metadata
// ---------------------------------------------------------------------------

impl Default for GeneratedDistsMetadata {
    fn default() -> (r: Self)
        ensures
            r.deep_view() == nothing_generated(),
    {
        let release_files: Vec<(String, Vec<u8>)> = Vec::new();
        assert(release_files.deep_view() =~= seq![]);
        GeneratedDistsMetadata { plain_indexes: TextMap::new(), release_files }
    }
}

/// Adds one form of an index.
fn add_form(generated: &mut GeneratedDistsMetadata, path: &str, bytes: Vec<u8>)
    ensures
        final(generated).deep_view() == with_form(old(generated).deep_view(), path@, bytes@),
{
    let ghost before = generated.release_files.deep_view();
    let ghost m = bytes@;
    let digest = calculate_sha256_hex(bytes.as_slice());
    let alias = by_hash_path("SHA256", digest.as_str());
    let copy = copy_bytes(bytes.as_slice());
    proof {
        bytes_view(bytes);
        bytes_view(copy);
    }
    generated.release_files.push((path.to_string(), bytes));
    assert(generated.release_files.deep_view() =~= before.push((path@, m)));
    generated.release_files.push((alias.clone(), copy));
    assert(generated.release_files.deep_view() =~= before.push((path@, m)).push((alias@, m)));
    generated.plain_indexes.insert(alias, cat2("@ref:", path));
}

/// Adds an index in its three forms, unless one of that path is there.
pub fn add_generated_dists_index(
    generated: &mut GeneratedDistsMetadata,
    index_path: &str,
    text: String,
) -> (r: std::result::Result<(), String>)
    ensures
        match with_index(old(generated).deep_view(), index_path@, text@) {
            Ok(next) => r is Ok && final(generated).deep_view() == next,
            Err(fault) => r matches Err(e) && e@ == fault && final(generated).deep_view() == old(
                generated,
            ).deep_view(),
        },
        r is Ok && lookup(old(generated).deep_view().plain_indexes, plain_path(index_path@)) is None
            ==> {
            let n = old(generated).deep_view().release_files.len() as int;
            let files = final(generated).deep_view().release_files;
            let base = plain_path(index_path@);
            &&& files.len() == n + 6
            &&& files[n] == (base, encode_utf8(text@))
            &&& files[n + 2].0 == base + ".gz"@ && reads_as(base + ".gz"@, files[n + 2].1, text@)
            &&& files[n + 4].0 == base + ".xz"@ && reads_as(base + ".xz"@, files[n + 4].1, text@)
        },
{
    proof {
        encode_utf8_valid_utf8(text@);
        encode_utf8_decode_utf8(text@);
    }
    let base = canonical_plain_dists_index_path(index_path);
    if generated.plain_indexes.contains_key(base.as_str()) {
        return Ok(());
    }
    let plain = copy_bytes(text.as_str().as_bytes());
    let gz = match gzip(plain.as_slice()) {
        Ok(bytes) => bytes,
        Err(fault) => {
            return Err(fault);
        },
    };
    let xz = match xz(plain.as_slice()) {
        Ok(bytes) => bytes,
        Err(fault) => {
            return Err(fault);
        },
    };
    proof {
        form_reads_as(base@, gz@, text@);
        form_reads_as(base@, xz@, text@);
    }
    let gz_path = cat2(base.as_str(), ".gz");
    let xz_path = cat2(base.as_str(), ".xz");
    add_form(generated, base.as_str(), plain);
    add_form(generated, gz_path.as_str(), gz);
    add_form(generated, xz_path.as_str(), xz);
    generated.plain_indexes.insert(base, text);
    Ok(())
}

/// Adds a generated Packages index, and the Contents index that goes with it.
fn add_package_index(
    generated: &mut GeneratedDistsMetadata,
    index: &DebianIndexPath,
    entries: &Vec<PackagesEntry>,
    selected_architectures: &[String],
    contents: String,
) -> (r: std::result::Result<(), String>)
    ensures
        match with_package_index(
            old(generated).deep_view(),
            index.deep_view(),
            entries.deep_view(),
            selected_architectures.deep_view(),
            contents@,
        ) {
            Ok(next) => r is Ok && final(generated).deep_view() == next,
            Err(fault) => r matches Err(e) && e@ == fault,
        },
{
    let text = build_generated_packages_text(
        entries.as_slice(),
        index.architecture.as_str(),
        selected_architectures,
    );
    if let Err(fault) = add_generated_dists_index(generated, index.path.as_str(), text) {
        return Err(fault);
    }
    let path = cat3(index.component.as_str(), "/Contents-", index.architecture.as_str());
    if generated.plain_indexes.contains_key(path.as_str()) {
        return Ok(());
    }
    add_generated_dists_index(generated, path.as_str(), contents)
}

proof fn package_indexes_fail(
    indexes: Seq<IndexModel>,
    packages: Seq<(Seq<char>, Seq<PackageModel>)>,
    selected: Seq<Seq<char>>,
    contents: Seq<(Seq<char>, Seq<char>)>,
    n: int,
)
    requires
        0 <= n <= indexes.len(),
        with_package_indexes(indexes.take(n), packages, selected, contents) is Err,
    ensures
        with_package_indexes(indexes, packages, selected, contents) == with_package_indexes(
            indexes.take(n),
            packages,
            selected,
            contents,
        ),
    decreases indexes.len(),
{
    if n == indexes.len() {
        assert(indexes.take(n) =~= indexes);
    } else {
        assert(indexes.drop_last().take(n) =~= indexes.take(n));
        package_indexes_fail(indexes.drop_last(), packages, selected, contents, n);
    }
}

proof fn source_indexes_fail(
    start: std::result::Result<GeneratedModel, Seq<char>>,
    indexes: Seq<SourceIndexModel>,
    sources: Seq<(Seq<char>, Seq<SourceModel>)>,
    n: int,
)
    requires
        0 <= n <= indexes.len(),
        with_source_indexes(start, indexes.take(n), sources) is Err,
    ensures
        with_source_indexes(start, indexes, sources) == with_source_indexes(
            start,
            indexes.take(n),
            sources,
        ),
    decreases indexes.len(),
{
    if n == indexes.len() {
        assert(indexes.take(n) =~= indexes);
    } else {
        assert(indexes.drop_last().take(n) =~= indexes.take(n));
        source_indexes_fail(start, indexes.drop_last(), sources, n);
    }
}

/// Generates the metadata of a plan. The Contents texts are given under the
/// paths of the Packages indexes that they go with.
pub fn build_synced_generated_metadata(
    plan: &DebianSyncPlan,
    packages_by_index_path: &TextMap<Vec<PackagesEntry>>,
    sources_by_index_path: &TextMap<Vec<SourcesEntry>>,
    selected_architectures: &[String],
    contents_by_index_path: &TextMap<String>,
) -> (r: std::result::Result<GeneratedDistsMetadata, String>)
    ensures
        complaint(r) == generated_metadata(
            plan.package_indexes.deep_view(),
            plan.source_indexes.deep_view(),
            packages_by_index_path.deep_view(),
            sources_by_index_path.deep_view(),
            selected_architectures.deep_view(),
            contents_by_index_path.deep_view(),
        ),
{
    let ghost pi = plan.package_indexes.deep_view();
    let ghost si = plan.source_indexes.deep_view();
    let ghost packages = packages_by_index_path.deep_view();
    let ghost sources = sources_by_index_path.deep_view();
    let ghost sel = selected_architectures.deep_view();
    let ghost contents = contents_by_index_path.deep_view();
    let ghost first = with_package_indexes(pi, packages, sel, contents);
    let ghost want = generated_metadata(pi, si, packages, sources, sel, contents);
    let mut generated = GeneratedDistsMetadata::default();
    for i in 0..plan.package_indexes.len()
        invariant
            pi == plan.package_indexes.deep_view(),
            si == plan.source_indexes.deep_view(),
            packages == packages_by_index_path.deep_view(),
            sources == sources_by_index_path.deep_view(),
            sel == selected_architectures.deep_view(),
            contents == contents_by_index_path.deep_view(),
            first == with_package_indexes(pi, packages, sel, contents),
            want == with_source_indexes(first, si, sources),
            with_package_indexes(pi.take(i as int), packages, sel, contents) == Ok::<
                GeneratedModel,
                Seq<char>,
            >(generated.deep_view()),
    {
        proof {
            assert(pi.take(i + 1).drop_last() =~= pi.take(i as int));
            assert(pi.take(i + 1).last() == plan.package_indexes[i as int].deep_view());
        }
        let path = plan.package_indexes[i].path.as_str();
        if let Some(entries) = packages_by_index_path.get(path) {
            let text = match contents_by_index_path.get(path) {
                Some(text) => text.clone(),
                None => String::new(),
            };
            assert(text@ =~= given_contents(contents, path@));
            if let Err(fault) = add_package_index(
                &mut generated,
                &plan.package_indexes[i],
                entries,
                selected_architectures,
                text,
            ) {
                proof {
                    package_indexes_fail(pi, packages, sel, contents, i + 1);
                    assert(si.take(0) =~= seq![]);
                    source_indexes_fail(first, si, sources, 0);
                }
                return Err(fault);
            }
        }
    }
    assert(pi.take(pi.len() as int) =~= pi);
    for i in 0..plan.source_indexes.len()
        invariant
            pi == plan.package_indexes.deep_view(),
            si == plan.source_indexes.deep_view(),
            packages == packages_by_index_path.deep_view(),
            sources == sources_by_index_path.deep_view(),
            sel == selected_architectures.deep_view(),
            contents == contents_by_index_path.deep_view(),
            want == with_source_indexes(first, si, sources),
            want == generated_metadata(pi, si, packages, sources, sel, contents),
            with_source_indexes(first, si.take(i as int), sources) == Ok::<
                GeneratedModel,
                Seq<char>,
            >(generated.deep_view()),
    {
        proof {
            assert(si.take(i + 1).drop_last() =~= si.take(i as int));
            assert(si.take(i + 1).last() == plan.source_indexes[i as int].deep_view());
        }
        let path = plan.source_indexes[i].path.as_str();
        if let Some(entries) = sources_by_index_path.get(path) {
            let text = build_generated_sources_text(entries.as_slice());
            if let Err(fault) = add_generated_dists_index(&mut generated, path, text) {
                proof {
                    source_indexes_fail(first, si, sources, i + 1);
                }
                return Err(fault);
            }
        }
    }
    assert(si.take(si.len() as int) =~= si);
    Ok(generated)
}

} // verus!
