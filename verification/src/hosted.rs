//! Indexes and Release files of a repository that holds its own packages.

use vstd::prelude::*;
use vstd::utf8::{decode_utf8, encode_utf8, encode_utf8_decode_utf8, encode_utf8_valid_utf8, valid_utf8};

use crate::clock::{is_plain_line, utc_now};
use crate::codec::{bytes_or_fault, gzip, gzipped, unxzed, xz, xzed};
use crate::config::DebianRepositoryConfig;
use crate::control::{blank_control, copy_text, ControlModel, DebControl};
use crate::deb::{name_parts, DebianHandler};
use crate::digest::{calculate_sha256_hex, calculate_sha512_hex, sha256_hex, sha512_hex};
use crate::dists::{content_type_for_dists_path, content_type_of, copy_bytes};
use crate::emit::{as_text, control_text, hash_line, number_text, optional_text};
use crate::emit::{push_control_fields, push_hash_line, push_number_field, push_optional_control_field};
use crate::http::{file_reply, refuse2, refused, reply_of, verdict, FileReply, Refusal, RefusalModel};
use crate::index_laws::{form_reads_as, names_compressed, reads_as};
use crate::ordered::{with_text, TextSet};
use crate::sort::{key_lt, sort_items, sorted, text_comes_before, Sortable};
use crate::text::{begins, cat2, cat3, cat4, chars_of, ends, ends_with, is_empty_text, is_text, join};
use crate::text::{is_blank, is_blank_text, join_texts, opt_text, same_text, split, split_at_char, starts_with, strip_start, strip_start_of};
use crate::text::{text_lt_irreflexive, text_of, trim, trim_of};
use crate::verify::{filled, filled_text};

verus! {

/// What the name of a package file says.
#[derive(Debug, PartialEq, Eq)]
pub struct DebInfo {
    pub name: String,
    pub version: String,
    pub arch: String,
    pub package_type: String,
}

/// A package of a hosted repository.
#[derive(Clone, Debug, PartialEq, Eq)]
pub struct PackageEntry {
    pub control: DebControl,
    pub filename: String,
    pub size: i64,
    pub sha256: String,
    pub sha1: Option<String>,
    pub md5: Option<String>,
}

/// What was stored with a package when it was uploaded.
#[derive(Debug)]
pub struct ArtifactMetadata {
    /// The control stanza, where one was stored that could be read.
    pub control: Option<DebControl>,
    pub package: Option<String>,
    pub name: Option<String>,
    pub version: Option<String>,
    pub architecture: Option<String>,
    pub description: Option<String>,
    pub maintainer: Option<String>,
    pub section: Option<String>,
    pub priority: Option<String>,
    pub homepage: Option<String>,
    pub source: Option<String>,
    pub component: Option<String>,
    pub distribution: Option<String>,
}

/// A stored package file.
#[derive(Debug)]
pub struct ArtifactRow {
    pub path: String,
    pub size: i64,
    pub sha256: String,
    pub sha1: Option<String>,
    pub md5: Option<String>,
    pub metadata: Option<ArtifactMetadata>,
}

/// A file that a Release lists, with the digests that are not computed here.
#[derive(Debug, PartialEq, Eq)]
pub struct DigestedFile {
    pub path: String,
    pub bytes: Vec<u8>,
    pub md5: String,
    pub sha1: String,
}

// ---------------------------------------------------------------------------
// Model
// ---------------------------------------------------------------------------

/// What a `DebInfo` holds.
#[verifier::ext_equal]
pub struct DebInfoModel {
    pub name: Seq<char>,
    pub version: Seq<char>,
    pub arch: Seq<char>,
    pub package_type: Seq<char>,
}

impl DeepView for DebInfo {
    type V = DebInfoModel;

    open spec fn deep_view(&self) -> DebInfoModel {
        DebInfoModel {
            name: self.name@,
            version: self.version@,
            arch: self.arch@,
            package_type: self.package_type@,
        }
    }
}

/// What a `PackageEntry` holds.
#[verifier::ext_equal]
pub struct HostedModel {
    pub control: ControlModel,
    pub filename: Seq<char>,
    pub size: i64,
    pub sha256: Seq<char>,
    pub sha1: Option<Seq<char>>,
    pub md5: Option<Seq<char>>,
}

impl DeepView for PackageEntry {
    type V = HostedModel;

    open spec fn deep_view(&self) -> HostedModel {
        HostedModel {
            control: self.control.deep_view(),
            filename: self.filename@,
            size: self.size,
            sha256: self.sha256@,
            sha1: self.sha1.deep_view(),
            md5: self.md5.deep_view(),
        }
    }
}

/// What an `ArtifactMetadata` holds.
#[verifier::ext_equal]
pub struct MetadataModel {
    pub control: Option<ControlModel>,
    pub package: Option<Seq<char>>,
    pub name: Option<Seq<char>>,
    pub version: Option<Seq<char>>,
    pub architecture: Option<Seq<char>>,
    pub description: Option<Seq<char>>,
    pub maintainer: Option<Seq<char>>,
    pub section: Option<Seq<char>>,
    pub priority: Option<Seq<char>>,
    pub homepage: Option<Seq<char>>,
    pub source: Option<Seq<char>>,
    pub component: Option<Seq<char>>,
    pub distribution: Option<Seq<char>>,
}

impl DeepView for ArtifactMetadata {
    type V = MetadataModel;

    open spec fn deep_view(&self) -> MetadataModel {
        MetadataModel {
            control: self.control.deep_view(),
            package: self.package.deep_view(),
            name: self.name.deep_view(),
            version: self.version.deep_view(),
            architecture: self.architecture.deep_view(),
            description: self.description.deep_view(),
            maintainer: self.maintainer.deep_view(),
            section: self.section.deep_view(),
            priority: self.priority.deep_view(),
            homepage: self.homepage.deep_view(),
            source: self.source.deep_view(),
            component: self.component.deep_view(),
            distribution: self.distribution.deep_view(),
        }
    }
}

/// What an `ArtifactRow` holds.
#[verifier::ext_equal]
pub struct RowModel {
    pub path: Seq<char>,
    pub size: i64,
    pub sha256: Seq<char>,
    pub sha1: Option<Seq<char>>,
    pub md5: Option<Seq<char>>,
    pub metadata: Option<MetadataModel>,
}

impl DeepView for ArtifactRow {
    type V = RowModel;

    open spec fn deep_view(&self) -> RowModel {
        RowModel {
            path: self.path@,
            size: self.size,
            sha256: self.sha256@,
            sha1: self.sha1.deep_view(),
            md5: self.md5.deep_view(),
            metadata: self.metadata.deep_view(),
        }
    }
}

/// What a `DigestedFile` holds.
#[verifier::ext_equal]
pub struct DigestedModel {
    pub path: Seq<char>,
    pub bytes: Seq<u8>,
    pub md5: Seq<char>,
    pub sha1: Seq<char>,
}

impl DeepView for DigestedFile {
    type V = DigestedModel;

    open spec fn deep_view(&self) -> DigestedModel {
        DigestedModel {
            path: self.path@,
            bytes: self.bytes@,
            md5: self.md5@,
            sha1: self.sha1@,
        }
    }
}

/// What the name of a package file says, with the kind of the package.
pub open spec fn deb_info(filename: Seq<char>) -> Option<DebInfoModel> {
    match name_parts(filename) {
        Some((name, version, arch)) => Some(
            DebInfoModel {
                name,
                version,
                arch,
                package_type: if ends_with(filename, ".udeb"@) {
                    "udeb"@
                } else {
                    "deb"@
                },
            },
        ),
        None => None,
    }
}

/// An entry of an index: the control stanza and what is known of the file.
pub open spec fn index_entry_text(
    control: ControlModel,
    filename: Option<Seq<char>>,
    size: Option<u64>,
    md5sum: Option<Seq<char>>,
    sha1: Option<Seq<char>>,
    sha256: Option<Seq<char>>,
) -> Seq<char> {
    control_text(control) + optional_text("Filename"@, filename) + number_text("Size"@, size)
        + optional_text("MD5sum"@, md5sum) + optional_text("SHA1"@, sha1) + optional_text(
        "SHA256"@,
        sha256,
    )
}

/// The entry of a hosted package. A size below zero counts as zero.
pub open spec fn hosted_entry_text(entry: HostedModel) -> Seq<char> {
    index_entry_text(
        entry.control,
        Some(entry.filename),
        Some(
            if entry.size < 0 {
                0
            } else {
                entry.size as u64
            },
        ),
        entry.md5,
        entry.sha1,
        Some(entry.sha256),
    )
}

/// The Packages index of hosted packages, an empty line between each two.
pub open spec fn hosted_text(entries: Seq<HostedModel>) -> Seq<char>
    decreases entries.len(),
{
    if entries.len() == 0 {
        seq![]
    } else if entries.len() == 1 {
        hosted_entry_text(entries[0])
    } else {
        hosted_text(entries.drop_last()) + seq!['\n'] + hosted_entry_text(entries.last())
    }
}

/// The first text that is there.
pub open spec fn first_of(a: Option<Seq<char>>, b: Seq<char>) -> Seq<char> {
    match a {
        Some(text) => text,
        None => b,
    }
}

/// The control stanza is complete enough to be used.
pub open spec fn is_complete(control: ControlModel) -> bool {
    control.package.len() > 0 && control.version.len() > 0 && control.architecture.len() > 0
}

/// The control stanza of a stored package: the stored one where it is complete,
/// else one made of the other stored values and the name of the file.
pub open spec fn stored_control(metadata: Option<MetadataModel>, fallback: DebInfoModel) -> ControlModel {
    match metadata {
        Some(meta) => if meta.control is Some && is_complete(meta.control->0) {
            meta.control->0
        } else {
            ControlModel {
                package: match meta.package {
                    Some(package) => package,
                    None => first_of(meta.name, fallback.name),
                },
                version: first_of(meta.version, fallback.version),
                architecture: first_of(meta.architecture, fallback.arch),
                description: Some(first_of(meta.description, "No description available"@)),
                maintainer: meta.maintainer,
                section: meta.section,
                priority: meta.priority,
                homepage: meta.homepage,
                source: meta.source,
                ..blank_control()
            }
        },
        None => ControlModel {
            package: fallback.name,
            version: fallback.version,
            architecture: fallback.arch,
            description: Some("No description available"@),
            ..blank_control()
        },
    }
}

/// A package belongs in an index of an architecture. One for all architectures
/// belongs in each.
pub open spec fn belongs_in(package_arch: Seq<char>, requested: Seq<char>) -> bool {
    if requested == "all"@ {
        package_arch == "all"@
    } else {
        package_arch == requested || package_arch == "all"@
    }
}

/// A stored package belongs in a distribution. One that was stored without a
/// distribution belongs in each.
pub open spec fn is_of_distribution(metadata: Option<MetadataModel>, requested: Seq<char>) -> bool {
    match metadata {
        Some(meta) => match filled(meta.distribution) {
            Some(distribution) => distribution == requested,
            None => true,
        },
        None => true,
    }
}

/// What stands behind the last slash of a path.
pub open spec fn file_name(path: Seq<char>) -> Seq<char> {
    split(path, '/').last()
}

/// The entry that a stored package has in an index, if it belongs there.
pub open spec fn hosted_entry(row: RowModel, distribution: Seq<char>, arch: Seq<char>) -> Option<
    HostedModel,
> {
    match deb_info(file_name(row.path)) {
        Some(info) => {
            let control = stored_control(row.metadata, info);
            if is_of_distribution(row.metadata, distribution) && belongs_in(
                control.architecture,
                arch,
            ) {
                Some(
                    HostedModel {
                        control,
                        filename: row.path,
                        size: row.size,
                        sha256: row.sha256,
                        sha1: row.sha1,
                        md5: row.md5,
                    },
                )
            } else {
                None
            }
        },
        None => None,
    }
}

/// The entries that the stored packages have in an index.
pub open spec fn hosted_entries(rows: Seq<RowModel>, distribution: Seq<char>, arch: Seq<char>) -> Seq<
    HostedModel,
>
    decreases rows.len(),
{
    if rows.len() == 0 {
        seq![]
    } else {
        let before = hosted_entries(rows.drop_last(), distribution, arch);
        match hosted_entry(rows.last(), distribution, arch) {
            Some(entry) => before.push(entry),
            None => before,
        }
    }
}

/// The component of a path in the pool.
pub open spec fn pool_component(path: Seq<char>) -> Option<Seq<char>> {
    match strip_start(path, "pool/"@) {
        Some(rest) => if split(rest, '/')[0].len() > 0 {
            Some(split(rest, '/')[0])
        } else {
            None
        },
        None => None,
    }
}

/// The component that a stored package is filed under.
pub open spec fn row_component(row: RowModel) -> Option<Seq<char>> {
    match row.metadata {
        Some(meta) => match meta.component {
            Some(component) => Some(component),
            None => pool_component(row.path),
        },
        None => pool_component(row.path),
    }
}

/// The components of the stored packages.
pub open spec fn row_components(rows: Seq<RowModel>) -> Seq<Seq<char>>
    decreases rows.len(),
{
    if rows.len() == 0 {
        seq![]
    } else {
        let before = row_components(rows.drop_last());
        match row_component(rows.last()) {
            Some(component) => with_text(before, component),
            None => before,
        }
    }
}

/// The architecture that a stored package adds to a Release. One for all
/// architectures adds none.
pub open spec fn row_architecture(row: RowModel) -> Option<Seq<char>> {
    match deb_info(file_name(row.path)) {
        Some(info) => {
            let arch = stored_control(row.metadata, info).architecture;
            if arch == "all"@ {
                None
            } else {
                Some(arch)
            }
        },
        None => None,
    }
}

/// The architectures of the stored packages.
pub open spec fn row_architectures(rows: Seq<RowModel>) -> Seq<Seq<char>>
    decreases rows.len(),
{
    if rows.len() == 0 {
        seq![]
    } else {
        let before = row_architectures(rows.drop_last());
        match row_architecture(rows.last()) {
            Some(arch) => with_text(before, arch),
            None => before,
        }
    }
}

/// The components of a repository; `main` where there is none.
pub open spec fn found_components(rows: Seq<RowModel>) -> Seq<Seq<char>> {
    if row_components(rows).len() == 0 {
        seq!["main"@]
    } else {
        row_components(rows)
    }
}

/// The architectures of a repository; two common ones where there is none.
pub open spec fn found_architectures(rows: Seq<RowModel>) -> Seq<Seq<char>> {
    if row_architectures(rows).len() == 0 {
        with_text(seq!["amd64"@], "arm64"@)
    } else {
        row_architectures(rows)
    }
}

/// The values that are configured, trimmed; a wildcard configures nothing.
pub open spec fn configured(values: Seq<Seq<char>>, include_all: bool) -> Seq<Seq<char>>
    decreases values.len(),
{
    if values.len() == 0 {
        seq![]
    } else {
        let before = configured(values.drop_last(), include_all);
        let value = trim(values.last());
        if value.len() > 0 && value != "*"@ && (include_all || value != "all"@) {
            with_text(before, value)
        } else {
            before
        }
    }
}

/// The configured values, or those that were found where none is configured.
pub open spec fn layout(values: Option<Seq<Seq<char>>>, include_all: bool, found: Seq<Seq<char>>) -> Seq<
    Seq<char>,
> {
    if values is Some && configured(values->0, include_all).len() > 0 {
        configured(values->0, include_all)
    } else {
        found
    }
}

/// The lines of a hash section of digested files, by a digest.
pub open spec fn digest_lines(files: Seq<DigestedModel>, algorithm: DigestName) -> Seq<char>
    decreases files.len(),
{
    if files.len() == 0 {
        seq![]
    } else {
        digest_lines(files.drop_last(), algorithm) + hash_line(
            file_digest(files.last(), algorithm),
            files.last().bytes.len(),
            files.last().path,
        )
    }
}

/// The digest algorithms that a Release lists.
#[derive(Clone, Copy, Debug, PartialEq, Eq, Structural)]
pub enum DigestName {
    Md5,
    Sha1,
    Sha256,
    Sha512,
}

/// The digest of a file.
pub open spec fn file_digest(file: DigestedModel, algorithm: DigestName) -> Seq<char> {
    match algorithm {
        DigestName::Md5 => file.md5,
        DigestName::Sha1 => file.sha1,
        DigestName::Sha256 => sha256_hex(file.bytes),
        DigestName::Sha512 => sha512_hex(file.bytes),
    }
}

/// A Release of a date that lists the files, in the order of their paths.
pub open spec fn release_content(
    suite: Seq<char>,
    codename: Option<Seq<char>>,
    description: Option<Seq<char>>,
    components: Seq<Seq<char>>,
    architectures: Seq<Seq<char>>,
    files: Seq<DigestedModel>,
    date: Seq<char>,
) -> Seq<char> {
    let fs = sorted::<DigestedFile>(files);
    "Origin: artifact-keeper\n"@ + "Label: artifact-keeper\n"@ + "Suite: "@ + suite + "\n"@ + (
    if codename is Some && !is_blank(codename->0) {
        "Codename: "@ + codename->0 + "\n"@
    } else {
        seq![]
    }) + "Date: "@ + date + "\n"@ + "Architectures: "@ + join(architectures, " "@) + "\n"@
        + "Components: "@ + join(components, " "@) + "\n"@ + optional_text(
        "Description"@,
        description,
    ) + "MD5Sum:\n"@ + digest_lines(fs, DigestName::Md5) + "SHA1:\n"@ + digest_lines(
        fs,
        DigestName::Sha1,
    ) + "SHA256:\n"@ + digest_lines(fs, DigestName::Sha256) + "SHA512:\n"@ + digest_lines(
        fs,
        DigestName::Sha512,
    )
}

/// The files with an index in its three forms, and whether all could be made.
pub open spec fn with_variants(
    files: Seq<(Seq<char>, Seq<u8>)>,
    path: Seq<char>,
    bytes: Seq<u8>,
) -> (Seq<(Seq<char>, Seq<u8>)>, std::result::Result<(), RefusalModel>) {
    let plain = files.push((path, bytes));
    match gzipped(bytes) {
        Err(fault) => (plain, Err(refused(500, "Compression error: "@ + fault))),
        Ok(gz) => {
            let with_gz = plain.push((path + ".gz"@, gz));
            match xzed(bytes) {
                Err(fault) => (with_gz, Err(refused(500, "XZ compression error: "@ + fault))),
                Ok(xz) => (with_gz.push((path + ".xz"@, xz)), Ok(())),
            }
        },
    }
}

/// The files with the Packages and the Contents index of a component for an
/// architecture, and whether all forms could be made.
pub open spec fn with_hosted_indexes(
    files: Seq<(Seq<char>, Seq<u8>)>,
    component: Seq<char>,
    arch: Seq<char>,
    packages: Seq<char>,
    contents: Seq<char>,
) -> (Seq<(Seq<char>, Seq<u8>)>, std::result::Result<(), RefusalModel>) {
    let first = with_variants(
        files,
        component + "/binary-"@ + arch + "/Packages"@,
        encode_utf8(packages),
    );
    if first.1 is Err {
        first
    } else {
        with_variants(first.0, component + "/Contents-"@ + arch, encode_utf8(contents))
    }
}

/// The path under which a file can be fetched by its digest.
pub open spec fn hash_path(algorithm: Seq<char>, digest: Seq<char>) -> Seq<char> {
    "by-hash/"@ + algorithm + "/"@ + digest
}

/// Some file has the path.
pub open spec fn has_path(files: Seq<(Seq<char>, Seq<u8>)>, path: Seq<char>) -> bool {
    exists|i: int| 0 <= i < files.len() && (#[trigger] files[i]).0 == path
}

/// The files with one more that is an alias of the given bytes, unless it is there.
pub open spec fn with_alias(files: Seq<(Seq<char>, Seq<u8>)>, bytes: Seq<u8>) -> Seq<
    (Seq<char>, Seq<u8>),
> {
    let path = hash_path("SHA256"@, sha256_hex(bytes));
    if has_path(files, path) {
        files
    } else {
        files.push((path, bytes))
    }
}

/// The files that are no aliases.
pub open spec fn no_aliases(files: Seq<(Seq<char>, Seq<u8>)>) -> Seq<(Seq<char>, Seq<u8>)>
    decreases files.len(),
{
    if files.len() == 0 {
        seq![]
    } else {
        let before = no_aliases(files.drop_last());
        if starts_with(files.last().0, "by-hash/"@) {
            before
        } else {
            before.push(files.last())
        }
    }
}

/// The files with an alias for each of the given ones.
pub open spec fn with_aliases(
    files: Seq<(Seq<char>, Seq<u8>)>,
    named: Seq<(Seq<char>, Seq<u8>)>,
) -> Seq<(Seq<char>, Seq<u8>)>
    decreases named.len(),
{
    if named.len() == 0 {
        files
    } else {
        with_alias(with_aliases(files, named.drop_last()), named.last().1)
    }
}

/// The files with aliases by which they can be fetched by digest.
pub open spec fn aliased(files: Seq<(Seq<char>, Seq<u8>)>) -> Seq<(Seq<char>, Seq<u8>)> {
    with_aliases(files, no_aliases(files))
}

/// The first file of a path.
pub open spec fn file_at(files: Seq<(Seq<char>, Seq<u8>)>, path: Seq<char>) -> Option<Seq<u8>>
    decreases files.len(),
{
    if files.len() == 0 {
        None
    } else if files[0].0 == path {
        Some(files[0].1)
    } else {
        file_at(files.drop_first(), path)
    }
}

// ---------------------------------------------------------------------------
// Laws
// ---------------------------------------------------------------------------

proof fn hash_path_is_alias(digest: Seq<char>)
    ensures
        starts_with(hash_path("SHA256"@, digest), "by-hash/"@),
{
    let path = hash_path("SHA256"@, digest);
    assert(path.take("by-hash/"@.len() as int) =~= "by-hash/"@);
}

proof fn with_alias_keeps(files: Seq<(Seq<char>, Seq<u8>)>, bytes: Seq<u8>)
    ensures
        has_path(with_alias(files, bytes), hash_path("SHA256"@, sha256_hex(bytes))),
        forall|p: Seq<char>| has_path(files, p) ==> has_path(with_alias(files, bytes), p),
        no_aliases(with_alias(files, bytes)) == no_aliases(files),
        files.is_prefix_of(with_alias(files, bytes)),
{
    let path = hash_path("SHA256"@, sha256_hex(bytes));
    let r = with_alias(files, bytes);
    hash_path_is_alias(sha256_hex(bytes));
    if !has_path(files, path) {
        assert(r.drop_last() =~= files);
        assert(r[files.len() as int].0 == path);
        assert forall|p: Seq<char>| has_path(files, p) implies has_path(r, p) by {
            let i = choose|i: int| 0 <= i < files.len() && (#[trigger] files[i]).0 == p;
            assert(r[i].0 == p);
        }
    }
}

proof fn with_aliases_keeps(files: Seq<(Seq<char>, Seq<u8>)>, named: Seq<(Seq<char>, Seq<u8>)>)
    ensures
        forall|i: int|
            0 <= i < named.len() ==> has_path(
                with_aliases(files, named),
                hash_path("SHA256"@, sha256_hex((#[trigger] named[i]).1)),
            ),
        no_aliases(with_aliases(files, named)) == no_aliases(files),
        files.is_prefix_of(with_aliases(files, named)),
    decreases named.len(),
{
    if named.len() > 0 {
        let rest = named.drop_last();
        let before = with_aliases(files, rest);
        let r = with_aliases(files, named);
        with_aliases_keeps(files, rest);
        with_alias_keeps(before, named.last().1);
        assert forall|i: int| 0 <= i < named.len() implies has_path(
            r,
            hash_path("SHA256"@, sha256_hex((#[trigger] named[i]).1)),
        ) by {
            if i < rest.len() {
                assert(rest[i] == named[i]);
            }
        }
    }
}

proof fn with_aliases_idle(files: Seq<(Seq<char>, Seq<u8>)>, named: Seq<(Seq<char>, Seq<u8>)>)
    requires
        forall|i: int|
            0 <= i < named.len() ==> has_path(
                files,
                hash_path("SHA256"@, sha256_hex((#[trigger] named[i]).1)),
            ),
    ensures
        with_aliases(files, named) == files,
    decreases named.len(),
{
    if named.len() > 0 {
        let rest = named.drop_last();
        assert forall|i: int| 0 <= i < rest.len() implies has_path(
            files,
            hash_path("SHA256"@, sha256_hex((#[trigger] rest[i]).1)),
        ) by {
            assert(rest[i] == named[i]);
        }
        with_aliases_idle(files, rest);
        assert(named[named.len() - 1] == named.last());
    }
}

/// Adding aliases adds one for every file, keeps what was there where it was,
/// and does nothing the second time.
pub proof fn aliases_law(files: Seq<(Seq<char>, Seq<u8>)>)
    ensures
        files.is_prefix_of(aliased(files)),
        forall|i: int|
            0 <= i < no_aliases(files).len() ==> has_path(
                aliased(files),
                hash_path("SHA256"@, sha256_hex((#[trigger] no_aliases(files)[i]).1)),
            ),
        aliased(aliased(files)) == aliased(files),
{
    with_aliases_keeps(files, no_aliases(files));
    with_aliases_idle(aliased(files), no_aliases(files));
}

/// A package for all architectures belongs in the index of each, and a package
/// for one of them never in the index of those for all.
pub proof fn all_belongs_everywhere(arch: Seq<char>, requested: Seq<char>)
    ensures
        belongs_in("all"@, requested),
        arch != "all"@ ==> !belongs_in(arch, "all"@),
        arch != "all"@ && arch != requested ==> !belongs_in(arch, requested),
{
}

// ---------------------------------------------------------------------------
// Packages
// ---------------------------------------------------------------------------

/// Takes the name of a package file apart.
pub fn parse_deb_filename(filename: &str) -> (r: Option<DebInfo>)
    ensures
        r.deep_view() == deb_info(filename@),
{
    let chars = chars_of(filename);
    let package_type = if ends(chars.as_slice(), ".udeb") {
        "udeb"
    } else {
        "deb"
    };
    match DebianHandler::parse_deb_filename(filename) {
        Ok((name, version, arch)) => Some(
            DebInfo { name, version, arch, package_type: package_type.to_string() },
        ),
        Err(_) => None,
    }
}

/// Writes an entry of an index.
pub fn push_packages_fields(
    text: &mut String,
    control: &DebControl,
    filename: Option<&str>,
    size: Option<u64>,
    md5sum: Option<&str>,
    sha1: Option<&str>,
    sha256: Option<&str>,
)
    ensures
        final(text)@ == old(text)@ + index_entry_text(
            control.deep_view(),
            opt_text(filename),
            size,
            opt_text(md5sum),
            opt_text(sha1),
            opt_text(sha256),
        ),
{
    let mut entry = String::new();
    push_control_fields(&mut entry, control);
    assert(entry@ =~= control_text(control.deep_view()));
    push_optional_control_field(&mut entry, "Filename", filename);
    push_number_field(&mut entry, "Size", size);
    push_optional_control_field(&mut entry, "MD5sum", md5sum);
    push_optional_control_field(&mut entry, "SHA1", sha1);
    push_optional_control_field(&mut entry, "SHA256", sha256);
    text.append(entry.as_str());
}

/// Writes the entry of a hosted package.
pub fn push_packages_entry(text: &mut String, entry: &PackageEntry)
    ensures
        final(text)@ == old(text)@ + hosted_entry_text(entry.deep_view()),
{
    let size: u64 = if entry.size < 0 {
        0
    } else {
        entry.size as u64
    };
    push_packages_fields(
        text,
        &entry.control,
        Some(entry.filename.as_str()),
        Some(size),
        as_text(&entry.md5),
        as_text(&entry.sha1),
        Some(entry.sha256.as_str()),
    );
}

/// Writes the Packages index of hosted packages.
pub fn build_packages_text(entries: &[PackageEntry]) -> (r: String)
    ensures
        r@ == hosted_text(entries.deep_view()),
{
    let ghost all = entries.deep_view();
    let mut text = String::new();
    assert(text@ =~= hosted_text(all.take(0)));
    for i in 0..entries.len()
        invariant
            all == entries.deep_view(),
            text@ == hosted_text(all.take(i as int)),
    {
        proof {
            assert(all.take(i + 1).drop_last() =~= all.take(i as int));
            assert(all.take(i + 1).last() == entries[i as int].deep_view());
        }
        if i > 0 {
            text.push('\n');
            assert(text@ =~= hosted_text(all.take(i as int)) + seq!['\n']);
        }
        push_packages_entry(&mut text, &entries[i]);
        assert(i == 0 ==> text@ =~= hosted_entry_text(all[0]));
    }
    assert(all.take(all.len() as int) =~= all);
    text
}

/// Writes the Packages index of hosted packages and compresses it with xz. A
/// client that reads the file gets the index back.
pub fn build_packages_xz(entries: &[PackageEntry]) -> (r: std::result::Result<Vec<u8>, String>)
    ensures
        bytes_or_fault(r) == xzed(encode_utf8(hosted_text(entries.deep_view()))),
        r matches Ok(body) ==> unxzed(body@) == Ok::<Seq<char>, Seq<char>>(
            hosted_text(entries.deep_view()),
        ) && reads_as("Packages"@ + ".xz"@, body@, hosted_text(entries.deep_view())),
{
    let text = build_packages_text(entries);
    proof {
        encode_utf8_valid_utf8(text@);
        encode_utf8_decode_utf8(text@);
    }
    let r = xz(text.as_str().as_bytes());
    proof {
        if let Ok(body) = &r {
            form_reads_as("Packages"@, body@, text@);
        }
    }
    r
}

/// The first text that is there.
fn text_or(a: &Option<String>, b: &str) -> (r: String)
    ensures
        r@ == first_of(a.deep_view(), b@),
{
    match a {
        Some(text) => text.clone(),
        None => b.to_string(),
    }
}

/// The control stanza of a stored package.
pub fn control_from_metadata_or_filename(metadata: Option<&ArtifactMetadata>, fallback: &DebInfo) -> (r: DebControl)
    ensures
        r.deep_view() == stored_control(
            match metadata {
                Some(meta) => Some(meta.deep_view()),
                None => None,
            },
            fallback.deep_view(),
        ),
{
    if let Some(meta) = metadata {
        if let Some(control) = &meta.control {
            if !is_empty_text(control.package.as_str()) && !is_empty_text(
                control.version.as_str(),
            ) && !is_empty_text(control.architecture.as_str()) {
                return control.clone();
            }
        }
        let package = match &meta.package {
            Some(package) => package.clone(),
            None => text_or(&meta.name, fallback.name.as_str()),
        };
        return DebControl {
            package,
            version: text_or(&meta.version, fallback.version.as_str()),
            architecture: text_or(&meta.architecture, fallback.arch.as_str()),
            description: Some(text_or(&meta.description, "No description available")),
            maintainer: copy_text(&meta.maintainer),
            section: copy_text(&meta.section),
            priority: copy_text(&meta.priority),
            homepage: copy_text(&meta.homepage),
            source: copy_text(&meta.source),
            ..DebControl::default()
        };
    }
    DebControl {
        package: fallback.name.clone(),
        version: fallback.version.clone(),
        architecture: fallback.arch.clone(),
        description: Some("No description available".to_string()),
        ..DebControl::default()
    }
}

/// The package belongs in an index of the architecture.
pub fn package_matches_requested_arch(package_arch: &str, requested_arch: &str) -> (r: bool)
    ensures
        r == belongs_in(package_arch@, requested_arch@),
{
    if same_text(requested_arch, "all") {
        same_text(package_arch, "all")
    } else {
        same_text(package_arch, requested_arch) || same_text(package_arch, "all")
    }
}

/// The stored package belongs in the distribution.
pub fn package_matches_requested_distribution(
    metadata: Option<&ArtifactMetadata>,
    requested_distribution: &str,
) -> (r: bool)
    ensures
        r == is_of_distribution(
            match metadata {
                Some(meta) => Some(meta.deep_view()),
                None => None,
            },
            requested_distribution@,
        ),
{
    match metadata {
        Some(meta) => match filled_text(&meta.distribution) {
            Some(distribution) => same_text(distribution.as_str(), requested_distribution),
            None => true,
        },
        None => true,
    }
}

/// What stands behind the last slash of a path.
pub fn file_name_of(path: &str) -> (r: String)
    ensures
        r@ == file_name(path@),
{
    let chars = chars_of(path);
    let parts = split_at_char(chars.as_slice(), '/');
    text_of(parts[parts.len() - 1])
}

/// A reference to the metadata of a row, if it has any.
fn metadata_of(row: &ArtifactRow) -> (r: Option<&ArtifactMetadata>)
    ensures
        (match r {
            Some(meta) => Some(meta.deep_view()),
            None => None,
        }) == row.metadata.deep_view(),
{
    match &row.metadata {
        Some(meta) => Some(meta),
        None => None,
    }
}

/// The entry that a stored package has in an index, if it belongs there.
fn select_package_entry(row: &ArtifactRow, distribution: &str, arch: &str) -> (r: Option<
    PackageEntry,
>)
    ensures
        r.deep_view() == hosted_entry(row.deep_view(), distribution@, arch@),
{
    let filename = file_name_of(row.path.as_str());
    let info = match parse_deb_filename(filename.as_str()) {
        Some(info) => info,
        None => {
            return None;
        },
    };
    if !package_matches_requested_distribution(metadata_of(row), distribution) {
        return None;
    }
    let control = control_from_metadata_or_filename(metadata_of(row), &info);
    if !package_matches_requested_arch(control.architecture.as_str(), arch) {
        return None;
    }
    Some(
        PackageEntry {
            control,
            filename: row.path.clone(),
            size: row.size,
            sha256: row.sha256.clone(),
            sha1: copy_text(&row.sha1),
            md5: copy_text(&row.md5),
        },
    )
}

/// The entries that the stored packages have in an index.
pub fn select_package_entries(rows: &[ArtifactRow], distribution: &str, arch: &str) -> (r: Vec<
    PackageEntry,
>)
    ensures
        r.deep_view() == hosted_entries(rows.deep_view(), distribution@, arch@),
{
    let ghost all = rows.deep_view();
    let mut entries: Vec<PackageEntry> = Vec::new();
    assert(entries.deep_view() =~= hosted_entries(all.take(0), distribution@, arch@));
    for i in 0..rows.len()
        invariant
            all == rows.deep_view(),
            entries.deep_view() == hosted_entries(all.take(i as int), distribution@, arch@),
    {
        let ghost before = entries.deep_view();
        proof {
            assert(all.take(i + 1).drop_last() =~= all.take(i as int));
            assert(all.take(i + 1).last() == rows[i as int].deep_view());
        }
        if let Some(entry) = select_package_entry(&rows[i], distribution, arch) {
            let ghost m = entry.deep_view();
            entries.push(entry);
            assert(entries.deep_view() =~= before.push(m));
        }
    }
    assert(all.take(all.len() as int) =~= all);
    entries
}

// ---------------------------------------------------------------------------
// Layout
// ---------------------------------------------------------------------------

/// The architecture that a package adds to a Release.
pub fn architecture_for_release_layout(package_arch: &str) -> (r: Option<&str>)
    ensures
        opt_text(r) == (if package_arch@ == "all"@ {
            None
        } else {
            Some(package_arch@)
        }),
{
    if same_text(package_arch, "all") {
        None
    } else {
        Some(package_arch)
    }
}

/// The component of a path in the pool.
pub fn component_from_pool_path(path: &str) -> (r: Option<String>)
    ensures
        r.deep_view() == pool_component(path@),
{
    let chars = chars_of(path);
    match strip_start_of(chars.as_slice(), "pool/") {
        Some(rest) => {
            let parts = split_at_char(rest, '/');
            if parts[0].len() > 0 {
                Some(text_of(parts[0]))
            } else {
                None
            }
        },
        None => None,
    }
}

/// The component that a stored package is filed under.
fn component_of_row(row: &ArtifactRow) -> (r: Option<String>)
    ensures
        r.deep_view() == row_component(row.deep_view()),
{
    if let Some(meta) = &row.metadata {
        if let Some(component) = &meta.component {
            return Some(component.clone());
        }
    }
    component_from_pool_path(row.path.as_str())
}

/// The architecture that a stored package adds to a Release.
fn architecture_of_row(row: &ArtifactRow) -> (r: Option<String>)
    ensures
        r.deep_view() == row_architecture(row.deep_view()),
{
    let filename = file_name_of(row.path.as_str());
    match parse_deb_filename(filename.as_str()) {
        Some(info) => {
            let control = control_from_metadata_or_filename(metadata_of(row), &info);
            match architecture_for_release_layout(control.architecture.as_str()) {
                Some(arch) => Some(arch.to_string()),
                None => None,
            }
        },
        None => None,
    }
}

/// The components and the architectures of a repository, as its packages show
/// them.
pub fn discover_release_layout(rows: &[ArtifactRow]) -> (r: (TextSet, TextSet))
    ensures
        r.0.deep_view() == found_components(rows.deep_view()),
        r.1.deep_view() == found_architectures(rows.deep_view()),
{
    let ghost all = rows.deep_view();
    let mut components = TextSet::new();
    let mut architectures = TextSet::new();
    for i in 0..rows.len()
        invariant
            all == rows.deep_view(),
            components.deep_view() == row_components(all.take(i as int)),
            architectures.deep_view() == row_architectures(all.take(i as int)),
    {
        proof {
            assert(all.take(i + 1).drop_last() =~= all.take(i as int));
            assert(all.take(i + 1).last() == rows[i as int].deep_view());
        }
        if let Some(component) = component_of_row(&rows[i]) {
            components.insert(component);
        }
        if let Some(arch) = architecture_of_row(&rows[i]) {
            architectures.insert(arch);
        }
    }
    assert(all.take(all.len() as int) =~= all);
    if components.is_empty() {
        components = TextSet::new();
        components.insert("main".to_string());
        assert(components.deep_view() =~= seq!["main"@]);
    }
    if architectures.is_empty() {
        architectures = TextSet::new();
        architectures.insert("amd64".to_string());
        assert(architectures.deep_view() =~= seq!["amd64"@]);
        architectures.insert("arm64".to_string());
    }
    (components, architectures)
}

/// The values that are configured.
pub fn configured_release_values(values: &[String], include_arch_all: bool) -> (r: TextSet)
    ensures
        r.deep_view() == configured(values.deep_view(), include_arch_all),
{
    let ghost all = values.deep_view();
    let mut r = TextSet::new();
    for i in 0..values.len()
        invariant
            all == values.deep_view(),
            r.deep_view() == configured(all.take(i as int), include_arch_all),
    {
        proof {
            assert(all.take(i + 1).drop_last() =~= all.take(i as int));
            assert(all.take(i + 1).last() == values[i as int]@);
        }
        let chars = chars_of(values[i].as_str());
        let value = trim_of(chars.as_slice());
        if value.len() > 0 && !is_text(value, "*") && (include_arch_all || !is_text(value, "all")) {
            r.insert(text_of(value));
        }
    }
    assert(all.take(all.len() as int) =~= all);
    r
}

/// The components and the architectures that a Release names: the configured
/// ones, or those that were found where none is configured.
pub fn effective_release_layout(
    config: Option<&DebianRepositoryConfig>,
    discovered_components: TextSet,
    discovered_architectures: TextSet,
) -> (r: (TextSet, TextSet))
    ensures
        r.0.deep_view() == layout(
            match config {
                Some(c) => Some(c.components.deep_view()),
                None => None,
            },
            true,
            discovered_components.deep_view(),
        ),
        r.1.deep_view() == layout(
            match config {
                Some(c) => Some(c.architectures.deep_view()),
                None => None,
            },
            false,
            discovered_architectures.deep_view(),
        ),
{
    match config {
        Some(c) => {
            let components = configured_release_values(c.components.as_slice(), true);
            let architectures = configured_release_values(c.architectures.as_slice(), false);
            (
                if components.is_empty() {
                    discovered_components
                } else {
                    components
                },
                if architectures.is_empty() {
                    discovered_architectures
                } else {
                    architectures
                },
            )
        },
        None => (discovered_components, discovered_architectures),
    }
}

// ---------------------------------------------------------------------------
// Release
// ---------------------------------------------------------------------------

impl Sortable for DigestedFile {
    open spec fn key(item: DigestedModel) -> Seq<Seq<char>> {
        seq![item.path]
    }

    fn comes_before(&self, other: &Self) -> (r: bool) {
        let ghost a = Self::key(self.deep_view());
        let ghost b = Self::key(other.deep_view());
        proof {
            reveal_with_fuel(key_lt, 2);
            assert(a.drop_first() =~= seq![]);
            assert(b.drop_first() =~= seq![]);
            if self.path@ == other.path@ {
                text_lt_irreflexive(self.path@);
            }
        }
        text_comes_before(self.path.as_str(), other.path.as_str())
    }
}

/// The digest of a file.
fn digest_of_file(file: &DigestedFile, algorithm: DigestName) -> (r: String)
    ensures
        r@ == file_digest(file.deep_view(), algorithm),
{
    match algorithm {
        DigestName::Md5 => file.md5.clone(),
        DigestName::Sha1 => file.sha1.clone(),
        DigestName::Sha256 => calculate_sha256_hex(file.bytes.as_slice()),
        DigestName::Sha512 => calculate_sha512_hex(file.bytes.as_slice()),
    }
}

/// Writes a hash section.
fn push_release_hash_section(
    release: &mut String,
    section: &str,
    files: &Vec<DigestedFile>,
    algorithm: DigestName,
)
    ensures
        final(release)@ == old(release)@ + section@ + digest_lines(files.deep_view(), algorithm),
{
    let ghost all = files.deep_view();
    release.append(section);
    let ghost start = release@;
    assert(start + digest_lines(all.take(0), algorithm) =~= start);
    for i in 0..files.len()
        invariant
            all == files.deep_view(),
            release@ == start + digest_lines(all.take(i as int), algorithm),
    {
        proof {
            assert(all.take(i + 1).drop_last() =~= all.take(i as int));
            assert(all.take(i + 1).last() == files[i as int].deep_view());
        }
        let digest = digest_of_file(&files[i], algorithm);
        let size: u64 = files[i].bytes.len() as u64;
        push_hash_line(release, digest.as_str(), size, files[i].path.as_str());
        assert(release@ =~= start + digest_lines(all.take(i + 1), algorithm));
    }
    assert(all.take(all.len() as int) =~= all);
}

/// Writes a Release of a date that lists the files.
pub fn build_release_content_at(
    suite: &str,
    codename: Option<&str>,
    description: Option<&str>,
    components: &TextSet,
    architectures: &TextSet,
    release_files: Vec<DigestedFile>,
    date: &str,
) -> (r: String)
    ensures
        r@ == release_content(
            suite@,
            opt_text(codename),
            opt_text(description),
            components.deep_view(),
            architectures.deep_view(),
            release_files.deep_view(),
            date@,
        ),
{
    let files = sort_items(release_files);
    let component_list = join_texts(components.items().as_slice(), " ");
    let arch_list = join_texts(architectures.items().as_slice(), " ");
    let mut release = cat2("Origin: artifact-keeper\n", "Label: artifact-keeper\n");
    release.append("Suite: ");
    release.append(suite);
    release.append("\n");
    let ghost head = release@;
    let mut named = false;
    if let Some(name) = codename {
        if !is_blank_text(name) {
            named = true;
            release.append("Codename: ");
            release.append(name);
            release.append("\n");
            assert(release@ =~= head + ("Codename: "@ + name@ + "\n"@));
        }
    }
    assert(!named ==> head + Seq::<char>::empty() =~= head);
    release.append("Date: ");
    release.append(date);
    release.append("\n");
    release.append("Architectures: ");
    release.append(arch_list.as_str());
    release.append("\n");
    release.append("Components: ");
    release.append(component_list.as_str());
    release.append("\n");
    push_optional_control_field(&mut release, "Description", description);
    push_release_hash_section(&mut release, "MD5Sum:\n", &files, DigestName::Md5);
    push_release_hash_section(&mut release, "SHA1:\n", &files, DigestName::Sha1);
    push_release_hash_section(&mut release, "SHA256:\n", &files, DigestName::Sha256);
    push_release_hash_section(&mut release, "SHA512:\n", &files, DigestName::Sha512);
    release
}

/// Writes a Release of the present moment that lists the files.
pub fn build_release_content_from_files(
    suite: &str,
    codename: Option<&str>,
    description: Option<&str>,
    components: &TextSet,
    architectures: &TextSet,
    release_files: Vec<DigestedFile>,
) -> (r: String)
    ensures
        exists|date: Seq<char>|
            #[trigger] is_plain_line(date) && r@ == release_content(
                suite@,
                opt_text(codename),
                opt_text(description),
                components.deep_view(),
                architectures.deep_view(),
                release_files.deep_view(),
                date,
            ),
{
    let date = utc_now("%a, %d %b %Y %H:%M:%S UTC");
    build_release_content_at(
        suite,
        codename,
        description,
        components,
        architectures,
        release_files,
        date.as_str(),
    )
}

pub(crate) proof fn bytes_view(v: Vec<u8>)
    ensures
        v.deep_view() == v@,
{
    assert(v.deep_view() =~= v@);
}

/// Adds an index to the files of a Release, plain and in both compressions.
pub fn push_index_variants(
    release_files: &mut Vec<(String, Vec<u8>)>,
    plain_path: &str,
    plain_bytes: &[u8],
) -> (r: std::result::Result<(), Refusal>)
    ensures
        final(release_files).deep_view() == with_variants(
            old(release_files).deep_view(),
            plain_path@,
            plain_bytes@,
        ).0,
        verdict(r) == with_variants(
            old(release_files).deep_view(),
            plain_path@,
            plain_bytes@,
        ).1,
        r is Ok && valid_utf8(plain_bytes@) ==> {
            let n = old(release_files).deep_view().len() as int;
            let files = final(release_files).deep_view();
            let text = decode_utf8(plain_bytes@);
            &&& files.len() == n + 3
            &&& files.take(n) == old(release_files).deep_view()
            &&& files[n] == (plain_path@, plain_bytes@)
            &&& files[n + 1].0 == plain_path@ + ".gz"@
            &&& files[n + 2].0 == plain_path@ + ".xz"@
            &&& !names_compressed(plain_path@) ==> reads_as(plain_path@, files[n].1, text)
            &&& reads_as(plain_path@ + ".gz"@, files[n + 1].1, text)
            &&& reads_as(plain_path@ + ".xz"@, files[n + 2].1, text)
        },
{
    let ghost start = release_files.deep_view();
    let plain = copy_bytes(plain_bytes);
    proof {
        bytes_view(plain);
    }
    release_files.push((plain_path.to_string(), plain));
    let ghost first = start.push((plain_path@, plain_bytes@));
    assert(release_files.deep_view() =~= first);
    match gzip(plain_bytes) {
        Ok(gz) => {
            let ghost m = gz@;
            proof {
                bytes_view(gz);
            }
            proof {
                form_reads_as(plain_path@, m, decode_utf8(plain_bytes@));
            }
            release_files.push((cat2(plain_path, ".gz"), gz));
            assert(release_files.deep_view() =~= first.push((plain_path@ + ".gz"@, m)));
        },
        Err(fault) => {
            return Err(refuse2(500, "Compression error: ", fault.as_str()));
        },
    }
    let ghost second = release_files.deep_view();
    match xz(plain_bytes) {
        Ok(bytes) => {
            let ghost m = bytes@;
            proof {
                bytes_view(bytes);
            }
            proof {
                form_reads_as(plain_path@, m, decode_utf8(plain_bytes@));
                form_reads_as(plain_path@, plain_bytes@, decode_utf8(plain_bytes@));
            }
            release_files.push((cat2(plain_path, ".xz"), bytes));
            assert(release_files.deep_view() =~= second.push((plain_path@ + ".xz"@, m)));
            assert(release_files.deep_view().take(start.len() as int) =~= start);
        },
        Err(fault) => {
            return Err(refuse2(500, "XZ compression error: ", fault.as_str()));
        },
    }
    Ok(())
}

/// The files and packages that a Contents index of hosted packages is made of.
pub fn contents_entries(entries: &[PackageEntry]) -> (r: Vec<(String, String)>)
    ensures
        r.deep_view() == entries.deep_view().map_values(
            |entry: HostedModel| (entry.filename, entry.control.package),
        ),
{
    let ghost all = entries.deep_view().map_values(
        |entry: HostedModel| (entry.filename, entry.control.package),
    );
    let mut r: Vec<(String, String)> = Vec::new();
    assert(r.deep_view() =~= all.take(0));
    for i in 0..entries.len()
        invariant
            all == entries.deep_view().map_values(
                |entry: HostedModel| (entry.filename, entry.control.package),
            ),
            r.deep_view() == all.take(i as int),
    {
        let ghost before = r.deep_view();
        assert(entries.deep_view()[i as int] == entries[i as int].deep_view());
        r.push((entries[i].filename.clone(), entries[i].control.package.clone()));
        assert(r.deep_view() =~= before.push(all[i as int]));
        assert(all.take(i + 1) =~= before.push(all[i as int]));
    }
    assert(all.take(all.len() as int) =~= all);
    r
}

/// Adds the Packages index of hosted packages, and the Contents index that goes
/// with it, to the files of a Release.
pub fn push_hosted_indexes(
    release_files: &mut Vec<(String, Vec<u8>)>,
    component: &str,
    arch: &str,
    entries: &[PackageEntry],
    contents: &str,
) -> (r: std::result::Result<(), Refusal>)
    ensures
        final(release_files).deep_view() == with_hosted_indexes(
            old(release_files).deep_view(),
            component@,
            arch@,
            hosted_text(entries.deep_view()),
            contents@,
        ).0,
        verdict(r) == with_hosted_indexes(
            old(release_files).deep_view(),
            component@,
            arch@,
            hosted_text(entries.deep_view()),
            contents@,
        ).1,
        r is Ok ==> {
            let n = old(release_files).deep_view().len() as int;
            let files = final(release_files).deep_view();
            let packages = hosted_text(entries.deep_view());
            let a = component@ + "/binary-"@ + arch@ + "/Packages"@;
            let b = component@ + "/Contents-"@ + arch@;
            &&& files.len() == n + 6
            &&& files.take(n) == old(release_files).deep_view()
            &&& files[n] == (a, encode_utf8(packages))
            &&& files[n + 1].0 == a + ".gz"@ && reads_as(a + ".gz"@, files[n + 1].1, packages)
            &&& files[n + 2].0 == a + ".xz"@ && reads_as(a + ".xz"@, files[n + 2].1, packages)
            &&& files[n + 3] == (b, encode_utf8(contents@))
            &&& files[n + 4].0 == b + ".gz"@ && reads_as(b + ".gz"@, files[n + 4].1, contents@)
            &&& files[n + 5].0 == b + ".xz"@ && reads_as(b + ".xz"@, files[n + 5].1, contents@)
        },
{
    let ghost n = release_files.deep_view().len() as int;
    let packages = build_packages_text(entries);
    proof {
        encode_utf8_valid_utf8(packages@);
        encode_utf8_decode_utf8(packages@);
        encode_utf8_valid_utf8(contents@);
        encode_utf8_decode_utf8(contents@);
    }
    let packages_path = cat4(component, "/binary-", arch, "/Packages");
    if let Err(refusal) = push_index_variants(
        release_files,
        packages_path.as_str(),
        packages.as_str().as_bytes(),
    ) {
        return Err(refusal);
    }
    let ghost first = release_files.deep_view();
    let contents_path = cat3(component, "/Contents-", arch);
    let r = push_index_variants(release_files, contents_path.as_str(), contents.as_bytes());
    proof {
        if r is Ok {
            let files = release_files.deep_view();
            assert(files.take(n + 3) == first);
            assert(files.take(n) =~= first.take(n));
            assert forall|i: int| 0 <= i < n + 3 implies files[i] == first[i] by {
                assert(files.take(n + 3)[i] == files[i]);
            }
        }
    }
    r
}

/// The path under which a file can be fetched by its digest.
pub fn by_hash_path(algorithm: &str, digest: &str) -> (r: String)
    ensures
        r@ == hash_path(algorithm@, digest@),
{
    cat4("by-hash/", algorithm, "/", digest)
}

/// Some file has the path.
fn holds_path(files: &Vec<(String, Vec<u8>)>, path: &str) -> (r: bool)
    ensures
        r == has_path(files.deep_view(), path@),
{
    let ghost all = files.deep_view();
    let mut i: usize = 0;
    while i < files.len()
        invariant
            i <= files.len(),
            all == files.deep_view(),
            forall|j: int| 0 <= j < i ==> (#[trigger] all[j]).0 != path@,
        decreases files.len() - i,
    {
        assert(all[i as int].0 == files[i as int].0@);
        if same_text(files[i].0.as_str(), path) {
            return true;
        }
        i += 1;
    }
    false
}

/// Adds an alias by digest for every file of a Release that is none itself.
pub fn append_by_hash_release_files(release_files: &mut Vec<(String, Vec<u8>)>)
    ensures
        final(release_files).deep_view() == aliased(old(release_files).deep_view()),
{
    let ghost start = release_files.deep_view();
    let count: usize = release_files.len();
    let ghost mut named = no_aliases(start.take(0));
    assert(with_aliases(start, named) =~= start);
    for i in 0..count
        invariant
            count == start.len(),
            named == no_aliases(start.take(i as int)),
            start.is_prefix_of(release_files.deep_view()),
            release_files.deep_view() == with_aliases(start, named),
    {
        let ghost before = release_files.deep_view();
        assert(before[i as int] == start[i as int]);
        assert(before[i as int].0 == release_files[i as int].0@);
        assert(before[i as int].1 == release_files[i as int].1@);
        assert(start.take(i + 1).drop_last() =~= start.take(i as int));
        assert(start.take(i + 1).last() == start[i as int]);
        let chars = chars_of(release_files[i].0.as_str());
        if !begins(chars.as_slice(), "by-hash/") {
            let digest = calculate_sha256_hex(release_files[i].1.as_slice());
            let path = by_hash_path("SHA256", digest.as_str());
            let ghost path_model = path@;
            if !holds_path(release_files, path.as_str()) {
                let bytes = copy_bytes(release_files[i].1.as_slice());
                release_files.push((path, bytes));
                assert(release_files.deep_view() =~= before.push(
                    (path_model, start[i as int].1),
                ));
            }
            proof {
                let next = named.push(start[i as int]);
                assert(next.drop_last() =~= named);
                assert(release_files.deep_view() == with_aliases(start, next));
                with_aliases_keeps(start, next);
                named = next;
            }
        }
    }
    assert(start.take(start.len() as int) =~= start);
}

/// Hands out the first file of a Release that has the path.
pub fn find_release_file(files: &Vec<(String, Vec<u8>)>, path: &str) -> (r: Option<FileReply>)
    ensures
        r.deep_view() == (match file_at(files.deep_view(), path@) {
            Some(bytes) => Some(reply_of(content_type_of(path@), bytes)),
            None => None,
        }),
{
    let ghost all = files.deep_view();
    let mut i: usize = 0;
    assert(all.skip(0) =~= all);
    while i < files.len()
        invariant
            i <= files.len(),
            all == files.deep_view(),
            file_at(all, path@) == file_at(all.skip(i as int), path@),
        decreases files.len() - i,
    {
        proof {
            assert(all.skip(i as int)[0] == all[i as int]);
            assert(all[i as int].0 == files[i as int].0@);
            assert(all[i as int].1 == files[i as int].1@);
            assert(all.skip(i as int).drop_first() =~= all.skip(i + 1));
        }
        if same_text(files[i].0.as_str(), path) {
            return Some(
                file_reply(content_type_for_dists_path(path), copy_bytes(files[i].1.as_slice())),
            );
        }
        i += 1;
    }
    None
}

} // verus!
