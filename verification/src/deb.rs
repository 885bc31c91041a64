//! Package files and the paths at which a repository holds them.

use vstd::prelude::*;
use vstd::slice::slice_subrange;
use vstd::utf8::{decode_utf8, encode_utf8, valid_utf8};

use crate::archive::{bz2_member, gz_member, plain_member, read_bz2_member, read_gz_member, read_plain_member};
use crate::archive::{read_xz_member, read_zst_member, xz_member, zst_member, MemberModel, TarMember};
use crate::codec::utf8_text;
use crate::control::{control_of, ControlModel, DebControl};
use crate::error::{invalid, outcome, AppError, Failure, Result};
use crate::number::{decimal_usize, parse_usize};
use crate::release::Release;
use crate::text::{begins, cat2, cat5, chars_of, contains_text, ends, ends_with, find, find_char, find_is_first};
use crate::text::{holds_text, is_text, pieces, split, split_at_char, split_first, split_single, split_tail};
use crate::text::{starts_with, text_of, trim, trim_end_char, trim_end_char_of, trim_of, trim_start_char};
use crate::text::{trim_start_char_of, trim_start_text, trim_start_text_of};

verus! {

/// The handler of the Debian format.
#[derive(Debug)]
pub struct DebianHandler;

/// What a repository path asks for.
#[derive(Clone, Copy, Debug, PartialEq, Eq, Structural)]
pub enum DebianOperation {
    /// The Release metadata of a distribution.
    Release,
    /// A Packages index.
    Packages,
    /// A package file.
    Package,
}

/// What a repository path says.
#[derive(Debug)]
pub struct DebianPathInfo {
    pub package: Option<String>,
    pub version: Option<String>,
    pub arch: Option<String>,
    pub component: Option<String>,
    pub distribution: Option<String>,
    pub operation: DebianOperation,
}

/// What the path and the content of a file say.
#[derive(Debug)]
pub struct DebianFileMetadata {
    pub info: DebianPathInfo,
    pub control: Option<DebControl>,
}

// ---------------------------------------------------------------------------
// Model: paths
// ---------------------------------------------------------------------------

/// What a `DebianPathInfo` holds.
#[verifier::ext_equal]
pub struct PathModel {
    pub package: Option<Seq<char>>,
    pub version: Option<Seq<char>>,
    pub arch: Option<Seq<char>>,
    pub component: Option<Seq<char>>,
    pub distribution: Option<Seq<char>>,
    pub operation: DebianOperation,
}

impl DeepView for DebianPathInfo {
    type V = PathModel;

    open spec fn deep_view(&self) -> PathModel {
        PathModel {
            package: self.package.deep_view(),
            version: self.version.deep_view(),
            arch: self.arch.deep_view(),
            component: self.component.deep_view(),
            distribution: self.distribution.deep_view(),
            operation: self.operation,
        }
    }
}

/// The path without a package.
pub open spec fn index_path_model(
    arch: Option<Seq<char>>,
    component: Option<Seq<char>>,
    distribution: Option<Seq<char>>,
    operation: DebianOperation,
) -> PathModel {
    PathModel { package: None, version: None, arch, component, distribution, operation }
}

/// The name of a package file without its extension.
pub open spec fn file_stem(filename: Seq<char>) -> Option<Seq<char>> {
    if ends_with(filename, ".deb"@) {
        Some(filename.take(filename.len() - ".deb"@.len()))
    } else if ends_with(filename, ".udeb"@) {
        Some(filename.take(filename.len() - ".udeb"@.len()))
    } else {
        None
    }
}

/// Name, version and architecture of a package file: the texts before the first
/// underscore, between the first two, and behind the second.
pub open spec fn name_parts(filename: Seq<char>) -> Option<(Seq<char>, Seq<char>, Seq<char>)> {
    match file_stem(filename) {
        None => None,
        Some(stem) => {
            let a = find(stem, '_') as int;
            let rest = stem.skip(a + 1);
            let b = find(rest, '_') as int;
            if a < stem.len() && b < rest.len() {
                Some((stem.take(a), rest.take(b), rest.skip(b + 1)))
            } else {
                None
            }
        },
    }
}

/// What the name of a package file says, or why it says nothing.
pub open spec fn deb_filename(filename: Seq<char>) -> std::result::Result<
    (Seq<char>, Seq<char>, Seq<char>),
    Failure,
> {
    match name_parts(filename) {
        Some(parts) => Ok(parts),
        None => Err(Failure::Validation("Invalid Debian package filename: "@ + filename)),
    }
}

/// The second part of a path whose first part is `first`.
pub open spec fn second_part(parts: Seq<Seq<char>>, first: Seq<char>) -> Option<Seq<char>> {
    if parts.len() >= 2 && parts[0] == first {
        Some(parts[1])
    } else {
        None
    }
}

/// The path names Release metadata.
pub open spec fn names_release(path: Seq<char>) -> bool {
    contains_text(path, "/Release"@) || contains_text(path, "/InRelease"@)
}

/// The path names a package file, or something under the pool.
pub open spec fn names_package(path: Seq<char>) -> bool {
    starts_with(path, "pool/"@) || ends_with(path, ".deb"@) || ends_with(path, ".udeb"@)
}

/// The path names a package file in its place in the pool: below a component, a
/// prefix and a source, under a name that gives name, version and architecture.
pub open spec fn names_pool_file(path: Seq<char>) -> bool {
    let parts = split(path, '/');
    parts.len() >= 5 && parts[0] == "pool"@ && name_parts(parts.last()) is Some
}

/// What the path of a package file says.
pub open spec fn package_path_info(path: Seq<char>) -> std::result::Result<PathModel, Failure> {
    let parts = split(path, '/');
    match deb_filename(parts.last()) {
        Ok((name, version, arch)) => Ok(
            PathModel {
                package: Some(name),
                version: Some(version),
                arch: Some(arch),
                component: second_part(parts, "pool"@),
                distribution: None,
                operation: DebianOperation::Package,
            },
        ),
        Err(failure) => Err(failure),
    }
}

/// What a repository path says, leading slashes aside. A package file in its place
/// in the pool is one whatever else its path holds.
pub open spec fn path_info(full: Seq<char>) -> std::result::Result<PathModel, Failure> {
    let path = trim_start_char(full, '/');
    let parts = split(path, '/');
    if names_pool_file(path) {
        package_path_info(path)
    } else if names_release(path) {
        Ok(index_path_model(None, None, second_part(parts, "dists"@), DebianOperation::Release))
    } else if contains_text(path, "/Packages"@) {
        if parts.len() >= 5 && parts[0] == "dists"@ {
            let arch = if starts_with(parts[3], "binary-"@) {
                Some(trim_start_text(parts[3], "binary-"@))
            } else {
                None
            };
            Ok(index_path_model(arch, Some(parts[2]), Some(parts[1]), DebianOperation::Packages))
        } else {
            Ok(index_path_model(None, None, None, DebianOperation::Packages))
        }
    } else if names_package(path) {
        package_path_info(path)
    } else {
        Err(Failure::Validation("Invalid Debian repository path: "@ + path))
    }
}

/// The directory below a component under which a package is filed: the first
/// four characters of a library, else the first character.
pub open spec fn pool_prefix(package: Seq<char>) -> Seq<char> {
    if starts_with(package, "lib"@) && package.len() > 4 {
        package.take(4)
    } else if package.len() == 0 {
        seq!['_']
    } else {
        package.take(1)
    }
}

/// The path of a package file in the pool.
pub open spec fn pool_path(component: Seq<char>, package: Seq<char>, filename: Seq<char>) -> Seq<
    char,
> {
    "pool/"@ + component + "/"@ + pool_prefix(package) + "/"@ + package + "/"@ + filename
}

// ---------------------------------------------------------------------------
// Model: package files
// ---------------------------------------------------------------------------

/// What the search for the control archive in a package file finds.
#[verifier::ext_equal]
pub enum ArSearch {
    /// No member of that name.
    Missing,
    /// The member is longer than what is left of the file.
    Truncated,
    /// The member: its name and its content.
    Found { name: Seq<char>, data: Seq<u8> },
}

/// The bytes as text, or the given text where they are not valid UTF-8.
pub open spec fn utf8_or(data: Seq<u8>, other: Seq<char>) -> Seq<char> {
    if valid_utf8(data) {
        decode_utf8(data)
    } else {
        other
    }
}

/// The name in the header of an ar member.
pub open spec fn ar_name(header: Seq<u8>) -> Seq<char> {
    trim_end_char(trim(utf8_or(header.subrange(0, 16), ""@)), '/')
}

/// The size in the header of an ar member; zero where it is no number.
pub open spec fn ar_size(header: Seq<u8>) -> nat {
    match decimal_usize(trim(utf8_or(header.subrange(48, 58), "0"@))) {
        Some(size) => size as nat,
        None => 0,
    }
}

/// The first member at or behind `offset` whose name begins with `control.tar`.
/// A member has a header of sixty bytes and starts at an even offset.
pub open spec fn ar_search(content: Seq<u8>, offset: nat) -> ArSearch
    decreases content.len() + 1 - offset,
{
    if offset + 60 > content.len() {
        ArSearch::Missing
    } else {
        let header = content.subrange(offset as int, offset as int + 60);
        let start = offset + 60;
        let end = start + ar_size(header);
        if starts_with(ar_name(header), "control.tar"@) {
            if end > content.len() {
                ArSearch::Truncated
            } else {
                ArSearch::Found {
                    name: ar_name(header),
                    data: content.subrange(start as int, end as int),
                }
            }
        } else if end > content.len() {
            ArSearch::Missing
        } else {
            ar_search(content, (end + end % 2) as nat)
        }
    }
}

/// What stands behind the last slash of a path.
pub open spec fn after_slash(path: Seq<u8>) -> Seq<u8>
    decreases path.len(),
{
    if path.len() == 0 || path.last() == 47 {
        seq![]
    } else {
        after_slash(path.drop_last()).push(path.last())
    }
}

/// The last component of a path, empty components and `.` behind a slash aside.
pub open spec fn last_component(path: Seq<u8>) -> Seq<u8>
    decreases path.len(),
{
    let c = after_slash(path);
    if c.len() < path.len() && (c.len() == 0 || c == seq![46u8]) {
        last_component(path.take(path.len() - c.len() - 1))
    } else {
        c
    }
}

/// The member of the control archive at a position, read as its name's
/// extension says.
pub open spec fn control_member(data: Seq<u8>, name: Seq<char>, i: nat) -> MemberModel {
    if ends_with(name, ".gz"@) {
        gz_member(data, i)
    } else if ends_with(name, ".xz"@) {
        xz_member(data, i)
    } else if ends_with(name, ".bz2"@) {
        bz2_member(data, i)
    } else if ends_with(name, ".zst"@) || ends_with(name, ".zstd"@) {
        zst_member(data, i)
    } else {
        plain_member(data, i)
    }
}

/// What the first member named `control` from position `i` on says. Positions
/// are counted by `usize`.
pub open spec fn control_from(data: Seq<u8>, name: Seq<char>, i: nat) -> std::result::Result<
    ControlModel,
    Failure,
>
    decreases usize::MAX - i,
{
    match control_member(data, name, i) {
        MemberModel::BadStream(fault) => Err(
            Failure::Validation("Invalid control.tar zstd stream: "@ + fault),
        ),
        MemberModel::BadArchive(fault) => Err(
            Failure::Validation("Invalid control.tar: "@ + fault),
        ),
        MemberModel::BadEntry(fault) => Err(Failure::Validation("Invalid tar entry: "@ + fault)),
        MemberModel::End => Err(
            Failure::Validation("control file not found in control.tar"@),
        ),
        MemberModel::File { path, text } => if last_component(path) == encode_utf8("control"@) {
            match text {
                Ok(text) => control_of(text),
                Err(fault) => Err(Failure::Validation("Failed to read control file: "@ + fault)),
            }
        } else if i >= usize::MAX {
            Err(Failure::Validation("control file not found in control.tar"@))
        } else {
            control_from(data, name, i + 1)
        },
    }
}

/// What the control file in a package file says.
pub open spec fn deb_control(content: Seq<u8>) -> std::result::Result<ControlModel, Failure> {
    if !encode_utf8("!<arch>\n"@).is_prefix_of(content) {
        Err(Failure::Validation("Invalid .deb file: not an ar archive"@))
    } else {
        match ar_search(content, 8) {
            ArSearch::Missing => Err(Failure::Validation("control.tar not found in .deb file"@)),
            ArSearch::Truncated => Err(
                Failure::Validation("Invalid .deb file: truncated ar member"@),
            ),
            ArSearch::Found { name, data } => control_from(data, name, 0),
        }
    }
}

/// What a `DebianFileMetadata` holds.
#[verifier::ext_equal]
pub struct FileMetadataModel {
    pub info: PathModel,
    pub control: Option<ControlModel>,
}

/// What the path and the content of a file say. A package file whose control
/// file cannot be read is described by its path alone.
pub open spec fn file_metadata(path: Seq<char>, content: Seq<u8>) -> std::result::Result<
    FileMetadataModel,
    Failure,
> {
    match path_info(path) {
        Err(failure) => Err(failure),
        Ok(info) => Ok(
            FileMetadataModel {
                info,
                control: if content.len() > 0 && info.operation == DebianOperation::Package {
                    match deb_control(content) {
                        Ok(control) => Some(control),
                        Err(_) => None,
                    }
                } else {
                    None
                },
            },
        ),
    }
}

/// The complaint that path and control file disagree on something.
pub open spec fn mismatch(what: Seq<char>, path: Seq<char>, control: Seq<char>) -> Failure {
    Failure::Validation(
        what + " mismatch: path says '"@ + path + "' but control says '"@ + control + "'"@,
    )
}

/// The control file says what the path says.
pub open spec fn agreement(info: PathModel, control: ControlModel) -> std::result::Result<
    (),
    Failure,
> {
    if info.package is Some && control.package != info.package->0 {
        Err(mismatch("Package name"@, info.package->0, control.package))
    } else if info.version is Some && control.version != info.version->0 {
        Err(mismatch("Version"@, info.version->0, control.version))
    } else if info.arch is Some && control.architecture != info.arch->0 {
        Err(mismatch("Architecture"@, info.arch->0, control.architecture))
    } else {
        Ok(())
    }
}

/// Whether a file may be stored at a path: the path has to be one of a
/// repository, and a package file has to say what its path says.
pub open spec fn file_validity(path: Seq<char>, content: Seq<u8>) -> std::result::Result<
    (),
    Failure,
> {
    match path_info(path) {
        Err(failure) => Err(failure),
        Ok(info) => if content.len() > 0 && info.operation == DebianOperation::Package {
            match deb_control(content) {
                Err(failure) => Err(failure),
                Ok(control) => agreement(info, control),
            }
        } else {
            Ok(())
        },
    }
}

// ---------------------------------------------------------------------------
// Laws
// ---------------------------------------------------------------------------

/// The parts of the path under which a package file is filed.
proof fn pool_path_parts(component: Seq<char>, package: Seq<char>, filename: Seq<char>)
    requires
        !component.contains('/'),
        !filename.contains('/'),
    ensures
        ({
            let path = pool_path(component, package, filename);
            let parts = split(path, '/');
            &&& trim_start_char(path, '/') == path
            &&& parts.len() >= 5
            &&& parts[0] == "pool"@
            &&& parts[1] == component
            &&& parts.last() == filename
        }),
{
    let path = pool_path(component, package, filename);
    reveal_strlit("pool/");
    reveal_strlit("pool");
    reveal_strlit("/");
    let file = package + seq!['/'] + filename;
    let tail = pool_prefix(package) + seq!['/'] + file;
    assert(path =~= "pool"@ + seq!['/'] + (component + seq!['/'] + tail));
    assert(!"pool"@.contains('/'));
    split_first("pool"@, component + seq!['/'] + tail, '/');
    split_first(component, tail, '/');
    split_single(filename, '/');
    split_tail(package, filename, '/');
    split_tail(pool_prefix(package), file, '/');
    let parts = seq!["pool"@] + (seq![component] + split(tail, '/'));
    assert(split(path, '/') == parts);
    assert(parts[1] == component);
    assert(parts.last() == split(tail, '/').last());
    assert(path[0] == 'p');
}

/// The path under which a package file is filed leads back to it: it names a
/// package of that component, with the name, version and architecture that the
/// file's name gives.
pub proof fn pool_path_leads_back(component: Seq<char>, package: Seq<char>, filename: Seq<char>)
    requires
        !component.contains('/'),
        !filename.contains('/'),
        name_parts(filename) is Some,
    ensures
        path_info(pool_path(component, package, filename)) == Ok::<PathModel, Failure>(
            PathModel {
                package: Some((name_parts(filename)->Some_0).0),
                version: Some((name_parts(filename)->Some_0).1),
                arch: Some((name_parts(filename)->Some_0).2),
                component: Some(component),
                distribution: None,
                operation: DebianOperation::Package,
            },
        ),
{
    pool_path_parts(component, package, filename);
}

proof fn control_from_is_complete(data: Seq<u8>, name: Seq<char>, i: nat)
    ensures
        control_from(data, name, i) matches Ok(c) ==> c.package.len() > 0 && c.version.len() > 0
            && c.architecture.len() > 0,
    decreases usize::MAX - i,
{
    if i < usize::MAX {
        control_from_is_complete(data, name, i + 1);
    }
}

/// What is read from a package file always names a package, a version and an
/// architecture.
pub proof fn extracted_control_is_complete(content: Seq<u8>)
    ensures
        deb_control(content) matches Ok(c) ==> c.package.len() > 0 && c.version.len() > 0
            && c.architecture.len() > 0,
{
    if let ArSearch::Found { name, data } = ar_search(content, 8) {
        control_from_is_complete(data, name, 0);
    }
}

// ---------------------------------------------------------------------------
// Paths
// ---------------------------------------------------------------------------

impl Default for DebianHandler {
    fn default() -> (r: Self)
        ensures
            r == DebianHandler,
    {
        DebianHandler
    }
}

/// The second part of a path whose first part is `first`.
fn second_part_of(parts: &Vec<&[char]>, first: &str) -> (r: Option<String>)
    ensures
        r.deep_view() == second_part(pieces(parts@), first@),
{
    if parts.len() >= 2 && is_text(parts[0], first) {
        Some(text_of(parts[1]))
    } else {
        None
    }
}

/// What the parts of a package file's path say.
fn package_path_parts(parts: &Vec<&[char]>) -> (r: Result<DebianPathInfo>)
    requires
        parts.len() >= 1,
    ensures
        forall|path: Seq<char>|
            pieces(parts@) == split(path, '/') ==> outcome(r) == #[trigger] package_path_info(path),
{
    let filename = text_of(parts[parts.len() - 1]);
    match DebianHandler::parse_deb_filename(filename.as_str()) {
        Ok((name, version, arch)) => Ok(
            DebianPathInfo {
                package: Some(name),
                version: Some(version),
                arch: Some(arch),
                component: second_part_of(parts, "pool"),
                distribution: None,
                operation: DebianOperation::Package,
            },
        ),
        Err(error) => Err(error),
    }
}

impl DebianHandler {
    /// A handler.
    pub fn new() -> (r: Self)
        ensures
            r == DebianHandler,
    {
        DebianHandler
    }

    /// Says what a repository path asks for:
    ///
    /// - `dists/<dist>/Release`, `Release.gpg`, `InRelease`;
    /// - `dists/<dist>/<comp>/binary-<arch>/Packages`, also compressed;
    /// - `pool/<comp>/<prefix>/<source>/<package>_<version>_<arch>.deb`, whatever
    ///   the package is called.
    pub fn parse_path(path: &str) -> (r: Result<DebianPathInfo>)
        ensures
            outcome(r) == path_info(path@),
    {
        let full = chars_of(path);
        let path = trim_start_char_of(full.as_slice(), '/');
        let parts = split_at_char(path, '/');
        if parts.len() >= 5 && is_text(parts[0], "pool") {
            if let Ok(info) = package_path_parts(&parts) {
                return Ok(info);
            }
        }
        if holds_text(path, "/Release") || holds_text(path, "/InRelease") {
            return Ok(
                DebianPathInfo {
                    package: None,
                    version: None,
                    arch: None,
                    component: None,
                    distribution: second_part_of(&parts, "dists"),
                    operation: DebianOperation::Release,
                },
            );
        }
        if holds_text(path, "/Packages") {
            let mut distribution: Option<String> = None;
            let mut component: Option<String> = None;
            let mut arch: Option<String> = None;
            if parts.len() >= 5 && is_text(parts[0], "dists") {
                distribution = Some(text_of(parts[1]));
                component = Some(text_of(parts[2]));
                if begins(parts[3], "binary-") {
                    arch = Some(text_of(trim_start_text_of(parts[3], "binary-")));
                }
            }
            return Ok(
                DebianPathInfo {
                    package: None,
                    version: None,
                    arch,
                    component,
                    distribution,
                    operation: DebianOperation::Packages,
                },
            );
        }
        if begins(path, "pool/") || ends(path, ".deb") || ends(path, ".udeb") {
            return package_path_parts(&parts);
        }
        let text = text_of(path);
        Err(AppError::Validation(cat2("Invalid Debian repository path: ", text.as_str())))
    }

    /// Takes the name of a package file apart: `<name>_<version>_<arch>.deb`.
    pub fn parse_deb_filename(filename: &str) -> (r: Result<(String, String, String)>)
        ensures
            outcome(r) == deb_filename(filename@),
    {
        let chars = chars_of(filename);
        let ghost all = filename@;
        let stem = if ends(chars.as_slice(), ".deb") {
            proof {
                reveal_strlit(".deb");
                assert(all.subrange(0, all.len() - 4) =~= all.take(all.len() - 4));
            }
            slice_subrange(chars.as_slice(), 0, chars.len() - 4)
        } else if ends(chars.as_slice(), ".udeb") {
            proof {
                reveal_strlit(".udeb");
                assert(all.subrange(0, all.len() - 5) =~= all.take(all.len() - 5));
            }
            slice_subrange(chars.as_slice(), 0, chars.len() - 5)
        } else {
            return Err(AppError::Validation(cat2("Invalid Debian package filename: ", filename)));
        };
        assert(file_stem(all) == Some(stem@));
        proof {
            find_is_first(stem@, '_');
        }
        let a = find_char(stem, '_');
        if a < stem.len() {
            let rest = slice_subrange(stem, a + 1, stem.len());
            proof {
                find_is_first(rest@, '_');
                assert(rest@ =~= stem@.skip(a + 1));
                assert(stem@.subrange(0, a as int) =~= stem@.take(a as int));
            }
            let b = find_char(rest, '_');
            if b < rest.len() {
                proof {
                    assert(rest@.subrange(0, b as int) =~= rest@.take(b as int));
                    assert(rest@.subrange(b + 1, rest@.len() as int) =~= rest@.skip(b + 1));
                }
                return Ok(
                    (
                        text_of(slice_subrange(stem, 0, a)),
                        text_of(slice_subrange(rest, 0, b)),
                        text_of(slice_subrange(rest, b + 1, rest.len())),
                    ),
                );
            }
        }
        Err(AppError::Validation(cat2("Invalid Debian package filename: ", filename)))
    }

    /// The directory below a component under which a package is filed.
    pub fn get_pool_prefix(package: &str) -> (r: String)
        requires
            starts_with(package@, "lib"@) && package@.len() >= 4 ==> package@[3] < '\u{80}',
        ensures
            r@ == pool_prefix(package@),
    {
        let chars = chars_of(package);
        if begins(chars.as_slice(), "lib") && chars.len() > 4 {
            assert(package@.subrange(0, 4) =~= package@.take(4));
            text_of(slice_subrange(chars.as_slice(), 0, 4))
        } else if chars.len() == 0 {
            let mut r = String::new();
            r.push('_');
            r
        } else {
            assert(package@.subrange(0, 1) =~= package@.take(1));
            text_of(slice_subrange(chars.as_slice(), 0, 1))
        }
    }

    /// The path of a package file in the pool. The prefix of a library is its
    /// first four bytes, so the fourth character must be an ASCII character.
    pub fn get_pool_path(component: &str, package: &str, filename: &str) -> (r: String)
        requires
            starts_with(package@, "lib"@) && package@.len() >= 4 ==> package@[3] < '\u{80}',
        ensures
            r@ == pool_path(component@, package@, filename@),
    {
        let prefix = Self::get_pool_prefix(package);
        let mut r = cat5("pool/", component, "/", prefix.as_str(), "/");
        r.append(package);
        r.append("/");
        r.append(filename);
        r
    }
}

// ---------------------------------------------------------------------------
// Package files
// ---------------------------------------------------------------------------

/// The two slices hold the same bytes.
fn same_bytes(a: &[u8], b: &[u8]) -> (r: bool)
    ensures
        r == (a@ == b@),
{
    if a.len() != b.len() {
        return false;
    }
    let mut i: usize = 0;
    while i < a.len()
        invariant
            i <= a.len(),
            a.len() == b.len(),
            forall|j: int| 0 <= j < i ==> a@[j] == b@[j],
        decreases a.len() - i,
    {
        if a[i] != b[i] {
            return false;
        }
        i += 1;
    }
    assert(a@ =~= b@);
    true
}

/// The bytes as text, or the given text where they are not valid UTF-8.
fn utf8_text_or(data: &[u8], other: &str) -> (r: Vec<char>)
    ensures
        r@ == utf8_or(data@, other@),
{
    match utf8_text(data) {
        Ok(text) => chars_of(text.as_str()),
        Err(_) => chars_of(other),
    }
}

/// The last component of the path is the given name.
fn is_last_component(path: &[u8], name: &[u8]) -> (r: bool)
    ensures
        r == (last_component(path@) == name@),
{
    let mut end: usize = path.len();
    assert(path@.take(end as int) =~= path@);
    loop
        invariant
            end <= path.len(),
            last_component(path@.take(end as int)) == last_component(path@),
        decreases end,
    {
        let ghost p = path@.take(end as int);
        let mut start: usize = end;
        assert(p.subrange(end as int, end as int) =~= seq![]);
        proof {
            assert(p.take(end as int) =~= p);
            assert(after_slash(p) =~= after_slash(p.take(end as int)) + p.skip(end as int));
        }
        while start > 0 && path[start - 1] != 47
            invariant
                start <= end <= path.len(),
                p == path@.take(end as int),
                after_slash(p) == after_slash(p.take(start as int)) + p.skip(start as int),
            decreases start,
        {
            proof {
                assert(p.take(start as int).drop_last() =~= p.take(start - 1));
                assert(p.skip(start - 1) =~= seq![p[start - 1]] + p.skip(start as int));
                assert(after_slash(p.take(start as int)) == after_slash(p.take(start - 1)).push(
                    p[start - 1],
                ));
                assert(after_slash(p.take(start - 1)).push(p[start - 1]) + p.skip(start as int)
                    =~= after_slash(p.take(start - 1)) + p.skip(start - 1));
            }
            start -= 1;
        }
        proof {
            if start > 0 {
                assert(p.take(start as int).last() == 47);
            }
            assert(after_slash(p.take(start as int)) =~= seq![]);
            assert(after_slash(p) =~= p.skip(start as int));
            assert(p.skip(start as int) =~= path@.subrange(start as int, end as int));
        }
        if start > 0 && (start == end || (end - start == 1 && path[start] == 46)) {
            proof {
                if end - start == 1 {
                    assert(after_slash(p) =~= seq![46u8]);
                }
                assert(p.take(p.len() - after_slash(p).len() - 1) =~= path@.take(start - 1));
            }
            end = start - 1;
        } else {
            proof {
                if start > 0 && after_slash(p) == seq![46u8] {
                    assert(after_slash(p)[0] == path@[start as int]);
                }
            }
            return same_bytes(slice_subrange(path, start, end), name);
        }
    }
}

impl DebianHandler {
    /// Reads the control file out of a package file: an ar archive with a member
    /// `control.tar`, plain or compressed.
    pub fn extract_control(content: &[u8]) -> (r: Result<DebControl>)
        ensures
            outcome(r) == deb_control(content@),
    {
        let magic = "!<arch>\n".as_bytes();
        assert(magic@.len() == 8) by {
            magic_is_eight_bytes();
        }
        if content.len() < 8 || !same_bytes(slice_subrange(content, 0, 8), magic) {
            proof {
                if magic@.is_prefix_of(content@) {
                    assert(content@.subrange(0, 8) =~= magic@);
                }
            }
            return Err(invalid("Invalid .deb file: not an ar archive"));
        }
        proof {
            assert(magic@.is_prefix_of(content@));
        }
        let mut offset: usize = 8;
        while offset <= content.len() && content.len() - offset >= 60
            invariant
                magic@ == encode_utf8("!<arch>\n"@),
                magic@.is_prefix_of(content@),
                ar_search(content@, offset as nat) == ar_search(content@, 8),
            decreases content.len() - offset,
        {
            let header = slice_subrange(content, offset, offset + 60);
            let name_text = utf8_text_or(slice_subrange(header, 0, 16), "");
            let name = trim_end_char_of(trim_of(name_text.as_slice()), '/');
            let size_text = utf8_text_or(slice_subrange(header, 48, 58), "0");
            let size: usize = match parse_usize(trim_of(size_text.as_slice())) {
                Some(size) => size,
                None => 0,
            };
            assert(header@ == content@.subrange(offset as int, offset as int + 60));
            assert(name@ == ar_name(header@));
            assert(size == ar_size(header@));
            let start: usize = offset + 60;
            if begins(name, "control.tar") {
                if size > content.len() - start {
                    return Err(invalid("Invalid .deb file: truncated ar member"));
                }
                let data = slice_subrange(content, start, start + size);
                let name = text_of(name);
                return Self::parse_control_tar(data, name.as_str());
            }
            if size > content.len() - start {
                return Err(invalid("control.tar not found in .deb file"));
            }
            let end: usize = start + size;
            if end == content.len() {
                assert(ar_search(content@, (end + end % 2) as nat) == ArSearch::Missing);
                return Err(invalid("control.tar not found in .deb file"));
            }
            offset = end + end % 2;
        }
        Err(invalid("control.tar not found in .deb file"))
    }

    /// Reads the control file out of a control archive.
    fn parse_control_tar(data: &[u8], member_name: &str) -> (r: Result<DebControl>)
        ensures
            outcome(r) == control_from(data@, member_name@, 0),
    {
        let name = chars_of(member_name);
        let control = "control".as_bytes();
        let mut i: usize = 0;
        loop
            invariant
                name@ == member_name@,
                control@ == encode_utf8("control"@),
                control_from(data@, member_name@, i as nat) == control_from(
                    data@,
                    member_name@,
                    0,
                ),
            decreases usize::MAX - i,
        {
            let member = if ends(name.as_slice(), ".gz") {
                read_gz_member(data, i)
            } else if ends(name.as_slice(), ".xz") {
                read_xz_member(data, i)
            } else if ends(name.as_slice(), ".bz2") {
                read_bz2_member(data, i)
            } else if ends(name.as_slice(), ".zst") || ends(name.as_slice(), ".zstd") {
                read_zst_member(data, i)
            } else {
                read_plain_member(data, i)
            };
            assert(member.deep_view() == control_member(data@, member_name@, i as nat));
            match member {
                TarMember::BadStream(fault) => {
                    return Err(
                        AppError::Validation(
                            cat2("Invalid control.tar zstd stream: ", fault.as_str()),
                        ),
                    );
                },
                TarMember::BadArchive(fault) => {
                    return Err(AppError::Validation(cat2("Invalid control.tar: ", fault.as_str())));
                },
                TarMember::BadEntry(fault) => {
                    return Err(AppError::Validation(cat2("Invalid tar entry: ", fault.as_str())));
                },
                TarMember::End => {
                    return Err(invalid("control file not found in control.tar"));
                },
                TarMember::File { path, text } => {
                    if is_last_component(path.as_slice(), control) {
                        return match text {
                            Ok(text) => Self::parse_control(text.as_str()),
                            Err(fault) => Err(
                                AppError::Validation(
                                    cat2("Failed to read control file: ", fault.as_str()),
                                ),
                            ),
                        };
                    }
                },
            }
            if i == usize::MAX {
                return Err(invalid("control file not found in control.tar"));
            }
            i += 1;
        }
    }
}

impl DebianOperation {
    /// The name of the operation.
    pub fn label(self) -> (r: &'static str)
        ensures
            r@ == (match self {
                DebianOperation::Release => "Release"@,
                DebianOperation::Packages => "Packages"@,
                DebianOperation::Package => "Package"@,
            }),
    {
        match self {
            DebianOperation::Release => "Release",
            DebianOperation::Packages => "Packages",
            DebianOperation::Package => "Package",
        }
    }
}

impl DeepView for DebianFileMetadata {
    type V = FileMetadataModel;

    open spec fn deep_view(&self) -> FileMetadataModel {
        FileMetadataModel { info: self.info.deep_view(), control: self.control.deep_view() }
    }
}

fn disagree(what: &str, path: &str, control: &str) -> (r: AppError)
    ensures
        r.deep_view() == mismatch(what@, path@, control@),
{
    let mut text = cat5(what, " mismatch: path says '", path, "' but control says '", control);
    text.append("'");
    AppError::Validation(text)
}

impl DebianHandler {
    /// Collects what the path and the content of a file say.
    pub fn parse_metadata(&self, path: &str, content: &[u8]) -> (r: Result<DebianFileMetadata>)
        ensures
            outcome(r) == file_metadata(path@, content@),
    {
        let info = match Self::parse_path(path) {
            Ok(info) => info,
            Err(error) => {
                return Err(error);
            },
        };
        let mut control: Option<DebControl> = None;
        if content.len() > 0 && info.operation == DebianOperation::Package {
            if let Ok(found) = Self::extract_control(content) {
                control = Some(found);
            }
        }
        Ok(DebianFileMetadata { info, control })
    }

    /// Checks that a file may be stored at a path.
    pub fn validate(&self, path: &str, content: &[u8]) -> (r: Result<()>)
        ensures
            outcome(r) == file_validity(path@, content@),
    {
        let info = match Self::parse_path(path) {
            Ok(info) => info,
            Err(error) => {
                return Err(error);
            },
        };
        if content.len() == 0 || info.operation != DebianOperation::Package {
            return Ok(());
        }
        let control = match Self::extract_control(content) {
            Ok(control) => control,
            Err(error) => {
                return Err(error);
            },
        };
        if let Some(package) = &info.package {
            if control.package != *package {
                return Err(disagree("Package name", package.as_str(), control.package.as_str()));
            }
        }
        if let Some(version) = &info.version {
            if control.version != *version {
                return Err(disagree("Version", version.as_str(), control.version.as_str()));
            }
        }
        if let Some(arch) = &info.arch {
            if control.architecture != *arch {
                return Err(disagree("Architecture", arch.as_str(), control.architecture.as_str()));
            }
        }
        Ok(())
    }
}

proof fn magic_is_eight_bytes()
    ensures
        encode_utf8("!<arch>\n"@).len() == 8,
{
    reveal_strlit("!<arch>\n");
    vstd::utf8::is_ascii_chars_encode_utf8("!<arch>\n"@);
}

} // verus!
