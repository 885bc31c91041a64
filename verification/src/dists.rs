//! Paths below `dists/`, and the index files that are handed out for them.

use vstd::prelude::*;
use vstd::utf8::{decode_utf8, encode_utf8, encode_utf8_decode_utf8, encode_utf8_valid_utf8, valid_utf8};

use crate::codec::{bytes_or_fault, gunzipped, gzip, gzipped, unxzed, xz, xzed};
use crate::digest::{calculate_sha256_hex, sha256_hex};
use crate::error::Failure;
use crate::http::{file_reply, refuse2, refused, reply_of, verdict, FileReply, Refusal, RefusalModel, ReplyModel};
use crate::index::index_text;
use crate::index_laws::{index_is_read_by_extension, readable_form_is_read};
use crate::plan::dists_prefix;
use crate::sync_run::stored;
use crate::text::{begins, cat2, cat3, cat4, chars_of, ends, ends_with, holds_char, is_empty_text, is_text, opt_text};
use crate::text::{split, split_at_char, starts_with, strip_end, strip_end_of, strip_start, strip_start_of, text_of};

verus! {

/// How an index is compressed.
#[derive(Clone, Copy, Debug, PartialEq, Eq, Structural)]
pub enum PackagesExt {
    Plain,
    Gz,
    Xz,
}

/// A request for a Packages index.
#[derive(Debug, PartialEq, Eq)]
pub struct PackagesRequest {
    pub component: String,
    pub binary_arch: String,
    pub ext: PackagesExt,
}

/// A request for a Contents index.
#[derive(Debug, PartialEq, Eq)]
pub struct ContentsRequest {
    pub component: String,
    pub arch: String,
    pub ext: PackagesExt,
}

/// What a path below a distribution asks for.
#[derive(Debug, PartialEq, Eq)]
pub enum DistsRoute {
    Packages(PackagesRequest),
    Contents(ContentsRequest),
    /// Something that only an upstream can provide.
    Other,
}

/// What a stored index text comes to.
#[derive(Debug, PartialEq, Eq)]
pub enum SyncedStep {
    /// Nothing is stored.
    Missing,
    /// The file to hand out.
    Serve(FileReply),
    /// What is stored refers to this path; the plain index of it is needed.
    Follow(String),
}

// ---------------------------------------------------------------------------
// Model
// ---------------------------------------------------------------------------

/// What a `PackagesRequest` holds.
#[verifier::ext_equal]
pub struct PackagesRequestModel {
    pub component: Seq<char>,
    pub binary_arch: Seq<char>,
    pub ext: PackagesExt,
}

impl DeepView for PackagesRequest {
    type V = PackagesRequestModel;

    open spec fn deep_view(&self) -> PackagesRequestModel {
        PackagesRequestModel {
            component: self.component@,
            binary_arch: self.binary_arch@,
            ext: self.ext,
        }
    }
}

/// What a `ContentsRequest` holds.
#[verifier::ext_equal]
pub struct ContentsRequestModel {
    pub component: Seq<char>,
    pub arch: Seq<char>,
    pub ext: PackagesExt,
}

impl DeepView for ContentsRequest {
    type V = ContentsRequestModel;

    open spec fn deep_view(&self) -> ContentsRequestModel {
        ContentsRequestModel { component: self.component@, arch: self.arch@, ext: self.ext }
    }
}

/// The compression of a Packages file of this name.
pub open spec fn packages_ext(name: Seq<char>) -> Option<PackagesExt> {
    if name == "Packages"@ {
        Some(PackagesExt::Plain)
    } else if name == "Packages.gz"@ {
        Some(PackagesExt::Gz)
    } else if name == "Packages.xz"@ {
        Some(PackagesExt::Xz)
    } else {
        None
    }
}

/// The Packages index that a path asks for:
/// `<component>/binary-<arch>/Packages`, plain or compressed.
pub open spec fn packages_request(path: Seq<char>) -> Option<PackagesRequestModel> {
    let parts = split(path, '/');
    if parts.len() == 3 && starts_with(parts[1], "binary-"@) && packages_ext(parts[2]) is Some {
        Some(
            PackagesRequestModel {
                component: parts[0],
                binary_arch: parts[1],
                ext: packages_ext(parts[2])->0,
            },
        )
    } else {
        None
    }
}

/// The architecture and the compression behind `Contents-`.
pub open spec fn contents_parts(rest: Seq<char>) -> Option<(Seq<char>, PackagesExt)> {
    match strip_end(rest, ".gz"@) {
        Some(arch) => Some((arch, PackagesExt::Gz)),
        None => match strip_end(rest, ".xz"@) {
            Some(arch) => Some((arch, PackagesExt::Xz)),
            None => if rest.contains('.') {
                None
            } else {
                Some((rest, PackagesExt::Plain))
            },
        },
    }
}

/// The Contents index that a path asks for: `<component>/Contents-<arch>`, plain
/// or compressed.
pub open spec fn contents_request(path: Seq<char>) -> Option<ContentsRequestModel> {
    let parts = split(path, '/');
    if parts.len() == 2 && starts_with(parts[1], "Contents-"@) {
        match contents_parts(parts[1].skip("Contents-"@.len() as int)) {
            Some((arch, ext)) => if arch.len() > 0 {
                Some(ContentsRequestModel { component: parts[0], arch, ext })
            } else {
                None
            },
            None => None,
        }
    } else {
        None
    }
}

/// The extension of a compression.
pub open spec fn ext_text(ext: PackagesExt) -> Seq<char> {
    match ext {
        PackagesExt::Plain => ""@,
        PackagesExt::Gz => ".gz"@,
        PackagesExt::Xz => ".xz"@,
    }
}

/// The path of a plain index that a path of a plain or compressed one stands for.
pub open spec fn plain_path(path: Seq<char>) -> Seq<char> {
    match strip_end(path, ".gz"@) {
        Some(base) => base,
        None => match strip_end(path, ".xz"@) {
            Some(base) => base,
            None => path,
        },
    }
}

/// The content type that the extension of a path suggests.
pub open spec fn content_type_of(path: Seq<char>) -> Seq<char> {
    if ends_with(path, ".xz"@) {
        "application/x-xz"@
    } else if ends_with(path, ".gz"@) {
        "application/gzip"@
    } else if ends_with(path, ".bz2"@) {
        "application/x-bzip2"@
    } else if ends_with(path, ".lz4"@) {
        "application/x-lz4"@
    } else if ends_with(path, ".zst"@) || ends_with(path, ".zstd"@) {
        "application/zstd"@
    } else {
        "text/plain; charset=utf-8"@
    }
}

/// The keys under which the indexes of a distribution are stored begin with this.
pub open spec fn synced_prefix(distribution: Seq<char>) -> Seq<char> {
    "debian_synced_dists:"@ + sha256_hex(encode_utf8(distribution)) + ":"@
}

/// The key under which an index of a distribution is stored, compressed or not.
pub open spec fn synced_key(distribution: Seq<char>, path: Seq<char>) -> Seq<char> {
    synced_prefix(distribution) + sha256_hex(encode_utf8(plain_path(path)))
}

/// An index file of a compression that is handed out for a text.
pub open spec fn index_reply(ext: PackagesExt, text: Seq<char>, plain_type: Seq<char>) -> std::result::Result<
    ReplyModel,
    RefusalModel,
> {
    match ext {
        PackagesExt::Plain => Ok(reply_of(plain_type, encode_utf8(text))),
        PackagesExt::Gz => match gzipped(encode_utf8(text)) {
            Ok(body) => Ok(reply_of("application/gzip"@, body)),
            Err(fault) => Err(refused(500, "Compression error: "@ + fault)),
        },
        PackagesExt::Xz => match xzed(encode_utf8(text)) {
            Ok(body) => Ok(reply_of("application/x-xz"@, body)),
            Err(fault) => Err(refused(500, "XZ compression error: "@ + fault)),
        },
    }
}

/// The compression that the extension of a path asks for.
pub open spec fn ext_of(path: Seq<char>) -> PackagesExt {
    if ends_with(path, ".gz"@) {
        PackagesExt::Gz
    } else if ends_with(path, ".xz"@) {
        PackagesExt::Xz
    } else {
        PackagesExt::Plain
    }
}

/// The text that a client reads out of a file of a compression.
pub open spec fn read_back(ext: PackagesExt, body: Seq<u8>, text: Seq<char>) -> bool {
    match ext {
        PackagesExt::Plain => body == encode_utf8(text),
        PackagesExt::Gz => gunzipped(body) == Ok::<Seq<char>, Seq<char>>(text),
        PackagesExt::Xz => unxzed(body) == Ok::<Seq<char>, Seq<char>>(text),
    }
}

// ---------------------------------------------------------------------------
// Laws
// ---------------------------------------------------------------------------

/// The plain and the compressed forms of an index are stored under one key.
pub proof fn one_key_for_all_forms(distribution: Seq<char>, base: Seq<char>)
    requires
        plain_path(base) == base,
    ensures
        synced_key(distribution, base + ".gz"@) == synced_key(distribution, base),
        synced_key(distribution, base + ".xz"@) == synced_key(distribution, base),
{
    reveal_strlit(".gz");
    reveal_strlit(".xz");
    let gz = base + ".gz"@;
    let xz = base + ".xz"@;
    assert(gz.skip(gz.len() - 3) =~= ".gz"@);
    assert(gz.take(gz.len() - 3) =~= base);
    assert(xz.skip(xz.len() - 3) =~= ".xz"@);
    assert(xz.take(xz.len() - 3) =~= base);
    assert(xz.last() == 'z' && xz[xz.len() - 2] == 'x');
    if ends_with(xz, ".gz"@) {
        assert(xz.skip(xz.len() - 3)[1] == ".gz"@[1]);
    }
}

/// No path asks for a Packages index and a Contents index at once.
pub proof fn requests_are_disjoint(path: Seq<char>)
    ensures
        !(packages_request(path) is Some && contents_request(path) is Some),
{
}

// ---------------------------------------------------------------------------
// Paths
// ---------------------------------------------------------------------------

/// The path of a file of a distribution at the upstream. A flat repository has
/// its files at the root.
pub fn debian_dists_upstream_path(distribution: &str, suffix: &str) -> (r: String)
    ensures
        r@ == dists_prefix(distribution@) + suffix@,
{
    if is_empty_text(distribution) {
        assert(dists_prefix(distribution@) + suffix@ =~= suffix@);
        suffix.to_string()
    } else {
        cat4("dists/", distribution, "/", suffix)
    }
}

/// The architecture of a segment like `binary-amd64`; a segment without that
/// prefix is taken as it is.
pub fn strip_binary_arch_prefix(binary_arch: &str) -> (r: String)
    ensures
        r@ == (match strip_start(binary_arch@, "binary-"@) {
            Some(arch) => arch,
            None => binary_arch@,
        }),
{
    let chars = chars_of(binary_arch);
    match strip_start_of(chars.as_slice(), "binary-") {
        Some(arch) => text_of(arch),
        None => binary_arch.to_string(),
    }
}

/// The path of a Packages index below a distribution. An empty extension asks
/// for the plain one.
pub fn packages_index_suffix(component: &str, binary_arch: &str, ext: &str) -> (r: String)
    ensures
        r@ == component@ + "/"@ + binary_arch@ + "/Packages"@ + (if ext@.len() == 0 {
            ""@
        } else {
            "."@ + ext@
        }),
{
    let plain = cat4(component, "/", binary_arch, "/Packages");
    if is_empty_text(ext) {
        proof {
            reveal_strlit("");
        }
        assert(plain@ + ""@ =~= plain@);
        plain
    } else {
        let r = cat3(plain.as_str(), ".", ext);
        assert(r@ =~= plain@ + ("."@ + ext@));
        r
    }
}

/// Recognises a request for a Packages index.
pub fn parse_packages_request(dists_path: &str) -> (r: Option<PackagesRequest>)
    ensures
        r.deep_view() == packages_request(dists_path@),
{
    let chars = chars_of(dists_path);
    let parts = split_at_char(chars.as_slice(), '/');
    if parts.len() != 3 || !begins(parts[1], "binary-") {
        return None;
    }
    let ext = if is_text(parts[2], "Packages") {
        PackagesExt::Plain
    } else if is_text(parts[2], "Packages.gz") {
        PackagesExt::Gz
    } else if is_text(parts[2], "Packages.xz") {
        PackagesExt::Xz
    } else {
        return None;
    };
    Some(PackagesRequest { component: text_of(parts[0]), binary_arch: text_of(parts[1]), ext })
}

/// Recognises a request for a Contents index.
pub fn parse_contents_request(dists_path: &str) -> (r: Option<ContentsRequest>)
    ensures
        r.deep_view() == contents_request(dists_path@),
{
    let chars = chars_of(dists_path);
    let parts = split_at_char(chars.as_slice(), '/');
    if parts.len() != 2 {
        return None;
    }
    let rest = match strip_start_of(parts[1], "Contents-") {
        Some(rest) => rest,
        None => {
            return None;
        },
    };
    let (arch, ext) = if let Some(arch) = strip_end_of(rest, ".gz") {
        (arch, PackagesExt::Gz)
    } else if let Some(arch) = strip_end_of(rest, ".xz") {
        (arch, PackagesExt::Xz)
    } else if holds_char(rest, '.') {
        return None;
    } else {
        (rest, PackagesExt::Plain)
    };
    if arch.len() == 0 {
        return None;
    }
    Some(ContentsRequest { component: text_of(parts[0]), arch: text_of(arch), ext })
}

/// Says what a path below a distribution asks for.
pub fn dists_route(dists_path: &str) -> (r: DistsRoute)
    ensures
        match r {
            DistsRoute::Packages(request) => packages_request(dists_path@) == Some(
                request.deep_view(),
            ),
            DistsRoute::Contents(request) => packages_request(dists_path@) is None
                && contents_request(dists_path@) == Some(request.deep_view()),
            DistsRoute::Other => packages_request(dists_path@) is None && contents_request(
                dists_path@,
            ) is None,
        },
{
    if let Some(request) = parse_packages_request(dists_path) {
        return DistsRoute::Packages(request);
    }
    if let Some(request) = parse_contents_request(dists_path) {
        return DistsRoute::Contents(request);
    }
    DistsRoute::Other
}

/// The path of a Contents index below a distribution.
pub fn contents_suffix(request: &ContentsRequest) -> (r: String)
    ensures
        r@ == request.component@ + "/Contents-"@ + request.arch@ + ext_text(request.ext),
{
    let ext = match request.ext {
        PackagesExt::Plain => "",
        PackagesExt::Gz => ".gz",
        PackagesExt::Xz => ".xz",
    };
    cat4(request.component.as_str(), "/Contents-", request.arch.as_str(), ext)
}

/// The path of the plain form of an index.
pub fn canonical_plain_dists_index_path(path: &str) -> (r: String)
    ensures
        r@ == plain_path(path@),
{
    let chars = chars_of(path);
    if let Some(base) = strip_end_of(chars.as_slice(), ".gz") {
        return text_of(base);
    }
    if let Some(base) = strip_end_of(chars.as_slice(), ".xz") {
        return text_of(base);
    }
    path.to_string()
}

/// The content type that the extension of a path suggests.
pub fn content_type_for_dists_path(path: &str) -> (r: String)
    ensures
        r@ == content_type_of(path@),
{
    let chars = chars_of(path);
    let p = chars.as_slice();
    let label = if ends(p, ".xz") {
        "application/x-xz"
    } else if ends(p, ".gz") {
        "application/gzip"
    } else if ends(p, ".bz2") {
        "application/x-bzip2"
    } else if ends(p, ".lz4") {
        "application/x-lz4"
    } else if ends(p, ".zst") || ends(p, ".zstd") {
        "application/zstd"
    } else {
        "text/plain; charset=utf-8"
    };
    label.to_string()
}

// ---------------------------------------------------------------------------
// Stored indexes
// ---------------------------------------------------------------------------

/// The key under which the Release of a distribution is stored.
pub fn synced_release_config_key(distribution: &str) -> (r: String)
    ensures
        r@ == "debian_synced_release:"@ + distribution@,
{
    cat2("debian_synced_release:", distribution)
}

/// What the keys of the indexes of a distribution begin with.
pub fn synced_dists_key_prefix(distribution: &str) -> (r: String)
    ensures
        r@ == synced_prefix(distribution@),
{
    let digest = calculate_sha256_hex(distribution.as_bytes());
    cat3("debian_synced_dists:", digest.as_str(), ":")
}

/// The key under which an index of a distribution is stored.
pub fn synced_dists_config_key(distribution: &str, path: &str) -> (r: String)
    ensures
        r@ == synced_key(distribution@, path@),
{
    let prefix = synced_dists_key_prefix(distribution);
    let plain = canonical_plain_dists_index_path(path);
    let digest = calculate_sha256_hex(plain.as_str().as_bytes());
    cat2(prefix.as_str(), digest.as_str())
}

/// The path that a stored text refers to, if it is a reference.
pub fn synced_reference(text: &str) -> (r: Option<String>)
    ensures
        r.deep_view() == strip_start(text@, "@ref:"@),
{
    let chars = chars_of(text);
    match strip_start_of(chars.as_slice(), "@ref:") {
        Some(path) => Some(text_of(path)),
        None => None,
    }
}

// ---------------------------------------------------------------------------
// Index files
// ---------------------------------------------------------------------------

/// Compresses data with gzip, so that equal data give equal files.
pub fn gzip_compress(data: &[u8]) -> (r: std::result::Result<Vec<u8>, String>)
    ensures
        bytes_or_fault(r) == gzipped(data@),
        r matches Ok(z) ==> (valid_utf8(data@) ==> forall|base: Seq<char>, label: Seq<char>|
            #[trigger] index_text(base + ".gz"@, z@, label) == Ok::<Seq<char>, Failure>(
                decode_utf8(data@),
            )),
{
    let r = gzip(data);
    proof {
        if let Ok(z) = &r {
            assert forall|base: Seq<char>, label: Seq<char>| valid_utf8(
                data@,
            ) implies #[trigger] index_text(base + ".gz"@, z@, label) == Ok::<Seq<char>, Failure>(
                decode_utf8(data@),
            ) by {
                index_is_read_by_extension(base, z@, label);
            }
        }
    }
    r
}

/// Compresses data with xz.
pub fn xz_compress(data: &[u8]) -> (r: std::result::Result<Vec<u8>, String>)
    ensures
        bytes_or_fault(r) == xzed(data@),
        r matches Ok(z) ==> (valid_utf8(data@) ==> forall|base: Seq<char>, label: Seq<char>|
            #[trigger] index_text(base + ".xz"@, z@, label) == Ok::<Seq<char>, Failure>(
                decode_utf8(data@),
            )),
{
    let r = xz(data);
    proof {
        if let Ok(z) = &r {
            assert forall|base: Seq<char>, label: Seq<char>| valid_utf8(
                data@,
            ) implies #[trigger] index_text(base + ".xz"@, z@, label) == Ok::<Seq<char>, Failure>(
                decode_utf8(data@),
            ) by {
                index_is_read_by_extension(base, z@, label);
            }
        }
    }
    r
}

/// Copies bytes.
pub(crate) fn copy_bytes(data: &[u8]) -> (r: Vec<u8>)
    ensures
        r@ == data@,
{
    let mut r: Vec<u8> = Vec::new();
    r.extend_from_slice(data);
    r
}

/// Hands out a text as an index file of a compression. A client that reads the
/// file gets the text back.
pub fn build_index_reply(ext: PackagesExt, text: &str, plain_type: &str) -> (r: std::result::Result<
    FileReply,
    Refusal,
>)
    ensures
        verdict(r) == index_reply(ext, text@, plain_type@),
        r matches Ok(reply) ==> read_back(ext, reply.body@, text@),
{
    let bytes = text.as_bytes();
    proof {
        encode_utf8_valid_utf8(text@);
        encode_utf8_decode_utf8(text@);
    }
    match ext {
        PackagesExt::Plain => Ok(file_reply(plain_type.to_string(), copy_bytes(bytes))),
        PackagesExt::Gz => match gzip(bytes) {
            Ok(body) => Ok(file_reply("application/gzip".to_string(), body)),
            Err(fault) => Err(refuse2(500, "Compression error: ", fault.as_str())),
        },
        PackagesExt::Xz => match xz(bytes) {
            Ok(body) => Ok(file_reply("application/x-xz".to_string(), body)),
            Err(fault) => Err(refuse2(500, "XZ compression error: ", fault.as_str())),
        },
    }
}

/// Hands out a stored index, compressed as the extension of the requested path
/// says.
pub fn build_synced_dists_index_response(path: &str, text: &str) -> (r: std::result::Result<
    FileReply,
    Refusal,
>)
    ensures
        verdict(r) == index_reply(ext_of(path@), text@, content_type_of(path@)),
        r matches Ok(reply) ==> read_back(ext_of(path@), reply.body@, text@),
        r matches Ok(reply) ==> forall|label: Seq<char>| #[trigger]
            index_text(path@, reply.body@, label) == Ok::<Seq<char>, Failure>(text@),
{
    let chars = chars_of(path);
    let ext = if ends(chars.as_slice(), ".gz") {
        PackagesExt::Gz
    } else if ends(chars.as_slice(), ".xz") {
        PackagesExt::Xz
    } else {
        PackagesExt::Plain
    };
    let plain_type = content_type_for_dists_path(path);
    let r = build_index_reply(ext, text, plain_type.as_str());
    proof {
        if let Ok(reply) = &r {
            assert forall|label: Seq<char>| #[trigger] index_text(path@, reply.body@, label) == Ok::<
                Seq<char>,
                Failure,
            >(text@) by {
                readable_form_is_read(path@, reply.body@, text@, label);
            }
        }
    }
    r
}

/// Takes what is stored under the key of a requested path: it is handed out, or
/// the path that it refers to is to be looked up.
pub fn begin_synced_response(path: &str, stored: Option<&str>) -> (r: std::result::Result<
    SyncedStep,
    Refusal,
>)
    ensures
        match opt_text(stored) {
            None => r == Ok::<SyncedStep, Refusal>(SyncedStep::Missing),
            Some(text) => match strip_start(text, "@ref:"@) {
                Some(target) => r matches Ok(SyncedStep::Follow(p)) && p@ == target,
                None => match index_reply(ext_of(path@), text, content_type_of(path@)) {
                    Ok(reply) => r matches Ok(SyncedStep::Serve(file)) && file.deep_view()
                        == reply,
                    Err(refusal) => r matches Err(e) && e.deep_view() == refusal,
                },
            },
        },
        r matches Ok(SyncedStep::Serve(file)) ==> stored is Some && forall|label: Seq<char>|
            #[trigger] index_text(path@, file.body@, label) == Ok::<Seq<char>, Failure>(stored->0@),
{
    let text = match stored {
        Some(text) => text,
        None => {
            return Ok(SyncedStep::Missing);
        },
    };
    if let Some(target) = synced_reference(text) {
        return Ok(SyncedStep::Follow(target));
    }
    match build_synced_dists_index_response(path, text) {
        Ok(reply) => Ok(SyncedStep::Serve(reply)),
        Err(refusal) => Err(refusal),
    }
}

/// Takes what is stored under the key of a path that was referred to: it is
/// handed out in the form that the path asks for.
pub fn follow_synced_reference(target: &str, stored: Option<&str>) -> (r: std::result::Result<
    Option<FileReply>,
    Refusal,
>)
    ensures
        verdict(r) == (match opt_text(stored) {
            None => Ok(None),
            Some(text) => match index_reply(ext_of(target@), text, content_type_of(target@)) {
                Ok(reply) => Ok(Some(reply)),
                Err(refusal) => Err(refusal),
            },
        }),
        r matches Ok(Some(file)) ==> stored is Some && forall|label: Seq<char>| #[trigger]
            index_text(target@, file.body@, label) == Ok::<Seq<char>, Failure>(stored->0@),
{
    match stored {
        Some(text) => match build_synced_dists_index_response(target, text) {
            Ok(reply) => Ok(Some(reply)),
            Err(refusal) => Err(refusal),
        },
        None => Ok(None),
    }
}

} // verus!
