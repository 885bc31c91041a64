//! Members of tar archives, plain and compressed.

use vstd::prelude::*;

use crate::codec::text_or_fault;

verus! {

/// What stands at one position of a tar archive.
#[derive(Debug)]
pub enum TarMember {
    /// The compressed stream could not be opened.
    BadStream(String),
    /// The archive could not be opened.
    BadArchive(String),
    /// The member could not be read.
    BadEntry(String),
    /// The archive ends before this position.
    End,
    /// A member: its path, and its content as text or the fault of reading it.
    File { path: Vec<u8>, text: std::result::Result<String, String> },
}

/// What a `TarMember` holds.
#[verifier::ext_equal]
pub enum MemberModel {
    BadStream(Seq<char>),
    BadArchive(Seq<char>),
    BadEntry(Seq<char>),
    End,
    File { path: Seq<u8>, text: std::result::Result<Seq<char>, Seq<char>> },
}

impl DeepView for TarMember {
    type V = MemberModel;

    open spec fn deep_view(&self) -> MemberModel {
        match self {
            TarMember::BadStream(fault) => MemberModel::BadStream(fault@),
            TarMember::BadArchive(fault) => MemberModel::BadArchive(fault@),
            TarMember::BadEntry(fault) => MemberModel::BadEntry(fault@),
            TarMember::End => MemberModel::End,
            TarMember::File { path, text } => MemberModel::File {
                path: path@,
                text: text_or_fault(*text),
            },
        }
    }
}

/// The member that tar finds at a position of a gzip-compressed archive.
pub uninterp spec fn gz_member(data: Seq<u8>, i: nat) -> MemberModel;

/// The member that tar finds at a position of an xz-compressed archive.
pub uninterp spec fn xz_member(data: Seq<u8>, i: nat) -> MemberModel;

/// The member that tar finds at a position of a bzip2-compressed archive.
pub uninterp spec fn bz2_member(data: Seq<u8>, i: nat) -> MemberModel;

/// The member that tar finds at a position of a zstd-compressed archive.
pub uninterp spec fn zst_member(data: Seq<u8>, i: nat) -> MemberModel;

/// The member that tar finds at a position of an archive.
pub uninterp spec fn plain_member(data: Seq<u8>, i: nat) -> MemberModel;

/// `tar::Archive` over `flate2::read::GzDecoder`: the entry at a position, with
/// its path and its content read as text. What it gives is a function of the
/// data and the position; neither format is described here.
#[verifier::external_body]
pub(crate) fn read_gz_member(data: &[u8], i: usize) -> (r: TarMember)
    ensures
        r.deep_view() == gz_member(data@, i as nat),
{
    let mut archive = tar::Archive::new(flate2::read::GzDecoder::new(data));
    let mut entries = match archive.entries() {
        Ok(entries) => entries,
        Err(fault) => return TarMember::BadArchive(fault.to_string()),
    };
    let entry = match entries.nth(i) {
        Some(Ok(entry)) => entry,
        Some(Err(fault)) => return TarMember::BadEntry(fault.to_string()),
        None => return TarMember::End,
    };
    let path = entry.path_bytes().into_owned();
    let text = std::io::read_to_string(entry).map_err(|fault| fault.to_string());
    TarMember::File { path, text }
}

/// `tar::Archive` over `xz2::read::XzDecoder`: the entry at a position, with its
/// path and its content read as text. What it gives is a function of the data
/// and the position; neither format is described here.
#[verifier::external_body]
pub(crate) fn read_xz_member(data: &[u8], i: usize) -> (r: TarMember)
    ensures
        r.deep_view() == xz_member(data@, i as nat),
{
    let mut archive = tar::Archive::new(xz2::read::XzDecoder::new(data));
    let mut entries = match archive.entries() {
        Ok(entries) => entries,
        Err(fault) => return TarMember::BadArchive(fault.to_string()),
    };
    let entry = match entries.nth(i) {
        Some(Ok(entry)) => entry,
        Some(Err(fault)) => return TarMember::BadEntry(fault.to_string()),
        None => return TarMember::End,
    };
    let path = entry.path_bytes().into_owned();
    let text = std::io::read_to_string(entry).map_err(|fault| fault.to_string());
    TarMember::File { path, text }
}

/// `tar::Archive` over `bzip2::read::BzDecoder`: the entry at a position, with
/// its path and its content read as text. What it gives is a function of the
/// data and the position; neither format is described here.
#[verifier::external_body]
pub(crate) fn read_bz2_member(data: &[u8], i: usize) -> (r: TarMember)
    ensures
        r.deep_view() == bz2_member(data@, i as nat),
{
    let mut archive = tar::Archive::new(bzip2::read::BzDecoder::new(data));
    let mut entries = match archive.entries() {
        Ok(entries) => entries,
        Err(fault) => return TarMember::BadArchive(fault.to_string()),
    };
    let entry = match entries.nth(i) {
        Some(Ok(entry)) => entry,
        Some(Err(fault)) => return TarMember::BadEntry(fault.to_string()),
        None => return TarMember::End,
    };
    let path = entry.path_bytes().into_owned();
    let text = std::io::read_to_string(entry).map_err(|fault| fault.to_string());
    TarMember::File { path, text }
}

/// `tar::Archive` over `zstd::stream::read::Decoder`: the entry at a position,
/// with its path and its content read as text. What it gives is a function of
/// the data and the position; neither format is described here.
#[verifier::external_body]
pub(crate) fn read_zst_member(data: &[u8], i: usize) -> (r: TarMember)
    ensures
        r.deep_view() == zst_member(data@, i as nat),
{
    let mut archive = match zstd::stream::read::Decoder::new(data) {
        Ok(decoder) => tar::Archive::new(decoder),
        Err(fault) => return TarMember::BadStream(fault.to_string()),
    };
    let entry = match archive.entries().map(|mut all| all.nth(i)) {
        Ok(Some(Ok(entry))) => entry,
        Ok(Some(Err(fault))) => return TarMember::BadEntry(fault.to_string()),
        Ok(None) => return TarMember::End,
        Err(fault) => return TarMember::BadArchive(fault.to_string()),
    };
    let path = entry.path_bytes().into_owned();
    let text = std::io::read_to_string(entry).map_err(|fault| fault.to_string());
    TarMember::File { path, text }
}

/// `tar::Archive` over the data as they are: the entry at a position, with its
/// path and its content read as text. What it gives is a function of the data
/// and the position; the format is not described here.
#[verifier::external_body]
pub(crate) fn read_plain_member(data: &[u8], i: usize) -> (r: TarMember)
    ensures
        r.deep_view() == plain_member(data@, i as nat),
{
    let mut archive = tar::Archive::new(data);
    let mut entries = match archive.entries() {
        Ok(entries) => entries,
        Err(fault) => return TarMember::BadArchive(fault.to_string()),
    };
    let entry = match entries.nth(i) {
        Some(Ok(entry)) => entry,
        Some(Err(fault)) => return TarMember::BadEntry(fault.to_string()),
        None => return TarMember::End,
    };
    let path = entry.path_bytes().into_owned();
    let text = std::io::read_to_string(entry).map_err(|fault| fault.to_string());
    TarMember::File { path, text }
}

} // verus!
