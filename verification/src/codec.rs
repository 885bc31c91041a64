//! Compressed and encoded text.

use std::io::{Read, Write};

use vstd::prelude::*;
use vstd::utf8::{decode_utf8, valid_utf8};

verus! {

/// A result that holds a text or the text of a fault.
pub open spec fn text_or_fault(
    r: std::result::Result<String, String>,
) -> std::result::Result<Seq<char>, Seq<char>> {
    match r {
        Ok(text) => Ok(text@),
        Err(fault) => Err(fault@),
    }
}

/// A result that holds bytes or the text of a fault.
pub open spec fn bytes_or_fault(
    r: std::result::Result<Vec<u8>, String>,
) -> std::result::Result<Seq<u8>, Seq<char>> {
    match r {
        Ok(bytes) => Ok(bytes@),
        Err(fault) => Err(fault@),
    }
}

/// The text that flate2's `GzDecoder` reads out of the data, or its fault.
pub uninterp spec fn gunzipped(data: Seq<u8>) -> std::result::Result<Seq<char>, Seq<char>>;

/// The text that xz2's `XzDecoder` reads out of the data, or its fault.
pub uninterp spec fn unxzed(data: Seq<u8>) -> std::result::Result<Seq<char>, Seq<char>>;

/// The bytes that flate2's `GzEncoder` makes of the data, or its fault.
pub uninterp spec fn gzipped(data: Seq<u8>) -> std::result::Result<Seq<u8>, Seq<char>>;

/// The bytes that xz2's `XzEncoder` makes of the data at level 6, or its fault.
pub uninterp spec fn xzed(data: Seq<u8>) -> std::result::Result<Seq<u8>, Seq<char>>;

/// The words in which std's `FromUtf8Error` describes the first fault of the bytes.
pub uninterp spec fn utf8_fault(data: Seq<u8>) -> Seq<char>;

/// `flate2::read::GzDecoder`, read to its end as text. What it gives is a
/// function of the data; the decoding itself is not described here.
#[verifier::external_body]
pub(crate) fn gunzip(data: &[u8]) -> (r: std::result::Result<String, String>)
    ensures
        text_or_fault(r) == gunzipped(data@),
{
    let mut text = String::new();
    match flate2::read::GzDecoder::new(data).read_to_string(&mut text) {
        Ok(_) => Ok(text),
        Err(fault) => Err(fault.to_string()),
    }
}

/// `xz2::read::XzDecoder`, read to its end as text. What it gives is a function
/// of the data; the decoding itself is not described here.
#[verifier::external_body]
pub(crate) fn unxz(data: &[u8]) -> (r: std::result::Result<String, String>)
    ensures
        text_or_fault(r) == unxzed(data@),
{
    let mut text = String::new();
    match xz2::read::XzDecoder::new(data).read_to_string(&mut text) {
        Ok(_) => Ok(text),
        Err(fault) => Err(fault.to_string()),
    }
}

/// `flate2::write::GzEncoder` with a time stamp of zero and the default level.
/// What it gives is a function of the data; decoding it with `GzDecoder` gives
/// back the data where the data are text.
#[verifier::external_body]
pub(crate) fn gzip(data: &[u8]) -> (r: std::result::Result<Vec<u8>, String>)
    ensures
        bytes_or_fault(r) == gzipped(data@),
        r matches Ok(z) ==> (valid_utf8(data@) ==> gunzipped(z@) == Ok::<Seq<char>, Seq<char>>(
            decode_utf8(data@),
        )),
{
    let mut encoder = flate2::GzBuilder::new().mtime(0).write(
        Vec::new(),
        flate2::Compression::default(),
    );
    match encoder.write_all(data).and_then(|_| encoder.finish()) {
        Ok(bytes) => Ok(bytes),
        Err(fault) => Err(fault.to_string()),
    }
}

/// `xz2::write::XzEncoder` at level 6. What it gives is a function of the data;
/// decoding it with `XzDecoder` gives back the data where the data are text.
#[verifier::external_body]
pub(crate) fn xz(data: &[u8]) -> (r: std::result::Result<Vec<u8>, String>)
    ensures
        bytes_or_fault(r) == xzed(data@),
        r matches Ok(z) ==> (valid_utf8(data@) ==> unxzed(z@) == Ok::<Seq<char>, Seq<char>>(
            decode_utf8(data@),
        )),
{
    let mut encoder = xz2::write::XzEncoder::new(Vec::new(), 6);
    match encoder.write_all(data).and_then(|_| encoder.finish()) {
        Ok(bytes) => Ok(bytes),
        Err(fault) => Err(fault.to_string()),
    }
}

/// `String::from_utf8` of the standard library: the text that the bytes encode,
/// or, where they are not valid UTF-8, the description of the fault.
#[verifier::external_body]
pub(crate) fn utf8_text(data: &[u8]) -> (r: std::result::Result<String, String>)
    ensures
        text_or_fault(r) == if valid_utf8(data@) {
            Ok::<Seq<char>, Seq<char>>(decode_utf8(data@))
        } else {
            Err::<Seq<char>, Seq<char>>(utf8_fault(data@))
        },
{
    match String::from_utf8(data.to_vec()) {
        Ok(text) => Ok(text),
        Err(fault) => Err(fault.to_string()),
    }
}

} // verus!
