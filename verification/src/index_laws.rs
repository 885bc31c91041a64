//! Which index is read how.

use vstd::prelude::*;
use vstd::utf8::{decode_utf8, encode_utf8, encode_utf8_decode_utf8, encode_utf8_valid_utf8, valid_utf8};

use crate::codec::{gunzipped, unxzed, xz};
use crate::dists::{ext_of, read_back};
use crate::error::Failure;
use crate::index::{index_text, packages_index, packages_of, sources_index, sources_of};
use crate::text::ends_with;

verus! {

/// The path is that of a compressed index.
pub open spec fn names_compressed(path: Seq<char>) -> bool {
    ends_with(path, ".gz"@) || ends_with(path, ".xz"@)
}

/// The extension of an index's path, and it alone, says what the index is read
/// with: one of `.gz` gives the text that gzip decoding gives, one of `.xz` that
/// of xz decoding, and any other is the text itself. Where that gives no text, the
/// index is refused.
pub proof fn index_is_read_by_extension(base: Seq<char>, content: Seq<u8>, label: Seq<char>)
    ensures
        gunzipped(content) matches Ok(text) ==> index_text(base + ".gz"@, content, label) == Ok::<
            Seq<char>,
            Failure,
        >(text),
        gunzipped(content) is Err ==> index_text(base + ".gz"@, content, label) is Err,
        unxzed(content) matches Ok(text) ==> index_text(base + ".xz"@, content, label) == Ok::<
            Seq<char>,
            Failure,
        >(text),
        unxzed(content) is Err ==> index_text(base + ".xz"@, content, label) is Err,
        !names_compressed(base) && valid_utf8(content) ==> index_text(base, content, label) == Ok::<
            Seq<char>,
            Failure,
        >(decode_utf8(content)),
        !names_compressed(base) && !valid_utf8(content) ==> index_text(base, content, label) is Err,
{
    reveal_strlit(".gz");
    reveal_strlit(".xz");
    let g = base + ".gz"@;
    let x = base + ".xz"@;
    assert(g.skip(g.len() - 3) =~= ".gz"@);
    assert(x.skip(x.len() - 3) =~= ".xz"@);
    assert(".gz"@[1] != ".xz"@[1]);
}

/// A text that is not compressed is read as it is.
pub proof fn plain_index_reads_back(path: Seq<char>, text: Seq<char>, label: Seq<char>)
    requires
        !names_compressed(path),
    ensures
        index_text(path, encode_utf8(text), label) == Ok::<Seq<char>, Failure>(text),
{
    encode_utf8_valid_utf8(text);
    encode_utf8_decode_utf8(text);
    index_is_read_by_extension(path, encode_utf8(text), label);
}

/// A Packages index says what its text says, however it is compressed: the same
/// entries come out of the gzip form, of the xz form and of the text itself. The
/// same holds of a Sources index.
pub proof fn every_form_of_an_index_reads_alike(
    base: Seq<char>,
    text: Seq<char>,
    gz: Seq<u8>,
    xz: Seq<u8>,
)
    requires
        !names_compressed(base),
        gunzipped(gz) == Ok::<Seq<char>, Seq<char>>(text),
        unxzed(xz) == Ok::<Seq<char>, Seq<char>>(text),
    ensures
        packages_index(base, encode_utf8(text)) == packages_of(text),
        packages_index(base + ".gz"@, gz) == packages_of(text),
        packages_index(base + ".xz"@, xz) == packages_of(text),
        sources_index(base, encode_utf8(text)) == sources_of(text),
        sources_index(base + ".gz"@, gz) == sources_of(text),
        sources_index(base + ".xz"@, xz) == sources_of(text),
{
    plain_index_reads_back(base, text, "Packages"@);
    plain_index_reads_back(base, text, "Sources"@);
    index_is_read_by_extension(base, gz, "Packages"@);
    index_is_read_by_extension(base, gz, "Sources"@);
    index_is_read_by_extension(base, xz, "Packages"@);
    index_is_read_by_extension(base, xz, "Sources"@);
}

/// What a file of a form holds that a client can read back, a reader of an index
/// of that form's path reads.
pub proof fn readable_form_is_read(
    path: Seq<char>,
    body: Seq<u8>,
    text: Seq<char>,
    label: Seq<char>,
)
    requires
        read_back(ext_of(path), body, text),
    ensures
        index_text(path, body, label) == Ok::<Seq<char>, Failure>(text),
{
    encode_utf8_valid_utf8(text);
    encode_utf8_decode_utf8(text);
}

/// Whatever it is taken for, an index of this path and content reads as the text.
pub open spec fn reads_as(path: Seq<char>, content: Seq<u8>, text: Seq<char>) -> bool {
    forall|label: Seq<char>| #[trigger]
        index_text(path, content, label) == Ok::<Seq<char>, Failure>(text)
}

/// A compressed index of which its form gives a text reads as it, and so does a plain one.
pub(crate) proof fn form_reads_as(base: Seq<char>, content: Seq<u8>, text: Seq<char>)
    ensures
        gunzipped(content) == Ok::<Seq<char>, Seq<char>>(text) ==> reads_as(
            base + ".gz"@,
            content,
            text,
        ),
        unxzed(content) == Ok::<Seq<char>, Seq<char>>(text) ==> reads_as(
            base + ".xz"@,
            content,
            text,
        ),
        !names_compressed(base) && valid_utf8(content) && text == decode_utf8(content)
            ==> reads_as(base, content, text),
{
    assert forall|label: Seq<char>| gunzipped(content) == Ok::<Seq<char>, Seq<char>>(
        text,
    ) implies #[trigger] index_text(base + ".gz"@, content, label) == Ok::<Seq<char>, Failure>(
        text,
    ) by {
        index_is_read_by_extension(base, content, label);
    }
    assert forall|label: Seq<char>| unxzed(content) == Ok::<Seq<char>, Seq<char>>(
        text,
    ) implies #[trigger] index_text(base + ".xz"@, content, label) == Ok::<Seq<char>, Failure>(
        text,
    ) by {
        index_is_read_by_extension(base, content, label);
    }
    assert forall|label: Seq<char>|
        !names_compressed(base) && valid_utf8(content) && text == decode_utf8(
            content,
        ) implies #[trigger] index_text(base, content, label) == Ok::<Seq<char>, Failure>(text) by {
        index_is_read_by_extension(base, content, label);
    }
}

} // verus!
