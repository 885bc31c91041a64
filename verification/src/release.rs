//! Release metadata: the root of a distribution, plain and signed.

use vstd::prelude::*;
use vstd::slice::slice_subrange;
use vstd::utf8::{decode_utf8, valid_utf8};

use crate::codec::utf8_text;
use crate::error::{invalid, outcome, AppError, Failure, Result};
use crate::number::{decimal_u64, parse_u64};
use crate::ordered::{lookup, without_all, without_all_step, TextMap};
use crate::stanza::{only_stanza, parse_debian_stanza_fields};
use crate::text::{begins, cat3, chars_of, holds_text, is_blank_chars, is_blank_text, is_text, lines_of, text_of};
use crate::text::{contains_text, is_blank, lines, pieces, starts_with, trim, words, words_of};

verus! {

/// One file that a Release lists.
#[derive(Clone, Debug, PartialEq, Eq)]
pub struct ReleaseHash {
    pub hash: String,
    pub size: u64,
    pub path: String,
}

/// Release metadata.
#[derive(Debug)]
pub struct Release {
    pub origin: Option<String>,
    pub label: Option<String>,
    pub suite: String,
    pub codename: Option<String>,
    pub version: Option<String>,
    pub date: String,
    pub architectures: Vec<String>,
    pub components: Vec<String>,
    pub description: Option<String>,
    pub md5sum: Vec<ReleaseHash>,
    pub sha1: Vec<ReleaseHash>,
    pub sha256: Vec<ReleaseHash>,
    pub sha512: Vec<ReleaseHash>,
    pub extra: TextMap<String>,
}

/// What is known of a detached signature.
#[derive(Clone, Copy, Debug, PartialEq, Eq, Structural)]
pub struct ReleaseSignature {
    pub is_armored: bool,
    pub size: usize,
}

// ---------------------------------------------------------------------------
// Model
// ---------------------------------------------------------------------------

/// What a `ReleaseHash` holds.
#[verifier::ext_equal]
pub struct HashModel {
    pub hash: Seq<char>,
    pub size: u64,
    pub path: Seq<char>,
}

impl DeepView for ReleaseHash {
    type V = HashModel;

    open spec fn deep_view(&self) -> HashModel {
        HashModel { hash: self.hash@, size: self.size, path: self.path@ }
    }
}

/// What a `Release` holds.
#[verifier::ext_equal]
pub struct ReleaseModel {
    pub origin: Option<Seq<char>>,
    pub label: Option<Seq<char>>,
    pub suite: Seq<char>,
    pub codename: Option<Seq<char>>,
    pub version: Option<Seq<char>>,
    pub date: Seq<char>,
    pub architectures: Seq<Seq<char>>,
    pub components: Seq<Seq<char>>,
    pub description: Option<Seq<char>>,
    pub md5sum: Seq<HashModel>,
    pub sha1: Seq<HashModel>,
    pub sha256: Seq<HashModel>,
    pub sha512: Seq<HashModel>,
    pub extra: Seq<(Seq<char>, Seq<char>)>,
}

impl DeepView for Release {
    type V = ReleaseModel;

    open spec fn deep_view(&self) -> ReleaseModel {
        ReleaseModel {
            origin: self.origin.deep_view(),
            label: self.label.deep_view(),
            suite: self.suite@,
            codename: self.codename.deep_view(),
            version: self.version.deep_view(),
            date: self.date@,
            architectures: self.architectures.deep_view(),
            components: self.components.deep_view(),
            description: self.description.deep_view(),
            md5sum: self.md5sum.deep_view(),
            sha1: self.sha1.deep_view(),
            sha256: self.sha256.deep_view(),
            sha512: self.sha512.deep_view(),
            extra: self.extra.deep_view(),
        }
    }
}

impl DeepView for ReleaseSignature {
    type V = ReleaseSignature;

    open spec fn deep_view(&self) -> ReleaseSignature {
        *self
    }
}

/// A field that has to be there and to hold more than white space.
pub open spec fn needed_field(
    fields: Seq<(Seq<char>, Seq<char>)>,
    key: Seq<char>,
) -> std::result::Result<Seq<char>, Failure> {
    match lookup(fields, key) {
        Some(value) => if trim(value).len() > 0 {
            Ok(value)
        } else {
            Err(Failure::Validation("Release file missing "@ + key + " field"@))
        },
        None => Err(Failure::Validation("Release file missing "@ + key + " field"@)),
    }
}

/// The words of a field; none where the field is missing.
pub open spec fn field_words(value: Option<Seq<char>>) -> Seq<Seq<char>> {
    match value {
        Some(value) => words(value),
        None => seq![],
    }
}

/// A line of a hash section: the hash, the size, and the path.
pub open spec fn hash_of(line: Seq<char>) -> std::result::Result<HashModel, Failure> {
    let w = words(line);
    if w.len() < 1 {
        Err(Failure::Validation("Release hash entry missing hash"@))
    } else if w.len() < 2 {
        Err(Failure::Validation("Release hash entry missing size"@))
    } else {
        match decimal_u64(w[1]) {
            None => Err(Failure::Validation("Invalid Release hash size in '"@ + line + "'"@)),
            Some(size) => if w.len() < 3 {
                Err(Failure::Validation("Release hash entry missing path"@))
            } else {
                Ok(HashModel { hash: w[0], size, path: w[2] })
            },
        }
    }
}

/// The lines of a hash section, blank lines aside, up to the first bad one.
pub open spec fn hashes_of(ls: Seq<Seq<char>>) -> std::result::Result<Seq<HashModel>, Failure>
    decreases ls.len(),
{
    if ls.len() == 0 {
        Ok(seq![])
    } else {
        match hashes_of(ls.drop_last()) {
            Err(failure) => Err(failure),
            Ok(before) => if is_blank(ls.last()) {
                Ok(before)
            } else {
                match hash_of(ls.last()) {
                    Ok(hash) => Ok(before.push(hash)),
                    Err(failure) => Err(failure),
                }
            },
        }
    }
}

/// A hash section; empty where the field is missing.
pub open spec fn hash_section(value: Option<Seq<char>>) -> std::result::Result<
    Seq<HashModel>,
    Failure,
> {
    match value {
        None => Ok(seq![]),
        Some(value) => hashes_of(lines(value)),
    }
}

/// The fields that a Release gives a meaning of their own.
pub open spec fn known_fields() -> Seq<Seq<char>> {
    seq![
        "Origin"@,
        "Label"@,
        "Suite"@,
        "Codename"@,
        "Version"@,
        "Date"@,
        "Architectures"@,
        "Components"@,
        "Description"@,
        "MD5Sum"@,
        "SHA1"@,
        "SHA256"@,
        "SHA512"@,
    ]
}

/// A Release made of its fields and its hash sections.
pub open spec fn release_with(
    fields: Seq<(Seq<char>, Seq<char>)>,
    md5sum: Seq<HashModel>,
    sha1: Seq<HashModel>,
    sha256: Seq<HashModel>,
    sha512: Seq<HashModel>,
) -> ReleaseModel {
    ReleaseModel {
        origin: lookup(fields, "Origin"@),
        label: lookup(fields, "Label"@),
        suite: lookup(fields, "Suite"@)->0,
        codename: lookup(fields, "Codename"@),
        version: lookup(fields, "Version"@),
        date: lookup(fields, "Date"@)->0,
        architectures: field_words(lookup(fields, "Architectures"@)),
        components: field_words(lookup(fields, "Components"@)),
        description: lookup(fields, "Description"@),
        md5sum,
        sha1,
        sha256,
        sha512,
        extra: without_all(fields, known_fields()),
    }
}

/// What the fields of a Release say. Suite, date and architectures must be there.
pub open spec fn release_from(fields: Seq<(Seq<char>, Seq<char>)>) -> std::result::Result<
    ReleaseModel,
    Failure,
> {
    if needed_field(fields, "Suite"@) is Err {
        Err(needed_field(fields, "Suite"@)->Err_0)
    } else if needed_field(fields, "Date"@) is Err {
        Err(needed_field(fields, "Date"@)->Err_0)
    } else if field_words(lookup(fields, "Architectures"@)).len() == 0 {
        Err(Failure::Validation("Release file missing Architectures field"@))
    } else {
        match (
            hash_section(lookup(fields, "MD5Sum"@)),
            hash_section(lookup(fields, "SHA1"@)),
            hash_section(lookup(fields, "SHA256"@)),
            hash_section(lookup(fields, "SHA512"@)),
        ) {
            (Err(failure), _, _, _) => Err(failure),
            (_, Err(failure), _, _) => Err(failure),
            (_, _, Err(failure), _) => Err(failure),
            (_, _, _, Err(failure)) => Err(failure),
            (Ok(md5sum), Ok(sha1), Ok(sha256), Ok(sha512)) => Ok(
                release_with(fields, md5sum, sha1, sha256, sha512),
            ),
        }
    }
}

/// What a Release file says.
pub open spec fn release_of(content: Seq<char>) -> std::result::Result<ReleaseModel, Failure> {
    match only_stanza(content) {
        Err(failure) => Err(failure),
        Ok(fields) => release_from(fields),
    }
}

/// The lines behind the first empty one.
pub open spec fn after_empty(ls: Seq<Seq<char>>) -> Seq<Seq<char>>
    decreases ls.len(),
{
    if ls.len() == 0 {
        seq![]
    } else if ls[0].len() == 0 {
        ls.drop_first()
    } else {
        after_empty(ls.drop_first())
    }
}

/// A line as it was before it was signed.
pub open spec fn unstuffed(line: Seq<char>) -> Seq<char> {
    if starts_with(line, "- "@) {
        line.skip(2)
    } else {
        line
    }
}

/// The signed text: the lines up to the signature.
pub open spec fn signed_text(ls: Seq<Seq<char>>) -> Seq<char>
    decreases ls.len(),
{
    if ls.len() == 0 || ls[0] == "-----BEGIN PGP SIGNATURE-----"@ {
        seq![]
    } else {
        unstuffed(ls[0]) + seq!['\n'] + signed_text(ls.drop_first())
    }
}

/// The text inside a clear signature; text without one is taken as it is.
pub open spec fn payload_of(content: Seq<char>) -> std::result::Result<Seq<char>, Failure> {
    if !starts_with(content, "-----BEGIN PGP SIGNED MESSAGE-----"@) {
        Ok(content)
    } else {
        let ls = lines(content);
        if ls.len() == 0 {
            Err(Failure::Validation("InRelease is empty"@))
        } else if ls[0] != "-----BEGIN PGP SIGNED MESSAGE-----"@ {
            Err(Failure::Validation("Invalid InRelease clear-signature header"@))
        } else {
            let payload = signed_text(after_empty(ls.drop_first()));
            if is_blank(payload) {
                Err(Failure::Validation("InRelease missing signed Release payload"@))
            } else {
                Ok(payload)
            }
        }
    }
}

/// What an InRelease file says.
pub open spec fn in_release_of(content: Seq<char>) -> std::result::Result<ReleaseModel, Failure> {
    match payload_of(content) {
        Err(failure) => Err(failure),
        Ok(payload) => release_of(payload),
    }
}

// ---------------------------------------------------------------------------
// Laws
// ---------------------------------------------------------------------------

/// An unsigned Release reads the same through both readers.
pub proof fn unsigned_reads_alike(content: Seq<char>)
    requires
        !starts_with(content, "-----BEGIN PGP SIGNED MESSAGE-----"@),
    ensures
        in_release_of(content) == release_of(content),
{
}

proof fn hashes_fail(ls: Seq<Seq<char>>, n: int)
    requires
        0 <= n <= ls.len(),
        hashes_of(ls.take(n)) is Err,
    ensures
        hashes_of(ls) == hashes_of(ls.take(n)),
    decreases ls.len(),
{
    if n == ls.len() {
        assert(ls.take(n) =~= ls);
    } else {
        assert(ls.drop_last().take(n) =~= ls.take(n));
        hashes_fail(ls.drop_last(), n);
    }
}

// ---------------------------------------------------------------------------
// Parsing
// ---------------------------------------------------------------------------

/// A copy of a field.
pub(crate) fn copy_field(fields: &TextMap<String>, key: &str) -> (r: Option<String>)
    ensures
        r.deep_view() == lookup(fields.deep_view(), key@),
{
    match fields.get(key) {
        Some(value) => Some(value.clone()),
        None => None,
    }
}

/// A field that has to be there and to hold more than white space.
fn required_field(fields: &TextMap<String>, key: &str) -> (r: Result<String>)
    ensures
        outcome(r) == needed_field(fields.deep_view(), key@),
{
    if let Some(value) = fields.get(key) {
        if !is_blank_text(value.as_str()) {
            return Ok(value.clone());
        }
    }
    Err(AppError::Validation(cat3("Release file missing ", key, " field")))
}

/// The words of a field; none where the field is missing.
fn split_words(value: Option<&String>) -> (r: Vec<String>)
    ensures
        r.deep_view() == field_words(
            match value {
                Some(text) => Some(text@),
                None => None,
            },
        ),
{
    let mut r: Vec<String> = Vec::new();
    assert(r.deep_view() =~= seq![]);
    if let Some(text) = value {
        let chars = chars_of(text.as_str());
        let ws = words_of(chars.as_slice());
        let ghost all = pieces(ws@);
        assert(all.take(0) =~= seq![]);
        for i in 0..ws.len()
            invariant
                all == pieces(ws@),
                r.deep_view() == all.take(i as int),
        {
            let ghost before = r.deep_view();
            r.push(text_of(ws[i]));
            assert(r.deep_view() =~= before.push(all[i as int]));
            assert(all.take(i + 1) =~= before.push(all[i as int]));
        }
        assert(all.take(all.len() as int) =~= all);
    }
    r
}

/// Parses one line of a hash section.
fn parse_release_hash(line: &[char]) -> (r: Result<ReleaseHash>)
    ensures
        outcome(r) == hash_of(line@),
{
    let w = words_of(line);
    if w.len() < 1 {
        return Err(invalid("Release hash entry missing hash"));
    }
    if w.len() < 2 {
        return Err(invalid("Release hash entry missing size"));
    }
    let size: u64 = match parse_u64(w[1]) {
        Some(size) => size,
        None => {
            let text = text_of(line);
            return Err(
                AppError::Validation(cat3("Invalid Release hash size in '", text.as_str(), "'")),
            );
        },
    };
    if w.len() < 3 {
        return Err(invalid("Release hash entry missing path"));
    }
    Ok(ReleaseHash { hash: text_of(w[0]), size, path: text_of(w[2]) })
}

/// Parses a hash section.
fn parse_release_hashes(value: Option<&String>) -> (r: Result<Vec<ReleaseHash>>)
    ensures
        outcome(r) == hash_section(
            match value {
                Some(text) => Some(text@),
                None => None,
            },
        ),
{
    let mut hashes: Vec<ReleaseHash> = Vec::new();
    assert(hashes.deep_view() =~= seq![]);
    if let Some(text) = value {
        let chars = chars_of(text.as_str());
        let ls = lines_of(chars.as_slice());
        let ghost all = pieces(ls@);
        for i in 0..ls.len()
            invariant
                value is Some,
                all == lines(value->0@),
                all == pieces(ls@),
                hashes_of(all.take(i as int)) == Ok::<Seq<HashModel>, Failure>(hashes.deep_view()),
        {
            let line = ls[i];
            let ghost before = hashes.deep_view();
            proof {
                assert(all.take(i + 1).drop_last() =~= all.take(i as int));
                assert(all.take(i + 1).last() == line@);
            }
            if !is_blank_chars(line) {
                match parse_release_hash(line) {
                    Ok(hash) => {
                        hashes.push(hash);
                        assert(hashes.deep_view() =~= before.push(hash.deep_view()));
                    },
                    Err(error) => {
                        proof {
                            hashes_fail(all, i + 1);
                        }
                        return Err(error);
                    },
                }
            }
        }
        assert(all.take(all.len() as int) =~= all);
    }
    Ok(hashes)
}

/// The fields without those that a Release gives a meaning of their own.
fn extra_fields(fields: TextMap<String>) -> (r: TextMap<String>)
    ensures
        r.deep_view() == without_all(fields.deep_view(), known_fields()),
{
    let ghost all = fields.deep_view();
    let ghost known = known_fields();
    let mut rest = fields;
    rest.remove("Origin");
    rest.remove("Label");
    rest.remove("Suite");
    rest.remove("Codename");
    rest.remove("Version");
    rest.remove("Date");
    rest.remove("Architectures");
    rest.remove("Components");
    rest.remove("Description");
    rest.remove("MD5Sum");
    rest.remove("SHA1");
    rest.remove("SHA256");
    rest.remove("SHA512");
    proof {
        assert(known.take(13) =~= known);
        assert(known.take(0) =~= seq![]);
        without_all_step(all, known, 0);
        without_all_step(all, known, 1);
        without_all_step(all, known, 2);
        without_all_step(all, known, 3);
        without_all_step(all, known, 4);
        without_all_step(all, known, 5);
        without_all_step(all, known, 6);
        without_all_step(all, known, 7);
        without_all_step(all, known, 8);
        without_all_step(all, known, 9);
        without_all_step(all, known, 10);
        without_all_step(all, known, 11);
        without_all_step(all, known, 12);
    }
    rest
}

/// Makes a Release of its fields.
fn release_from_fields(fields: TextMap<String>) -> (r: Result<Release>)
    ensures
        outcome(r) == release_from(fields.deep_view()),
{
    let suite = match required_field(&fields, "Suite") {
        Ok(suite) => suite,
        Err(error) => {
            return Err(error);
        },
    };
    let date = match required_field(&fields, "Date") {
        Ok(date) => date,
        Err(error) => {
            return Err(error);
        },
    };
    let architectures = split_words(fields.get("Architectures"));
    let components = split_words(fields.get("Components"));
    if architectures.len() == 0 {
        return Err(invalid("Release file missing Architectures field"));
    }
    let md5sum = match parse_release_hashes(fields.get("MD5Sum")) {
        Ok(hashes) => hashes,
        Err(error) => {
            return Err(error);
        },
    };
    let sha1 = match parse_release_hashes(fields.get("SHA1")) {
        Ok(hashes) => hashes,
        Err(error) => {
            return Err(error);
        },
    };
    let sha256 = match parse_release_hashes(fields.get("SHA256")) {
        Ok(hashes) => hashes,
        Err(error) => {
            return Err(error);
        },
    };
    let sha512 = match parse_release_hashes(fields.get("SHA512")) {
        Ok(hashes) => hashes,
        Err(error) => {
            return Err(error);
        },
    };
    Ok(
        Release {
            origin: copy_field(&fields, "Origin"),
            label: copy_field(&fields, "Label"),
            suite,
            codename: copy_field(&fields, "Codename"),
            version: copy_field(&fields, "Version"),
            date,
            architectures,
            components,
            description: copy_field(&fields, "Description"),
            md5sum,
            sha1,
            sha256,
            sha512,
            extra: extra_fields(fields),
        },
    )
}

/// Parses a Release file.
pub fn parse_release(content: &str) -> (r: Result<Release>)
    ensures
        outcome(r) == release_of(content@),
{
    match parse_debian_stanza_fields(content) {
        Ok(fields) => release_from_fields(fields),
        Err(error) => Err(error),
    }
}

/// The text inside a clear signature; text without one is taken as it is.
fn clear_signed_payload(content: &str) -> (r: Result<String>)
    ensures
        outcome(r) == payload_of(content@),
{
    let chars = chars_of(content);
    if !begins(chars.as_slice(), "-----BEGIN PGP SIGNED MESSAGE-----") {
        return Ok(content.to_string());
    }
    let ls = lines_of(chars.as_slice());
    let ghost all = pieces(ls@);
    if ls.len() == 0 {
        return Err(invalid("InRelease is empty"));
    }
    if !is_text(ls[0], "-----BEGIN PGP SIGNED MESSAGE-----") {
        return Err(invalid("Invalid InRelease clear-signature header"));
    }
    let mut i: usize = 1;
    assert(all.skip(1) =~= all.drop_first());
    while i < ls.len() && ls[i].len() > 0
        invariant
            1 <= i <= ls.len(),
            all == pieces(ls@),
            after_empty(all.skip(i as int)) == after_empty(all.drop_first()),
        decreases ls.len() - i,
    {
        assert(all.skip(i as int).drop_first() =~= all.skip(i + 1));
        i += 1;
    }
    let ghost body = after_empty(all.drop_first());
    if i < ls.len() {
        assert(all.skip(i as int).drop_first() =~= all.skip(i + 1));
        i += 1;
    }
    assert(all.skip(i as int) =~= body);
    let mut payload: Vec<char> = Vec::new();
    while i < ls.len() && !is_text(ls[i], "-----BEGIN PGP SIGNATURE-----")
        invariant
            i <= ls.len(),
            all == pieces(ls@),
            payload@ + signed_text(all.skip(i as int)) == signed_text(body),
        decreases ls.len() - i,
    {
        let line = ls[i];
        let ghost before = payload@;
        if begins(line, "- ") {
            proof {
                reveal_strlit("- ");
                assert(line@.subrange(2, line@.len() as int) =~= line@.skip(2));
            }
            payload.extend_from_slice(slice_subrange(line, 2, line.len()));
        } else {
            payload.extend_from_slice(line);
        }
        payload.push('\n');
        proof {
            assert(all.skip(i as int)[0] == line@);
            assert(all.skip(i as int).drop_first() =~= all.skip(i + 1));
            assert(payload@ =~= before + (unstuffed(line@) + seq!['\n']));
            assert(before + (unstuffed(line@) + seq!['\n'] + signed_text(all.skip(i + 1)))
                =~= payload@ + signed_text(all.skip(i + 1)));
        }
        i += 1;
    }
    proof {
        assert(signed_text(all.skip(i as int)) =~= seq![]);
        assert(payload@ =~= signed_text(body));
    }
    if is_blank_chars(payload.as_slice()) {
        return Err(invalid("InRelease missing signed Release payload"));
    }
    Ok(text_of(payload.as_slice()))
}

/// Parses a clear-signed InRelease file.
pub fn parse_in_release(content: &str) -> (r: Result<Release>)
    ensures
        outcome(r) == in_release_of(content@),
{
    match clear_signed_payload(content) {
        Ok(payload) => parse_release(payload.as_str()),
        Err(error) => Err(error),
    }
}

/// Checks that a detached signature is there, and tells whether it is armored.
pub fn parse_release_gpg(content: &[u8]) -> (r: Result<ReleaseSignature>)
    ensures
        outcome(r) == if content@.len() == 0 {
            Err::<ReleaseSignature, Failure>(Failure::Validation("Release.gpg is empty"@))
        } else {
            Ok::<ReleaseSignature, Failure>(
                (ReleaseSignature {
                    is_armored: valid_utf8(content@) && contains_text(
                        decode_utf8(content@),
                        "-----BEGIN PGP SIGNATURE-----"@,
                    ),
                    size: content@.len() as usize,
                }),
            )
        },
{
    if content.len() == 0 {
        return Err(invalid("Release.gpg is empty"));
    }
    let is_armored = match utf8_text(content) {
        Ok(text) => {
            let chars = chars_of(text.as_str());
            holds_text(chars.as_slice(), "-----BEGIN PGP SIGNATURE-----")
        },
        Err(_) => false,
    };
    Ok(ReleaseSignature { is_armored, size: content.len() })
}

} // verus!
