//! What is written in a Release reads back, and vouches for the files that it lists.

use vstd::prelude::*;

use crate::digest::{hex, hex_digit, sha256_digest, sha256_hex, sha512_digest, sha512_hex};
use crate::emit::{hash_lines, optional_text, release_text};
use crate::error::Failure;
use crate::hosted::{digest_lines, file_digest, release_content, DigestName, DigestedFile, DigestedModel};
use crate::number::decimal_round_trip;
use crate::ordered::{ascending, keys_of, lookup, without_all};
use crate::release::{hash_section, hashes_of, known_fields, release_from, release_of, HashModel, ReleaseHash};
use crate::release::ReleaseModel;
use crate::roundtrip::{add_chunk, add_last_line, add_line, chunk, entries_are_chunk, entries_come_back};
use crate::roundtrip::{entry_has_words, entry_text, flat, flat_add, glued, is_entry, is_key, is_line, is_stanza};
use crate::roundtrip::{is_word, is_writable, last_field_counts, lines_of_flat, lines_of_open_flat, one_line};
use crate::roundtrip::{other_fields_stay, reads_as, same_lookups_same_map, section_of, stanza_stays_open};
use crate::roundtrip::{stanza_text, trim_once, without_all_lookup, word_then_rest, writable_is_chunk};
use crate::roundtrip_packages::{key_description, key_sha1, key_sha256};
use crate::sort::{sorted, sorted_is_ordered, Sortable};
use crate::stanza::{map_of, map_of_ascending, only_stanza, stanzas};
use crate::text::{is_blank, is_white, join, lines, trim, trim_empty_iff_blank, trim_end, trim_end_is_prefix};
use crate::text::{trim_start, trim_start_is_suffix, word_len, word_len_is_run, words};
use crate::verify::{first_hash, index_verdict};

verus! {

// ---------------------------------------------------------------------------
// What can be written
// ---------------------------------------------------------------------------

/// Hashes that can be listed: each is one word, and so is its path.
pub open spec fn are_listable(hashes: Seq<HashModel>) -> bool {
    forall|i: int| 0 <= i < hashes.len() ==> is_word((#[trigger] hashes[i]).hash) && is_word(
        hashes[i].path,
    )
}

/// A file that a Release can list.
pub open spec fn is_listable(file: DigestedModel) -> bool {
    &&& is_word(file.path)
    &&& is_word(file.md5)
    &&& is_word(file.sha1)
    &&& sha256_hex(file.bytes).len() > 0
    &&& sha512_hex(file.bytes).len() > 0
    &&& file.bytes.len() <= u64::MAX
}

/// What a Release of a repository is made of.
#[verifier::ext_equal]
pub struct Draft {
    pub suite: Seq<char>,
    pub codename: Option<Seq<char>>,
    pub description: Option<Seq<char>>,
    pub components: Seq<Seq<char>>,
    pub architectures: Seq<Seq<char>>,
    pub files: Seq<DigestedModel>,
    pub date: Seq<char>,
}

/// The Release of a draft.
pub open spec fn draft_text(d: Draft) -> Seq<char> {
    release_content(
        d.suite,
        d.codename,
        d.description,
        d.components,
        d.architectures,
        d.files,
        d.date,
    )
}

/// A draft whose Release can be read: its values stand on one line each, its
/// description can be written, its files can be listed, and neither suite nor
/// date nor architectures are blank.
pub open spec fn is_publishable(d: Draft) -> bool {
    &&& is_line(d.suite) && !is_blank(d.suite)
    &&& d.codename matches Some(name) ==> is_blank(name) || is_line(name)
    &&& d.description matches Some(text) ==> is_blank(text) || is_writable(text)
    &&& is_line(join(d.components, " "@))
    &&& is_line(join(d.architectures, " "@)) && !is_blank(join(d.architectures, " "@))
    &&& is_line(d.date) && !is_blank(d.date)
    &&& forall|i: int| 0 <= i < d.files.len() ==> is_listable(#[trigger] d.files[i])
}

/// An optional value, trimmed; none where it is blank.
pub open spec fn kept(value: Option<Seq<char>>) -> Option<Seq<char>> {
    match value {
        Some(text) => if is_blank(text) {
            None
        } else {
            Some(trim(text))
        },
        None => None,
    }
}

/// The hashes of files by one algorithm.
pub open spec fn hashes_listed(files: Seq<DigestedModel>, algorithm: DigestName) -> Seq<HashModel> {
    files.map_values(
        |file: DigestedModel|
            HashModel {
                hash: file_digest(file, algorithm),
                size: file.bytes.len() as u64,
                path: file.path,
            },
    )
}

/// What the Release of a draft says.
pub open spec fn draft_release(d: Draft) -> ReleaseModel {
    release_in_order(Draft { files: sorted::<DigestedFile>(d.files), ..d })
}

/// What the Release of a draft says that holds its files in order.
pub open spec fn release_in_order(d: Draft) -> ReleaseModel {
    ReleaseModel {
        origin: Some("artifact-keeper"@),
        label: Some("artifact-keeper"@),
        suite: trim(d.suite),
        codename: kept(d.codename),
        version: None,
        date: trim(d.date),
        architectures: words(join(d.architectures, " "@)),
        components: words(join(d.components, " "@)),
        description: kept(d.description),
        md5sum: hashes_listed(d.files, DigestName::Md5),
        sha1: hashes_listed(d.files, DigestName::Sha1),
        sha256: hashes_listed(d.files, DigestName::Sha256),
        sha512: hashes_listed(d.files, DigestName::Sha512),
        extra: seq![],
    }
}

// ---------------------------------------------------------------------------
// Hash sections
// ---------------------------------------------------------------------------

/// The entries of a hash section.
spec fn listed_entries(hashes: Seq<HashModel>) -> Seq<Seq<char>> {
    hashes.map_values(|h: HashModel| entry_text(h.hash, h.size as nat, h.path))
}

/// The lines of the value of a hash section.
spec fn section_lines(hashes: Seq<HashModel>) -> Seq<Seq<char>> {
    section_of(listed_entries(hashes))
}

proof fn listed_entries_are_entries(hashes: Seq<HashModel>)
    requires
        are_listable(hashes),
    ensures
        forall|i: int|
            0 <= i < listed_entries(hashes).len() ==> is_entry(
                #[trigger] listed_entries(hashes)[i],
            ),
{
    let es = listed_entries(hashes);
    assert forall|i: int| 0 <= i < es.len() implies is_entry(#[trigger] es[i]) by {
        assert(is_word(hashes[i].hash));
        entry_has_words(hashes[i].hash, hashes[i].size as nat, hashes[i].path);
    }
}

proof fn listed_entries_read_back(hashes: Seq<HashModel>)
    requires
        are_listable(hashes),
    ensures
        hashes_of(listed_entries(hashes)) == Ok::<Seq<HashModel>, Failure>(hashes),
    decreases hashes.len(),
{
    if hashes.len() == 0 {
        assert(hashes =~= seq![]);
    } else {
        let t = hashes.drop_last();
        let last = hashes.last();
        assert forall|i: int| 0 <= i < t.len() implies is_word((#[trigger] t[i]).hash) && is_word(
            t[i].path,
        ) by {
            assert(t[i] == hashes[i]);
        }
        listed_entries_read_back(t);
        assert(is_word(hashes[hashes.len() - 1].hash));
        entry_has_words(last.hash, last.size as nat, last.path);
        decimal_round_trip(last.size as nat, u64::MAX as nat);
        assert(listed_entries(hashes).drop_last() =~= listed_entries(t));
        assert(t.push(last) =~= hashes);
    }
}

proof fn hash_lines_are_flat(hashes: Seq<HashModel>)
    ensures
        hash_lines(hashes) == flat(
            listed_entries(hashes).map_values(|l: Seq<char>| seq![' '] + l),
        ),
    decreases hashes.len(),
{
    reveal_strlit(" ");
    reveal_strlit("\n");
    let m = listed_entries(hashes).map_values(|l: Seq<char>| seq![' '] + l);
    if hashes.len() == 0 {
        assert(m =~= seq![]);
    } else {
        let t = hashes.drop_last();
        hash_lines_are_flat(t);
        assert(m.drop_last() =~= listed_entries(t).map_values(|l: Seq<char>| seq![' '] + l));
        assert(hash_lines(hashes) =~= flat(m));
    }
}

/// The value of a hash section, trimmed, reads back.
proof fn section_reads_back(hashes: Seq<HashModel>)
    requires
        are_listable(hashes),
    ensures
        hash_section(Some(trim(glued(section_lines(hashes))))) == Ok::<Seq<HashModel>, Failure>(
            hashes,
        ),
{
    let es = listed_entries(hashes);
    let ls = section_lines(hashes);
    listed_entries_read_back(hashes);
    if hashes.len() == 0 {
        assert(ls.len() == 1);
        assert(glued(ls) =~= seq![]);
        assert(trim(glued(ls)) =~= seq![]);
        assert(lines(seq![]) =~= es);
    } else {
        listed_entries_are_entries(hashes);
        entries_come_back(es);
    }
}

proof fn add_section(
    ls: Seq<Seq<char>>,
    fs: Seq<(Seq<char>, Seq<char>)>,
    text: Seq<char>,
    key: Seq<char>,
    hashes: Seq<HashModel>,
)
    requires
        reads_as(ls, fs),
        flat(ls) == text,
        is_key(key),
        are_listable(hashes),
    ensures
        reads_as(
            ls + chunk(key, seq![], section_lines(hashes)),
            fs + seq![(key, glued(section_lines(hashes)))],
        ),
        flat(ls + chunk(key, seq![], section_lines(hashes))) == text + key + seq![':', '\n']
            + hash_lines(hashes),
{
    let cl = chunk(key, seq![], section_lines(hashes));
    listed_entries_are_entries(hashes);
    hash_lines_are_flat(hashes);
    entries_are_chunk(key, listed_entries(hashes));
    add_chunk(ls, fs, key, seq![], section_lines(hashes));
    flat_add(ls, cl);
    assert(text + (key + seq![':', '\n'] + hash_lines(hashes)) =~= text + key + seq![':', '\n']
        + hash_lines(hashes));
}

/// A hash section does not end with white space.
proof fn section_ends_plainly(ls: Seq<Seq<char>>, key: Seq<char>, hashes: Seq<HashModel>)
    requires
        are_listable(hashes),
    ensures
        (ls + chunk(key, seq![], section_lines(hashes))).len() > 0,
        (ls + chunk(key, seq![], section_lines(hashes))).last().len() > 0,
        !is_white((ls + chunk(key, seq![], section_lines(hashes))).last().last()),
{
    let section = section_lines(hashes);
    let cl = chunk(key, seq![], section);
    assert((ls + cl).last() == cl.last());
    if hashes.len() == 0 {
        assert(section.len() == 1);
        assert(cl.last() == key + seq![':'] + Seq::<char>::empty() + section[0]);
        assert(cl.last().last() == ':');
    } else {
        listed_entries_are_entries(hashes);
        let es = listed_entries(hashes);
        assert(is_entry(es[es.len() - 1]));
        assert(cl.last() == seq![' '] + es.last());
        assert(cl.last().last() == es.last().last());
    }
}

proof fn hex_is_word(data: Seq<u8>)
    requires
        hex(data).len() > 0,
    ensures
        is_word(hex(data)),
{
    let h = hex(data);
    assert forall|i: int| 0 <= i < h.len() implies !is_white(#[trigger] h[i]) by {
        let b = data[i / 2];
        let n: u8 = if i % 2 == 0 {
            b / 16
        } else {
            b % 16
        };
        assert(h[i] == hex_digit(n));
        assert(n < 16);
    }
}

proof fn files_are_listable(files: Seq<DigestedModel>, algorithm: DigestName)
    requires
        forall|i: int| 0 <= i < files.len() ==> is_listable(#[trigger] files[i]),
    ensures
        are_listable(hashes_listed(files, algorithm)),
{
    let hs = hashes_listed(files, algorithm);
    assert forall|i: int| 0 <= i < hs.len() implies is_word((#[trigger] hs[i]).hash) && is_word(
        hs[i].path,
    ) by {
        assert(is_listable(files[i]));
        hex_is_word(sha256_digest(files[i].bytes));
        hex_is_word(sha512_digest(files[i].bytes));
    }
}

proof fn digest_lines_are_listed(files: Seq<DigestedModel>, algorithm: DigestName)
    requires
        forall|i: int| 0 <= i < files.len() ==> is_listable(#[trigger] files[i]),
    ensures
        digest_lines(files, algorithm) == hash_lines(hashes_listed(files, algorithm)),
    decreases files.len(),
{
    if files.len() > 0 {
        let t = files.drop_last();
        assert forall|i: int| 0 <= i < t.len() implies is_listable(#[trigger] t[i]) by {
            assert(t[i] == files[i]);
        }
        digest_lines_are_listed(t, algorithm);
        assert(is_listable(files[files.len() - 1]));
        assert(hashes_listed(files, algorithm).drop_last() =~= hashes_listed(t, algorithm));
    }
}

// ---------------------------------------------------------------------------
// Field names
// ---------------------------------------------------------------------------

proof fn key_origin()
    ensures
        is_key("Origin"@),
{
    reveal_strlit("Origin");
    let key = "Origin"@;
    assert forall|k: int| 0 <= k < key.len() implies key[k] != ':' && key[k] != '\n' by {
        assert(k == 0 || k == 1 || k == 2 || k == 3 || k == 4 || k == 5);
    }
}

proof fn key_label()
    ensures
        is_key("Label"@),
{
    reveal_strlit("Label");
    let key = "Label"@;
    assert forall|k: int| 0 <= k < key.len() implies key[k] != ':' && key[k] != '\n' by {
        assert(k == 0 || k == 1 || k == 2 || k == 3 || k == 4);
    }
}

proof fn key_suite()
    ensures
        is_key("Suite"@),
{
    reveal_strlit("Suite");
    let key = "Suite"@;
    assert forall|k: int| 0 <= k < key.len() implies key[k] != ':' && key[k] != '\n' by {
        assert(k == 0 || k == 1 || k == 2 || k == 3 || k == 4);
    }
}

proof fn key_codename()
    ensures
        is_key("Codename"@),
{
    reveal_strlit("Codename");
    let key = "Codename"@;
    assert forall|k: int| 0 <= k < key.len() implies key[k] != ':' && key[k] != '\n' by {
        assert(k == 0 || k == 1 || k == 2 || k == 3 || k == 4 || k == 5 || k == 6 || k == 7);
    }
}

proof fn key_date()
    ensures
        is_key("Date"@),
{
    reveal_strlit("Date");
    let key = "Date"@;
    assert forall|k: int| 0 <= k < key.len() implies key[k] != ':' && key[k] != '\n' by {
        assert(k == 0 || k == 1 || k == 2 || k == 3);
    }
}

proof fn key_architectures()
    ensures
        is_key("Architectures"@),
{
    reveal_strlit("Architectures");
    let key = "Architectures"@;
    assert forall|k: int| 0 <= k < key.len() implies key[k] != ':' && key[k] != '\n' by {
        assert(k == 0 || k == 1 || k == 2 || k == 3 || k == 4 || k == 5 || k == 6 || k == 7 || k == 8 || k == 9 || k == 10 || k == 11 || k == 12);
    }
}

proof fn key_components()
    ensures
        is_key("Components"@),
{
    reveal_strlit("Components");
    let key = "Components"@;
    assert forall|k: int| 0 <= k < key.len() implies key[k] != ':' && key[k] != '\n' by {
        assert(k == 0 || k == 1 || k == 2 || k == 3 || k == 4 || k == 5 || k == 6 || k == 7 || k == 8 || k == 9);
    }
}

proof fn key_md5sum_section()
    ensures
        is_key("MD5Sum"@),
{
    reveal_strlit("MD5Sum");
    let key = "MD5Sum"@;
    assert forall|k: int| 0 <= k < key.len() implies key[k] != ':' && key[k] != '\n' by {
        assert(k == 0 || k == 1 || k == 2 || k == 3 || k == 4 || k == 5);
    }
}

proof fn key_sha512()
    ensures
        is_key("SHA512"@),
{
    reveal_strlit("SHA512");
    let key = "SHA512"@;
    assert forall|k: int| 0 <= k < key.len() implies key[k] != ':' && key[k] != '\n' by {
        assert(k == 0 || k == 1 || k == 2 || k == 3 || k == 4 || k == 5);
    }
}

/// The names of the fields of a Release differ.
pub(crate) proof fn release_fields_differ()
    ensures
        "Origin"@ != "Label"@,
        "Origin"@ != "Suite"@,
        "Origin"@ != "Codename"@,
        "Origin"@ != "Version"@,
        "Origin"@ != "Date"@,
        "Origin"@ != "Architectures"@,
        "Origin"@ != "Components"@,
        "Origin"@ != "Description"@,
        "Origin"@ != "MD5Sum"@,
        "Origin"@ != "SHA1"@,
        "Origin"@ != "SHA256"@,
        "Origin"@ != "SHA512"@,
        "Label"@ != "Suite"@,
        "Label"@ != "Codename"@,
        "Label"@ != "Version"@,
        "Label"@ != "Date"@,
        "Label"@ != "Architectures"@,
        "Label"@ != "Components"@,
        "Label"@ != "Description"@,
        "Label"@ != "MD5Sum"@,
        "Label"@ != "SHA1"@,
        "Label"@ != "SHA256"@,
        "Label"@ != "SHA512"@,
        "Suite"@ != "Codename"@,
        "Suite"@ != "Version"@,
        "Suite"@ != "Date"@,
        "Suite"@ != "Architectures"@,
        "Suite"@ != "Components"@,
        "Suite"@ != "Description"@,
        "Suite"@ != "MD5Sum"@,
        "Suite"@ != "SHA1"@,
        "Suite"@ != "SHA256"@,
        "Suite"@ != "SHA512"@,
        "Codename"@ != "Version"@,
        "Codename"@ != "Date"@,
        "Codename"@ != "Architectures"@,
        "Codename"@ != "Components"@,
        "Codename"@ != "Description"@,
        "Codename"@ != "MD5Sum"@,
        "Codename"@ != "SHA1"@,
        "Codename"@ != "SHA256"@,
        "Codename"@ != "SHA512"@,
        "Version"@ != "Date"@,
        "Version"@ != "Architectures"@,
        "Version"@ != "Components"@,
        "Version"@ != "Description"@,
        "Version"@ != "MD5Sum"@,
        "Version"@ != "SHA1"@,
        "Version"@ != "SHA256"@,
        "Version"@ != "SHA512"@,
        "Date"@ != "Architectures"@,
        "Date"@ != "Components"@,
        "Date"@ != "Description"@,
        "Date"@ != "MD5Sum"@,
        "Date"@ != "SHA1"@,
        "Date"@ != "SHA256"@,
        "Date"@ != "SHA512"@,
        "Architectures"@ != "Components"@,
        "Architectures"@ != "Description"@,
        "Architectures"@ != "MD5Sum"@,
        "Architectures"@ != "SHA1"@,
        "Architectures"@ != "SHA256"@,
        "Architectures"@ != "SHA512"@,
        "Components"@ != "Description"@,
        "Components"@ != "MD5Sum"@,
        "Components"@ != "SHA1"@,
        "Components"@ != "SHA256"@,
        "Components"@ != "SHA512"@,
        "Description"@ != "MD5Sum"@,
        "Description"@ != "SHA1"@,
        "Description"@ != "SHA256"@,
        "Description"@ != "SHA512"@,
        "MD5Sum"@ != "SHA1"@,
        "MD5Sum"@ != "SHA256"@,
        "MD5Sum"@ != "SHA512"@,
        "SHA1"@ != "SHA256"@,
        "SHA1"@ != "SHA512"@,
        "SHA256"@ != "SHA512"@,
{
    reveal_strlit("Origin");
    reveal_strlit("Label");
    reveal_strlit("Suite");
    reveal_strlit("Codename");
    reveal_strlit("Version");
    reveal_strlit("Date");
    reveal_strlit("Architectures");
    reveal_strlit("Components");
    reveal_strlit("Description");
    reveal_strlit("MD5Sum");
    reveal_strlit("SHA1");
    reveal_strlit("SHA256");
    reveal_strlit("SHA512");
    assert("Origin"@.len() == 6);
    assert("Label"@.len() == 5);
    assert("Suite"@.len() == 5);
    assert("Codename"@.len() == 8);
    assert("Version"@.len() == 7);
    assert("Date"@.len() == 4);
    assert("Architectures"@.len() == 13);
    assert("Components"@.len() == 10);
    assert("Description"@.len() == 11);
    assert("MD5Sum"@.len() == 6);
    assert("SHA1"@.len() == 4);
    assert("SHA256"@.len() == 6);
    assert("SHA512"@.len() == 6);
    assert("Origin"@[0] != "MD5Sum"@[0]);
    assert("Origin"@[0] != "SHA256"@[0]);
    assert("Origin"@[0] != "SHA512"@[0]);
    assert("Label"@[0] != "Suite"@[0]);
    assert("Date"@[0] != "SHA1"@[0]);
    assert("MD5Sum"@[0] != "SHA256"@[0]);
    assert("MD5Sum"@[0] != "SHA512"@[0]);
    assert("SHA256"@[3] != "SHA512"@[3]);
}

pub(crate) proof fn known_names_listed()
    ensures
        forall|k: Seq<char>|
            known_fields().contains(k) <==> (k == "Origin"@ || k == "Label"@ || k == "Suite"@ || k == "Codename"@ || k == "Version"@ || k == "Date"@ || k == "Architectures"@ || k == "Components"@ || k == "Description"@ || k == "MD5Sum"@ || k == "SHA1"@ || k == "SHA256"@ || k == "SHA512"@),
{
    let names = known_fields();
    assert(names[0] == "Origin"@ && names[1] == "Label"@ && names[2] == "Suite"@ && names[3] == "Codename"@ && names[4] == "Version"@ && names[5] == "Date"@ && names[6] == "Architectures"@ && names[7] == "Components"@ && names[8] == "Description"@ && names[9] == "MD5Sum"@ && names[10] == "SHA1"@ && names[11] == "SHA256"@ && names[12] == "SHA512"@);
}

proof fn keeper_is_line()
    ensures
        is_line("artifact-keeper"@),
        trim("artifact-keeper"@) == "artifact-keeper"@,
{
    reveal_strlit("artifact-keeper");
    let v = "artifact-keeper"@;
    assert forall|k: int| 0 <= k < v.len() implies v[k] != '\n' by {
        assert(k == 0 || k == 1 || k == 2 || k == 3 || k == 4 || k == 5 || k == 6 || k == 7 || k == 8 || k == 9 || k == 10 || k == 11 || k == 12 || k == 13 || k == 14);
    }
    assert(!is_white(v[0]));
    assert(!is_white(v[v.len() - 1]));
    assert(trim_start(v) == v);
    assert(trim_end(v) == v);
}

// ---------------------------------------------------------------------------
// Lines and fields of a draft
// ---------------------------------------------------------------------------

/// The lines of a field that is there or not.
spec fn codename_lines(codename: Option<Seq<char>>) -> Seq<Seq<char>> {
    if codename is Some && !is_blank(codename->0) {
        seq![one_line("Codename"@, codename->0)]
    } else {
        seq![]
    }
}

spec fn codename_fields(codename: Option<Seq<char>>) -> Seq<(Seq<char>, Seq<char>)> {
    if codename is Some && !is_blank(codename->0) {
        seq![("Codename"@, trim(codename->0))]
    } else {
        seq![]
    }
}

spec fn description_lines(description: Option<Seq<char>>) -> Seq<Seq<char>> {
    if description is Some && !is_blank(description->0) {
        chunk("Description"@, seq![' '], lines(description->0))
    } else {
        seq![]
    }
}

spec fn description_fields(description: Option<Seq<char>>) -> Seq<(Seq<char>, Seq<char>)> {
    if description is Some && !is_blank(description->0) {
        seq![("Description"@, description->0)]
    } else {
        seq![]
    }
}

proof fn add_codename(
    ls: Seq<Seq<char>>,
    fs: Seq<(Seq<char>, Seq<char>)>,
    text: Seq<char>,
    codename: Option<Seq<char>>,
)
    requires
        reads_as(ls, fs),
        flat(ls) == text,
        codename matches Some(name) ==> is_blank(name) || is_line(name),
    ensures
        reads_as(ls + codename_lines(codename), fs + codename_fields(codename)),
        flat(ls + codename_lines(codename)) == text + (if codename is Some && !is_blank(
            codename->0,
        ) {
            "Codename: "@ + codename->0 + "\n"@
        } else {
            seq![]
        }),
{
    if codename is Some && !is_blank(codename->0) {
        key_codename();
        add_line(ls, fs, text, "Codename"@, codename->0);
        reveal_strlit("Codename: ");
        reveal_strlit("Codename");
        reveal_strlit(": ");
        assert("Codename: "@ =~= "Codename"@ + ": "@);
        assert(text + ("Codename: "@ + codename->0 + "\n"@) =~= text + "Codename"@ + ": "@
            + codename->0 + "\n"@);
    } else {
        assert(ls + codename_lines(codename) =~= ls);
        assert(fs + codename_fields(codename) =~= fs);
        assert(text + Seq::<char>::empty() =~= text);
    }
}

proof fn add_description(
    ls: Seq<Seq<char>>,
    fs: Seq<(Seq<char>, Seq<char>)>,
    text: Seq<char>,
    description: Option<Seq<char>>,
)
    requires
        reads_as(ls, fs),
        flat(ls) == text,
        description matches Some(d) ==> is_blank(d) || is_writable(d),
    ensures
        reads_as(ls + description_lines(description), fs + description_fields(description)),
        flat(ls + description_lines(description)) == text + optional_text(
            "Description"@,
            description,
        ),
{
    if description is Some && !is_blank(description->0) {
        key_description();
        let d = description->0;
        writable_is_chunk("Description"@, d);
        add_chunk(ls, fs, "Description"@, seq![' '], lines(d));
        flat_add(ls, description_lines(description));
    } else {
        assert(ls + description_lines(description) =~= ls);
        assert(fs + description_fields(description) =~= fs);
        assert(text + Seq::<char>::empty() =~= text);
    }
}

/// The fields of a draft, as they are written.
spec fn draft_fields(d: Draft) -> Seq<(Seq<char>, Seq<char>)> {
    header_fields(d) + seq![("MD5Sum"@, glued(section_lines(hashes_listed(d.files, DigestName::Md5))))]
        + seq![("SHA1"@, glued(section_lines(hashes_listed(d.files, DigestName::Sha1))))] + seq![
        ("SHA256"@, glued(section_lines(hashes_listed(d.files, DigestName::Sha256)))),
    ] + seq![("SHA512"@, glued(section_lines(hashes_listed(d.files, DigestName::Sha512))))]
}

spec fn header_fields(d: Draft) -> Seq<(Seq<char>, Seq<char>)> {
    seq![("Origin"@, trim("artifact-keeper"@))] + seq![("Label"@, trim("artifact-keeper"@))] + seq![
        ("Suite"@, trim(d.suite)),
    ] + codename_fields(d.codename) + seq![("Date"@, trim(d.date))] + seq![
        ("Architectures"@, trim(join(d.architectures, " "@))),
    ] + seq![("Components"@, trim(join(d.components, " "@)))] + description_fields(d.description)
}

/// The lines of a draft, as they are written.
spec fn draft_lines(d: Draft) -> Seq<Seq<char>> {
    header_lines(d) + chunk(
        "MD5Sum"@,
        seq![],
        section_lines(hashes_listed(d.files, DigestName::Md5)),
    ) + chunk("SHA1"@, seq![], section_lines(hashes_listed(d.files, DigestName::Sha1))) + chunk(
        "SHA256"@,
        seq![],
        section_lines(hashes_listed(d.files, DigestName::Sha256)),
    ) + chunk("SHA512"@, seq![], section_lines(hashes_listed(d.files, DigestName::Sha512)))
}

spec fn header_lines(d: Draft) -> Seq<Seq<char>> {
    seq![one_line("Origin"@, "artifact-keeper"@)] + seq![one_line("Label"@, "artifact-keeper"@)]
        + seq![one_line("Suite"@, d.suite)] + codename_lines(d.codename) + seq![
        one_line("Date"@, d.date),
    ] + seq![one_line("Architectures"@, join(d.architectures, " "@))] + seq![
        one_line("Components"@, join(d.components, " "@)),
    ] + description_lines(d.description)
}

/// The text of a draft that holds its files in order.
spec fn written_draft(d: Draft) -> Seq<char> {
    written_header(d) + "MD5Sum"@ + seq![':', '\n'] + digest_lines(d.files, DigestName::Md5)
        + "SHA1"@ + seq![':', '\n'] + digest_lines(d.files, DigestName::Sha1) + "SHA256"@
        + seq![':', '\n'] + digest_lines(d.files, DigestName::Sha256) + "SHA512"@ + seq![':', '\n']
        + digest_lines(d.files, DigestName::Sha512)
}

spec fn written_header(d: Draft) -> Seq<char> {
    Seq::<char>::empty() + "Origin"@ + ": "@ + "artifact-keeper"@ + "\n"@ + "Label"@ + ": "@
        + "artifact-keeper"@ + "\n"@ + "Suite"@ + ": "@ + d.suite + "\n"@ + (if d.codename is Some
        && !is_blank(d.codename->0) {
        "Codename: "@ + d.codename->0 + "\n"@
    } else {
        seq![]
    }) + "Date"@ + ": "@ + d.date + "\n"@ + "Architectures"@ + ": "@ + join(
        d.architectures,
        " "@,
    ) + "\n"@ + "Components"@ + ": "@ + join(d.components, " "@) + "\n"@ + optional_text(
        "Description"@,
        d.description,
    )
}

proof fn header_reads_as_fields(d: Draft)
    requires
        is_publishable(d),
    ensures
        reads_as(header_lines(d), header_fields(d)),
        flat(header_lines(d)) == written_header(d),
{
    keeper_is_line();
    key_origin();
    key_label();
    key_suite();
    key_date();
    key_architectures();
    key_components();
    let l0 = Seq::<Seq<char>>::empty();
    let f0 = Seq::<(Seq<char>, Seq<char>)>::empty();
    let t0 = Seq::<char>::empty();
    add_line(l0, f0, t0, "Origin"@, "artifact-keeper"@);
    let t1 = t0 + "Origin"@ + ": "@ + "artifact-keeper"@ + "\n"@;
    let l1 = seq![one_line("Origin"@, "artifact-keeper"@)];
    let f1 = seq![("Origin"@, trim("artifact-keeper"@))];
    assert(l0 + l1 =~= l1);
    assert(f0 + f1 =~= f1);
    add_line(l1, f1, t1, "Label"@, "artifact-keeper"@);
    let t2 = t1 + "Label"@ + ": "@ + "artifact-keeper"@ + "\n"@;
    let l2 = l1 + seq![one_line("Label"@, "artifact-keeper"@)];
    let f2 = f1 + seq![("Label"@, trim("artifact-keeper"@))];
    add_line(l2, f2, t2, "Suite"@, d.suite);
    let t3 = t2 + "Suite"@ + ": "@ + d.suite + "\n"@;
    let l3 = l2 + seq![one_line("Suite"@, d.suite)];
    let f3 = f2 + seq![("Suite"@, trim(d.suite))];
    add_codename(l3, f3, t3, d.codename);
    let t4 = t3 + (if d.codename is Some && !is_blank(d.codename->0) {
        "Codename: "@ + d.codename->0 + "\n"@
    } else {
        seq![]
    });
    let l4 = l3 + codename_lines(d.codename);
    let f4 = f3 + codename_fields(d.codename);
    add_line(l4, f4, t4, "Date"@, d.date);
    let t5 = t4 + "Date"@ + ": "@ + d.date + "\n"@;
    let l5 = l4 + seq![one_line("Date"@, d.date)];
    let f5 = f4 + seq![("Date"@, trim(d.date))];
    let archs = join(d.architectures, " "@);
    add_line(l5, f5, t5, "Architectures"@, archs);
    let t6 = t5 + "Architectures"@ + ": "@ + archs + "\n"@;
    let l6 = l5 + seq![one_line("Architectures"@, archs)];
    let f6 = f5 + seq![("Architectures"@, trim(archs))];
    let comps = join(d.components, " "@);
    add_line(l6, f6, t6, "Components"@, comps);
    let t7 = t6 + "Components"@ + ": "@ + comps + "\n"@;
    let l7 = l6 + seq![one_line("Components"@, comps)];
    let f7 = f6 + seq![("Components"@, trim(comps))];
    add_description(l7, f7, t7, d.description);
}

/// A draft is made of its lines, and they read as its fields.
proof fn draft_reads_as_fields(d: Draft)
    requires
        is_publishable(d),
    ensures
        reads_as(draft_lines(d), draft_fields(d)),
        flat(draft_lines(d)) == written_draft(d),
        draft_lines(d).len() > 0,
        draft_lines(d).last().len() > 0,
        !is_white(draft_lines(d).last().last()),
{
    header_reads_as_fields(d);
    key_md5sum_section();
    key_sha1();
    key_sha256();
    key_sha512();
    let h1 = hashes_listed(d.files, DigestName::Md5);
    let h2 = hashes_listed(d.files, DigestName::Sha1);
    let h3 = hashes_listed(d.files, DigestName::Sha256);
    let h4 = hashes_listed(d.files, DigestName::Sha512);
    files_are_listable(d.files, DigestName::Md5);
    files_are_listable(d.files, DigestName::Sha1);
    files_are_listable(d.files, DigestName::Sha256);
    files_are_listable(d.files, DigestName::Sha512);
    digest_lines_are_listed(d.files, DigestName::Md5);
    digest_lines_are_listed(d.files, DigestName::Sha1);
    digest_lines_are_listed(d.files, DigestName::Sha256);
    digest_lines_are_listed(d.files, DigestName::Sha512);
    let l0 = header_lines(d);
    let f0 = header_fields(d);
    let t0 = written_header(d);
    add_section(l0, f0, t0, "MD5Sum"@, h1);
    let l1 = l0 + chunk("MD5Sum"@, seq![], section_lines(h1));
    let f1 = f0 + seq![("MD5Sum"@, glued(section_lines(h1)))];
    let t1 = t0 + "MD5Sum"@ + seq![':', '\n'] + hash_lines(h1);
    add_section(l1, f1, t1, "SHA1"@, h2);
    let l2 = l1 + chunk("SHA1"@, seq![], section_lines(h2));
    let f2 = f1 + seq![("SHA1"@, glued(section_lines(h2)))];
    let t2 = t1 + "SHA1"@ + seq![':', '\n'] + hash_lines(h2);
    add_section(l2, f2, t2, "SHA256"@, h3);
    let l3 = l2 + chunk("SHA256"@, seq![], section_lines(h3));
    let f3 = f2 + seq![("SHA256"@, glued(section_lines(h3)))];
    let t3 = t2 + "SHA256"@ + seq![':', '\n'] + hash_lines(h3);
    add_section(l3, f3, t3, "SHA512"@, h4);
    section_ends_plainly(l3, "SHA512"@, h4);
}

proof fn literal_header(before: Seq<char>, name: Seq<char>, label: Seq<char>, value: Seq<char>)
    requires
        label == name + ": "@,
    ensures
        before + label + value + "\n"@ == before + name + ": "@ + value + "\n"@,
{
    assert(before + label =~= before + name + ": "@);
}

proof fn literal_section(before: Seq<char>, name: Seq<char>, label: Seq<char>, entries: Seq<char>)
    requires
        label == name + seq![':', '\n'],
    ensures
        before + label + entries == before + name + seq![':', '\n'] + entries,
{
    assert(before + label =~= before + name + seq![':', '\n']);
}

proof fn release_labels()
    ensures
        "Origin: artifact-keeper\n"@ == "Origin"@ + ": "@ + "artifact-keeper"@ + "\n"@,
        "Label: artifact-keeper\n"@ == "Label"@ + ": "@ + "artifact-keeper"@ + "\n"@,
        "Suite: "@ == "Suite"@ + ": "@,
        "Date: "@ == "Date"@ + ": "@,
        "Architectures: "@ == "Architectures"@ + ": "@,
        "Components: "@ == "Components"@ + ": "@,
        "MD5Sum:\n"@ == "MD5Sum"@ + seq![':', '\n'],
        "SHA1:\n"@ == "SHA1"@ + seq![':', '\n'],
        "SHA256:\n"@ == "SHA256"@ + seq![':', '\n'],
        "SHA512:\n"@ == "SHA512"@ + seq![':', '\n'],
{
    reveal_strlit(": ");
    reveal_strlit("\n");
    reveal_strlit("artifact-keeper");
    reveal_strlit("Origin: artifact-keeper\n");
    reveal_strlit("Origin");
    assert("Origin: artifact-keeper\n"@ =~= "Origin"@ + ": "@ + "artifact-keeper"@ + "\n"@);
    reveal_strlit("Label: artifact-keeper\n");
    reveal_strlit("Label");
    assert("Label: artifact-keeper\n"@ =~= "Label"@ + ": "@ + "artifact-keeper"@ + "\n"@);
    reveal_strlit("Suite: ");
    reveal_strlit("Suite");
    assert("Suite: "@ =~= "Suite"@ + ": "@);
    reveal_strlit("Date: ");
    reveal_strlit("Date");
    assert("Date: "@ =~= "Date"@ + ": "@);
    reveal_strlit("Architectures: ");
    reveal_strlit("Architectures");
    assert("Architectures: "@ =~= "Architectures"@ + ": "@);
    reveal_strlit("Components: ");
    reveal_strlit("Components");
    assert("Components: "@ =~= "Components"@ + ": "@);
    reveal_strlit("MD5Sum:\n");
    reveal_strlit("MD5Sum");
    assert("MD5Sum:\n"@ =~= "MD5Sum"@ + seq![':', '\n']);
    reveal_strlit("SHA1:\n");
    reveal_strlit("SHA1");
    assert("SHA1:\n"@ =~= "SHA1"@ + seq![':', '\n']);
    reveal_strlit("SHA256:\n");
    reveal_strlit("SHA256");
    assert("SHA256:\n"@ =~= "SHA256"@ + seq![':', '\n']);
    reveal_strlit("SHA512:\n");
    reveal_strlit("SHA512");
    assert("SHA512:\n"@ =~= "SHA512"@ + seq![':', '\n']);
}

/// The draft with its files in order.
spec fn ordered(d: Draft) -> Draft {
    Draft { files: sorted::<DigestedFile>(d.files), ..d }
}

/// The Release of a draft is the text of the draft with its files in order.
proof fn draft_is_written(d: Draft)
    ensures
        draft_text(d) == written_draft(ordered(d)),
{
    release_labels();
    let fs = sorted::<DigestedFile>(d.files);
    let w1 = Seq::<char>::empty() + "Origin"@ + ": "@ + "artifact-keeper"@ + "\n"@;
    assert(w1 =~= "Origin: artifact-keeper\n"@);
    let w2 = w1 + "Label"@ + ": "@ + "artifact-keeper"@ + "\n"@;
    assert(w2 =~= w1 + "Label: artifact-keeper\n"@);
    literal_header(w2, "Suite"@, "Suite: "@, d.suite);
    let w3 = w2 + "Suite: "@ + d.suite + "\n"@;
    let w4 = w3 + (if d.codename is Some && !is_blank(d.codename->0) {
        "Codename: "@ + d.codename->0 + "\n"@
    } else {
        seq![]
    });
    literal_header(w4, "Date"@, "Date: "@, d.date);
    let w5 = w4 + "Date: "@ + d.date + "\n"@;
    literal_header(w5, "Architectures"@, "Architectures: "@, join(d.architectures, " "@));
    let w6 = w5 + "Architectures: "@ + join(d.architectures, " "@) + "\n"@;
    literal_header(w6, "Components"@, "Components: "@, join(d.components, " "@));
    let w7 = w6 + "Components: "@ + join(d.components, " "@) + "\n"@;
    let w8 = w7 + optional_text("Description"@, d.description);
    literal_section(w8, "MD5Sum"@, "MD5Sum:\n"@, digest_lines(fs, DigestName::Md5));
    let w9 = w8 + "MD5Sum:\n"@ + digest_lines(fs, DigestName::Md5);
    literal_section(w9, "SHA1"@, "SHA1:\n"@, digest_lines(fs, DigestName::Sha1));
    let w10 = w9 + "SHA1:\n"@ + digest_lines(fs, DigestName::Sha1);
    literal_section(w10, "SHA256"@, "SHA256:\n"@, digest_lines(fs, DigestName::Sha256));
    let w11 = w10 + "SHA256:\n"@ + digest_lines(fs, DigestName::Sha256);
    literal_section(w11, "SHA512"@, "SHA512:\n"@, digest_lines(fs, DigestName::Sha512));
}

// ---------------------------------------------------------------------------
// Finding the fields
// ---------------------------------------------------------------------------

/// A field that is added is found under its name, and the others stay.
proof fn field_found(fs: Seq<(Seq<char>, Seq<char>)>, key: Seq<char>, value: Seq<char>, k: Seq<char>)
    ensures
        lookup(map_of(fs + seq![(key, value)]), k) == if k == key {
            Some(trim(value))
        } else {
            lookup(map_of(fs), k)
        },
{
    last_field_counts(fs, key, value);
    if k != key {
        other_fields_stay(fs, key, value, k);
    }
}

proof fn trimmed_field_found(
    fs: Seq<(Seq<char>, Seq<char>)>,
    key: Seq<char>,
    value: Seq<char>,
    k: Seq<char>,
)
    ensures
        lookup(map_of(fs + seq![(key, trim(value))]), k) == if k == key {
            Some(trim(value))
        } else {
            lookup(map_of(fs), k)
        },
{
    trim_once(value);
    field_found(fs, key, trim(value), k);
}

proof fn codename_found(fs: Seq<(Seq<char>, Seq<char>)>, codename: Option<Seq<char>>, k: Seq<char>)
    ensures
        lookup(map_of(fs + codename_fields(codename)), k) == if k == "Codename"@ && kept(codename)
            is Some {
            kept(codename)
        } else {
            lookup(map_of(fs), k)
        },
{
    if codename is Some && !is_blank(codename->0) {
        trimmed_field_found(fs, "Codename"@, codename->0, k);
    } else {
        assert(fs + codename_fields(codename) =~= fs);
    }
}

proof fn description_found(
    fs: Seq<(Seq<char>, Seq<char>)>,
    description: Option<Seq<char>>,
    k: Seq<char>,
)
    ensures
        lookup(map_of(fs + description_fields(description)), k) == if k == "Description"@ && kept(
            description,
        ) is Some {
            kept(description)
        } else {
            lookup(map_of(fs), k)
        },
{
    if description is Some && !is_blank(description->0) {
        field_found(fs, "Description"@, description->0, k);
    } else {
        assert(fs + description_fields(description) =~= fs);
    }
}

/// What the fields of a draft hold under a name.
spec fn draft_value(d: Draft, k: Seq<char>) -> Option<Seq<char>> {
    if k == "Origin"@ || k == "Label"@ {
        Some("artifact-keeper"@)
    } else if k == "Suite"@ {
        Some(trim(d.suite))
    } else if k == "Codename"@ {
        kept(d.codename)
    } else if k == "Date"@ {
        Some(trim(d.date))
    } else if k == "Architectures"@ {
        Some(trim(join(d.architectures, " "@)))
    } else if k == "Components"@ {
        Some(trim(join(d.components, " "@)))
    } else if k == "Description"@ {
        kept(d.description)
    } else if k == "MD5Sum"@ {
        Some(trim(glued(section_lines(hashes_listed(d.files, DigestName::Md5)))))
    } else if k == "SHA1"@ {
        Some(trim(glued(section_lines(hashes_listed(d.files, DigestName::Sha1)))))
    } else if k == "SHA256"@ {
        Some(trim(glued(section_lines(hashes_listed(d.files, DigestName::Sha256)))))
    } else if k == "SHA512"@ {
        Some(trim(glued(section_lines(hashes_listed(d.files, DigestName::Sha512)))))
    } else {
        None
    }
}

proof fn draft_value_found(d: Draft, k: Seq<char>)
    ensures
        lookup(map_of(draft_fields(d)), k) == draft_value(d, k),
{
    release_fields_differ();
    keeper_is_line();
    let f0 = Seq::<(Seq<char>, Seq<char>)>::empty();
    let f1 = seq![("Origin"@, trim("artifact-keeper"@))];
    assert(f0 + f1 =~= f1);
    trimmed_field_found(f0, "Origin"@, "artifact-keeper"@, k);
    trimmed_field_found(f1, "Label"@, "artifact-keeper"@, k);
    let f2 = f1 + seq![("Label"@, trim("artifact-keeper"@))];
    trimmed_field_found(f2, "Suite"@, d.suite, k);
    let f3 = f2 + seq![("Suite"@, trim(d.suite))];
    codename_found(f3, d.codename, k);
    let f4 = f3 + codename_fields(d.codename);
    trimmed_field_found(f4, "Date"@, d.date, k);
    let f5 = f4 + seq![("Date"@, trim(d.date))];
    trimmed_field_found(f5, "Architectures"@, join(d.architectures, " "@), k);
    let f6 = f5 + seq![("Architectures"@, trim(join(d.architectures, " "@)))];
    trimmed_field_found(f6, "Components"@, join(d.components, " "@), k);
    let f7 = f6 + seq![("Components"@, trim(join(d.components, " "@)))];
    description_found(f7, d.description, k);
    let f8 = header_fields(d);
    let s1 = glued(section_lines(hashes_listed(d.files, DigestName::Md5)));
    let s2 = glued(section_lines(hashes_listed(d.files, DigestName::Sha1)));
    let s3 = glued(section_lines(hashes_listed(d.files, DigestName::Sha256)));
    let s4 = glued(section_lines(hashes_listed(d.files, DigestName::Sha512)));
    field_found(f8, "MD5Sum"@, s1, k);
    let f9 = f8 + seq![("MD5Sum"@, s1)];
    field_found(f9, "SHA1"@, s2, k);
    let f10 = f9 + seq![("SHA1"@, s2)];
    field_found(f10, "SHA256"@, s3, k);
    let f11 = f10 + seq![("SHA256"@, s3)];
    field_found(f11, "SHA512"@, s4, k);
}

/// Where no field but the known ones is written, nothing is left without them.
proof fn nothing_is_left(m: Seq<(Seq<char>, Seq<char>)>)
    requires
        ascending(keys_of(m)),
        forall|k: Seq<char>| !known_fields().contains(k) ==> #[trigger] lookup(m, k) is None,
    ensures
        without_all(m, known_fields()) == Seq::<(Seq<char>, Seq<char>)>::empty(),
{
    let left = without_all(m, known_fields());
    let none = Seq::<(Seq<char>, Seq<char>)>::empty();
    without_all_lookup(m, known_fields(), "Origin"@);
    assert forall|k: Seq<char>| #[trigger] lookup(left, k) == lookup(none, k) by {
        without_all_lookup(m, known_fields(), k);
    }
    same_lookups_same_map(left, none);
}

/// The words of a text are those of the trimmed text.
pub(crate) proof fn trimming_keeps_words(s: Seq<char>)
    ensures
        words(trim(s)) == words(s),
{
    leading_white_keeps_words(s);
    trailing_white_keeps_words(trim_start(s));
}

proof fn leading_white_keeps_words(s: Seq<char>)
    ensures
        words(trim_start(s)) == words(s),
    decreases s.len(),
{
    if s.len() > 0 && is_white(s[0]) {
        leading_white_keeps_words(s.drop_first());
    }
}

proof fn trailing_white_keeps_words(s: Seq<char>)
    ensures
        words(trim_end(s)) == words(s),
    decreases s.len(),
{
    if s.len() > 0 && is_white(s.last()) {
        trailing_white_keeps_words(s.drop_last());
        last_white_keeps_words(s);
    }
}

pub(crate) proof fn last_white_keeps_words(s: Seq<char>)
    requires
        s.len() > 0,
        is_white(s.last()),
    ensures
        words(s.drop_last()) == words(s),
    decreases s.len(),
{
    let t = s.drop_last();
    if s.len() == 1 {
        assert(s.drop_first() =~= t);
        assert(words(t) =~= seq![]);
    } else if is_white(s[0]) {
        last_white_keeps_words(s.drop_first());
        assert(s.drop_first().drop_last() =~= t.drop_first());
    } else {
        word_len_is_run(s);
        word_len_is_run(t);
        let n = word_len(s) as int;
        let m = word_len(t) as int;
        assert(n < s.len()) by {
            if n >= s.len() {
                assert(!is_white(s[s.len() - 1]));
            }
        }
        if n < m {
            assert(is_white(t[n]));
        }
        if m < n && m < t.len() {
            assert(is_white(t[m]));
            assert(!is_white(s[m]));
        }
        assert(m == n);
        assert(t.take(n) =~= s.take(n));
        assert(t.skip(n) =~= s.skip(n).drop_last());
        assert(s.skip(n).last() == s.last());
        assert(n > 0);
        last_white_keeps_words(s.skip(n));
    }
}

pub(crate) proof fn filled_has_words(s: Seq<char>)
    requires
        !is_blank(s),
    ensures
        words(s).len() > 0,
        trim(trim(s)).len() > 0,
{
    trim_once(s);
    trim_empty_iff_blank(s);
    trimming_keeps_words(s);
    let t = trim(s);
    trim_start_is_suffix(s);
    trim_end_is_prefix(trim_start(s));
    assert(t[0] == trim_start(s)[0]);
    word_len_is_run(t);
}

// ---------------------------------------------------------------------------
// Files in order
// ---------------------------------------------------------------------------

/// What is sorted was given.
proof fn sorted_item_was_given<T: Sortable>(items: Seq<T::V>, i: int)
    requires
        0 <= i < sorted::<T>(items).len(),
    ensures
        items.contains(sorted::<T>(items)[i]),
{
    sorted_is_ordered::<T>(items);
    let s = sorted::<T>(items);
    broadcast use vstd::seq_lib::group_to_multiset_ensures;

    assert(s.contains(s[i]));
    assert(s.to_multiset().count(s[i]) > 0);
    assert(items.to_multiset().count(s[i]) > 0);
}

/// What was given is sorted.
proof fn given_item_is_sorted<T: Sortable>(items: Seq<T::V>, i: int)
    requires
        0 <= i < items.len(),
    ensures
        sorted::<T>(items).contains(items[i]),
{
    sorted_is_ordered::<T>(items);
    let s = sorted::<T>(items);
    broadcast use vstd::seq_lib::group_to_multiset_ensures;

    assert(items.contains(items[i]));
    assert(items.to_multiset().count(items[i]) > 0);
    assert(s.to_multiset().count(items[i]) > 0);
}

proof fn ordered_is_publishable(d: Draft)
    requires
        is_publishable(d),
    ensures
        is_publishable(ordered(d)),
{
    let fs = ordered(d).files;
    assert forall|i: int| 0 <= i < fs.len() implies is_listable(#[trigger] fs[i]) by {
        sorted_item_was_given::<DigestedFile>(d.files, i);
        let k = choose|k: int| 0 <= k < d.files.len() && d.files[k] == fs[i];
        assert(is_listable(d.files[k]));
    }
}

/// A file of a hash section is found by its path.
proof fn first_hash_found(files: Seq<DigestedModel>, algorithm: DigestName, f: int)
    requires
        0 <= f < files.len(),
        forall|i: int, j: int|
            0 <= i < files.len() && 0 <= j < files.len() && (#[trigger] files[i]).path == (
            #[trigger] files[j]).path ==> files[i].bytes == files[j].bytes,
    ensures
        first_hash(hashes_listed(files, algorithm), files[f].path) matches Some(hash) && hash.size
            == files[f].bytes.len() as u64 && (algorithm == DigestName::Sha256 || algorithm
            == DigestName::Sha512 ==> hash.hash == file_digest(files[f], algorithm)),
    decreases files.len(),
{
    let listed = hashes_listed(files, algorithm);
    if files[0].path == files[f].path {
        assert(listed[0].path == files[f].path);
    } else {
        let t = files.drop_first();
        assert(listed.drop_first() =~= hashes_listed(t, algorithm));
        assert(t[f - 1] == files[f]);
        assert forall|i: int, j: int|
            0 <= i < t.len() && 0 <= j < t.len() && (#[trigger] t[i]).path == (
            #[trigger] t[j]).path implies t[i].bytes == t[j].bytes by {
            assert(t[i] == files[i + 1] && t[j] == files[j + 1]);
        }
        first_hash_found(t, algorithm, f - 1);
    }
}

// ---------------------------------------------------------------------------
// Laws
// ---------------------------------------------------------------------------

/// A list of words, written with a space between each two, reads back.
pub proof fn joined_words_read_back(ws: Seq<Seq<char>>)
    requires
        forall|i: int| 0 <= i < ws.len() ==> is_word(#[trigger] ws[i]),
    ensures
        words(join(ws, " "@)) == ws,
    decreases ws.len(),
{
    reveal_strlit(" ");
    if ws.len() == 0 {
        assert(words(join(ws, " "@)) =~= ws);
    } else if ws.len() == 1 {
        assert(is_word(ws[0]));
        word_then_rest(ws[0], seq![]);
        assert(seq![ws[0]] =~= ws);
    } else {
        let t = ws.drop_last();
        let last = ws[ws.len() - 1];
        assert forall|i: int| 0 <= i < t.len() implies is_word(#[trigger] t[i]) by {
            assert(t[i] == ws[i]);
        }
        joined_words_read_back(t);
        assert(is_word(last));
        word_behind_words(join(t, " "@), last);
        assert(join(ws, " "@) =~= join(t, " "@) + seq![' '] + last);
        assert(t.push(last) =~= ws);
    }
}

proof fn word_behind_words(s: Seq<char>, w: Seq<char>)
    requires
        is_word(w),
    ensures
        words(s + seq![' '] + w) == words(s).push(w),
    decreases s.len(),
{
    let all = s + seq![' '] + w;
    if s.len() == 0 {
        assert(all.drop_first() =~= w);
        word_then_rest(w, seq![]);
        assert(words(s).push(w) =~= seq![w]);
    } else if is_white(s[0]) {
        assert(all.drop_first() =~= s.drop_first() + seq![' '] + w);
        word_behind_words(s.drop_first(), w);
    } else {
        word_len_is_run(s);
        word_len_is_run(all);
        let n = word_len(s) as int;
        let m = word_len(all) as int;
        assert(all[s.len() as int] == ' ');
        if m < n {
            assert(is_white(all[m]));
            assert(s[m] == all[m]);
        }
        if n < m {
            if n < s.len() {
                assert(s[n] == all[n]);
            }
            assert(!is_white(all[n]));
        }
        assert(all.take(n) =~= s.take(n));
        assert(all.skip(n) =~= s.skip(n) + seq![' '] + w);
        assert(n > 0);
        word_behind_words(s.skip(n), w);
        assert(seq![s.take(n)] + words(s.skip(n)).push(w) =~= (seq![s.take(n)] + words(
            s.skip(n),
        )).push(w));
    }
}

/// What a field map says whose values are those of a draft.
proof fn values_make_release(d: Draft, m: Seq<(Seq<char>, Seq<char>)>)
    requires
        is_publishable(d),
        ascending(keys_of(m)),
        forall|k: Seq<char>| #[trigger] lookup(m, k) == draft_value(d, k),
    ensures
        release_from(m) == Ok::<ReleaseModel, Failure>(release_in_order(d)),
{
    release_fields_differ();
    filled_has_words(d.suite);
    filled_has_words(d.date);
    filled_has_words(join(d.architectures, " "@));
    trimming_keeps_words(join(d.architectures, " "@));
    trimming_keeps_words(join(d.components, " "@));
    files_are_listable(d.files, DigestName::Md5);
    files_are_listable(d.files, DigestName::Sha1);
    files_are_listable(d.files, DigestName::Sha256);
    files_are_listable(d.files, DigestName::Sha512);
    section_reads_back(hashes_listed(d.files, DigestName::Md5));
    section_reads_back(hashes_listed(d.files, DigestName::Sha1));
    section_reads_back(hashes_listed(d.files, DigestName::Sha256));
    section_reads_back(hashes_listed(d.files, DigestName::Sha512));
    known_names_listed();
    nothing_is_left(m);
}

/// The lines of a draft are one stanza, and give its fields.
proof fn draft_is_stanza(d: Draft)
    requires
        is_publishable(d),
    ensures
        only_stanza(written_draft(d)) == Ok::<Seq<(Seq<char>, Seq<char>)>, Failure>(
            map_of(draft_fields(d)),
        ),
{
    draft_reads_as_fields(d);
    let ls = draft_lines(d);
    lines_of_flat(ls);
    lines_of_open_flat(ls);
    stanza_text(ls);
    stanza_stays_open(seq![], ls);
    assert(Seq::<Seq<char>>::empty() + ls =~= ls);
    assert(stanzas(flat(ls)) =~= seq![flat(ls).drop_last()]);
}

/// The Release of a draft reads back: its values trimmed, its lists as words,
/// and the digests of its files in the order of their paths.
pub proof fn published_release_reads_back(d: Draft)
    requires
        is_publishable(d),
    ensures
        release_of(draft_text(d)) == Ok::<ReleaseModel, Failure>(draft_release(d)),
{
    let o = ordered(d);
    draft_is_written(d);
    ordered_is_publishable(d);
    draft_is_stanza(o);
    let m = map_of(draft_fields(o));
    map_of_ascending(draft_fields(o));
    assert forall|k: Seq<char>| #[trigger] lookup(m, k) == draft_value(o, k) by {
        draft_value_found(o, k);
    }
    values_make_release(o, m);
}

/// A Release that is generated vouches for every file that it lists: a client
/// that reads it and checks a file against it accepts the file.
pub proof fn published_release_vouches(d: Draft, f: int)
    requires
        is_publishable(d),
        0 <= f < d.files.len(),
        forall|i: int, j: int|
            0 <= i < d.files.len() && 0 <= j < d.files.len() && (#[trigger] d.files[i]).path == (
            #[trigger] d.files[j]).path ==> d.files[i].bytes == d.files[j].bytes,
    ensures
        release_of(draft_text(d)) matches Ok(release) && index_verdict(
            release,
            d.files[f].path,
            d.files[f].bytes,
            true,
        ) == Ok::<(), Seq<char>>(()),
{
    let files = d.files;
    let fs = sorted::<DigestedFile>(files);
    assert forall|i: int, j: int|
        0 <= i < fs.len() && 0 <= j < fs.len() && (#[trigger] fs[i]).path == (
        #[trigger] fs[j]).path implies fs[i].bytes == fs[j].bytes by {
        sorted_item_was_given::<DigestedFile>(files, i);
        sorted_item_was_given::<DigestedFile>(files, j);
        let a = choose|k: int| 0 <= k < files.len() && files[k] == fs[i];
        let b = choose|k: int| 0 <= k < files.len() && files[k] == fs[j];
        assert(files[a].path == files[b].path);
    }
    published_release_reads_back(d);
    given_item_is_sorted::<DigestedFile>(files, f);
    let g = choose|g: int| 0 <= g < fs.len() && fs[g] == files[f];
    first_hash_found(fs, DigestName::Sha512, g);
    assert(is_listable(files[f]));
}

// ---------------------------------------------------------------------------
// A Release of given hashes
// ---------------------------------------------------------------------------

/// What a Release of given hashes is made of.
#[verifier::ext_equal]
pub struct HashDraft {
    pub suite: Seq<char>,
    pub codename: Option<Seq<char>>,
    pub architectures: Seq<Seq<char>>,
    pub components: Seq<Seq<char>>,
    pub hashes: Seq<HashModel>,
    pub date: Seq<char>,
}

/// The Release of given hashes.
pub open spec fn hash_draft_text(d: HashDraft) -> Seq<char> {
    release_text(d.suite, d.codename, d.architectures, d.components, d.hashes, d.date)
}

/// The architectures in order, with a space between each two.
pub open spec fn architecture_list(d: HashDraft) -> Seq<char> {
    join(sorted::<String>(d.architectures), " "@)
}

/// The components in order, with a space between each two.
pub open spec fn component_list(d: HashDraft) -> Seq<char> {
    join(sorted::<String>(d.components), " "@)
}

/// A draft whose Release can be read: its values stand on one line each, its
/// hashes can be listed, and neither suite nor date nor architectures are blank.
pub open spec fn is_readable(d: HashDraft) -> bool {
    &&& is_line(d.suite) && !is_blank(d.suite)
    &&& d.codename matches Some(name) ==> is_line(name)
    &&& is_line(architecture_list(d)) && !is_blank(architecture_list(d))
    &&& is_line(component_list(d))
    &&& is_line(d.date) && !is_blank(d.date)
    &&& are_listable(d.hashes)
}

/// An optional value, trimmed.
pub open spec fn trimmed(value: Option<Seq<char>>) -> Option<Seq<char>> {
    match value {
        Some(text) => Some(trim(text)),
        None => None,
    }
}

/// What the Release of given hashes says.
pub open spec fn hash_draft_release(d: HashDraft) -> ReleaseModel {
    ReleaseModel {
        origin: None,
        label: None,
        suite: trim(d.suite),
        codename: trimmed(d.codename),
        version: None,
        date: trim(d.date),
        architectures: words(architecture_list(d)),
        components: words(component_list(d)),
        description: None,
        md5sum: seq![],
        sha1: seq![],
        sha256: sorted::<ReleaseHash>(d.hashes),
        sha512: seq![],
        extra: seq![],
    }
}

spec fn named_lines(codename: Option<Seq<char>>) -> Seq<Seq<char>> {
    match codename {
        Some(name) => seq![one_line("Codename"@, name)],
        None => seq![],
    }
}

spec fn named_fields(codename: Option<Seq<char>>) -> Seq<(Seq<char>, Seq<char>)> {
    match codename {
        Some(name) => seq![("Codename"@, trim(name))],
        None => seq![],
    }
}

spec fn named_text(codename: Option<Seq<char>>) -> Seq<char> {
    match codename {
        Some(name) => "Codename: "@ + name + "\n"@,
        None => seq![],
    }
}

proof fn add_named(
    ls: Seq<Seq<char>>,
    fs: Seq<(Seq<char>, Seq<char>)>,
    text: Seq<char>,
    codename: Option<Seq<char>>,
)
    requires
        reads_as(ls, fs),
        flat(ls) == text,
        codename matches Some(name) ==> is_line(name),
    ensures
        reads_as(ls + named_lines(codename), fs + named_fields(codename)),
        flat(ls + named_lines(codename)) == text + named_text(codename),
{
    match codename {
        Some(name) => {
            key_codename();
            add_line(ls, fs, text, "Codename"@, name);
            reveal_strlit("Codename: ");
            reveal_strlit("Codename");
            reveal_strlit(": ");
            assert("Codename: "@ =~= "Codename"@ + ": "@);
            assert(text + ("Codename: "@ + name + "\n"@) =~= text + "Codename"@ + ": "@ + name
                + "\n"@);
        },
        None => {
            assert(ls + named_lines(codename) =~= ls);
            assert(fs + named_fields(codename) =~= fs);
            assert(text + Seq::<char>::empty() =~= text);
        },
    }
}

/// The lines before the components.
spec fn top_lines(d: HashDraft) -> Seq<Seq<char>> {
    seq![one_line("Suite"@, d.suite)] + named_lines(d.codename) + seq![one_line("Date"@, d.date)]
        + seq![one_line("Architectures"@, architecture_list(d))]
}

spec fn top_fields(d: HashDraft) -> Seq<(Seq<char>, Seq<char>)> {
    seq![("Suite"@, trim(d.suite))] + named_fields(d.codename) + seq![("Date"@, trim(d.date))]
        + seq![("Architectures"@, trim(architecture_list(d)))]
}

spec fn top_text(d: HashDraft) -> Seq<char> {
    "Suite: "@ + d.suite + "\n"@ + named_text(d.codename) + "Date: "@ + d.date + "\n"@
        + "Architectures: "@ + architecture_list(d) + "\n"@
}

proof fn top_reads_as_fields(d: HashDraft)
    requires
        is_readable(d),
    ensures
        reads_as(top_lines(d), top_fields(d)),
        flat(top_lines(d)) == top_text(d),
{
    release_labels();
    key_suite();
    key_date();
    key_architectures();
    let l0 = Seq::<Seq<char>>::empty();
    let f0 = Seq::<(Seq<char>, Seq<char>)>::empty();
    let t0 = Seq::<char>::empty();
    add_line(l0, f0, t0, "Suite"@, d.suite);
    let l1 = seq![one_line("Suite"@, d.suite)];
    let f1 = seq![("Suite"@, trim(d.suite))];
    let t1 = "Suite: "@ + d.suite + "\n"@;
    assert(l0 + l1 =~= l1);
    assert(f0 + f1 =~= f1);
    assert(t0 + "Suite"@ + ": "@ + d.suite + "\n"@ =~= t1);
    add_named(l1, f1, t1, d.codename);
    let l2 = l1 + named_lines(d.codename);
    let f2 = f1 + named_fields(d.codename);
    let t2 = t1 + named_text(d.codename);
    add_line(l2, f2, t2, "Date"@, d.date);
    literal_header(t2, "Date"@, "Date: "@, d.date);
    let l3 = l2 + seq![one_line("Date"@, d.date)];
    let f3 = f2 + seq![("Date"@, trim(d.date))];
    let t3 = t2 + "Date: "@ + d.date + "\n"@;
    add_line(l3, f3, t3, "Architectures"@, architecture_list(d));
    literal_header(t3, "Architectures"@, "Architectures: "@, architecture_list(d));
}

/// The fields of a Release of given hashes.
spec fn hash_draft_fields(d: HashDraft) -> Seq<(Seq<char>, Seq<char>)> {
    let fs = top_fields(d) + seq![("Components"@, trim(component_list(d)))];
    if d.hashes.len() > 0 {
        fs + seq![("SHA256"@, glued(section_lines(sorted::<ReleaseHash>(d.hashes))))]
    } else {
        fs
    }
}

/// The lines of a Release of given hashes, before the hashes.
spec fn head_lines(d: HashDraft) -> Seq<Seq<char>> {
    top_lines(d) + seq![one_line("Components"@, component_list(d))]
}

spec fn head_fields(d: HashDraft) -> Seq<(Seq<char>, Seq<char>)> {
    top_fields(d) + seq![("Components"@, trim(component_list(d)))]
}

spec fn head_text(d: HashDraft) -> Seq<char> {
    top_text(d) + "Components: "@ + component_list(d) + "\n"@
}

proof fn head_lines_read_as_fields(d: HashDraft)
    requires
        is_readable(d),
    ensures
        reads_as(head_lines(d), head_fields(d)),
        flat(head_lines(d)) == head_text(d),
{
    release_labels();
    top_reads_as_fields(d);
    key_components();
    add_line(top_lines(d), top_fields(d), top_text(d), "Components"@, component_list(d));
    literal_header(top_text(d), "Components"@, "Components: "@, component_list(d));
}

proof fn hashes_follow_head(d: HashDraft)
    requires
        is_readable(d),
        d.hashes.len() > 0,
    ensures
        ({
            let hs = sorted::<ReleaseHash>(d.hashes);
            let all = head_lines(d) + chunk("SHA256"@, seq![], section_lines(hs));
            &&& reads_as(all, hash_draft_fields(d))
            &&& flat(all) == hash_draft_text(d)
            &&& is_stanza(all)
        }),
{
    release_labels();
    head_lines_read_as_fields(d);
    let hs = sorted::<ReleaseHash>(d.hashes);
    sorted_is_ordered::<ReleaseHash>(d.hashes);
    assert forall|i: int| 0 <= i < hs.len() implies is_word((#[trigger] hs[i]).hash) && is_word(
        hs[i].path,
    ) by {
        sorted_item_was_given::<ReleaseHash>(d.hashes, i);
        let k = choose|k: int| 0 <= k < d.hashes.len() && d.hashes[k] == hs[i];
        assert(is_word(d.hashes[k].hash));
    }
    key_sha256();
    let text = head_text(d);
    add_section(head_lines(d), head_fields(d), text, "SHA256"@, hs);
    section_ends_plainly(head_lines(d), "SHA256"@, hs);
    assert(text + ("SHA256:\n"@ + hash_lines(hs)) =~= text + "SHA256"@ + seq![':', '\n']
        + hash_lines(hs));
}

/// A Release of given hashes is one stanza, and gives its fields.
#[verifier::rlimit(30)]
proof fn hash_draft_is_stanza(d: HashDraft)
    requires
        is_readable(d),
    ensures
        only_stanza(hash_draft_text(d)) == Ok::<Seq<(Seq<char>, Seq<char>)>, Failure>(
            map_of(hash_draft_fields(d)),
        ),
{
    if d.hashes.len() > 0 {
        hashes_follow_head(d);
        let all = head_lines(d) + chunk(
            "SHA256"@,
            seq![],
            section_lines(sorted::<ReleaseHash>(d.hashes)),
        );
        lines_of_flat(all);
        lines_of_open_flat(all);
        stanza_text(all);
        stanza_stays_open(seq![], all);
        assert(Seq::<Seq<char>>::empty() + all =~= all);
        assert(stanzas(flat(all)) =~= seq![flat(all).drop_last()]);
    } else {
        head_lines_read_as_fields(d);
        let ls = head_lines(d);
        top_reads_as_fields(d);
        key_components();
        add_last_line(top_lines(d), top_fields(d), "Components"@, component_list(d));
        lines_of_flat(ls);
        stanza_stays_open(seq![], ls);
        assert(Seq::<Seq<char>>::empty() + ls =~= ls);
        assert(stanzas(flat(ls)) =~= seq![trim_end(flat(ls))]);
        assert(head_text(d) + Seq::<char>::empty() =~= head_text(d));
        assert(flat(ls) == hash_draft_text(d));
    }
}

/// What the fields of a Release of given hashes hold under a name.
spec fn hash_draft_value(d: HashDraft, k: Seq<char>) -> Option<Seq<char>> {
    if k == "Suite"@ {
        Some(trim(d.suite))
    } else if k == "Codename"@ {
        trimmed(d.codename)
    } else if k == "Date"@ {
        Some(trim(d.date))
    } else if k == "Architectures"@ {
        Some(trim(architecture_list(d)))
    } else if k == "Components"@ {
        Some(trim(component_list(d)))
    } else if k == "SHA256"@ && d.hashes.len() > 0 {
        Some(trim(glued(section_lines(sorted::<ReleaseHash>(d.hashes)))))
    } else {
        None
    }
}

proof fn hash_draft_value_found(d: HashDraft, k: Seq<char>)
    ensures
        lookup(map_of(hash_draft_fields(d)), k) == hash_draft_value(d, k),
{
    release_fields_differ();
    let f0 = Seq::<(Seq<char>, Seq<char>)>::empty();
    let f1 = seq![("Suite"@, trim(d.suite))];
    assert(f0 + f1 =~= f1);
    trimmed_field_found(f0, "Suite"@, d.suite, k);
    match d.codename {
        Some(name) => {
            trimmed_field_found(f1, "Codename"@, name, k);
        },
        None => {
            assert(f1 + named_fields(d.codename) =~= f1);
        },
    }
    let f2 = f1 + named_fields(d.codename);
    trimmed_field_found(f2, "Date"@, d.date, k);
    let f3 = f2 + seq![("Date"@, trim(d.date))];
    trimmed_field_found(f3, "Architectures"@, architecture_list(d), k);
    let f4 = top_fields(d);
    trimmed_field_found(f4, "Components"@, component_list(d), k);
    let f5 = f4 + seq![("Components"@, trim(component_list(d)))];
    if d.hashes.len() > 0 {
        field_found(f5, "SHA256"@, glued(section_lines(sorted::<ReleaseHash>(d.hashes))), k);
    }
}

proof fn values_make_hash_release(d: HashDraft, m: Seq<(Seq<char>, Seq<char>)>)
    requires
        is_readable(d),
        ascending(keys_of(m)),
        forall|k: Seq<char>| #[trigger] lookup(m, k) == hash_draft_value(d, k),
    ensures
        release_from(m) == Ok::<ReleaseModel, Failure>(hash_draft_release(d)),
{
    release_fields_differ();
    filled_has_words(d.suite);
    filled_has_words(d.date);
    filled_has_words(architecture_list(d));
    trimming_keeps_words(architecture_list(d));
    trimming_keeps_words(component_list(d));
    let hs = sorted::<ReleaseHash>(d.hashes);
    sorted_is_ordered::<ReleaseHash>(d.hashes);
    assert forall|i: int| 0 <= i < hs.len() implies is_word((#[trigger] hs[i]).hash) && is_word(
        hs[i].path,
    ) by {
        sorted_item_was_given::<ReleaseHash>(d.hashes, i);
        let k = choose|k: int| 0 <= k < d.hashes.len() && d.hashes[k] == hs[i];
        assert(is_word(d.hashes[k].hash));
    }
    section_reads_back(hs);
    if d.hashes.len() == 0 {
        assert(hs =~= seq![]);
    }
    known_names_listed();
    nothing_is_left(m);
}

/// A Release of given hashes reads back: its values trimmed, its lists in order
/// as words, and its hashes in the order of their paths.
pub proof fn generated_release_reads_back(d: HashDraft)
    requires
        is_readable(d),
    ensures
        release_of(hash_draft_text(d)) == Ok::<ReleaseModel, Failure>(hash_draft_release(d)),
{
    hash_draft_is_stanza(d);
    let m = map_of(hash_draft_fields(d));
    map_of_ascending(hash_draft_fields(d));
    assert forall|k: Seq<char>| #[trigger] lookup(m, k) == hash_draft_value(d, k) by {
        hash_draft_value_found(d, k);
    }
    values_make_hash_release(d, m);
}

} // verus!
