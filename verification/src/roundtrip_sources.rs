//! What is written in a Sources index reads back.

use vstd::prelude::*;

use crate::emit::{field_text, fields_text};
use crate::error::Failure;
use crate::generated::{any_has_hash, source_entry_text, source_hash, source_hash_lines, source_section, sources_text};
use crate::generated::SourceHash;
use crate::index::{source_fields, source_file, source_file_names, source_hashes, source_hashes_from, source_of};
use crate::index::{source_with, sources_from, sources_of, SourceFileModel, SourceHashes, SourceModel};
use crate::number::decimal_round_trip;
use crate::ordered::{ascending, keys_of, lookup, lookup_after_put, put, slot_cuts, slot_splits, text_set};
use crate::ordered::{text_set_holds, without_all};
use crate::roundtrip::{add_chunk, chunk, document_lines, documents_split, entries_are_chunk, entries_come_back};
use crate::roundtrip::{entry_has_words, entry_text, flat, flat_add, glued, is_entry, is_key, is_stanza, is_word};
use crate::roundtrip::{is_writable, last_field_counts, lines_of_flat, lines_of_open_flat, lookup_iff_contains};
use crate::roundtrip::{lookup_in_tail, other_fields_stay, reads_as, same_lookups_same_map, section_of, stanza_text};
use crate::roundtrip::{without_all_lookup, writable_is_chunk, writable_is_not_blank};
use crate::roundtrip_packages::{key_package, key_version};
use crate::stanza::{map_of, map_of_ascending, stanzas};
use crate::text::{is_white, lines, text_lt, text_lt_irreflexive, text_lt_total, text_lt_transitive, trim, trim_end};

verus! {

// ---------------------------------------------------------------------------
// What can be written
// ---------------------------------------------------------------------------

/// A value that reads back trimmed.
pub open spec fn is_field_value(value: Seq<char>) -> bool {
    is_writable(value) && trim(value) == value
}

/// An optional text that is one word.
pub open spec fn is_word_option(value: Option<Seq<char>>) -> bool {
    value matches Some(text) ==> is_word(text)
}

/// A source file that can be listed: its name is one word, and so are its
/// digests, of which there is one at least.
pub open spec fn is_listable_source(file: SourceFileModel) -> bool {
    &&& is_word(file.filename)
    &&& is_word_option(file.md5sum)
    &&& is_word_option(file.sha1)
    &&& is_word_option(file.sha256)
    &&& is_word_option(file.sha512)
    &&& file.md5sum is Some || file.sha1 is Some || file.sha256 is Some || file.sha512 is Some
}

/// The names of source files.
pub open spec fn file_names(files: Seq<SourceFileModel>) -> Seq<Seq<char>> {
    files.map_values(|file: SourceFileModel| file.filename)
}

/// A source package whose fields can all be written, its files in order.
pub open spec fn is_writable_source(e: SourceModel) -> bool {
    &&& is_field_value(e.package)
    &&& is_field_value(e.version)
    &&& is_field_value(e.directory)
    &&& ascending(keys_of(e.extra))
    &&& forall|i: int|
        0 <= i < e.extra.len() ==> is_key((#[trigger] e.extra[i]).0) && !source_fields().contains(
            e.extra[i].0,
        ) && is_field_value(e.extra[i].1)
    &&& ascending(file_names(e.files))
    &&& forall|i: int| 0 <= i < e.files.len() ==> is_listable_source(#[trigger] e.files[i])
}

// ---------------------------------------------------------------------------
// Field names
// ---------------------------------------------------------------------------

proof fn key_directory()
    ensures
        is_key("Directory"@),
{
    reveal_strlit("Directory");
    let key = "Directory"@;
    assert forall|k: int| 0 <= k < key.len() implies key[k] != ':' && key[k] != '\n' by {
        assert(k == 0 || k == 1 || k == 2 || k == 3 || k == 4 || k == 5 || k == 6 || k == 7 || k == 8);
    }
}

proof fn key_files()
    ensures
        is_key("Files"@),
{
    reveal_strlit("Files");
    let key = "Files"@;
    assert forall|k: int| 0 <= k < key.len() implies key[k] != ':' && key[k] != '\n' by {
        assert(k == 0 || k == 1 || k == 2 || k == 3 || k == 4);
    }
}

proof fn key_checksums_sha1()
    ensures
        is_key("Checksums-Sha1"@),
{
    reveal_strlit("Checksums-Sha1");
    let key = "Checksums-Sha1"@;
    assert forall|k: int| 0 <= k < key.len() implies key[k] != ':' && key[k] != '\n' by {
        assert(k == 0 || k == 1 || k == 2 || k == 3 || k == 4 || k == 5 || k == 6 || k == 7 || k == 8 || k == 9 || k == 10 || k == 11 || k == 12 || k == 13);
    }
}

proof fn key_checksums_sha256()
    ensures
        is_key("Checksums-Sha256"@),
{
    reveal_strlit("Checksums-Sha256");
    let key = "Checksums-Sha256"@;
    assert forall|k: int| 0 <= k < key.len() implies key[k] != ':' && key[k] != '\n' by {
        assert(k == 0 || k == 1 || k == 2 || k == 3 || k == 4 || k == 5 || k == 6 || k == 7 || k == 8 || k == 9 || k == 10 || k == 11 || k == 12 || k == 13 || k == 14 || k == 15);
    }
}

proof fn key_checksums_sha512()
    ensures
        is_key("Checksums-Sha512"@),
{
    reveal_strlit("Checksums-Sha512");
    let key = "Checksums-Sha512"@;
    assert forall|k: int| 0 <= k < key.len() implies key[k] != ':' && key[k] != '\n' by {
        assert(k == 0 || k == 1 || k == 2 || k == 3 || k == 4 || k == 5 || k == 6 || k == 7 || k == 8 || k == 9 || k == 10 || k == 11 || k == 12 || k == 13 || k == 14 || k == 15);
    }
}

/// The names of the fields of a source package differ.
proof fn source_fields_differ()
    ensures
        "Package"@ != "Version"@,
        "Package"@ != "Directory"@,
        "Package"@ != "Files"@,
        "Package"@ != "Checksums-Sha1"@,
        "Package"@ != "Checksums-Sha256"@,
        "Package"@ != "Checksums-Sha512"@,
        "Version"@ != "Directory"@,
        "Version"@ != "Files"@,
        "Version"@ != "Checksums-Sha1"@,
        "Version"@ != "Checksums-Sha256"@,
        "Version"@ != "Checksums-Sha512"@,
        "Directory"@ != "Files"@,
        "Directory"@ != "Checksums-Sha1"@,
        "Directory"@ != "Checksums-Sha256"@,
        "Directory"@ != "Checksums-Sha512"@,
        "Files"@ != "Checksums-Sha1"@,
        "Files"@ != "Checksums-Sha256"@,
        "Files"@ != "Checksums-Sha512"@,
        "Checksums-Sha1"@ != "Checksums-Sha256"@,
        "Checksums-Sha1"@ != "Checksums-Sha512"@,
        "Checksums-Sha256"@ != "Checksums-Sha512"@,
{
    reveal_strlit("Package");
    reveal_strlit("Version");
    reveal_strlit("Directory");
    reveal_strlit("Files");
    reveal_strlit("Checksums-Sha1");
    reveal_strlit("Checksums-Sha256");
    reveal_strlit("Checksums-Sha512");
    assert("Package"@.len() == 7);
    assert("Version"@.len() == 7);
    assert("Directory"@.len() == 9);
    assert("Files"@.len() == 5);
    assert("Checksums-Sha1"@.len() == 14);
    assert("Checksums-Sha256"@.len() == 16);
    assert("Checksums-Sha512"@.len() == 16);
    assert("Package"@[0] != "Version"@[0]);
    assert("Checksums-Sha256"@[13] != "Checksums-Sha512"@[13]);
}

// ---------------------------------------------------------------------------
// Checksum sections
// ---------------------------------------------------------------------------

/// The entries of a checksum section.
spec fn source_entries(files: Seq<SourceFileModel>, which: SourceHash) -> Seq<Seq<char>>
    decreases files.len(),
{
    if files.len() == 0 {
        seq![]
    } else {
        let before = source_entries(files.drop_last(), which);
        match source_hash(files.last(), which) {
            Some(hash) => before.push(
                entry_text(hash, files.last().size as nat, files.last().filename),
            ),
            None => before,
        }
    }
}

/// What a checksum section says of the files.
spec fn hashes_by_name(files: Seq<SourceFileModel>, which: SourceHash) -> Seq<
    (Seq<char>, (Seq<char>, u64)),
>
    decreases files.len(),
{
    if files.len() == 0 {
        seq![]
    } else {
        let before = hashes_by_name(files.drop_last(), which);
        match source_hash(files.last(), which) {
            Some(hash) => put(before, files.last().filename, (hash, files.last().size)),
            None => before,
        }
    }
}

proof fn entries_are_lines(files: Seq<SourceFileModel>, which: SourceHash)
    ensures
        source_hash_lines(files, which) == flat(
            source_entries(files, which).map_values(|l: Seq<char>| seq![' '] + l),
        ),
        any_has_hash(files, which) == (source_entries(files, which).len() > 0),
    decreases files.len(),
{
    reveal_strlit(" ");
    reveal_strlit("\n");
    let es = source_entries(files, which);
    let m = es.map_values(|l: Seq<char>| seq![' '] + l);
    if files.len() == 0 {
        assert(m =~= seq![]);
    } else {
        let t = files.drop_last();
        entries_are_lines(t, which);
        let before = source_entries(t, which).map_values(|l: Seq<char>| seq![' '] + l);
        if any_has_hash(t, which) {
            let i = choose|i: int| 0 <= i < t.len() && source_hash(#[trigger] t[i], which) is Some;
            assert(files[i] == t[i]);
        }
        if any_has_hash(files, which) && source_hash(files.last(), which) is None {
            let i = choose|i: int|
                0 <= i < files.len() && source_hash(#[trigger] files[i], which) is Some;
            assert(t[i] == files[i]);
        }
        if source_hash(files.last(), which) is Some {
            assert(source_hash(files[files.len() - 1], which) is Some);
            assert(m.drop_last() =~= before);
            assert(source_hash_lines(files, which) =~= flat(m));
        }
    }
}

proof fn source_entries_are_entries(files: Seq<SourceFileModel>, which: SourceHash)
    requires
        forall|i: int| 0 <= i < files.len() ==> is_listable_source(#[trigger] files[i]),
    ensures
        forall|i: int|
            0 <= i < source_entries(files, which).len() ==> is_entry(
                #[trigger] source_entries(files, which)[i],
            ),
    decreases files.len(),
{
    if files.len() > 0 {
        let t = files.drop_last();
        assert forall|i: int| 0 <= i < t.len() implies is_listable_source(#[trigger] t[i]) by {
            assert(t[i] == files[i]);
        }
        source_entries_are_entries(t, which);
        assert(is_listable_source(files[files.len() - 1]));
        if let Some(hash) = source_hash(files.last(), which) {
            entry_has_words(hash, files.last().size as nat, files.last().filename);
            let es = source_entries(files, which);
            assert forall|i: int| 0 <= i < es.len() implies is_entry(#[trigger] es[i]) by {
                if i < es.len() - 1 {
                    assert(es[i] == source_entries(t, which)[i]);
                }
            }
        }
    }
}

/// The entries of a checksum section read back.
proof fn source_entries_read_back(files: Seq<SourceFileModel>, which: SourceHash, field: Seq<char>)
    requires
        forall|i: int| 0 <= i < files.len() ==> is_listable_source(#[trigger] files[i]),
    ensures
        source_hashes_from(source_entries(files, which), field) == Ok::<
            Seq<(Seq<char>, (Seq<char>, u64))>,
            Failure,
        >(hashes_by_name(files, which)),
    decreases files.len(),
{
    if files.len() > 0 {
        let t = files.drop_last();
        assert forall|i: int| 0 <= i < t.len() implies is_listable_source(#[trigger] t[i]) by {
            assert(t[i] == files[i]);
        }
        source_entries_read_back(t, which, field);
        assert(is_listable_source(files[files.len() - 1]));
        if let Some(hash) = source_hash(files.last(), which) {
            entry_has_words(hash, files.last().size as nat, files.last().filename);
            decimal_round_trip(files.last().size as nat, u64::MAX as nat);
            assert(source_entries(files, which).drop_last() =~= source_entries(t, which));
        }
    }
}

/// The last hash that the files give a name.
spec fn hash_for(files: Seq<SourceFileModel>, which: SourceHash, name: Seq<char>) -> Option<
    (Seq<char>, u64),
>
    decreases files.len(),
{
    if files.len() == 0 {
        None
    } else {
        let last = files.last();
        match source_hash(last, which) {
            Some(hash) if last.filename == name => Some((hash, last.size)),
            _ => hash_for(files.drop_last(), which, name),
        }
    }
}

proof fn hashes_give_hash(files: Seq<SourceFileModel>, which: SourceHash, name: Seq<char>)
    ensures
        ascending(keys_of(hashes_by_name(files, which))),
        lookup(hashes_by_name(files, which), name) == hash_for(files, which, name),
    decreases files.len(),
{
    if files.len() > 0 {
        let t = files.drop_last();
        hashes_give_hash(t, which, name);
        if let Some(hash) = source_hash(files.last(), which) {
            lookup_after_put(
                hashes_by_name(t, which),
                files.last().filename,
                (hash, files.last().size),
                name,
            );
        }
    }
}

proof fn hash_for_unnamed(files: Seq<SourceFileModel>, which: SourceHash, name: Seq<char>)
    requires
        !file_names(files).contains(name),
    ensures
        hash_for(files, which, name) is None,
    decreases files.len(),
{
    if files.len() > 0 {
        let t = files.drop_last();
        if file_names(t).contains(name) {
            let i = choose|i: int| 0 <= i < file_names(t).len() && file_names(t)[i] == name;
            assert(file_names(files)[i] == name);
        }
        hash_for_unnamed(t, which, name);
        if files.last().filename == name {
            assert(file_names(files)[files.len() - 1] == name);
        }
    }
}

/// A file is given its own hash.
proof fn hash_for_file(files: Seq<SourceFileModel>, which: SourceHash, i: int)
    requires
        ascending(file_names(files)),
        0 <= i < files.len(),
    ensures
        hash_for(files, which, files[i].filename) == match source_hash(files[i], which) {
            Some(hash) => Some((hash, files[i].size)),
            None => None,
        },
    decreases files.len(),
{
    let t = files.drop_last();
    let names = file_names(files);
    assert forall|a: int, b: int| 0 <= a < b < file_names(t).len() implies text_lt(
        #[trigger] file_names(t)[a],
        #[trigger] file_names(t)[b],
    ) by {
        assert(text_lt(names[a], names[b]));
    }
    if i < t.len() {
        assert(text_lt(names[i], names[files.len() - 1]));
        text_lt_irreflexive(files[i].filename);
        hash_for_file(t, which, i);
    } else if source_hash(files[i], which) is None {
        if file_names(t).contains(files[i].filename) {
            let k = choose|k: int|
                0 <= k < file_names(t).len() && file_names(t)[k] == files[i].filename;
            assert(text_lt(names[k], names[i]));
            text_lt_irreflexive(files[i].filename);
        }
        hash_for_unnamed(t, which, files[i].filename);
    }
}

/// Ascending texts are known by what they hold.
proof fn same_members_same_texts(a: Seq<Seq<char>>, b: Seq<Seq<char>>)
    requires
        ascending(a),
        ascending(b),
        forall|x: Seq<char>| a.contains(x) <==> b.contains(x),
    ensures
        a == b,
{
    let none = Seq::<char>::empty();
    let ma = a.map_values(|k: Seq<char>| (k, none));
    let mb = b.map_values(|k: Seq<char>| (k, none));
    assert(keys_of(ma) =~= a);
    assert(keys_of(mb) =~= b);
    assert forall|k: Seq<char>| #[trigger] lookup(ma, k) == lookup(mb, k) by {
        lookup_iff_contains(ma, k);
        lookup_iff_contains(mb, k);
    }
    same_lookups_same_map(ma, mb);
}

spec fn all_hashes(files: Seq<SourceFileModel>) -> SourceHashes {
    SourceHashes {
        md5: hashes_by_name(files, SourceHash::Md5),
        sha1: hashes_by_name(files, SourceHash::Sha1),
        sha256: hashes_by_name(files, SourceHash::Sha256),
        sha512: hashes_by_name(files, SourceHash::Sha512),
    }
}

proof fn section_names(files: Seq<SourceFileModel>, which: SourceHash, name: Seq<char>)
    ensures
        keys_of(hashes_by_name(files, which)).contains(name) <==> hash_for(files, which, name)
            is Some,
{
    hashes_give_hash(files, which, name);
    slot_splits(keys_of(hashes_by_name(files, which)), name);
    slot_cuts(keys_of(hashes_by_name(files, which)), name);
}

/// The checksum sections name the files, and nothing else.
proof fn names_come_back(files: Seq<SourceFileModel>)
    requires
        ascending(file_names(files)),
        forall|i: int| 0 <= i < files.len() ==> is_listable_source(#[trigger] files[i]),
    ensures
        source_file_names(all_hashes(files)) == file_names(files),
{
    let h = all_hashes(files);
    let k1 = keys_of(h.md5);
    let k2 = keys_of(h.sha1);
    let k3 = keys_of(h.sha256);
    let k4 = keys_of(h.sha512);
    let all = k1 + k2 + k3 + k4;
    text_set_holds(all);
    assert forall|x: Seq<char>| text_set(all).contains(x) <==> file_names(files).contains(x) by {
        section_names(files, SourceHash::Md5, x);
        section_names(files, SourceHash::Sha1, x);
        section_names(files, SourceHash::Sha256, x);
        section_names(files, SourceHash::Sha512, x);
        in_one_of(k1, k2, k3, k4, x);
        if file_names(files).contains(x) {
            let i = choose|i: int| 0 <= i < file_names(files).len() && file_names(files)[i] == x;
            assert(is_listable_source(files[i]));
            hash_for_file(files, SourceHash::Md5, i);
            hash_for_file(files, SourceHash::Sha1, i);
            hash_for_file(files, SourceHash::Sha256, i);
            hash_for_file(files, SourceHash::Sha512, i);
        } else {
            hash_for_unnamed(files, SourceHash::Md5, x);
            hash_for_unnamed(files, SourceHash::Sha1, x);
            hash_for_unnamed(files, SourceHash::Sha256, x);
            hash_for_unnamed(files, SourceHash::Sha512, x);
        }
    }
    same_members_same_texts(text_set(all), file_names(files));
}

proof fn in_one_of(
    a: Seq<Seq<char>>,
    b: Seq<Seq<char>>,
    c: Seq<Seq<char>>,
    d: Seq<Seq<char>>,
    x: Seq<char>,
)
    ensures
        (a + b + c + d).contains(x) <==> (a.contains(x) || b.contains(x) || c.contains(x)
            || d.contains(x)),
{
    let all = a + b + c + d;
    if a.contains(x) {
        let i = choose|i: int| 0 <= i < a.len() && a[i] == x;
        assert(all[i] == x);
    }
    if b.contains(x) {
        let i = choose|i: int| 0 <= i < b.len() && b[i] == x;
        assert(all[a.len() + i] == x);
    }
    if c.contains(x) {
        let i = choose|i: int| 0 <= i < c.len() && c[i] == x;
        assert(all[a.len() + b.len() + i] == x);
    }
    if d.contains(x) {
        let i = choose|i: int| 0 <= i < d.len() && d[i] == x;
        assert(all[a.len() + b.len() + c.len() + i] == x);
    }
    if all.contains(x) {
        let i = choose|i: int| 0 <= i < all.len() && all[i] == x;
        if i < a.len() {
            assert(a[i] == x);
        } else if i < a.len() + b.len() {
            assert(b[i - a.len()] == x);
        } else if i < a.len() + b.len() + c.len() {
            assert(c[i - a.len() - b.len()] == x);
        } else {
            assert(d[i - a.len() - b.len() - c.len()] == x);
        }
    }
}

/// The checksum sections give the files back.
proof fn files_come_back(files: Seq<SourceFileModel>)
    requires
        ascending(file_names(files)),
        forall|i: int| 0 <= i < files.len() ==> is_listable_source(#[trigger] files[i]),
    ensures
        source_file_names(all_hashes(files)).map_values(
            |file: Seq<char>| source_file(all_hashes(files), file),
        ) == files,
{
    names_come_back(files);
    let h = all_hashes(files);
    let back = file_names(files).map_values(|file: Seq<char>| source_file(h, file));
    assert forall|i: int| 0 <= i < files.len() implies back[i] == files[i] by {
        let name = files[i].filename;
        assert(is_listable_source(files[i]));
        hashes_give_hash(files, SourceHash::Md5, name);
        hashes_give_hash(files, SourceHash::Sha1, name);
        hashes_give_hash(files, SourceHash::Sha256, name);
        hashes_give_hash(files, SourceHash::Sha512, name);
        hash_for_file(files, SourceHash::Md5, i);
        hash_for_file(files, SourceHash::Sha1, i);
        hash_for_file(files, SourceHash::Sha256, i);
        hash_for_file(files, SourceHash::Sha512, i);
    }
    assert(back =~= files);
}

// ---------------------------------------------------------------------------
// Lines and fields
// ---------------------------------------------------------------------------

/// Lines that read as fields, and do not end with white space.
spec fn reads_well(ls: Seq<Seq<char>>, fs: Seq<(Seq<char>, Seq<char>)>) -> bool {
    &&& reads_as(ls, fs)
    &&& ls.len() > 0 ==> ls.last().len() > 0 && !is_white(ls.last().last())
}

proof fn add_value(
    ls: Seq<Seq<char>>,
    fs: Seq<(Seq<char>, Seq<char>)>,
    text: Seq<char>,
    key: Seq<char>,
    value: Seq<char>,
)
    requires
        reads_well(ls, fs),
        flat(ls) == text,
        is_key(key),
        is_writable(value),
    ensures
        reads_well(ls + chunk(key, seq![' '], lines(value)), fs + seq![(key, value)]),
        flat(ls + chunk(key, seq![' '], lines(value))) == text + field_text(key, value),
        chunk(key, seq![' '], lines(value)).len() > 0,
{
    let cl = chunk(key, seq![' '], lines(value));
    writable_is_chunk(key, value);
    add_chunk(ls, fs, key, seq![' '], lines(value));
    flat_add(ls, cl);
    assert((ls + cl).last() == cl.last());
    assert(cl.last().last() == lines(value).last().last());
}

/// The lines of the fields without a meaning of their own.
spec fn extra_lines(x: Seq<(Seq<char>, Seq<char>)>) -> Seq<Seq<char>>
    decreases x.len(),
{
    if x.len() == 0 {
        seq![]
    } else {
        extra_lines(x.drop_last()) + chunk(x.last().0, seq![' '], lines(x.last().1))
    }
}

proof fn add_extras(
    ls: Seq<Seq<char>>,
    fs: Seq<(Seq<char>, Seq<char>)>,
    text: Seq<char>,
    x: Seq<(Seq<char>, Seq<char>)>,
)
    requires
        reads_well(ls, fs),
        flat(ls) == text,
        forall|i: int| 0 <= i < x.len() ==> is_key((#[trigger] x[i]).0) && is_writable(x[i].1),
    ensures
        reads_well(ls + extra_lines(x), fs + x),
        flat(ls + extra_lines(x)) == text + fields_text(x),
    decreases x.len(),
{
    if x.len() == 0 {
        assert(ls + extra_lines(x) =~= ls);
        assert(fs + x =~= fs);
        assert(text + fields_text(x) =~= text);
    } else {
        let t = x.drop_last();
        assert forall|i: int| 0 <= i < t.len() implies is_key((#[trigger] t[i]).0) && is_writable(
            t[i].1,
        ) by {
            assert(t[i] == x[i]);
        }
        add_extras(ls, fs, text, t);
        assert(is_key(x[x.len() - 1].0));
        let last = x.last();
        add_value(ls + extra_lines(t), fs + t, text + fields_text(t), last.0, last.1);
        let cl = chunk(last.0, seq![' '], lines(last.1));
        assert((ls + extra_lines(t)) + cl =~= ls + extra_lines(x));
        assert((fs + t) + seq![(last.0, last.1)] =~= fs + x);
        assert((text + fields_text(t)) + field_text(last.0, last.1) =~= text + fields_text(x));
    }
}

/// The lines of a checksum section that is there or not.
spec fn checksum_lines(key: Seq<char>, files: Seq<SourceFileModel>, which: SourceHash) -> Seq<
    Seq<char>,
> {
    let es = source_entries(files, which);
    if es.len() > 0 {
        chunk(key, seq![], section_of(es))
    } else {
        seq![]
    }
}

spec fn checksum_fields(key: Seq<char>, files: Seq<SourceFileModel>, which: SourceHash) -> Seq<
    (Seq<char>, Seq<char>),
> {
    let es = source_entries(files, which);
    if es.len() > 0 {
        seq![(key, glued(section_of(es)))]
    } else {
        seq![]
    }
}

proof fn add_checksums(
    ls: Seq<Seq<char>>,
    fs: Seq<(Seq<char>, Seq<char>)>,
    text: Seq<char>,
    key: Seq<char>,
    files: Seq<SourceFileModel>,
    which: SourceHash,
)
    requires
        reads_well(ls, fs),
        flat(ls) == text,
        is_key(key),
        forall|i: int| 0 <= i < files.len() ==> is_listable_source(#[trigger] files[i]),
    ensures
        reads_well(
            ls + checksum_lines(key, files, which),
            fs + checksum_fields(key, files, which),
        ),
        flat(ls + checksum_lines(key, files, which)) == text + source_section(key, files, which),
{
    let es = source_entries(files, which);
    entries_are_lines(files, which);
    if es.len() > 0 {
        source_entries_are_entries(files, which);
        entries_are_chunk(key, es);
        add_chunk(ls, fs, key, seq![], section_of(es));
        let cl = chunk(key, seq![], section_of(es));
        flat_add(ls, cl);
        reveal_strlit(":\n");
        assert(":\n"@ =~= seq![':', '\n']);
        assert((ls + cl).last() == cl.last());
        assert(cl.last() == seq![' '] + es.last());
        assert(is_entry(es[es.len() - 1]));
        assert(cl.last().last() == es.last().last());
    } else {
        assert(ls + checksum_lines(key, files, which) =~= ls);
        assert(fs + checksum_fields(key, files, which) =~= fs);
        assert(text + Seq::<char>::empty() =~= text);
    }
}

/// The fields of a source package that stand before its checksum sections.
spec fn head_fields(e: SourceModel) -> Seq<(Seq<char>, Seq<char>)> {
    seq![("Package"@, e.package)] + seq![("Version"@, e.version)] + seq![
        ("Directory"@, e.directory),
    ] + e.extra
}

spec fn head_lines(e: SourceModel) -> Seq<Seq<char>> {
    chunk("Package"@, seq![' '], lines(e.package)) + chunk(
        "Version"@,
        seq![' '],
        lines(e.version),
    ) + chunk("Directory"@, seq![' '], lines(e.directory)) + extra_lines(e.extra)
}

spec fn head_text(e: SourceModel) -> Seq<char> {
    field_text("Package"@, e.package) + field_text("Version"@, e.version) + field_text(
        "Directory"@,
        e.directory,
    ) + fields_text(e.extra)
}

proof fn head_reads_back(e: SourceModel)
    requires
        is_writable_source(e),
    ensures
        reads_well(head_lines(e), head_fields(e)),
        flat(head_lines(e)) == head_text(e),
        head_lines(e).len() > 0,
{
    key_package();
    key_version();
    key_directory();
    let l0 = Seq::<Seq<char>>::empty();
    let f0 = Seq::<(Seq<char>, Seq<char>)>::empty();
    let t0 = Seq::<char>::empty();
    add_value(l0, f0, t0, "Package"@, e.package);
    let l1 = chunk("Package"@, seq![' '], lines(e.package));
    let f1 = seq![("Package"@, e.package)];
    let t1 = field_text("Package"@, e.package);
    assert(l0 + l1 =~= l1);
    assert(f0 + f1 =~= f1);
    assert(t0 + t1 =~= t1);
    add_value(l1, f1, t1, "Version"@, e.version);
    let l2 = l1 + chunk("Version"@, seq![' '], lines(e.version));
    let f2 = f1 + seq![("Version"@, e.version)];
    let t2 = t1 + field_text("Version"@, e.version);
    add_value(l2, f2, t2, "Directory"@, e.directory);
    let l3 = l2 + chunk("Directory"@, seq![' '], lines(e.directory));
    let f3 = f2 + seq![("Directory"@, e.directory)];
    let t3 = t2 + field_text("Directory"@, e.directory);
    add_extras(l3, f3, t3, e.extra);
}

spec fn source_lines(e: SourceModel) -> Seq<Seq<char>> {
    head_lines(e) + checksum_lines("Files"@, e.files, SourceHash::Md5) + checksum_lines(
        "Checksums-Sha1"@,
        e.files,
        SourceHash::Sha1,
    ) + checksum_lines("Checksums-Sha256"@, e.files, SourceHash::Sha256) + checksum_lines(
        "Checksums-Sha512"@,
        e.files,
        SourceHash::Sha512,
    )
}

spec fn written_fields(e: SourceModel) -> Seq<(Seq<char>, Seq<char>)> {
    head_fields(e) + checksum_fields("Files"@, e.files, SourceHash::Md5) + checksum_fields(
        "Checksums-Sha1"@,
        e.files,
        SourceHash::Sha1,
    ) + checksum_fields("Checksums-Sha256"@, e.files, SourceHash::Sha256) + checksum_fields(
        "Checksums-Sha512"@,
        e.files,
        SourceHash::Sha512,
    )
}

/// The entry of a source package is made of its lines, and they read as its
/// fields.
proof fn source_reads_as_fields(e: SourceModel)
    requires
        is_writable_source(e),
    ensures
        reads_well(source_lines(e), written_fields(e)),
        flat(source_lines(e)) == source_entry_text(e),
        source_lines(e).len() > 0,
{
    key_files();
    key_checksums_sha1();
    key_checksums_sha256();
    key_checksums_sha512();
    head_reads_back(e);
    let l0 = head_lines(e);
    let f0 = head_fields(e);
    let t0 = head_text(e);
    add_checksums(l0, f0, t0, "Files"@, e.files, SourceHash::Md5);
    let l1 = l0 + checksum_lines("Files"@, e.files, SourceHash::Md5);
    let f1 = f0 + checksum_fields("Files"@, e.files, SourceHash::Md5);
    let t1 = t0 + source_section("Files"@, e.files, SourceHash::Md5);
    add_checksums(l1, f1, t1, "Checksums-Sha1"@, e.files, SourceHash::Sha1);
    let l2 = l1 + checksum_lines("Checksums-Sha1"@, e.files, SourceHash::Sha1);
    let f2 = f1 + checksum_fields("Checksums-Sha1"@, e.files, SourceHash::Sha1);
    let t2 = t1 + source_section("Checksums-Sha1"@, e.files, SourceHash::Sha1);
    add_checksums(l2, f2, t2, "Checksums-Sha256"@, e.files, SourceHash::Sha256);
    let l3 = l2 + checksum_lines("Checksums-Sha256"@, e.files, SourceHash::Sha256);
    let f3 = f2 + checksum_fields("Checksums-Sha256"@, e.files, SourceHash::Sha256);
    let t3 = t2 + source_section("Checksums-Sha256"@, e.files, SourceHash::Sha256);
    add_checksums(l3, f3, t3, "Checksums-Sha512"@, e.files, SourceHash::Sha512);
}

// ---------------------------------------------------------------------------
// Finding the fields
// ---------------------------------------------------------------------------

/// Fields that are added are found, and the others stay.
proof fn added_fields_found(
    fs: Seq<(Seq<char>, Seq<char>)>,
    x: Seq<(Seq<char>, Seq<char>)>,
    k: Seq<char>,
)
    requires
        ascending(keys_of(x)),
        forall|i: int| 0 <= i < x.len() ==> trim((#[trigger] x[i]).1) == x[i].1,
    ensures
        lookup(map_of(fs + x), k) == match lookup(x, k) {
            Some(value) => Some(value),
            None => lookup(map_of(fs), k),
        },
    decreases x.len(),
{
    if x.len() == 0 {
        assert(fs + x =~= fs);
    } else {
        let t = x.drop_last();
        let last = x.last();
        let keys = keys_of(x);
        assert(trim(x[x.len() - 1].1) == x[x.len() - 1].1);
        assert forall|a: int, b: int| 0 <= a < b < keys_of(t).len() implies text_lt(
            #[trigger] keys_of(t)[a],
            #[trigger] keys_of(t)[b],
        ) by {
            assert(text_lt(keys[a], keys[b]));
        }
        assert forall|i: int| 0 <= i < t.len() implies trim((#[trigger] t[i]).1) == t[i].1 by {
            assert(t[i] == x[i]);
        }
        added_fields_found(fs, t, k);
        assert(fs + x =~= (fs + t) + seq![(last.0, last.1)]);
        last_field_counts(fs + t, last.0, last.1);
        if k != last.0 {
            other_fields_stay(fs + t, last.0, last.1, k);
        }
        last_entry_found(x, k);
    }
}

/// The last of ascending entries is found, and it does not hide the others.
proof fn last_entry_found(x: Seq<(Seq<char>, Seq<char>)>, k: Seq<char>)
    requires
        x.len() > 0,
        ascending(keys_of(x)),
    ensures
        lookup(x, k) == if k == x.last().0 {
            Some(x.last().1)
        } else {
            lookup(x.drop_last(), k)
        },
    decreases x.len(),
{
    let t = x.drop_last();
    let keys = keys_of(x);
    lookup_in_tail(x, k);
    if x.len() == 1 {
        if k != x[0].0 {
            text_lt_total(k, x[0].0);
            assert(x.drop_first() =~= t);
        }
    } else {
        assert forall|a: int, b: int| 0 <= a < b < keys_of(t).len() implies text_lt(
            #[trigger] keys_of(t)[a],
            #[trigger] keys_of(t)[b],
        ) by {
            assert(text_lt(keys[a], keys[b]));
        }
        lookup_in_tail(t, k);
        let rest = x.drop_first();
        assert(rest.drop_last() =~= t.drop_first());
        assert(rest.last() == x.last());
        last_entry_found(rest, k);
        assert(text_lt(keys[0], keys[x.len() - 1]));
        text_lt_irreflexive(keys[0]);
        if k != x[0].0 {
            text_lt_total(k, x[0].0);
        }
        if text_lt(k, x[0].0) && k == x.last().0 {
            text_lt_transitive(k, x[0].0, k);
            text_lt_irreflexive(k);
        }
    }
}

proof fn checksums_found(
    fs: Seq<(Seq<char>, Seq<char>)>,
    key: Seq<char>,
    files: Seq<SourceFileModel>,
    which: SourceHash,
    k: Seq<char>,
)
    requires
        forall|i: int| 0 <= i < files.len() ==> is_listable_source(#[trigger] files[i]),
    ensures
        lookup(map_of(fs + checksum_fields(key, files, which)), k) == if k == key
            && source_entries(files, which).len() > 0 {
            Some(glued(source_entries(files, which)))
        } else {
            lookup(map_of(fs), k)
        },
{
    let es = source_entries(files, which);
    if es.len() > 0 {
        source_entries_are_entries(files, which);
        entries_come_back(es);
        last_field_counts(fs, key, glued(section_of(es)));
        if k != key {
            other_fields_stay(fs, key, glued(section_of(es)), k);
        }
    } else {
        assert(fs + checksum_fields(key, files, which) =~= fs);
    }
}

/// The value of a checksum section, where it is there.
spec fn checksum_value(files: Seq<SourceFileModel>, which: SourceHash) -> Option<Seq<char>> {
    let es = source_entries(files, which);
    if es.len() > 0 {
        Some(glued(es))
    } else {
        None
    }
}

/// What the fields of a source package hold under a name.
spec fn value_under(e: SourceModel, k: Seq<char>) -> Option<Seq<char>> {
    if k == "Package"@ {
        Some(e.package)
    } else if k == "Version"@ {
        Some(e.version)
    } else if k == "Directory"@ {
        Some(e.directory)
    } else if k == "Files"@ {
        checksum_value(e.files, SourceHash::Md5)
    } else if k == "Checksums-Sha1"@ {
        checksum_value(e.files, SourceHash::Sha1)
    } else if k == "Checksums-Sha256"@ {
        checksum_value(e.files, SourceHash::Sha256)
    } else if k == "Checksums-Sha512"@ {
        checksum_value(e.files, SourceHash::Sha512)
    } else {
        lookup(e.extra, k)
    }
}

proof fn source_names_listed()
    ensures
        forall|k: Seq<char>|
            source_fields().contains(k) <==> (k == "Package"@ || k == "Version"@ || k
                == "Directory"@ || k == "Files"@ || k == "Checksums-Sha1"@ || k
                == "Checksums-Sha256"@ || k == "Checksums-Sha512"@),
{
    let names = source_fields();
    assert(names[0] == "Package"@ && names[1] == "Version"@ && names[2] == "Directory"@ && names[3]
        == "Files"@ && names[4] == "Checksums-Sha1"@ && names[5] == "Checksums-Sha256"@ && names[6]
        == "Checksums-Sha512"@);
}

proof fn extra_is_unnamed(e: SourceModel, k: Seq<char>)
    requires
        is_writable_source(e),
        source_fields().contains(k),
    ensures
        lookup(e.extra, k) is None,
{
    lookup_iff_contains(e.extra, k);
    if keys_of(e.extra).contains(k) {
        let i = choose|i: int| 0 <= i < keys_of(e.extra).len() && keys_of(e.extra)[i] == k;
        assert(!source_fields().contains(e.extra[i].0));
    }
}

/// The fields of a source package are found under their names.
proof fn source_value_found(e: SourceModel, k: Seq<char>)
    requires
        is_writable_source(e),
    ensures
        lookup(map_of(written_fields(e)), k) == value_under(e, k),
{
    source_fields_differ();
    source_names_listed();
    if source_fields().contains(k) {
        extra_is_unnamed(e, k);
    }
    let f0 = Seq::<(Seq<char>, Seq<char>)>::empty();
    let f1 = seq![("Package"@, e.package)];
    assert(f0 + f1 =~= f1);
    last_field_counts(f0, "Package"@, e.package);
    if k != "Package"@ {
        other_fields_stay(f0, "Package"@, e.package, k);
    }
    last_field_counts(f1, "Version"@, e.version);
    if k != "Version"@ {
        other_fields_stay(f1, "Version"@, e.version, k);
    }
    let f2 = f1 + seq![("Version"@, e.version)];
    last_field_counts(f2, "Directory"@, e.directory);
    if k != "Directory"@ {
        other_fields_stay(f2, "Directory"@, e.directory, k);
    }
    let f3 = f2 + seq![("Directory"@, e.directory)];
    assert forall|i: int| 0 <= i < e.extra.len() implies trim((#[trigger] e.extra[i]).1)
        == e.extra[i].1 by {
        assert(is_field_value(e.extra[i].1));
    }
    added_fields_found(f3, e.extra, k);
    let f4 = head_fields(e);
    checksums_found(f4, "Files"@, e.files, SourceHash::Md5, k);
    let f5 = f4 + checksum_fields("Files"@, e.files, SourceHash::Md5);
    checksums_found(f5, "Checksums-Sha1"@, e.files, SourceHash::Sha1, k);
    let f6 = f5 + checksum_fields("Checksums-Sha1"@, e.files, SourceHash::Sha1);
    checksums_found(f6, "Checksums-Sha256"@, e.files, SourceHash::Sha256, k);
    let f7 = f6 + checksum_fields("Checksums-Sha256"@, e.files, SourceHash::Sha256);
    checksums_found(f7, "Checksums-Sha512"@, e.files, SourceHash::Sha512, k);
}

/// The fields without a meaning of their own stay.
proof fn extra_comes_back(e: SourceModel)
    requires
        is_writable_source(e),
    ensures
        without_all(map_of(written_fields(e)), source_fields()) == e.extra,
{
    let m = map_of(written_fields(e));
    map_of_ascending(written_fields(e));
    let left = without_all(m, source_fields());
    without_all_lookup(m, source_fields(), "Package"@);
    source_names_listed();
    assert forall|k: Seq<char>| #[trigger] lookup(left, k) == lookup(e.extra, k) by {
        without_all_lookup(m, source_fields(), k);
        source_value_found(e, k);
        if source_fields().contains(k) {
            extra_is_unnamed(e, k);
        }
    }
    same_lookups_same_map(left, e.extra);
}

/// A checksum section reads back.
proof fn checksums_read_back(
    m: Seq<(Seq<char>, Seq<char>)>,
    field: Seq<char>,
    files: Seq<SourceFileModel>,
    which: SourceHash,
)
    requires
        lookup(m, field) == checksum_value(files, which),
        forall|i: int| 0 <= i < files.len() ==> is_listable_source(#[trigger] files[i]),
    ensures
        source_hashes(m, field) == Ok::<Seq<(Seq<char>, (Seq<char>, u64))>, Failure>(
            hashes_by_name(files, which),
        ),
{
    let es = source_entries(files, which);
    source_entries_read_back(files, which, field);
    if es.len() > 0 {
        source_entries_are_entries(files, which);
        entries_come_back(es);
    } else {
        assert(es =~= seq![]);
    }
}

proof fn value_counts(value: Seq<char>)
    requires
        is_field_value(value),
    ensures
        trim(value).len() > 0,
{
    writable_is_not_blank(value);
}

// ---------------------------------------------------------------------------
// Laws
// ---------------------------------------------------------------------------

/// The entry of a source package reads back as it was written.
pub proof fn written_source_reads_back(e: SourceModel)
    requires
        is_writable_source(e),
    ensures
        source_of(trim_end(source_entry_text(e))) == Ok::<SourceModel, Failure>(e),
{
    source_reads_as_fields(e);
    let ls = source_lines(e);
    stanza_text(ls);
    lines_of_open_flat(ls);
    let m = map_of(written_fields(e));
    source_fields_differ();
    source_value_found(e, "Package"@);
    source_value_found(e, "Version"@);
    source_value_found(e, "Directory"@);
    source_value_found(e, "Files"@);
    source_value_found(e, "Checksums-Sha1"@);
    source_value_found(e, "Checksums-Sha256"@);
    source_value_found(e, "Checksums-Sha512"@);
    value_counts(e.package);
    value_counts(e.version);
    value_counts(e.directory);
    checksums_read_back(m, "Files"@, e.files, SourceHash::Md5);
    checksums_read_back(m, "Checksums-Sha1"@, e.files, SourceHash::Sha1);
    checksums_read_back(m, "Checksums-Sha256"@, e.files, SourceHash::Sha256);
    checksums_read_back(m, "Checksums-Sha512"@, e.files, SourceHash::Sha512);
    extra_comes_back(e);
    files_come_back(e.files);
    assert(source_with(m, all_hashes(e.files)) == e);
}

spec fn source_documents(es: Seq<SourceModel>) -> Seq<Seq<Seq<char>>> {
    es.map_values(|e: SourceModel| source_lines(e))
}

proof fn source_is_stanza(e: SourceModel)
    requires
        is_writable_source(e),
    ensures
        is_stanza(source_lines(e)),
        source_entry_text(e) == flat(source_lines(e)),
{
    source_reads_as_fields(e);
}

proof fn sources_are_documents(es: Seq<SourceModel>)
    requires
        forall|i: int| 0 <= i < es.len() ==> is_writable_source(#[trigger] es[i]),
    ensures
        sources_text(es) == flat(document_lines(source_documents(es))),
        forall|i: int|
            0 <= i < source_documents(es).len() ==> is_stanza(#[trigger] source_documents(es)[i]),
    decreases es.len(),
{
    assert forall|i: int| 0 <= i < source_documents(es).len() implies is_stanza(
        #[trigger] source_documents(es)[i],
    ) by {
        assert(is_writable_source(es[i]));
        source_is_stanza(es[i]);
    }
    if es.len() == 1 {
        assert(is_writable_source(es[0]));
        source_is_stanza(es[0]);
    } else if es.len() > 1 {
        let t = es.drop_last();
        assert forall|i: int| 0 <= i < t.len() implies is_writable_source(#[trigger] t[i]) by {
            assert(t[i] == es[i]);
        }
        sources_are_documents(t);
        assert(is_writable_source(es[es.len() - 1]));
        source_is_stanza(es.last());
        let docs = source_documents(es);
        let before = source_documents(t);
        assert(docs.drop_last() =~= before);
        let blank = seq![Seq::<char>::empty()];
        flat_add(document_lines(before) + blank, docs.last());
        flat_add(document_lines(before), blank);
        assert(flat(blank.drop_last()) =~= Seq::<char>::empty());
        assert(flat(blank) =~= seq!['\n']);
    }
}

/// Stanzas that each read as the source at their place read as the sources.
proof fn stanzas_read_in_turn(ss: Seq<Seq<char>>, es: Seq<SourceModel>)
    requires
        ss.len() == es.len(),
        forall|i: int|
            0 <= i < ss.len() ==> source_of(#[trigger] ss[i]) == Ok::<SourceModel, Failure>(es[i]),
    ensures
        sources_from(ss) == Ok::<Seq<SourceModel>, Failure>(es),
    decreases ss.len(),
{
    if ss.len() == 0 {
        assert(es =~= seq![]);
    } else {
        let n = ss.len() - 1;
        assert(source_of(ss[n]) == Ok::<SourceModel, Failure>(es[n]));
        assert forall|i: int| 0 <= i < ss.drop_last().len() implies source_of(
            #[trigger] ss.drop_last()[i],
        ) == Ok::<SourceModel, Failure>(es.drop_last()[i]) by {
            assert(ss.drop_last()[i] == ss[i]);
        }
        stanzas_read_in_turn(ss.drop_last(), es.drop_last());
        assert(es.drop_last().push(es.last()) =~= es);
    }
}

proof fn document_reads_back(e: SourceModel)
    requires
        is_writable_source(e),
    ensures
        source_of(trim_end(flat(source_lines(e)))) == Ok::<SourceModel, Failure>(e),
{
    source_is_stanza(e);
    written_source_reads_back(e);
}

proof fn source_stanzas_read_back(es: Seq<SourceModel>)
    requires
        forall|i: int| 0 <= i < es.len() ==> is_writable_source(#[trigger] es[i]),
    ensures
        sources_from(
            source_documents(es).map_values(|ls: Seq<Seq<char>>| trim_end(flat(ls))),
        ) == Ok::<Seq<SourceModel>, Failure>(es),
{
    let ss = source_documents(es).map_values(|ls: Seq<Seq<char>>| trim_end(flat(ls)));
    assert forall|i: int| 0 <= i < ss.len() implies source_of(#[trigger] ss[i]) == Ok::<
        SourceModel,
        Failure,
    >(es[i]) by {
        assert(is_writable_source(es[i]));
        document_reads_back(es[i]);
    }
    stanzas_read_in_turn(ss, es);
}

/// A Sources index reads back as it was written, package by package.
pub proof fn written_sources_read_back(es: Seq<SourceModel>)
    requires
        forall|i: int| 0 <= i < es.len() ==> is_writable_source(#[trigger] es[i]),
    ensures
        sources_of(sources_text(es)) == Ok::<Seq<SourceModel>, Failure>(es),
{
    sources_are_documents(es);
    let docs = source_documents(es);
    let closed = |ls: Seq<Seq<char>>| trim_end(flat(ls));
    let text = sources_text(es);
    if es.len() == 0 {
        assert(es =~= seq![]);
        assert(lines(text) =~= seq![]);
    } else {
        documents_split(docs);
        lines_of_flat(document_lines(docs));
        assert(is_stanza(docs[docs.len() - 1]));
        stanza_text(docs.last());
        assert(stanzas(text) =~= docs.map_values(closed));
    }
    source_stanzas_read_back(es);
}

} // verus!
