//! What Release, Packages and Sources files say, said of their fields and lines.

use vstd::prelude::*;

use crate::control::{control_of, control_with, ControlModel};
use crate::error::Failure;
use crate::index::{file_fields, package_of, packages_from, packages_of, source_fields, source_file};
use crate::index::{source_file_names, source_from, source_hashes, source_hashes_from, source_of, source_with};
use crate::index::{sources_from, sources_of, SourceHashes, SourceModel};
use crate::number::decimal_u64;
use crate::ordered::{ascending, keys_of, lookup, lookup_after_put, slot_cuts, slot_splits, text_set_holds};
use crate::release::{hashes_of, known_fields, release_from, release_of, HashModel, ReleaseModel};
use crate::roundtrip::without_all_lookup;
use crate::stanza::{fields, map_of, stanzas, strict_fields};
use crate::text::{is_blank, lines, text_lt, text_lt_irreflexive, trim_empty_iff_blank, words};

use crate::ordered::slot;

verus! {

// ---------------------------------------------------------------------------
// Hash sections
// ---------------------------------------------------------------------------

/// The line can be read as that of a hash section: at least three words, the second of
/// them a number.
pub open spec fn is_hash_line(line: Seq<char>) -> bool {
    words(line).len() >= 3 && decimal_u64(words(line)[1]) is Some
}

/// Every line of a hash section that is not blank counts, in order: its first word is
/// the digest, its second the size, its third the path. One that cannot be read spoils
/// the section.
pub proof fn every_hash_line_counts(ls: Seq<Seq<char>>)
    ensures
        hashes_of(ls) is Ok <==> forall|i: int|
            0 <= i < ls.len() && !is_blank(#[trigger] ls[i]) ==> is_hash_line(ls[i]),
        hashes_of(ls) is Ok ==> hashes_of(ls)->Ok_0 == ls.filter(
            |line: Seq<char>| !is_blank(line),
        ).map_values(
            |line: Seq<char>|
                HashModel {
                    hash: words(line)[0],
                    size: decimal_u64(words(line)[1])->0,
                    path: words(line)[2],
                },
        ),
    decreases ls.len(),
{
    reveal(Seq::filter);
    let holds = |line: Seq<char>| !is_blank(line);
    let make = |line: Seq<char>|
        HashModel {
            hash: words(line)[0],
            size: decimal_u64(words(line)[1])->0,
            path: words(line)[2],
        };
    if ls.len() > 0 {
        let t = ls.drop_last();
        every_hash_line_counts(t);
        if hashes_of(ls) is Ok {
            assert forall|i: int| 0 <= i < ls.len() && !is_blank(
                #[trigger] ls[i],
            ) implies is_hash_line(ls[i]) by {
                if i < t.len() {
                    assert(t[i] == ls[i]);
                }
            }
        }
        if forall|i: int|
            0 <= i < ls.len() && !is_blank(#[trigger] ls[i]) ==> is_hash_line(ls[i]) {
            assert forall|i: int| 0 <= i < t.len() && !is_blank(
                #[trigger] t[i],
            ) implies is_hash_line(t[i]) by {
                assert(t[i] == ls[i]);
            }
            assert(is_blank(ls[ls.len() - 1]) || is_hash_line(ls[ls.len() - 1]));
        }
    }
    if hashes_of(ls) is Ok {
        assert(hashes_of(ls)->Ok_0 =~= ls.filter(holds).map_values(make));
    }
}

// ---------------------------------------------------------------------------
// Releases
// ---------------------------------------------------------------------------

/// The field is there and not blank.
pub open spec fn is_given(fields: Seq<(Seq<char>, Seq<char>)>, key: Seq<char>) -> bool {
    lookup(fields, key) is Some && !is_blank(lookup(fields, key)->0)
}

/// The section is missing or can be read.
pub open spec fn is_readable_section(fields: Seq<(Seq<char>, Seq<char>)>, key: Seq<char>) -> bool {
    lookup(fields, key) is Some ==> hashes_of(lines(lookup(fields, key)->0)) is Ok
}

/// The lines of a section; none where it is missing.
pub open spec fn section_of(fields: Seq<(Seq<char>, Seq<char>)>, key: Seq<char>) -> Seq<HashModel> {
    match lookup(fields, key) {
        Some(value) => hashes_of(lines(value))->Ok_0,
        None => seq![],
    }
}

/// The words of a field; none where it is missing.
pub open spec fn words_of(fields: Seq<(Seq<char>, Seq<char>)>, key: Seq<char>) -> Seq<Seq<char>> {
    match lookup(fields, key) {
        Some(value) => words(value),
        None => seq![],
    }
}

/// A Release is accepted if and only if it gives a suite, a date and an architecture,
/// and its hash sections can be read.
pub proof fn release_needs_its_fields(fields: Seq<(Seq<char>, Seq<char>)>)
    ensures
        release_from(fields) is Ok <==> {
            &&& is_given(fields, "Suite"@)
            &&& is_given(fields, "Date"@)
            &&& words_of(fields, "Architectures"@).len() > 0
            &&& is_readable_section(fields, "MD5Sum"@)
            &&& is_readable_section(fields, "SHA1"@)
            &&& is_readable_section(fields, "SHA256"@)
            &&& is_readable_section(fields, "SHA512"@)
        },
{
    if let Some(value) = lookup(fields, "Suite"@) {
        trim_empty_iff_blank(value);
    }
    if let Some(value) = lookup(fields, "Date"@) {
        trim_empty_iff_blank(value);
    }
}

/// A Release says what its fields say, each under its own name, and keeps the others.
pub proof fn release_says_what_its_fields_say(
    fields: Seq<(Seq<char>, Seq<char>)>,
    r: ReleaseModel,
    name: Seq<char>,
)
    requires
        ascending(keys_of(fields)),
        release_from(fields) == Ok::<ReleaseModel, Failure>(r),
    ensures
        Some(r.suite) == lookup(fields, "Suite"@),
        Some(r.date) == lookup(fields, "Date"@),
        r.origin == lookup(fields, "Origin"@),
        r.label == lookup(fields, "Label"@),
        r.codename == lookup(fields, "Codename"@),
        r.version == lookup(fields, "Version"@),
        r.description == lookup(fields, "Description"@),
        r.architectures == words_of(fields, "Architectures"@),
        r.components == words_of(fields, "Components"@),
        r.md5sum == section_of(fields, "MD5Sum"@),
        r.sha1 == section_of(fields, "SHA1"@),
        r.sha256 == section_of(fields, "SHA256"@),
        r.sha512 == section_of(fields, "SHA512"@),
        lookup(r.extra, name) == if name == "Origin"@ || name == "Label"@ || name == "Suite"@
            || name == "Codename"@ || name == "Version"@ || name == "Date"@ || name
            == "Architectures"@ || name == "Components"@ || name == "Description"@ || name
            == "MD5Sum"@ || name == "SHA1"@ || name == "SHA256"@ || name == "SHA512"@ {
            None
        } else {
            lookup(fields, name)
        },
{
    without_all_lookup(fields, known_fields(), name);
    let names = known_fields();
    assert(names[0] == "Origin"@ && names[1] == "Label"@ && names[2] == "Suite"@ && names[3]
        == "Codename"@ && names[4] == "Version"@ && names[5] == "Date"@ && names[6]
        == "Architectures"@ && names[7] == "Components"@ && names[8] == "Description"@ && names[9]
        == "MD5Sum"@ && names[10] == "SHA1"@ && names[11] == "SHA256"@ && names[12] == "SHA512"@);
    if names.contains(name) {
        let i = choose|i: int| 0 <= i < names.len() && names[i] == name;
        assert(names[i] == name);
    }
}

/// A Release file is one stanza, whose fields are read strictly.
pub proof fn release_is_one_stanza(content: Seq<char>)
    ensures
        stanzas(content).len() != 1 ==> release_of(content) is Err,
        stanzas(content).len() == 1 ==> match strict_fields(lines(stanzas(content)[0])) {
            Ok(fs) => release_of(content) == release_from(map_of(fs)),
            Err(_) => release_of(content) is Err,
        },
{
}

// ---------------------------------------------------------------------------
// Packages
// ---------------------------------------------------------------------------

proof fn extra_ascends(fs: Seq<(Seq<char>, Seq<char>)>)
    ensures
        ascending(keys_of(control_with(fs).extra)),
    decreases fs.len(),
{
    if fs.len() > 0 {
        extra_ascends(fs.drop_last());
        lookup_after_put(
            control_with(fs.drop_last()).extra,
            fs.last().0,
            fs.last().1,
            fs.last().0,
        );
    }
}

/// The name is that of a field that describes the package file.
pub open spec fn describes_file(name: Seq<char>) -> bool {
    name == "Filename"@ || name == "Size"@ || name == "MD5sum"@ || name == "SHA1"@ || name
        == "SHA256"@
}

/// A stanza of a Packages index is accepted if and only if its control data is and its
/// size, where it gives one, is a number. It says what the control data says; what
/// describes the package file is taken out of the other fields, and these stay.
pub proof fn package_says_what_its_fields_say(stanza: Seq<char>, name: Seq<char>)
    ensures
        package_of(stanza) is Ok <==> (control_of(stanza) is Ok && (lookup(
            control_of(stanza)->Ok_0.extra,
            "Size"@,
        ) is Some ==> decimal_u64(lookup(control_of(stanza)->Ok_0.extra, "Size"@)->0) is Some)),
        package_of(stanza) matches Ok(p) ==> {
            let c = control_of(stanza)->Ok_0;
            &&& p.control == (ControlModel { extra: p.control.extra, ..c })
            &&& p.filename == lookup(c.extra, "Filename"@)
            &&& p.md5sum == lookup(c.extra, "MD5sum"@)
            &&& p.sha1 == lookup(c.extra, "SHA1"@)
            &&& p.sha256 == lookup(c.extra, "SHA256"@)
            &&& p.size == (match lookup(c.extra, "Size"@) {
                Some(size) => decimal_u64(size),
                None => None,
            })
            &&& lookup(p.control.extra, name) == if describes_file(name) {
                None
            } else {
                lookup(c.extra, name)
            }
        },
{
    if let Ok(c) = control_of(stanza) {
        extra_ascends(fields(lines(stanza)));
        without_all_lookup(c.extra, file_fields(), name);
        let names = file_fields();
        assert(names[0] == "Filename"@ && names[1] == "Size"@ && names[2] == "MD5sum"@ && names[3]
            == "SHA1"@ && names[4] == "SHA256"@);
        if names.contains(name) {
            let i = choose|i: int| 0 <= i < names.len() && names[i] == name;
            assert(names[i] == name);
        }
    }
}

/// A Packages file is accepted if and only if each of its stanzas is, and holds one
/// entry for each of them, in their order.
pub proof fn every_package_stanza_counts(content: Seq<char>)
    ensures
        packages_of(content) is Ok <==> forall|i: int|
            0 <= i < stanzas(content).len() ==> package_of(#[trigger] stanzas(content)[i]) is Ok,
        packages_of(content) matches Ok(entries) ==> {
            &&& entries.len() == stanzas(content).len()
            &&& forall|i: int|
                0 <= i < entries.len() ==> #[trigger] entries[i] == package_of(
                    stanzas(content)[i],
                )->Ok_0
        },
{
    package_stanzas_count(stanzas(content));
}

proof fn package_stanzas_count(ss: Seq<Seq<char>>)
    ensures
        packages_from(ss) is Ok <==> forall|i: int|
            0 <= i < ss.len() ==> package_of(#[trigger] ss[i]) is Ok,
        packages_from(ss) matches Ok(entries) ==> {
            &&& entries.len() == ss.len()
            &&& forall|i: int|
                0 <= i < entries.len() ==> #[trigger] entries[i] == package_of(ss[i])->Ok_0
        },
    decreases ss.len(),
{
    if ss.len() > 0 {
        let t = ss.drop_last();
        package_stanzas_count(t);
        if packages_from(ss) is Ok {
            assert forall|i: int| 0 <= i < ss.len() implies package_of(#[trigger] ss[i]) is Ok by {
                if i < t.len() {
                    assert(t[i] == ss[i]);
                }
            }
            let entries = packages_from(ss)->Ok_0;
            assert forall|i: int| 0 <= i < entries.len() implies #[trigger] entries[i]
                == package_of(ss[i])->Ok_0 by {
                if i < t.len() {
                    assert(t[i] == ss[i]);
                    assert(packages_from(t)->Ok_0[i] == entries[i]);
                }
            }
        }
        if forall|i: int| 0 <= i < ss.len() ==> package_of(#[trigger] ss[i]) is Ok {
            assert forall|i: int| 0 <= i < t.len() implies package_of(#[trigger] t[i]) is Ok by {
                assert(t[i] == ss[i]);
            }
            assert(package_of(ss[ss.len() - 1]) is Ok);
        }
    }
}

// ---------------------------------------------------------------------------
// Sources
// ---------------------------------------------------------------------------

/// A Sources file is accepted if and only if each of its stanzas is, and holds one
/// entry for each of them, in their order.
pub proof fn every_source_stanza_counts(content: Seq<char>)
    ensures
        sources_of(content) is Ok <==> forall|i: int|
            0 <= i < stanzas(content).len() ==> source_of(#[trigger] stanzas(content)[i]) is Ok,
        sources_of(content) matches Ok(entries) ==> {
            &&& entries.len() == stanzas(content).len()
            &&& forall|i: int|
                0 <= i < entries.len() ==> #[trigger] entries[i] == source_of(
                    stanzas(content)[i],
                )->Ok_0
        },
{
    source_stanzas_count(stanzas(content));
}

proof fn source_stanzas_count(ss: Seq<Seq<char>>)
    ensures
        sources_from(ss) is Ok <==> forall|i: int|
            0 <= i < ss.len() ==> source_of(#[trigger] ss[i]) is Ok,
        sources_from(ss) matches Ok(entries) ==> {
            &&& entries.len() == ss.len()
            &&& forall|i: int|
                0 <= i < entries.len() ==> #[trigger] entries[i] == source_of(ss[i])->Ok_0
        },
    decreases ss.len(),
{
    if ss.len() > 0 {
        let t = ss.drop_last();
        source_stanzas_count(t);
        if sources_from(ss) is Ok {
            assert forall|i: int| 0 <= i < ss.len() implies source_of(#[trigger] ss[i]) is Ok by {
                if i < t.len() {
                    assert(t[i] == ss[i]);
                }
            }
            let entries = sources_from(ss)->Ok_0;
            assert forall|i: int| 0 <= i < entries.len() implies #[trigger] entries[i]
                == source_of(ss[i])->Ok_0 by {
                if i < t.len() {
                    assert(t[i] == ss[i]);
                    assert(sources_from(t)->Ok_0[i] == entries[i]);
                }
            }
        }
        if forall|i: int| 0 <= i < ss.len() ==> source_of(#[trigger] ss[i]) is Ok {
            assert forall|i: int| 0 <= i < t.len() implies source_of(#[trigger] t[i]) is Ok by {
                assert(t[i] == ss[i]);
            }
            assert(source_of(ss[ss.len() - 1]) is Ok);
        }
    }
}

/// The line is the last of a checksum section for the file, blank lines aside.
pub open spec fn is_last_for(ls: Seq<Seq<char>>, file: Seq<char>, i: int) -> bool {
    &&& 0 <= i < ls.len()
    &&& !is_blank(ls[i])
    &&& words(ls[i])[2] == file
    &&& forall|j: int|
        i < j < ls.len() ==> is_blank(#[trigger] ls[j]) || words(ls[j])[2] != file
}

/// A checksum section is accepted if and only if each of its lines can be read, blank
/// ones aside. It gives each file that a line names the digest and the size of the
/// last such line, and no other file any.
pub proof fn every_checksum_line_counts(
    ls: Seq<Seq<char>>,
    field: Seq<char>,
    file: Seq<char>,
)
    ensures
        source_hashes_from(ls, field) is Ok <==> forall|i: int|
            0 <= i < ls.len() && !is_blank(#[trigger] ls[i]) ==> is_hash_line(ls[i]),
        source_hashes_from(ls, field) matches Ok(section) ==> {
            &&& ascending(keys_of(section))
            &&& forall|i: int| #[trigger]
                is_last_for(ls, file, i) ==> lookup(section, file) == Some(
                    (words(ls[i])[0], decimal_u64(words(ls[i])[1])->0),
                )
            &&& (forall|j: int|
                0 <= j < ls.len() ==> is_blank(#[trigger] ls[j]) || words(ls[j])[2] != file)
                ==> lookup(section, file) is None
        },
    decreases ls.len(),
{
    if ls.len() > 0 {
        let t = ls.drop_last();
        let line = ls.last();
        every_checksum_line_counts(t, field, file);
        if source_hashes_from(ls, field) is Ok {
            let before = source_hashes_from(t, field)->Ok_0;
            assert forall|i: int| 0 <= i < ls.len() && !is_blank(
                #[trigger] ls[i],
            ) implies is_hash_line(ls[i]) by {
                if i < t.len() {
                    assert(t[i] == ls[i]);
                }
            }
            if !is_blank(line) {
                lookup_after_put(
                    before,
                    words(line)[2],
                    (words(line)[0], decimal_u64(words(line)[1])->0),
                    file,
                );
            }
            let section = source_hashes_from(ls, field)->Ok_0;
            assert forall|i: int| #[trigger] is_last_for(ls, file, i) implies lookup(section, file)
                == Some((words(ls[i])[0], decimal_u64(words(ls[i])[1])->0)) by {
                if i < t.len() {
                    assert(is_blank(ls[ls.len() - 1]) || words(ls[ls.len() - 1])[2] != file);
                    assert forall|j: int| i < j < t.len() implies is_blank(#[trigger] t[j])
                        || words(t[j])[2] != file by {
                        assert(t[j] == ls[j]);
                    }
                    assert(is_last_for(t, file, i));
                }
            }
            if forall|j: int|
                0 <= j < ls.len() ==> is_blank(#[trigger] ls[j]) || words(ls[j])[2] != file {
                assert(is_blank(ls[ls.len() - 1]) || words(ls[ls.len() - 1])[2] != file);
                assert forall|j: int| 0 <= j < t.len() implies is_blank(#[trigger] t[j])
                    || words(t[j])[2] != file by {
                    assert(t[j] == ls[j]);
                }
            }
        }
        if forall|i: int|
            0 <= i < ls.len() && !is_blank(#[trigger] ls[i]) ==> is_hash_line(ls[i]) {
            assert forall|i: int| 0 <= i < t.len() && !is_blank(
                #[trigger] t[i],
            ) implies is_hash_line(t[i]) by {
                assert(t[i] == ls[i]);
            }
            assert(is_blank(ls[ls.len() - 1]) || is_hash_line(ls[ls.len() - 1]));
        }
    }
}

/// A checksum section of a source package; none where it is missing.
pub open spec fn checksums_of(
    fields: Seq<(Seq<char>, Seq<char>)>,
    key: Seq<char>,
) -> Seq<(Seq<char>, (Seq<char>, u64))> {
    match lookup(fields, key) {
        Some(value) => source_hashes_from(lines(value), key)->Ok_0,
        None => seq![],
    }
}

/// The digest that a section gives a file.
pub open spec fn digest_in(
    section: Seq<(Seq<char>, (Seq<char>, u64))>,
    file: Seq<char>,
) -> Option<Seq<char>> {
    match lookup(section, file) {
        Some(entry) => Some(entry.0),
        None => None,
    }
}

/// The size that a section gives a file.
pub open spec fn size_in(section: Seq<(Seq<char>, (Seq<char>, u64))>, file: Seq<char>) -> u64 {
    let entry = lookup(section, file)->0;
    entry.1
}

/// A source package is accepted if and only if it gives a package, a version and a
/// directory, and its checksum sections can be read.
pub proof fn source_needs_its_fields(fields: Seq<(Seq<char>, Seq<char>)>)
    ensures
        source_from(fields) is Ok <==> {
            &&& is_given(fields, "Package"@)
            &&& is_given(fields, "Version"@)
            &&& is_given(fields, "Directory"@)
            &&& source_hashes(fields, "Files"@) is Ok
            &&& source_hashes(fields, "Checksums-Sha1"@) is Ok
            &&& source_hashes(fields, "Checksums-Sha256"@) is Ok
            &&& source_hashes(fields, "Checksums-Sha512"@) is Ok
        },
{
    if let Some(value) = lookup(fields, "Package"@) {
        trim_empty_iff_blank(value);
    }
    if let Some(value) = lookup(fields, "Version"@) {
        trim_empty_iff_blank(value);
    }
    if let Some(value) = lookup(fields, "Directory"@) {
        trim_empty_iff_blank(value);
    }
}

proof fn known_iff_found<V>(section: Seq<(Seq<char>, V)>, file: Seq<char>)
    requires
        ascending(keys_of(section)),
    ensures
        keys_of(section).contains(file) <==> lookup(section, file) is Some,
{
    let keys = keys_of(section);
    slot_cuts(keys, file);
    slot_splits(keys, file);
    if lookup(section, file) is Some {
        assert(keys[slot(keys, file) as int] == file);
    }
}

/// A source package says what its fields say. It lists every file that a checksum
/// section names, once, with the digests that the sections give it, and no other; its
/// size is the one beside the first of its digests by SHA-256, SHA-512, SHA-1 and MD5.
pub proof fn source_lists_every_file(
    fields: Seq<(Seq<char>, Seq<char>)>,
    s: SourceModel,
    file: Seq<char>,
)
    requires
        ascending(keys_of(fields)),
        source_from(fields) == Ok::<SourceModel, Failure>(s),
    ensures
        Some(s.package) == lookup(fields, "Package"@),
        Some(s.version) == lookup(fields, "Version"@),
        Some(s.directory) == lookup(fields, "Directory"@),
        ({
            let md5 = checksums_of(fields, "Files"@);
            let sha1 = checksums_of(fields, "Checksums-Sha1"@);
            let sha256 = checksums_of(fields, "Checksums-Sha256"@);
            let sha512 = checksums_of(fields, "Checksums-Sha512"@);
            &&& (exists|i: int| 0 <= i < s.files.len() && (#[trigger] s.files[i]).filename == file)
                <==> (lookup(md5, file) is Some || lookup(sha1, file) is Some || lookup(
                sha256,
                file,
            ) is Some || lookup(sha512, file) is Some)
            &&& forall|i: int, j: int|
                0 <= i < j < s.files.len() ==> (#[trigger] s.files[i]).filename != (
                #[trigger] s.files[j]).filename
            &&& forall|i: int|
                0 <= i < s.files.len() ==> {
                    let f = #[trigger] s.files[i];
                    &&& f.md5sum == digest_in(md5, f.filename)
                    &&& f.sha1 == digest_in(sha1, f.filename)
                    &&& f.sha256 == digest_in(sha256, f.filename)
                    &&& f.sha512 == digest_in(sha512, f.filename)
                    &&& f.size == if lookup(sha256, f.filename) is Some {
                        size_in(sha256, f.filename)
                    } else if lookup(sha512, f.filename) is Some {
                        size_in(sha512, f.filename)
                    } else if lookup(sha1, f.filename) is Some {
                        size_in(sha1, f.filename)
                    } else {
                        size_in(md5, f.filename)
                    }
                }
        }),
        lookup(s.extra, file) == if file == "Package"@ || file == "Version"@ || file
            == "Directory"@ || file == "Files"@ || file == "Checksums-Sha1"@ || file
            == "Checksums-Sha256"@ || file == "Checksums-Sha512"@ {
            None
        } else {
            lookup(fields, file)
        },
{
    let md5 = checksums_of(fields, "Files"@);
    let sha1 = checksums_of(fields, "Checksums-Sha1"@);
    let sha256 = checksums_of(fields, "Checksums-Sha256"@);
    let sha512 = checksums_of(fields, "Checksums-Sha512"@);
    section_ascends(fields, "Files"@);
    section_ascends(fields, "Checksums-Sha1"@);
    section_ascends(fields, "Checksums-Sha256"@);
    section_ascends(fields, "Checksums-Sha512"@);
    let hashes = SourceHashes { md5, sha1, sha256, sha512 };
    let names = source_file_names(hashes);
    let all = keys_of(md5) + keys_of(sha1) + keys_of(sha256) + keys_of(sha512);
    assert(s == source_with(fields, hashes));
    assert(s.files =~= names.map_values(|file: Seq<char>| source_file(hashes, file)));
    text_set_holds(all);
    assert forall|i: int, j: int| 0 <= i < j < s.files.len() implies (
    #[trigger] s.files[i]).filename != (#[trigger] s.files[j]).filename by {
        assert(text_lt(names[i], names[j]));
        text_lt_irreflexive(names[i]);
    }
    name_is_in_some_section(hashes, file);
    if names.contains(file) {
        let i = choose|i: int| 0 <= i < names.len() && names[i] == file;
        assert(s.files[i].filename == file);
    }
    if exists|i: int| 0 <= i < s.files.len() && (#[trigger] s.files[i]).filename == file {
        let i = choose|i: int| 0 <= i < s.files.len() && (#[trigger] s.files[i]).filename == file;
        assert(names[i] == file);
    }
    assert forall|i: int| 0 <= i < s.files.len() implies lookup(
        md5,
        (#[trigger] s.files[i]).filename,
    ) is Some || lookup(sha1, s.files[i].filename) is Some || lookup(
        sha256,
        s.files[i].filename,
    ) is Some || lookup(sha512, s.files[i].filename) is Some by {
        name_is_in_some_section(hashes, names[i]);
        assert(names.contains(names[i]));
    }
    without_all_lookup(fields, source_fields(), file);
    let known = source_fields();
    assert(known[0] == "Package"@ && known[1] == "Version"@ && known[2] == "Directory"@ && known[3]
        == "Files"@ && known[4] == "Checksums-Sha1"@ && known[5] == "Checksums-Sha256"@ && known[6]
        == "Checksums-Sha512"@);
    if known.contains(file) {
        let i = choose|i: int| 0 <= i < known.len() && known[i] == file;
        assert(known[i] == file);
    }
}

proof fn section_ascends(fields: Seq<(Seq<char>, Seq<char>)>, key: Seq<char>)
    requires
        source_hashes(fields, key) is Ok,
    ensures
        ascending(keys_of(checksums_of(fields, key))),
        source_hashes(fields, key)->Ok_0 == checksums_of(fields, key),
{
    if let Some(value) = lookup(fields, key) {
        every_checksum_line_counts(lines(value), key, seq![]);
    }
}

proof fn name_is_in_some_section(hashes: SourceHashes, file: Seq<char>)
    requires
        ascending(keys_of(hashes.md5)),
        ascending(keys_of(hashes.sha1)),
        ascending(keys_of(hashes.sha256)),
        ascending(keys_of(hashes.sha512)),
    ensures
        source_file_names(hashes).contains(file) <==> (lookup(hashes.md5, file) is Some || lookup(
            hashes.sha1,
            file,
        ) is Some || lookup(hashes.sha256, file) is Some || lookup(hashes.sha512, file) is Some),
{
    let a = keys_of(hashes.md5);
    let b = keys_of(hashes.sha1);
    let c = keys_of(hashes.sha256);
    let d = keys_of(hashes.sha512);
    let all = a + b + c + d;
    text_set_holds(all);
    known_iff_found(hashes.md5, file);
    known_iff_found(hashes.sha1, file);
    known_iff_found(hashes.sha256, file);
    known_iff_found(hashes.sha512, file);
    if all.contains(file) {
        let i = choose|i: int| 0 <= i < all.len() && all[i] == file;
        if i < a.len() {
            assert(a[i] == file);
        } else if i < a.len() + b.len() {
            assert(b[i - a.len()] == file);
        } else if i < a.len() + b.len() + c.len() {
            assert(c[i - a.len() - b.len()] == file);
        } else {
            assert(d[i - a.len() - b.len() - c.len()] == file);
        }
    }
    if a.contains(file) {
        let i = choose|i: int| 0 <= i < a.len() && a[i] == file;
        assert(all[i] == file);
    }
    if b.contains(file) {
        let i = choose|i: int| 0 <= i < b.len() && b[i] == file;
        assert(all[a.len() + i] == file);
    }
    if c.contains(file) {
        let i = choose|i: int| 0 <= i < c.len() && c[i] == file;
        assert(all[a.len() + b.len() + i] == file);
    }
    if d.contains(file) {
        let i = choose|i: int| 0 <= i < d.len() && d[i] == file;
        assert(all[a.len() + b.len() + c.len() + i] == file);
    }
}

} // verus!
