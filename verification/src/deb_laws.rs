//! What is found in package files: where the control archive stands in one, and
//! where the control file stands in the archive.

use vstd::prelude::*;
use vstd::utf8::{encode_utf8, encode_utf8_decode_utf8, encode_utf8_valid_utf8, is_ascii_chars_encode_utf8};

use crate::archive::{bz2_member, gz_member, plain_member, xz_member, zst_member, MemberModel};
use crate::control::{control_of, ControlModel};
use crate::deb::{after_slash, ar_name, ar_search, ar_size, control_from, control_member, deb_control, deb_filename};
use crate::deb::{file_stem, file_validity, last_component, path_info, pool_path, ArSearch, DebianOperation};
use crate::error::Failure;
use crate::number::{decimal_round_trip, decimal_text, decimal_text_is_digits};
use crate::roundtrip::{find_behind, trim_end_behind};
use crate::roundtrip_signed::blank_trims_to_nothing;
use crate::text::{ends_with, find, find_is_first, is_blank, is_white, starts_with, trim, trim_end_char, trim_start};

verus! {

// ---------------------------------------------------------------------------
// The control archive
// ---------------------------------------------------------------------------

/// The path of an archive member ends in the component `control`: it is that word,
/// or that word behind a slash.
pub open spec fn ends_in_control(path: Seq<u8>) -> bool {
    let word = encode_utf8("control"@);
    path == word || (path.len() > word.len() && path.skip(path.len() - word.len()) == word
        && path[path.len() - word.len() - 1] == 47)
}

/// The member is a file of another name than `control`.
pub open spec fn is_other_file(member: MemberModel) -> bool {
    member matches MemberModel::File { path, .. } && last_component(path) != encode_utf8(
        "control"@,
    )
}

proof fn control_word()
    ensures
        encode_utf8("control"@) == seq![99u8, 111u8, 110u8, 116u8, 114u8, 111u8, 108u8],
{
    reveal_strlit("control");
    let word = "control"@;
    is_ascii_chars_encode_utf8(word);
    assert(encode_utf8(word) =~= seq![99u8, 111u8, 110u8, 116u8, 114u8, 111u8, 108u8]);
}

proof fn word_stands_behind_slash(path: Seq<u8>, word: Seq<u8>)
    requires
        forall|i: int| 0 <= i < word.len() ==> word[i] != 47,
        path.len() >= word.len(),
        path.skip(path.len() - word.len()) == word,
        path.len() > word.len() ==> path[path.len() - word.len() - 1] == 47,
    ensures
        after_slash(path) == word,
    decreases word.len(),
{
    if word.len() == 0 {
        assert(word =~= seq![]);
        if path.len() > 0 {
            assert(path.last() == 47);
        }
    } else {
        let p = path.drop_last();
        let w = word.drop_last();
        assert(path.skip(path.len() - word.len())[word.len() - 1] == word[word.len() - 1]);
        assert(path.last() == word.last());
        assert(p.skip(p.len() - w.len()) =~= w) by {
            assert forall|i: int| 0 <= i < w.len() implies p.skip(p.len() - w.len())[i] == w[i] by {
                assert(path.skip(path.len() - word.len())[i] == word[i]);
            }
        }
        word_stands_behind_slash(p, w);
        assert(w.push(word.last()) =~= word);
    }
}

/// A member whose path ends in the component `control` is the control file.
pub proof fn control_path_is_found(path: Seq<u8>)
    requires
        ends_in_control(path),
    ensures
        last_component(path) == encode_utf8("control"@),
{
    control_word();
    let word = encode_utf8("control"@);
    if path == word {
        assert(path.skip(0) =~= path);
    }
    word_stands_behind_slash(path, word);
}

proof fn word_is_end(path: Seq<u8>)
    ensures
        after_slash(path).len() <= path.len(),
        after_slash(path) == path.skip(path.len() - after_slash(path).len()),
        after_slash(path).len() < path.len() ==> path[path.len() - after_slash(path).len() - 1]
            == 47,
    decreases path.len(),
{
    let c = after_slash(path);
    if path.len() > 0 && path.last() != 47 {
        let p = path.drop_last();
        word_is_end(p);
        let d = after_slash(p);
        assert(c =~= path.skip(path.len() - c.len())) by {
            assert forall|i: int| 0 <= i < c.len() implies c[i] == path.skip(path.len() - c.len())[i] by {
                if i < d.len() {
                    assert(d[i] == p.skip(p.len() - d.len())[i]);
                }
            }
        }
    } else {
        assert(c =~= path.skip(path.len() - c.len()));
    }
}

/// No other member is: one whose path ends in neither a slash nor a dot, and not in
/// the component `control`, is a file of another name.
pub proof fn other_path_is_passed_over(path: Seq<u8>)
    requires
        path.len() > 0,
        path.last() != 47,
        path.last() != 46,
        !ends_in_control(path),
    ensures
        last_component(path) != encode_utf8("control"@),
{
    control_word();
    let c = after_slash(path);
    word_is_end(path);
    assert(c.len() > 0 && c.last() == path.last());
    if c == seq![46u8] {
        assert(c.last() == 46);
    }
    if c == encode_utf8("control"@) && c.len() == path.len() {
        assert(path.skip(0) =~= path);
    }
}

/// The extension of an archive's name says what it is unpacked with.
pub proof fn archive_is_read_by_extension(data: Seq<u8>, base: Seq<char>, i: nat)
    ensures
        control_member(data, base + ".gz"@, i) == gz_member(data, i),
        control_member(data, base + ".xz"@, i) == xz_member(data, i),
        control_member(data, base + ".bz2"@, i) == bz2_member(data, i),
        control_member(data, base + ".zst"@, i) == zst_member(data, i),
        control_member(data, base + ".zstd"@, i) == zst_member(data, i),
        control_member(data, base + ".tar"@, i) == plain_member(data, i),
{
    reveal_strlit(".gz");
    reveal_strlit(".xz");
    reveal_strlit(".bz2");
    reveal_strlit(".zst");
    reveal_strlit(".zstd");
    reveal_strlit(".tar");
    let exts = seq![".gz"@, ".xz"@, ".bz2"@, ".zst"@, ".zstd"@, ".tar"@];
    assert forall|e: int| 0 <= e < exts.len() implies ends_with(
        base + #[trigger] exts[e],
        exts[e],
    ) by {
        let s = base + exts[e];
        assert(s.skip(s.len() - exts[e].len()) =~= exts[e]);
    }
    assert(exts[0] == ".gz"@ && exts[1] == ".xz"@ && exts[2] == ".bz2"@ && exts[3] == ".zst"@
        && exts[4] == ".zstd"@ && exts[5] == ".tar"@);
    last_char_tells(base, ".xz"@, ".gz"@, 2);
    last_char_tells(base, ".bz2"@, ".gz"@, 1);
    last_char_tells(base, ".bz2"@, ".xz"@, 1);
    last_char_tells(base, ".zst"@, ".gz"@, 1);
    last_char_tells(base, ".zst"@, ".xz"@, 1);
    last_char_tells(base, ".zst"@, ".bz2"@, 1);
    last_char_tells(base, ".zstd"@, ".gz"@, 1);
    last_char_tells(base, ".zstd"@, ".xz"@, 1);
    last_char_tells(base, ".zstd"@, ".bz2"@, 1);
    last_char_tells(base, ".tar"@, ".gz"@, 1);
    last_char_tells(base, ".tar"@, ".xz"@, 1);
    last_char_tells(base, ".tar"@, ".bz2"@, 1);
    last_char_tells(base, ".tar"@, ".zst"@, 1);
    last_char_tells(base, ".tar"@, ".zstd"@, 1);
}

/// A text that ends with one extension does not end with another that differs
/// from it at a place counted from the end.
proof fn last_char_tells(base: Seq<char>, own: Seq<char>, other: Seq<char>, k: int)
    requires
        0 < k <= own.len(),
        k <= other.len(),
        own[own.len() - k] != other[other.len() - k],
    ensures
        !ends_with(base + own, other),
{
    let s = base + own;
    if ends_with(s, other) {
        assert(s.skip(s.len() - other.len())[other.len() - k] == other[other.len() - k]);
        assert(s[s.len() - k] == own[own.len() - k]);
    }
}

proof fn others_are_passed_over(data: Seq<u8>, name: Seq<char>, from: nat, n: nat)
    requires
        from <= n <= usize::MAX,
        forall|i: nat| from <= i < n ==> is_other_file(#[trigger] control_member(data, name, i)),
    ensures
        control_from(data, name, from) == control_from(data, name, n),
    decreases n - from,
{
    if from < n {
        assert(is_other_file(control_member(data, name, from)));
        others_are_passed_over(data, name, from + 1, n);
    }
}

/// The control file of an archive is its first member of that name, wherever it
/// stands: what it says is what the archive gives, and where it cannot be read the
/// archive is refused. The members before it, all of them files, do not matter.
pub proof fn control_file_is_found(
    data: Seq<u8>,
    name: Seq<char>,
    n: nat,
    path: Seq<u8>,
    text: std::result::Result<Seq<char>, Seq<char>>,
)
    requires
        n <= usize::MAX,
        forall|i: nat| i < n ==> is_other_file(#[trigger] control_member(data, name, i)),
        control_member(data, name, n) == (MemberModel::File { path, text }),
        ends_in_control(path),
    ensures
        text matches Ok(t) ==> control_from(data, name, 0) == control_of(t),
        text is Err ==> control_from(data, name, 0) is Err,
{
    control_path_is_found(path);
    others_are_passed_over(data, name, 0, n);
}

/// An archive is said to lack a control file only where it ends without one, and
/// then it is said: all its members are files of other names. Archives of more
/// members than can be counted aside, which none can hold.
pub proof fn control_file_is_missed(data: Seq<u8>, name: Seq<char>, n: nat)
    requires
        n <= usize::MAX,
        forall|i: nat| i < n ==> is_other_file(#[trigger] control_member(data, name, i)),
        control_member(data, name, n) is End,
    ensures
        control_from(data, name, 0) == Err::<ControlModel, Failure>(
            Failure::Validation("control file not found in control.tar"@),
        ),
{
    others_are_passed_over(data, name, 0, n);
}

/// What an archive is said to hold was in its control file: some member of that
/// name reads as a text that says it, and the members before it are other files.
pub proof fn control_comes_from_control_file(data: Seq<u8>, name: Seq<char>) -> (n: nat)
    requires
        control_from(data, name, 0) is Ok,
    ensures
        n <= usize::MAX,
        forall|i: nat| i < n ==> is_other_file(#[trigger] control_member(data, name, i)),
        control_member(data, name, n) matches MemberModel::File { path, text } && last_component(
            path,
        ) == encode_utf8("control"@) && text is Ok && control_of(text->Ok_0) == control_from(
            data,
            name,
            0,
        ),
{
    control_file_from(data, name, 0)
}

proof fn control_file_from(data: Seq<u8>, name: Seq<char>, from: nat) -> (n: nat)
    requires
        from <= usize::MAX,
        control_from(data, name, from) is Ok,
    ensures
        from <= n <= usize::MAX,
        forall|i: nat| from <= i < n ==> is_other_file(#[trigger] control_member(data, name, i)),
        control_member(data, name, n) matches MemberModel::File { path, text } && last_component(
            path,
        ) == encode_utf8("control"@) && text is Ok && control_of(text->Ok_0) == control_from(
            data,
            name,
            from,
        ),
    decreases usize::MAX - from,
{
    if is_other_file(control_member(data, name, from)) {
        control_file_from(data, name, from + 1)
    } else {
        from
    }
}

// ---------------------------------------------------------------------------
// The package file
// ---------------------------------------------------------------------------

/// A member of an ar file: its header of sixty bytes and its content.
pub struct ArMember {
    pub header: Seq<u8>,
    pub data: Seq<u8>,
}

/// The header fits the content, and the content is followed by a byte of padding
/// where its length is odd.
pub open spec fn is_ar_member(m: ArMember) -> bool {
    m.header.len() == 60 && ar_size(m.header) == m.data.len()
}

/// The bytes of members that stand one after the other, each padded to an even
/// length.
pub open spec fn ar_bytes(ms: Seq<ArMember>) -> Seq<u8>
    decreases ms.len(),
{
    if ms.len() == 0 {
        seq![]
    } else {
        ms[0].header + ms[0].data + (if ms[0].data.len() % 2 == 0 {
            Seq::<u8>::empty()
        } else {
            seq![10u8]
        }) + ar_bytes(ms.drop_first())
    }
}

#[verifier::opaque]
spec fn found_at(content: Seq<u8>, o: nat) -> ArSearch {
    ar_search(content, o)
}

#[verifier::opaque]
spec fn fits_ar(m: ArMember, is_control: bool) -> bool {
    is_ar_member(m) && starts_with(ar_name(m.header), "control.tar"@) == is_control
}

#[verifier::opaque]
spec fn result_of(m: ArMember) -> ArSearch {
    ArSearch::Found { name: ar_name(m.header), data: m.data }
}

proof fn member_is_passed_over(content: Seq<u8>, o: nat, m: ArMember)
    requires
        fits_ar(m, false),
        o % 2 == 0,
        o + 60 + m.data.len() <= content.len(),
        content.subrange(o as int, o as int + 60) == m.header,
    ensures
        found_at(content, o) == found_at(content, o + 60 + m.data.len() + m.data.len() % 2),
{
    reveal(found_at);
    reveal(fits_ar);
    let end = o + 60 + m.data.len();
    assert(end % 2 == m.data.len() % 2);
}

proof fn member_is_found(content: Seq<u8>, o: nat, m: ArMember)
    requires
        fits_ar(m, true),
        o + 60 + m.data.len() <= content.len(),
        content.subrange(o as int, o as int + 60) == m.header,
        content.subrange(o as int + 60, o as int + 60 + m.data.len()) == m.data,
    ensures
        found_at(content, o) == result_of(m),
{
    reveal(found_at);
    reveal(fits_ar);
    reveal(result_of);
}

spec fn padding(m: ArMember) -> Seq<u8> {
    if m.data.len() % 2 == 0 {
        Seq::<u8>::empty()
    } else {
        seq![10u8]
    }
}

proof fn members_are_passed_over(
    before: Seq<u8>,
    ms: Seq<ArMember>,
    last: ArMember,
    behind: Seq<u8>,
)
    requires
        before.len() % 2 == 0,
        forall|i: int| 0 <= i < ms.len() ==> fits_ar(#[trigger] ms[i], false),
        forall|i: int| 0 <= i < ms.len() ==> (#[trigger] ms[i]).header.len() == 60,
        fits_ar(last, true),
        last.header.len() == 60,
    ensures
        found_at(before + ar_bytes(ms) + last.header + last.data + behind, before.len())
            == result_of(last),
    decreases ms.len(),
{
    let content = before + ar_bytes(ms) + last.header + last.data + behind;
    let o = before.len();
    if ms.len() == 0 {
        assert(ar_bytes(ms) =~= seq![]);
        assert(content.subrange(o as int, o as int + 60) =~= last.header);
        assert(content.subrange(o as int + 60, o as int + 60 + last.data.len()) =~= last.data);
        member_is_found(content, o, last);
    } else {
        let m = ms[0];
        let t = ms.drop_first();
        assert(fits_ar(m, false) && m.header.len() == 60);
        let next = before + m.header + m.data + padding(m);
        let rest = ar_bytes(t);
        assert forall|i: int| 0 <= i < t.len() implies fits_ar(#[trigger] t[i], false)
            && t[i].header.len() == 60 by {
            assert(t[i] == ms[i + 1]);
        }
        assert(padding(m).len() == m.data.len() % 2);
        assert(next.len() == o + 60 + m.data.len() + m.data.len() % 2);
        members_are_passed_over(next, t, last, behind);
        assert(ar_bytes(ms) == m.header + m.data + padding(m) + rest);
        assert(content =~= next + rest + last.header + last.data + behind);
        assert(content.subrange(o as int, o as int + 60) =~= m.header);
        member_is_passed_over(content, o, m);
    }
}

/// The control archive of a package file is its first member whose name begins
/// with `control.tar`, whatever members stand before it and whatever stands behind
/// it; what the package file gives is what that archive gives.
pub proof fn control_archive_is_found(ms: Seq<ArMember>, last: ArMember, behind: Seq<u8>)
    requires
        forall|i: int|
            0 <= i < ms.len() ==> is_ar_member(#[trigger] ms[i]) && !starts_with(
                ar_name(ms[i].header),
                "control.tar"@,
            ),
        is_ar_member(last),
        starts_with(ar_name(last.header), "control.tar"@),
    ensures
        deb_control(
            encode_utf8("!<arch>\n"@) + ar_bytes(ms) + last.header + last.data + behind,
        ) == control_from(last.data, ar_name(last.header), 0),
{
    let magic = encode_utf8("!<arch>\n"@);
    reveal_strlit("!<arch>\n");
    is_ascii_chars_encode_utf8("!<arch>\n"@);
    assert(magic.len() == 8);
    assert forall|i: int| 0 <= i < ms.len() implies fits_ar(#[trigger] ms[i], false)
        && ms[i].header.len() == 60 by {
        reveal(fits_ar);
    }
    assert(fits_ar(last, true)) by {
        reveal(fits_ar);
    }
    members_are_passed_over(magic, ms, last, behind);
    reveal(found_at);
    reveal(result_of);
    let content = magic + ar_bytes(ms) + last.header + last.data + behind;
    assert(magic.is_prefix_of(content));
}

/// The name of an ar member stands at the start of its header, filled up with
/// spaces or ended by a slash; its size stands behind its forty-eighth byte, as a
/// decimal number filled up with spaces.
pub proof fn ar_header_is_read(
    header: Seq<u8>,
    name: Seq<char>,
    filling: Seq<char>,
    size: nat,
    size_filling: Seq<char>,
)
    requires
        header.len() == 60,
        name.len() > 0,
        !is_white(name[0]),
        !is_white(name.last()),
        name.last() != '/',
        is_blank(filling),
        is_blank(size_filling),
        size <= usize::MAX,
        header.subrange(48, 58) == encode_utf8(decimal_text(size) + size_filling),
    ensures
        header.subrange(0, 16) == encode_utf8(name + filling) ==> ar_name(header) == name,
        header.subrange(0, 16) == encode_utf8(name + "/"@ + filling) ==> ar_name(header) == name,
        ar_size(header) == size,
{
    reveal_strlit("/");
    assert("/"@ =~= seq!['/']);
    let digits = decimal_text(size);
    decimal_text_is_digits(size);
    decimal_round_trip(size, usize::MAX as nat);
    encode_utf8_valid_utf8(digits + size_filling);
    encode_utf8_decode_utf8(digits + size_filling);
    assert(!is_white(digits[0]) && !is_white(digits.last()));
    filled_text_trims(digits, size_filling);
    let a = name + filling;
    encode_utf8_valid_utf8(a);
    encode_utf8_decode_utf8(a);
    filled_text_trims(name, filling);
    let n = name + "/"@;
    let b = n + filling;
    encode_utf8_valid_utf8(b);
    encode_utf8_decode_utf8(b);
    assert(n[0] == name[0] && n.last() == '/');
    filled_text_trims(n, filling);
    assert(n.drop_last() =~= name);
    reveal_with_fuel(trim_end_char, 2);
}

proof fn filled_text_trims(text: Seq<char>, filling: Seq<char>)
    requires
        text.len() > 0,
        !is_white(text[0]),
        !is_white(text.last()),
        is_blank(filling),
    ensures
        trim(text + filling) == text,
{
    let s = text + filling;
    assert(s[0] == text[0]);
    assert(trim_start(s) == s);
    trim_end_behind(text, filling);
    blank_trims_to_nothing(filling);
    assert(text + Seq::<char>::empty() =~= text);
}

// ---------------------------------------------------------------------------
// Names and places
// ---------------------------------------------------------------------------

/// The name of a package file is taken apart at its first two underscores: a
/// version may hold a third.
pub proof fn filename_is_taken_apart(name: Seq<char>, version: Seq<char>, arch: Seq<char>)
    requires
        !name.contains('_'),
        !version.contains('_'),
    ensures
        deb_filename(name + "_"@ + version + "_"@ + arch + ".deb"@) == Ok::<
            (Seq<char>, Seq<char>, Seq<char>),
            Failure,
        >((name, version, arch)),
        deb_filename(name + "_"@ + version + "_"@ + arch + ".udeb"@) == Ok::<
            (Seq<char>, Seq<char>, Seq<char>),
            Failure,
        >((name, version, arch)),
{
    reveal_strlit("_");
    reveal_strlit(".deb");
    reveal_strlit(".udeb");
    assert("_"@ =~= seq!['_']);
    let stem = name + "_"@ + version + "_"@ + arch;
    let rest = version + "_"@ + arch;
    assert(stem =~= name + seq!['_'] + rest);
    find_behind(name, rest, '_');
    assert(stem.take(name.len() as int) =~= name);
    assert(stem.skip(name.len() as int + 1) =~= rest);
    assert(rest =~= version + seq!['_'] + arch);
    find_behind(version, arch, '_');
    assert(rest.take(version.len() as int) =~= version);
    assert(rest.skip(version.len() as int + 1) =~= arch);
    let a = stem + ".deb"@;
    let b = stem + ".udeb"@;
    assert(a.skip(a.len() - 4) =~= ".deb"@);
    assert(b.skip(b.len() - 5) =~= ".udeb"@);
    assert(a.take(a.len() - 4) =~= stem);
    assert(b.take(b.len() - 5) =~= stem);
    last_char_tells(stem, ".udeb"@, ".deb"@, 4);
}

/// A name that does not end as those of package files do, or that has fewer than
/// two underscores, says nothing.
pub proof fn other_filename_is_refused(filename: Seq<char>)
    requires
        (!ends_with(filename, ".deb"@) && !ends_with(filename, ".udeb"@)) || !filename.contains(
            '_',
        ),
    ensures
        deb_filename(filename) is Err,
{
    if let Some(stem) = file_stem(filename) {
        find_is_first(stem, '_');
        let n = find(stem, '_') as int;
        if n < stem.len() {
            assert(stem[n] == filename[n]);
            assert(filename.contains('_'));
        }
    }
}

/// A package is filed below its component, the first letter of its name, or the
/// first four letters where it is a library of a longer name, and its name.
pub proof fn package_is_filed_by_name(component: Seq<char>, package: Seq<char>, filename: Seq<char>)
    requires
        package.len() > 0,
    ensures
        ({
            let prefix = if package.len() > 4 && package[0] == 'l' && package[1] == 'i'
                && package[2] == 'b' {
                package.take(4)
            } else {
                package.take(1)
            };
            pool_path(component, package, filename) == "pool/"@ + component + "/"@ + prefix + "/"@
                + package + "/"@ + filename
        }),
{
    reveal_strlit("lib");
    if package.len() > 4 {
        if package[0] == 'l' && package[1] == 'i' && package[2] == 'b' {
            assert(package.take(3) =~= "lib"@);
        }
        if package.take(3) == "lib"@ {
            assert(package.take(3)[0] == 'l' && package.take(3)[1] == 'i' && package.take(3)[2]
                == 'b');
        }
    }
}

/// A file is accepted at the path of a package exactly where its control file says
/// the name, the version and the architecture that the path says.
pub proof fn accepted_package_says_what_its_path_says(
    path: Seq<char>,
    content: Seq<u8>,
    name: Seq<char>,
    version: Seq<char>,
    arch: Seq<char>,
)
    requires
        content.len() > 0,
        path_info(path) matches Ok(info) && info.operation == DebianOperation::Package
            && info.package == Some(name) && info.version == Some(version) && info.arch == Some(
            arch,
        ),
    ensures
        file_validity(path, content) is Ok <==> (deb_control(content) matches Ok(c) && c.package
            == name && c.version == version && c.architecture == arch),
{
}

} // verus!
