//! What repository paths say.

use vstd::prelude::*;

use crate::deb::{deb_control, deb_filename, file_metadata, path_info, DebianOperation, PathModel};
use crate::deb_laws::filename_is_taken_apart;
use crate::error::Failure;
use crate::release::Release;
use crate::text::{contains_text, ends_with, find, find_is_first, occurs_at, split, split_first, split_single};
use crate::text::{starts_with, trim_start_char, trim_start_text};
use crate::text_laws::pieces_make_the_text;

verus! {

// ---------------------------------------------------------------------------
// Parts
// ---------------------------------------------------------------------------

/// A separator parts pieces: those of a text are those before it and those behind it.
pub proof fn separator_parts_pieces(a: Seq<char>, c: char, b: Seq<char>)
    ensures
        split(a + seq![c] + b, c) == split(a, c) + split(b, c),
    decreases a.len(),
{
    find_is_first(a, c);
    let n = find(a, c) as int;
    if n >= a.len() {
        if a.contains(c) {
            let i = choose|i: int| 0 <= i < a.len() && a[i] == c;
            assert(a[i] != c);
        }
        split_first(a, b, c);
    } else {
        let head = a.take(n);
        let rest = a.skip(n + 1);
        if head.contains(c) {
            let i = choose|i: int| 0 <= i < head.len() && head[i] == c;
            assert(a[i] != c);
        }
        assert(a =~= head + seq![c] + rest);
        assert(a + seq![c] + b =~= head + seq![c] + (rest + seq![c] + b));
        split_first(head, rest + seq![c] + b, c);
        split_first(head, rest, c);
        separator_parts_pieces(rest, c, b);
        assert(seq![head] + (split(rest, c) + split(b, c)) =~= seq![head] + split(rest, c) + split(
            b,
            c,
        ));
    }
}

/// Some part of the path behind its first slash begins with the word.
pub open spec fn has_part(path: Seq<char>, word: Seq<char>) -> bool {
    exists|i: int|
        1 <= i < split(path, '/').len() && starts_with(#[trigger] split(path, '/')[i], word)
}

proof fn part_is_found(path: Seq<char>, word: Seq<char>)
    requires
        !word.contains('/'),
    ensures
        contains_text(path, seq!['/'] + word) ==> has_part(path, word),
{
    let p = seq!['/'] + word;
    if contains_text(path, p) {
        let i = choose|i: int| occurs_at(path, p, i);
        let a = path.take(i);
        let b = path.skip(i + 1);
        assert(path.subrange(i, i + p.len())[0] == '/');
        assert(path =~= a + seq!['/'] + b);
        separator_parts_pieces(a, '/', b);
        pieces_make_the_text(a, '/');
        pieces_make_the_text(b, '/');
        let first = split(b, '/')[0];
        assert(b.take(word.len() as int) =~= word) by {
            assert forall|j: int| 0 <= j < word.len() implies b[j] == word[j] by {
                assert(path.subrange(i, i + p.len())[j + 1] == p[j + 1]);
            }
        }
        find_is_first(b, '/');
        let n = find(b, '/') as int;
        if n < word.len() {
            assert(b.take(word.len() as int)[n] == '/');
            assert(word.contains(word[n]));
        }
        if n >= b.len() {
            assert(first == b);
        } else {
            assert(first == b.take(n));
        }
        assert(first.take(word.len() as int) =~= word);
        assert(split(path, '/')[split(a, '/').len() as int] == first);
    }
}

// ---------------------------------------------------------------------------
// Package files
// ---------------------------------------------------------------------------

/// The path of a package file in the pool says the component, and the name, the version
/// and the architecture that the name of the file gives, whatever stands between.
pub proof fn pool_path_is_read(
    component: Seq<char>,
    prefix: Seq<char>,
    source: Seq<char>,
    name: Seq<char>,
    version: Seq<char>,
    arch: Seq<char>,
)
    requires
        !component.contains('/'),
        !prefix.contains('/'),
        !source.contains('/'),
        !name.contains('/') && !name.contains('_'),
        !version.contains('/') && !version.contains('_'),
        !arch.contains('/'),
    ensures
        path_info(
            "pool/"@ + component + "/"@ + prefix + "/"@ + source + "/"@ + (name + "_"@ + version
                + "_"@ + arch + ".deb"@),
        ) == Ok::<PathModel, Failure>(
            PathModel {
                package: Some(name),
                version: Some(version),
                arch: Some(arch),
                component: Some(component),
                distribution: None,
                operation: DebianOperation::Package,
            },
        ),
{
    reveal_strlit("pool/");
    reveal_strlit("pool");
    reveal_strlit("/");
    reveal_strlit("_");
    reveal_strlit(".deb");
    let file = name + "_"@ + version + "_"@ + arch + ".deb"@;
    let path = "pool/"@ + component + "/"@ + prefix + "/"@ + source + "/"@ + file;
    filename_is_taken_apart(name, version, arch);
    assert(!file.contains('/')) by {
        if file.contains('/') {
            let i = choose|i: int| 0 <= i < file.len() && file[i] == '/';
            let n = name.len() as int;
            let v = version.len() as int;
            if i < n {
                assert(name[i] == '/');
            } else if n < i < n + 1 + v {
                assert(version[i - n - 1] == '/');
            } else if n + v + 1 < i < n + v + 2 + arch.len() {
                assert(arch[i - n - v - 2] == '/');
            }
        }
    }
    let r4 = source + seq!['/'] + file;
    let r3 = prefix + seq!['/'] + r4;
    let r2 = component + seq!['/'] + r3;
    assert(path =~= "pool"@ + seq!['/'] + r2);
    split_first("pool"@, r2, '/');
    split_first(component, r3, '/');
    split_first(prefix, r4, '/');
    split_first(source, file, '/');
    split_single(file, '/');
    assert(split(path, '/') =~= seq!["pool"@, component, prefix, source, file]);
    assert(path[0] == 'p');
    assert(trim_start_char(path, '/') == path);
}

/// A package file at the root says the name, the version and the architecture that its
/// name gives, and no component.
pub proof fn root_file_is_read(name: Seq<char>, version: Seq<char>, arch: Seq<char>)
    requires
        !name.contains('/') && !name.contains('_'),
        !version.contains('/') && !version.contains('_'),
        !arch.contains('/'),
    ensures
        path_info(name + "_"@ + version + "_"@ + arch + ".deb"@) == Ok::<PathModel, Failure>(
            PathModel {
                package: Some(name),
                version: Some(version),
                arch: Some(arch),
                component: None,
                distribution: None,
                operation: DebianOperation::Package,
            },
        ),
{
    reveal_strlit("_");
    reveal_strlit(".deb");
    reveal_strlit("/Release");
    reveal_strlit("/InRelease");
    reveal_strlit("/Packages");
    reveal_strlit("Release");
    reveal_strlit("InRelease");
    reveal_strlit("Packages");
    let file = name + "_"@ + version + "_"@ + arch + ".deb"@;
    filename_is_taken_apart(name, version, arch);
    assert(!file.contains('/')) by {
        if file.contains('/') {
            let i = choose|i: int| 0 <= i < file.len() && file[i] == '/';
            let n = name.len() as int;
            let v = version.len() as int;
            if i < n {
                assert(name[i] == '/');
            } else if n < i < n + 1 + v {
                assert(version[i - n - 1] == '/');
            } else if n + v + 1 < i < n + v + 2 + arch.len() {
                assert(arch[i - n - v - 2] == '/');
            }
        }
    }
    split_single(file, '/');
    assert(split(file, '/') =~= seq![file]);
    assert(file.contains(file[0]));
    assert(trim_start_char(file, '/') == file);
    part_is_found(file, "Release"@);
    part_is_found(file, "InRelease"@);
    part_is_found(file, "Packages"@);
    assert(seq!['/'] + "Release"@ =~= "/Release"@);
    assert(seq!['/'] + "InRelease"@ =~= "/InRelease"@);
    assert(seq!['/'] + "Packages"@ =~= "/Packages"@);
    assert(file.skip(file.len() - 4) =~= ".deb"@);
}

/// A name of one underscore alone is no name of a package file.
pub proof fn name_needs_two_underscores(name: Seq<char>, rest: Seq<char>)
    requires
        !name.contains('_'),
        !rest.contains('_'),
    ensures
        deb_filename(name + "_"@ + rest + ".deb"@) is Err,
{
    reveal_strlit("_");
    reveal_strlit(".deb");
    reveal_strlit(".udeb");
    let stem = name + "_"@ + rest;
    let file = stem + ".deb"@;
    assert(file.skip(file.len() - 4) =~= ".deb"@);
    assert(file.take(file.len() - 4) =~= stem);
    find_is_first(stem, '_');
    let a = find(stem, '_') as int;
    assert(stem[name.len() as int] == '_');
    if a < name.len() {
        assert(name[a] == '_');
    }
    assert(a == name.len());
    assert(stem.skip(a + 1) =~= rest);
    find_is_first(rest, '_');
    if find(rest, '_') < rest.len() {
        assert(rest.contains(rest[find(rest, '_') as int]));
    }
}

// ---------------------------------------------------------------------------
// Metadata files
// ---------------------------------------------------------------------------

/// The path of the Release of a distribution, signed or not, says the distribution.
pub proof fn release_path_is_read(distribution: Seq<char>)
    requires
        !distribution.contains('/'),
    ensures
        ({
            let said = PathModel {
                package: None,
                version: None,
                arch: None,
                component: None,
                distribution: Some(distribution),
                operation: DebianOperation::Release,
            };
            &&& path_info("dists/"@ + distribution + "/Release"@) == Ok::<PathModel, Failure>(said)
            &&& path_info("dists/"@ + distribution + "/InRelease"@) == Ok::<PathModel, Failure>(
                said,
            )
            &&& path_info("dists/"@ + distribution + "/Release.gpg"@) == Ok::<PathModel, Failure>(
                said,
            )
        }),
{
    reveal_strlit("Release");
    reveal_strlit("InRelease");
    reveal_strlit("Release.gpg");
    reveal_strlit("/Release");
    reveal_strlit("/InRelease");
    reveal_strlit("/Release.gpg");
    named_release_is_read(distribution, "Release"@);
    named_release_is_read(distribution, "InRelease"@);
    named_release_is_read(distribution, "Release.gpg"@);
    assert("dists/"@ + distribution + seq!['/'] + "Release"@ =~= "dists/"@ + distribution
        + "/Release"@);
    assert("dists/"@ + distribution + seq!['/'] + "InRelease"@ =~= "dists/"@ + distribution
        + "/InRelease"@);
    assert("dists/"@ + distribution + seq!['/'] + "Release.gpg"@ =~= "dists/"@ + distribution
        + "/Release.gpg"@);
}

proof fn named_release_is_read(distribution: Seq<char>, name: Seq<char>)
    requires
        !distribution.contains('/'),
        name == "Release"@ || name == "InRelease"@ || name == "Release.gpg"@,
    ensures
        path_info("dists/"@ + distribution + seq!['/'] + name) == Ok::<PathModel, Failure>(
            PathModel {
                package: None,
                version: None,
                arch: None,
                component: None,
                distribution: Some(distribution),
                operation: DebianOperation::Release,
            },
        ),
{
    reveal_strlit("dists/");
    reveal_strlit("dists");
    reveal_strlit("Release");
    reveal_strlit("InRelease");
    reveal_strlit("Release.gpg");
    reveal_strlit("/Release");
    reveal_strlit("/InRelease");
    let path = "dists/"@ + distribution + seq!['/'] + name;
    let rest = distribution + seq!['/'] + name;
    assert(!name.contains('/'));
    assert(path =~= "dists"@ + seq!['/'] + rest);
    split_first("dists"@, rest, '/');
    split_first(distribution, name, '/');
    split_single(name, '/');
    assert(split(path, '/') =~= seq!["dists"@, distribution, name]);
    assert(path[0] == 'd');
    assert(trim_start_char(path, '/') == path);
    let n = 6 + distribution.len() as int;
    if name == "InRelease"@ {
        assert(path.subrange(n, n + 10) =~= "/InRelease"@);
        assert(occurs_at(path, "/InRelease"@, n));
    } else {
        assert(path.subrange(n, n + 8) =~= "/Release"@);
        assert(occurs_at(path, "/Release"@, n));
    }
}

/// The path of a Packages index of a distribution, in whichever form, says the
/// distribution, the component and the architecture.
pub proof fn packages_path_says_all(
    distribution: Seq<char>,
    component: Seq<char>,
    arch: Seq<char>,
    name: Seq<char>,
)
    requires
        !distribution.contains('/'),
        !component.contains('/'),
        !arch.contains('/'),
        !starts_with(arch, "binary-"@),
        !starts_with(distribution, "Release"@) && !starts_with(distribution, "InRelease"@),
        !starts_with(component, "Release"@) && !starts_with(component, "InRelease"@),
        name == "Packages"@ || name == "Packages.gz"@ || name == "Packages.xz"@,
    ensures
        path_info(
            "dists/"@ + distribution + "/"@ + component + "/binary-"@ + arch + "/"@ + name,
        ) == Ok::<PathModel, Failure>(
            PathModel {
                package: None,
                version: None,
                arch: Some(arch),
                component: Some(component),
                distribution: Some(distribution),
                operation: DebianOperation::Packages,
            },
        ),
{
    reveal_strlit("dists/");
    reveal_strlit("dists");
    reveal_strlit("pool");
    reveal_strlit("/");
    reveal_strlit("/binary-");
    reveal_strlit("binary-");
    reveal_strlit("Release");
    reveal_strlit("InRelease");
    reveal_strlit("/Release");
    reveal_strlit("/InRelease");
    reveal_strlit("/Packages");
    reveal_strlit("Packages");
    reveal_strlit("Packages.gz");
    reveal_strlit("Packages.xz");
    let path = "dists/"@ + distribution + "/"@ + component + "/binary-"@ + arch + "/"@ + name;
    let dir = "binary-"@ + arch;
    let r3 = dir + seq!['/'] + name;
    let r2 = component + seq!['/'] + r3;
    let r1 = distribution + seq!['/'] + r2;
    assert(!dir.contains('/')) by {
        if dir.contains('/') {
            let i = choose|i: int| 0 <= i < dir.len() && dir[i] == '/';
            if i >= 7 {
                assert(arch[i - 7] == '/');
            }
        }
    }
    assert(!name.contains('/'));
    assert(path =~= "dists"@ + seq!['/'] + r1);
    split_first("dists"@, r1, '/');
    split_first(distribution, r2, '/');
    split_first(component, r3, '/');
    split_first(dir, name, '/');
    split_single(name, '/');
    let parts = seq!["dists"@, distribution, component, dir, name];
    assert(split(path, '/') =~= parts);
    assert(path[0] == 'd');
    assert(trim_start_char(path, '/') == path);
    assert("pool"@.len() != "dists"@.len());
    assert(dir.take(7) =~= "binary-"@);
    assert(dir.skip(7) =~= arch);
    reveal_with_fuel(trim_start_text, 2);
    assert(trim_start_text(dir, "binary-"@) == arch);
    assert(!has_part(path, "Release"@) && !has_part(path, "InRelease"@)) by {
        assert(dir[0] == 'b' && name[0] == 'P');
        if starts_with(dir, "Release"@) {
            assert(dir.take(7)[0] == 'R');
        }
        if starts_with(dir, "InRelease"@) {
            assert(dir.take(9)[0] == 'I');
        }
        if starts_with(name, "Release"@) {
            assert(name.take(7)[0] == 'R');
        }
        if starts_with(name, "InRelease"@) {
            assert(name.take(9)[0] == 'I');
        }
        assert forall|i: int| 1 <= i < 5 implies !starts_with(#[trigger] parts[i], "Release"@)
            && !starts_with(parts[i], "InRelease"@) by {
            assert(i == 1 || i == 2 || i == 3 || i == 4);
        }
    }
    part_is_found(path, "Release"@);
    part_is_found(path, "InRelease"@);
    assert(seq!['/'] + "Release"@ =~= "/Release"@);
    assert(seq!['/'] + "InRelease"@ =~= "/InRelease"@);
    let n = path.len() - name.len() - 1;
    assert(path.subrange(n, n + 9) =~= "/Packages"@);
    assert(occurs_at(path, "/Packages"@, n));
}

/// Slashes before a path say nothing.
pub proof fn leading_slash_says_nothing(path: Seq<char>)
    ensures
        path_info(seq!['/'] + path) == path_info(path),
{
    assert((seq!['/'] + path).drop_first() =~= path);
    assert((seq!['/'] + path)[0] == '/');
}

/// A path that names neither metadata nor a package file is refused.
pub proof fn other_path_is_refused(path: Seq<char>)
    requires
        !starts_with(path, "/"@),
        !has_part(path, "Release"@),
        !has_part(path, "InRelease"@),
        !has_part(path, "Packages"@),
        !starts_with(path, "pool/"@),
        !ends_with(path, ".deb"@),
        !ends_with(path, ".udeb"@),
    ensures
        path_info(path) is Err,
{
    reveal_strlit("/");
    reveal_strlit("pool");
    reveal_strlit("pool/");
    reveal_strlit("Release");
    reveal_strlit("InRelease");
    reveal_strlit("Packages");
    reveal_strlit("/Release");
    reveal_strlit("/InRelease");
    reveal_strlit("/Packages");
    if path.len() > 0 && path[0] == '/' {
        assert(path.take(1) =~= "/"@);
    }
    assert(trim_start_char(path, '/') == path);
    part_is_found(path, "Release"@);
    part_is_found(path, "InRelease"@);
    part_is_found(path, "Packages"@);
    assert(seq!['/'] + "Release"@ =~= "/Release"@);
    assert(seq!['/'] + "InRelease"@ =~= "/InRelease"@);
    assert(seq!['/'] + "Packages"@ =~= "/Packages"@);
    let parts = split(path, '/');
    if parts.len() >= 5 && parts[0] == "pool"@ {
        find_is_first(path, '/');
        let n = find(path, '/') as int;
        assert(n < path.len());
        assert(path.take(n) == parts[0]);
        assert(path.take(5) =~= path.take(n).push('/'));
        assert(path.take(5) =~= "pool/"@);
    }
}

/// What is kept of a file is what its path says, and, of a package file that is not empty,
/// what its control data says, if it can be read.
pub proof fn file_says_what_path_and_content_say(path: Seq<char>, content: Seq<u8>)
    ensures
        file_metadata(path, content) is Ok <==> path_info(path) is Ok,
        file_metadata(path, content) matches Ok(m) ==> {
            &&& m.info == path_info(path)->Ok_0
            &&& m.control is Some <==> content.len() > 0 && m.info.operation
                == DebianOperation::Package && deb_control(content) is Ok
            &&& m.control is Some ==> m.control->0 == deb_control(content)->Ok_0
        },
{
}

} // verus!
