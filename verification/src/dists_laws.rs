//! What is asked for below a distribution, said of the paths.

use vstd::prelude::*;

use crate::codec::xz;
use crate::dists::{content_type_of, contents_request, ext_of, ext_text, packages_ext, packages_request, plain_path};
use crate::dists::{ContentsRequestModel, PackagesExt, PackagesRequestModel};
use crate::text::{ends_with, split, split_first, split_single, starts_with};
use crate::text_laws::{pieces_make_the_text, three_pieces_make_the_text, two_pieces_make_the_text};

verus! {

proof fn no_slash_in(a: Seq<char>, b: Seq<char>)
    requires
        !a.contains('/'),
        !b.contains('/'),
    ensures
        !(a + b).contains('/'),
{
    if (a + b).contains('/') {
        let i = choose|i: int| 0 <= i < (a + b).len() && (a + b)[i] == '/';
        if i < a.len() {
            assert(a[i] == '/');
        } else {
            assert(b[i - a.len()] == '/');
        }
    }
}

/// The path `<component>/binary-<arch>/Packages`, in each of its forms, asks for the
/// Packages index of that component, directory and form.
pub proof fn packages_path_asks(component: Seq<char>, arch: Seq<char>, ext: PackagesExt)
    requires
        !component.contains('/'),
        !arch.contains('/'),
    ensures
        packages_request(component + "/binary-"@ + arch + "/Packages"@ + ext_text(ext)) == Some(
            PackagesRequestModel { component, binary_arch: "binary-"@ + arch, ext },
        ),
        ext_text(PackagesExt::Plain) == ""@,
        ext_text(PackagesExt::Gz) == ".gz"@,
        ext_text(PackagesExt::Xz) == ".xz"@,
{
    reveal_strlit("");
    reveal_strlit(".gz");
    reveal_strlit(".xz");
    reveal_strlit("/binary-");
    reveal_strlit("binary-");
    reveal_strlit("/Packages");
    reveal_strlit("Packages");
    reveal_strlit("Packages.gz");
    reveal_strlit("Packages.xz");
    let path = component + "/binary-"@ + arch + "/Packages"@ + ext_text(ext);
    let dir = "binary-"@ + arch;
    let name = "Packages"@ + ext_text(ext);
    no_slash_in("binary-"@, arch);
    no_slash_in("Packages"@, ext_text(ext));
    let rest = dir + seq!['/'] + name;
    assert(path =~= component + seq!['/'] + rest);
    split_first(component, rest, '/');
    split_first(dir, name, '/');
    split_single(name, '/');
    assert(split(path, '/') =~= seq![component, dir, name]);
    assert(dir.take(7) =~= "binary-"@);
    assert("Packages"@ + ".gz"@ =~= "Packages.gz"@);
    assert("Packages"@ + ".xz"@ =~= "Packages.xz"@);
    assert("Packages"@ + ""@ =~= "Packages"@);
    assert("Packages.gz"@[9] == 'g' && "Packages.xz"@[9] == 'x');
    assert(starts_with(dir, "binary-"@));
    assert(packages_ext(name) == Some(ext));
}

/// Only such a path asks for a Packages index.
pub proof fn packages_request_comes_from_path(path: Seq<char>, r: PackagesRequestModel)
    requires
        packages_request(path) == Some(r),
    ensures
        path == r.component + "/"@ + r.binary_arch + "/Packages"@ + ext_text(r.ext),
        starts_with(r.binary_arch, "binary-"@),
        !r.component.contains('/'),
        !r.binary_arch.contains('/'),
{
    reveal_strlit("");
    reveal_strlit(".gz");
    reveal_strlit(".xz");
    reveal_strlit("/");
    reveal_strlit("/Packages");
    reveal_strlit("Packages");
    reveal_strlit("Packages.gz");
    reveal_strlit("Packages.xz");
    three_pieces_make_the_text(path, '/');
    pieces_make_the_text(path, '/');
    let parts = split(path, '/');
    assert(!parts[0].contains('/') && !parts[1].contains('/'));
    assert("/Packages"@ + ext_text(r.ext) =~= seq!['/'] + parts[2]);
    assert(path =~= r.component + "/"@ + r.binary_arch + "/Packages"@ + ext_text(r.ext));
}

/// The path `<component>/Contents-<arch>`, in each of its forms, asks for the Contents
/// index of that component, architecture and form.
pub proof fn contents_path_asks(component: Seq<char>, arch: Seq<char>, ext: PackagesExt)
    requires
        !component.contains('/'),
        !arch.contains('/'),
        !arch.contains('.'),
        arch.len() > 0,
    ensures
        contents_request(component + "/Contents-"@ + arch + ext_text(ext)) == Some(
            ContentsRequestModel { component, arch, ext },
        ),
{
    reveal_strlit("");
    reveal_strlit(".gz");
    reveal_strlit(".xz");
    reveal_strlit("/Contents-");
    reveal_strlit("Contents-");
    let path = component + "/Contents-"@ + arch + ext_text(ext);
    let rest = arch + ext_text(ext);
    let name = "Contents-"@ + rest;
    no_slash_in(arch, ext_text(ext));
    no_slash_in("Contents-"@, rest);
    assert(path =~= component + seq!['/'] + name);
    split_first(component, name, '/');
    split_single(name, '/');
    assert(split(path, '/') =~= seq![component, name]);
    assert(name.take(9) =~= "Contents-"@);
    assert(name.skip(9) =~= rest);
    match ext {
        PackagesExt::Plain => {
            assert(rest =~= arch);
            if ends_with(rest, ".gz"@) {
                assert(rest.skip(rest.len() - 3)[0] == '.');
                assert(arch.contains(arch[rest.len() - 3]));
            }
            if ends_with(rest, ".xz"@) {
                assert(rest.skip(rest.len() - 3)[0] == '.');
                assert(arch.contains(arch[rest.len() - 3]));
            }
        },
        PackagesExt::Gz => {
            assert(rest.skip(rest.len() - 3) =~= ".gz"@);
            assert(rest.take(rest.len() - 3) =~= arch);
        },
        PackagesExt::Xz => {
            assert(rest.skip(rest.len() - 3) =~= ".xz"@);
            assert(rest.take(rest.len() - 3) =~= arch);
            if ends_with(rest, ".gz"@) {
                assert(rest.skip(rest.len() - 3)[1] == ".gz"@[1]);
            }
        },
    }
}

/// Only such a path asks for a Contents index.
pub proof fn contents_request_comes_from_path(path: Seq<char>, r: ContentsRequestModel)
    requires
        contents_request(path) == Some(r),
    ensures
        path == r.component + "/Contents-"@ + r.arch + ext_text(r.ext),
        !r.component.contains('/'),
        r.arch.len() > 0,
{
    reveal_strlit("");
    reveal_strlit(".gz");
    reveal_strlit(".xz");
    reveal_strlit("/Contents-");
    reveal_strlit("Contents-");
    two_pieces_make_the_text(path, '/');
    pieces_make_the_text(path, '/');
    let parts = split(path, '/');
    assert(!parts[0].contains('/'));
    let rest = parts[1].skip(9);
    assert(parts[1] =~= "Contents-"@ + rest);
    if ends_with(rest, ".gz"@) {
        assert(rest =~= rest.take(rest.len() - 3) + rest.skip(rest.len() - 3));
    } else if ends_with(rest, ".xz"@) {
        assert(rest =~= rest.take(rest.len() - 3) + rest.skip(rest.len() - 3));
    }
    assert(rest =~= r.arch + ext_text(r.ext));
    assert(path =~= r.component + "/Contents-"@ + r.arch + ext_text(r.ext));
}

/// The plain path of a compressed index is the path without the extension, and that of
/// any other path the path itself; the extension also says how a stored text is handed
/// out, and as what.
pub proof fn extension_says_the_form(base: Seq<char>)
    ensures
        plain_path(base + ".gz"@) == base,
        plain_path(base + ".xz"@) == base,
        !ends_with(base, ".gz"@) && !ends_with(base, ".xz"@) ==> plain_path(base) == base
            && ext_of(base) == PackagesExt::Plain,
        ext_of(base + ".gz"@) == PackagesExt::Gz,
        ext_of(base + ".xz"@) == PackagesExt::Xz,
        content_type_of(base + ".gz"@) == "application/gzip"@,
        content_type_of(base + ".xz"@) == "application/x-xz"@,
{
    reveal_strlit(".gz");
    reveal_strlit(".xz");
    let gz = base + ".gz"@;
    let xz = base + ".xz"@;
    assert(gz.skip(gz.len() - 3) =~= ".gz"@);
    assert(gz.take(gz.len() - 3) =~= base);
    assert(xz.skip(xz.len() - 3) =~= ".xz"@);
    assert(xz.take(xz.len() - 3) =~= base);
    if ends_with(xz, ".gz"@) {
        assert(xz.skip(xz.len() - 3)[1] == ".gz"@[1]);
    }
    if ends_with(gz, ".xz"@) {
        assert(gz.skip(gz.len() - 3)[1] == ".xz"@[1]);
    }
}

} // verus!
