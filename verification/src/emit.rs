//! Writing Packages, Sources and Release files.

use vstd::prelude::*;

use crate::clock::{is_plain_line, rfc2822_now};
use crate::control::{ControlModel, DebControl};
use crate::number::{decimal_text, write_u64};
use crate::ordered::{copy_texts, TextMap};
use crate::release::{HashModel, ReleaseHash};
use crate::sort::{key_lt, sort_items, sorted, text_comes_before, Sortable};
use crate::text::{chars_of, is_blank_text, join_texts, lines_of, text_of};
use crate::text::{is_blank, join, lines, opt_text, pieces, text_lt_irreflexive};

verus! {

// ---------------------------------------------------------------------------
// Model: fields
// ---------------------------------------------------------------------------

/// The lines that continue a field, each behind a space. An empty line is
/// written as a dot.
pub open spec fn continuation(ls: Seq<Seq<char>>) -> Seq<char>
    decreases ls.len(),
{
    if ls.len() == 0 {
        seq![]
    } else {
        continuation(ls.drop_last()) + seq![' '] + (if ls.last().len() == 0 {
            "."@
        } else {
            ls.last()
        }) + seq!['\n']
    }
}

/// A field as it is written: nothing where the value has no line.
pub open spec fn field_text(key: Seq<char>, value: Seq<char>) -> Seq<char> {
    let ls = lines(value);
    if ls.len() == 0 {
        seq![]
    } else {
        key + ": "@ + ls[0] + seq!['\n'] + continuation(ls.drop_first())
    }
}

/// A field that is written where it holds more than white space.
pub open spec fn optional_text(key: Seq<char>, value: Option<Seq<char>>) -> Seq<char> {
    if value is Some && !is_blank(value->0) {
        field_text(key, value->0)
    } else {
        seq![]
    }
}

/// A list that is written where it holds something.
pub open spec fn list_text(key: Seq<char>, values: Option<Seq<Seq<char>>>) -> Seq<char> {
    if values is Some && values->0.len() > 0 {
        field_text(key, join(values->0, ", "@))
    } else {
        seq![]
    }
}

/// A number that is written where it is known.
pub open spec fn number_text(key: Seq<char>, value: Option<u64>) -> Seq<char> {
    match value {
        Some(n) => field_text(key, decimal_text(n as nat)),
        None => seq![],
    }
}

/// Fields, one after the other.
pub open spec fn fields_text(entries: Seq<(Seq<char>, Seq<char>)>) -> Seq<char>
    decreases entries.len(),
{
    if entries.len() == 0 {
        seq![]
    } else {
        fields_text(entries.drop_last()) + field_text(entries.last().0, entries.last().1)
    }
}

/// The fields of a control stanza as an index writes them.
pub open spec fn control_text(c: ControlModel) -> Seq<char> {
    field_text("Package"@, c.package) + field_text("Version"@, c.version) + field_text(
        "Architecture"@,
        c.architecture,
    ) + optional_text("Maintainer"@, c.maintainer) + number_text(
        "Installed-Size"@,
        c.installed_size,
    ) + list_text("Depends"@, c.depends) + list_text("Pre-Depends"@, c.pre_depends) + list_text(
        "Recommends"@,
        c.recommends,
    ) + list_text("Suggests"@, c.suggests) + list_text("Conflicts"@, c.conflicts) + list_text(
        "Provides"@,
        c.provides,
    ) + list_text("Replaces"@, c.replaces) + optional_text("Section"@, c.section) + optional_text(
        "Priority"@,
        c.priority,
    ) + optional_text("Homepage"@, c.homepage) + optional_text("Source"@, c.source) + fields_text(
        c.extra,
    ) + optional_text("Description"@, c.description)
}

/// An entry of a Packages file.
pub open spec fn packages_entry_text(
    c: ControlModel,
    filename: Seq<char>,
    size: u64,
    md5sum: Seq<char>,
    sha256: Seq<char>,
) -> Seq<char> {
    control_text(c) + field_text("Filename"@, filename) + field_text(
        "Size"@,
        decimal_text(size as nat),
    ) + field_text("MD5sum"@, md5sum) + field_text("SHA256"@, sha256)
}

// ---------------------------------------------------------------------------
// Model: Release
// ---------------------------------------------------------------------------

/// A line of a hash section.
pub open spec fn hash_line(hash: Seq<char>, size: nat, path: Seq<char>) -> Seq<char> {
    " "@ + hash + " "@ + decimal_text(size) + " "@ + path + "\n"@
}

/// The lines of a hash section.
pub open spec fn hash_lines(hashes: Seq<HashModel>) -> Seq<char>
    decreases hashes.len(),
{
    if hashes.len() == 0 {
        seq![]
    } else {
        hash_lines(hashes.drop_last()) + hash_line(
            hashes.last().hash,
            hashes.last().size as nat,
            hashes.last().path,
        )
    }
}

/// A Release file of a date, its lists and hashes in ascending order.
pub open spec fn release_text(
    suite: Seq<char>,
    codename: Option<Seq<char>>,
    architectures: Seq<Seq<char>>,
    components: Seq<Seq<char>>,
    hashes: Seq<HashModel>,
    date: Seq<char>,
) -> Seq<char> {
    "Suite: "@ + suite + "\n"@ + (match codename {
        Some(name) => "Codename: "@ + name + "\n"@,
        None => seq![],
    }) + "Date: "@ + date + "\n"@ + "Architectures: "@ + join(
        sorted::<String>(architectures),
        " "@,
    ) + "\n"@ + "Components: "@ + join(sorted::<String>(components), " "@) + "\n"@ + (if hashes.len()
        > 0 {
        "SHA256:\n"@ + hash_lines(sorted::<ReleaseHash>(hashes))
    } else {
        seq![]
    })
}

// ---------------------------------------------------------------------------
// Fields
// ---------------------------------------------------------------------------

/// Writes a field.
pub fn push_control_field(text: &mut String, key: &str, value: &str)
    ensures
        final(text)@ == old(text)@ + field_text(key@, value@),
{
    let chars = chars_of(value);
    let ls = lines_of(chars.as_slice());
    let ghost all = pieces(ls@);
    let ghost start = text@;
    if ls.len() == 0 {
        assert(start + field_text(key@, value@) =~= start);
        return;
    }
    let first = text_of(ls[0]);
    text.append(key);
    text.append(": ");
    text.append(first.as_str());
    text.push('\n');
    let ghost rest = all.drop_first();
    let ghost head = key@ + ": "@ + all[0] + seq!['\n'];
    assert(text@ =~= start + head);
    assert(start + (head + continuation(rest.take(0))) =~= start + head);
    for i in 1..ls.len()
        invariant
            all == pieces(ls@),
            rest == all.drop_first(),
            text@ == start + (head + continuation(rest.take(i - 1))),
    {
        let line = text_of(ls[i]);
        let ghost before = text@;
        proof {
            assert(rest.take(i as int).drop_last() =~= rest.take(i - 1));
            assert(rest.take(i as int).last() == ls[i as int]@);
        }
        text.push(' ');
        if ls[i].len() == 0 {
            text.append(".");
        } else {
            text.append(line.as_str());
        }
        text.push('\n');
        proof {
            let shown = if line@.len() == 0 {
                "."@
            } else {
                line@
            };
            assert(text@ =~= before + (seq![' '] + shown + seq!['\n']));
            assert(text@ =~= start + (head + continuation(rest.take(i as int))));
        }
    }
    assert(rest.take(rest.len() as int) =~= rest);
}

/// Writes a field that holds more than white space.
pub fn push_optional_control_field(text: &mut String, key: &str, value: Option<&str>)
    ensures
        final(text)@ == old(text)@ + optional_text(
            key@,
            opt_text(value),
        ),
{
    let ghost start = text@;
    if let Some(v) = value {
        if !is_blank_text(v) {
            push_control_field(text, key, v);
            return;
        }
    }
    assert(start + Seq::<char>::empty() =~= start);
}

/// The text of an optional string.
pub(crate) fn as_text(value: &Option<String>) -> (r: Option<&str>)
    ensures
        value.deep_view() == opt_text(r),
{
    match value {
        Some(text) => Some(text.as_str()),
        None => None,
    }
}

/// Writes a list that holds something.
pub fn push_dependency_field(text: &mut String, key: &str, values: &Option<Vec<String>>)
    ensures
        final(text)@ == old(text)@ + list_text(key@, values.deep_view()),
{
    let ghost start = text@;
    if let Some(list) = values {
        if list.len() > 0 {
            let joined = join_texts(list.as_slice(), ", ");
            push_control_field(text, key, joined.as_str());
            return;
        }
    }
    assert(start + Seq::<char>::empty() =~= start);
}

/// Writes a number that is known.
pub fn push_number_field(text: &mut String, key: &str, value: Option<u64>)
    ensures
        final(text)@ == old(text)@ + number_text(key@, value),
{
    let ghost start = text@;
    if let Some(n) = value {
        let digits = write_u64(n);
        push_control_field(text, key, digits.as_str());
    } else {
        assert(start + Seq::<char>::empty() =~= start);
    }
}

/// Writes fields in the order of their names.
pub fn push_fields(text: &mut String, entries: &TextMap<String>)
    ensures
        final(text)@ == old(text)@ + fields_text(entries.deep_view()),
{
    let ghost start = text@;
    let ghost all = entries.deep_view();
    assert(start + fields_text(all.take(0)) =~= start);
    let count: usize = entries.len();
    for i in 0..count
        invariant
            count == all.len(),
            all == entries.deep_view(),
            text@ == start + fields_text(all.take(i as int)),
    {
        assert(all.take(i + 1).drop_last() =~= all.take(i as int));
        push_control_field(text, entries.key_at(i).as_str(), entries.value_at(i).as_str());
        assert(text@ =~= start + fields_text(all.take(i + 1)));
    }
    assert(all.take(all.len() as int) =~= all);
}

/// Writes the fields of a control stanza.
pub fn push_control_fields(text: &mut String, control: &DebControl)
    ensures
        final(text)@ == old(text)@ + control_text(control.deep_view()),
{
    let ghost start = text@;
    let mut entry = String::new();
    push_control_field(&mut entry, "Package", control.package.as_str());
    assert(Seq::<char>::empty() + field_text("Package"@, control.package@) =~= field_text(
        "Package"@,
        control.package@,
    ));
    push_control_field(&mut entry, "Version", control.version.as_str());
    push_control_field(&mut entry, "Architecture", control.architecture.as_str());
    push_optional_control_field(&mut entry, "Maintainer", as_text(&control.maintainer));
    push_number_field(&mut entry, "Installed-Size", control.installed_size);
    push_dependency_field(&mut entry, "Depends", &control.depends);
    push_dependency_field(&mut entry, "Pre-Depends", &control.pre_depends);
    push_dependency_field(&mut entry, "Recommends", &control.recommends);
    push_dependency_field(&mut entry, "Suggests", &control.suggests);
    push_dependency_field(&mut entry, "Conflicts", &control.conflicts);
    push_dependency_field(&mut entry, "Provides", &control.provides);
    push_dependency_field(&mut entry, "Replaces", &control.replaces);
    push_optional_control_field(&mut entry, "Section", as_text(&control.section));
    push_optional_control_field(&mut entry, "Priority", as_text(&control.priority));
    push_optional_control_field(&mut entry, "Homepage", as_text(&control.homepage));
    push_optional_control_field(&mut entry, "Source", as_text(&control.source));
    push_fields(&mut entry, &control.extra);
    push_optional_control_field(&mut entry, "Description", as_text(&control.description));
    assert(entry@ == control_text(control.deep_view()));
    text.append(entry.as_str());
}

/// Writes an entry of a Packages file.
pub fn generate_packages_entry(
    control: &DebControl,
    filename: &str,
    size: u64,
    md5sum: &str,
    sha256: &str,
) -> (r: String)
    ensures
        r@ == packages_entry_text(control.deep_view(), filename@, size, md5sum@, sha256@),
{
    let mut entry = String::new();
    push_control_fields(&mut entry, control);
    assert(entry@ =~= control_text(control.deep_view()));
    push_control_field(&mut entry, "Filename", filename);
    let digits = write_u64(size);
    push_control_field(&mut entry, "Size", digits.as_str());
    push_control_field(&mut entry, "MD5sum", md5sum);
    push_control_field(&mut entry, "SHA256", sha256);
    entry
}

// ---------------------------------------------------------------------------
// Release
// ---------------------------------------------------------------------------

impl Sortable for ReleaseHash {
    open spec fn key(item: HashModel) -> Seq<Seq<char>> {
        seq![item.path]
    }

    fn comes_before(&self, other: &Self) -> (r: bool) {
        let ghost a = Self::key(self.deep_view());
        let ghost b = Self::key(other.deep_view());
        proof {
            reveal_with_fuel(key_lt, 2);
            assert(a.drop_first() =~= seq![]);
            assert(b.drop_first() =~= seq![]);
            if self.path@ == other.path@ {
                text_lt_irreflexive(self.path@);
            }
        }
        text_comes_before(self.path.as_str(), other.path.as_str())
    }
}

/// Writes a line of a hash section.
pub(crate) fn push_hash_line(text: &mut String, hash: &str, size: u64, path: &str)
    ensures
        final(text)@ == old(text)@ + hash_line(hash@, size as nat, path@),
{
    let ghost start = text@;
    let digits = write_u64(size);
    text.append(" ");
    text.append(hash);
    text.append(" ");
    text.append(digits.as_str());
    text.append(" ");
    text.append(path);
    text.append("\n");
    assert(text@ =~= start + hash_line(hash@, size as nat, path@));
}

/// Writes a Release file of a given date.
pub fn generate_release_at(
    suite: &str,
    codename: Option<&str>,
    architectures: &[String],
    components: &[String],
    hashes: Vec<ReleaseHash>,
    date: &str,
) -> (r: String)
    ensures
        r@ == release_text(
            suite@,
            opt_text(codename),
            architectures.deep_view(),
            components.deep_view(),
            hashes.deep_view(),
            date@,
        ),
{
    let ghost all = hashes.deep_view();
    let archs = sort_items(copy_texts(architectures));
    let comps = sort_items(copy_texts(components));
    let arch_list = join_texts(archs.as_slice(), " ");
    let comp_list = join_texts(comps.as_slice(), " ");
    let mut release = String::new();
    release.append("Suite: ");
    assert(release@ =~= "Suite: "@);
    release.append(suite);
    release.append("\n");
    let ghost head = release@;
    if let Some(name) = codename {
        release.append("Codename: ");
        release.append(name);
        release.append("\n");
        assert(release@ =~= head + ("Codename: "@ + name@ + "\n"@));
    } else {
        assert(head + Seq::<char>::empty() =~= head);
    }
    release.append("Date: ");
    release.append(date);
    release.append("\n");
    release.append("Architectures: ");
    release.append(arch_list.as_str());
    release.append("\n");
    release.append("Components: ");
    release.append(comp_list.as_str());
    release.append("\n");
    let ghost start = release@;
    if hashes.len() > 0 {
        let files = sort_items(hashes);
        let ghost fs = files.deep_view();
        release.append("SHA256:\n");
        assert(release@ =~= start + ("SHA256:\n"@ + hash_lines(fs.take(0))));
        for i in 0..files.len()
            invariant
                fs == files.deep_view(),
                release@ == start + ("SHA256:\n"@ + hash_lines(fs.take(i as int))),
        {
            proof {
                assert(fs.take(i + 1).drop_last() =~= fs.take(i as int));
                assert(fs.take(i + 1).last() == files[i as int].deep_view());
            }
            push_hash_line(
                &mut release,
                files[i].hash.as_str(),
                files[i].size,
                files[i].path.as_str(),
            );
            assert(release@ =~= start + ("SHA256:\n"@ + hash_lines(fs.take(i + 1))));
        }
        assert(fs.take(fs.len() as int) =~= fs);
    } else {
        assert(start + Seq::<char>::empty() =~= start);
    }
    release
}

/// Writes a Release file of the present moment.
pub fn generate_release(
    suite: &str,
    codename: Option<&str>,
    architectures: &[String],
    components: &[String],
    hashes: Vec<ReleaseHash>,
) -> (r: String)
    ensures
        exists|date: Seq<char>|
            #[trigger] is_plain_line(date) && r@ == release_text(
                suite@,
                opt_text(codename),
                architectures.deep_view(),
                components.deep_view(),
                hashes.deep_view(),
                date,
            ),
{
    let date = rfc2822_now();
    generate_release_at(suite, codename, architectures, components, hashes, date.as_str())
}

} // verus!
