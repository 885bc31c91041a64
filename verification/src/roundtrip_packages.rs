//! What is written in a Packages index reads back.

use vstd::prelude::*;

use crate::control::{blank_control, control_of, control_with, dependency_list, trimmed_items, with_field};
use crate::control::ControlModel;
use crate::emit::{control_text, field_text, fields_text, list_text, number_text, optional_text, packages_entry_text};
use crate::error::Failure;
use crate::generated::{mirrored_entry_text, mirrored_text};
use crate::hosted::{hosted_text, HostedModel};
use crate::index::{file_fields, package_of, packages_from, packages_of, PackageModel};
use crate::number::{decimal_round_trip, decimal_text, decimal_text_is_digits, decimal_u64};
use crate::ordered::{ascending, keys_of, lookup, lookup_after_put, put, slot, slot_cuts, without_all};
use crate::roundtrip::{all_lines, are_writable, document_lines, documents_split, fields_are_flat, fields_read_back};
use crate::roundtrip::{flat, flat_add, is_key, is_stanza, is_writable, lines_of_flat, lines_of_open_flat};
use crate::roundtrip::{lookup_iff_contains, same_lookups_same_map, stanza_text, trim_behind_space};
use crate::roundtrip::{without_all_lookup, writable_is_not_blank};
use crate::stanza::stanzas;
use crate::text::{find, find_is_first, is_white, join, lines, lower, lowers_to, split, split_single, text_lt, trim};
use crate::text::{trim_end, trim_start};

verus! {

// ---------------------------------------------------------------------------
// What can be written
// ---------------------------------------------------------------------------

/// A list that a field can hold: its items are trimmed and hold no comma.
pub open spec fn is_writable_list(items: Seq<Seq<char>>) -> bool {
    &&& items.len() > 0
    &&& forall|i: int|
        0 <= i < items.len() ==> (#[trigger] items[i]).len() > 0 && trim(items[i]) == items[i]
            && !items[i].contains(',')
    &&& is_writable(join(items, ", "@))
}

/// The field is none of those that a control stanza knows.
pub open spec fn is_extra(key: Seq<char>) -> bool {
    &&& !lowers_to(key, "package"@)
    &&& !lowers_to(key, "version"@)
    &&& !lowers_to(key, "architecture"@)
    &&& !lowers_to(key, "maintainer"@)
    &&& !lowers_to(key, "installed-size"@)
    &&& !lowers_to(key, "depends"@)
    &&& !lowers_to(key, "pre-depends"@)
    &&& !lowers_to(key, "recommends"@)
    &&& !lowers_to(key, "suggests"@)
    &&& !lowers_to(key, "conflicts"@)
    &&& !lowers_to(key, "provides"@)
    &&& !lowers_to(key, "replaces"@)
    &&& !lowers_to(key, "section"@)
    &&& !lowers_to(key, "priority"@)
    &&& !lowers_to(key, "homepage"@)
    &&& !lowers_to(key, "description"@)
    &&& !lowers_to(key, "source"@)
}

/// An optional value that a field can hold.
pub open spec fn is_writable_option(value: Option<Seq<char>>) -> bool {
    value matches Some(text) ==> is_writable(text)
}

/// An optional list that a field can hold.
pub open spec fn is_writable_list_option(value: Option<Seq<Seq<char>>>) -> bool {
    value matches Some(items) ==> is_writable_list(items)
}

/// A control stanza whose fields can all be written.
pub open spec fn is_writable_control(c: ControlModel) -> bool {
    &&& is_writable(c.package)
    &&& is_writable(c.version)
    &&& is_writable(c.architecture)
    &&& is_writable_option(c.maintainer)
    &&& is_writable_list_option(c.depends)
    &&& is_writable_list_option(c.pre_depends)
    &&& is_writable_list_option(c.recommends)
    &&& is_writable_list_option(c.suggests)
    &&& is_writable_list_option(c.conflicts)
    &&& is_writable_list_option(c.provides)
    &&& is_writable_list_option(c.replaces)
    &&& is_writable_option(c.section)
    &&& is_writable_option(c.priority)
    &&& is_writable_option(c.homepage)
    &&& is_writable_option(c.source)
    &&& is_writable_option(c.description)
    &&& ascending(keys_of(c.extra))
    &&& forall|i: int|
        0 <= i < c.extra.len() ==> is_key((#[trigger] c.extra[i]).0) && is_extra(c.extra[i].0)
            && !file_fields().contains(c.extra[i].0) && is_writable(c.extra[i].1)
}

/// An entry of a Packages index whose fields can all be written.
pub open spec fn is_writable_entry(e: PackageModel) -> bool {
    &&& is_writable_control(e.control)
    &&& is_writable_option(e.filename)
    &&& is_writable_option(e.md5sum)
    &&& is_writable_option(e.sha1)
    &&& is_writable_option(e.sha256)
}

// ---------------------------------------------------------------------------
// Lists
// ---------------------------------------------------------------------------

proof fn split_push(a: Seq<char>, b: Seq<char>, c: char)
    requires
        !b.contains(c),
    ensures
        split(a + seq![c] + b, c) == split(a, c).push(b),
    decreases a.len(),
{
    let s = a + seq![c] + b;
    find_is_first(a, c);
    let n = find(a, c) as int;
    if n >= a.len() {
        assert(!a.contains(c)) by {
            if a.contains(c) {
                let k = choose|k: int| 0 <= k < a.len() && a[k] == c;
            }
        }
        crate::text::split_first(a, b, c);
        split_single(b, c);
        assert(seq![a] + seq![b] =~= seq![a].push(b));
    } else {
        let head = a.take(n);
        let rest = a.skip(n + 1);
        assert(!head.contains(c)) by {
            if head.contains(c) {
                let k = choose|k: int| 0 <= k < head.len() && head[k] == c;
                assert(a[k] == c);
            }
        }
        assert(a =~= head + seq![c] + rest);
        assert(s =~= head + seq![c] + (rest + seq![c] + b));
        crate::text::split_first(head, rest + seq![c] + b, c);
        crate::text::split_first(head, rest, c);
        split_push(rest, b, c);
        assert(seq![head] + split(rest, c).push(b) =~= (seq![head] + split(rest, c)).push(b));
    }
}

/// A list that is written is read back.
proof fn list_reads_back(items: Seq<Seq<char>>)
    requires
        items.len() > 0,
        forall|i: int|
            0 <= i < items.len() ==> (#[trigger] items[i]).len() > 0 && trim(items[i]) == items[i]
                && !items[i].contains(','),
    ensures
        dependency_list(join(items, ", "@)) == items,
    decreases items.len(),
{
    reveal_strlit(", ");
    let last = items[items.len() - 1];
    if items.len() == 1 {
        split_single(last, ',');
        let one = seq![last];
        assert(trimmed_items(one.drop_last()) =~= seq![]);
        assert(one.last() == last);
        assert(trimmed_items(one) =~= items);
    } else {
        let t = items.drop_last();
        assert forall|i: int| 0 <= i < t.len() implies (#[trigger] t[i]).len() > 0 && trim(t[i])
            == t[i] && !t[i].contains(',') by {
            assert(t[i] == items[i]);
        }
        list_reads_back(t);
        let a = join(t, ", "@);
        let b = seq![' '] + last;
        assert(join(items, ", "@) =~= a + seq![','] + b);
        assert(!b.contains(',')) by {
            if b.contains(',') {
                let k = choose|k: int| 0 <= k < b.len() && b[k] == ',';
                if k > 0 {
                    assert(last.contains(last[k - 1]));
                }
            }
        }
        split_push(a, b, ',');
        trim_behind_space(last);
        assert(split(a, ',').push(b).drop_last() =~= split(a, ','));
        assert(t.push(last) =~= items);
    }
}

// ---------------------------------------------------------------------------
// Field names
// ---------------------------------------------------------------------------

proof fn is_not_named(key: Seq<char>, name: Seq<char>, i: int)
    requires
        key.len() != name.len() || (0 <= i < key.len() && lower(key[i]) != name[i] && key[i]
            < '\u{80}'),
    ensures
        !lowers_to(key, name),
{
    if lowers_to(key, name) {
        assert(lower(key[i]) == name[i] || (key[i] == '\u{212a}' && name[i] == 'k'));
    }
}

proof fn sets_package(c: ControlModel, value: Seq<char>)
    ensures
        with_field(c, "Package"@, value) == (ControlModel { package: value, ..c }),
{
    reveal_strlit("Package");
    reveal_strlit("package");
}

proof fn sets_version(c: ControlModel, value: Seq<char>)
    ensures
        with_field(c, "Version"@, value) == (ControlModel { version: value, ..c }),
{
    reveal_strlit("Version");
    reveal_strlit("package");
    is_not_named("Version"@, "package"@, 0);
    reveal_strlit("version");
}

proof fn sets_architecture(c: ControlModel, value: Seq<char>)
    ensures
        with_field(c, "Architecture"@, value) == (ControlModel { architecture: value, ..c }),
{
    reveal_strlit("Architecture");
    reveal_strlit("package");
    is_not_named("Architecture"@, "package"@, 0);
    reveal_strlit("version");
    is_not_named("Architecture"@, "version"@, 0);
    reveal_strlit("architecture");
}

proof fn sets_maintainer(c: ControlModel, value: Seq<char>)
    ensures
        with_field(c, "Maintainer"@, value) == (ControlModel { maintainer: Some(value), ..c }),
{
    reveal_strlit("Maintainer");
    reveal_strlit("package");
    is_not_named("Maintainer"@, "package"@, 0);
    reveal_strlit("version");
    is_not_named("Maintainer"@, "version"@, 0);
    reveal_strlit("architecture");
    is_not_named("Maintainer"@, "architecture"@, 0);
    reveal_strlit("maintainer");
}

proof fn sets_installed_size(c: ControlModel, value: Seq<char>)
    ensures
        with_field(c, "Installed-Size"@, value) == (ControlModel { installed_size: decimal_u64(value), ..c }),
{
    reveal_strlit("Installed-Size");
    reveal_strlit("package");
    is_not_named("Installed-Size"@, "package"@, 0);
    reveal_strlit("version");
    is_not_named("Installed-Size"@, "version"@, 0);
    reveal_strlit("architecture");
    is_not_named("Installed-Size"@, "architecture"@, 0);
    reveal_strlit("maintainer");
    is_not_named("Installed-Size"@, "maintainer"@, 0);
    reveal_strlit("installed-size");
}

proof fn sets_depends(c: ControlModel, value: Seq<char>)
    ensures
        with_field(c, "Depends"@, value) == (ControlModel { depends: Some(dependency_list(value)), ..c }),
{
    reveal_strlit("Depends");
    reveal_strlit("package");
    is_not_named("Depends"@, "package"@, 0);
    reveal_strlit("version");
    is_not_named("Depends"@, "version"@, 0);
    reveal_strlit("architecture");
    is_not_named("Depends"@, "architecture"@, 0);
    reveal_strlit("maintainer");
    is_not_named("Depends"@, "maintainer"@, 0);
    reveal_strlit("installed-size");
    is_not_named("Depends"@, "installed-size"@, 0);
    reveal_strlit("depends");
}

proof fn sets_pre_depends(c: ControlModel, value: Seq<char>)
    ensures
        with_field(c, "Pre-Depends"@, value) == (ControlModel { pre_depends: Some(dependency_list(value)), ..c }),
{
    reveal_strlit("Pre-Depends");
    reveal_strlit("package");
    is_not_named("Pre-Depends"@, "package"@, 0);
    reveal_strlit("version");
    is_not_named("Pre-Depends"@, "version"@, 0);
    reveal_strlit("architecture");
    is_not_named("Pre-Depends"@, "architecture"@, 0);
    reveal_strlit("maintainer");
    is_not_named("Pre-Depends"@, "maintainer"@, 0);
    reveal_strlit("installed-size");
    is_not_named("Pre-Depends"@, "installed-size"@, 0);
    reveal_strlit("depends");
    is_not_named("Pre-Depends"@, "depends"@, 0);
    reveal_strlit("pre-depends");
}

proof fn sets_recommends(c: ControlModel, value: Seq<char>)
    ensures
        with_field(c, "Recommends"@, value) == (ControlModel { recommends: Some(dependency_list(value)), ..c }),
{
    reveal_strlit("Recommends");
    reveal_strlit("package");
    is_not_named("Recommends"@, "package"@, 0);
    reveal_strlit("version");
    is_not_named("Recommends"@, "version"@, 0);
    reveal_strlit("architecture");
    is_not_named("Recommends"@, "architecture"@, 0);
    reveal_strlit("maintainer");
    is_not_named("Recommends"@, "maintainer"@, 0);
    reveal_strlit("installed-size");
    is_not_named("Recommends"@, "installed-size"@, 0);
    reveal_strlit("depends");
    is_not_named("Recommends"@, "depends"@, 0);
    reveal_strlit("pre-depends");
    is_not_named("Recommends"@, "pre-depends"@, 0);
    reveal_strlit("recommends");
}

proof fn sets_suggests(c: ControlModel, value: Seq<char>)
    ensures
        with_field(c, "Suggests"@, value) == (ControlModel { suggests: Some(dependency_list(value)), ..c }),
{
    reveal_strlit("Suggests");
    reveal_strlit("package");
    is_not_named("Suggests"@, "package"@, 0);
    reveal_strlit("version");
    is_not_named("Suggests"@, "version"@, 0);
    reveal_strlit("architecture");
    is_not_named("Suggests"@, "architecture"@, 0);
    reveal_strlit("maintainer");
    is_not_named("Suggests"@, "maintainer"@, 0);
    reveal_strlit("installed-size");
    is_not_named("Suggests"@, "installed-size"@, 0);
    reveal_strlit("depends");
    is_not_named("Suggests"@, "depends"@, 0);
    reveal_strlit("pre-depends");
    is_not_named("Suggests"@, "pre-depends"@, 0);
    reveal_strlit("recommends");
    is_not_named("Suggests"@, "recommends"@, 0);
    reveal_strlit("suggests");
}

proof fn sets_conflicts(c: ControlModel, value: Seq<char>)
    ensures
        with_field(c, "Conflicts"@, value) == (ControlModel { conflicts: Some(dependency_list(value)), ..c }),
{
    reveal_strlit("Conflicts");
    reveal_strlit("package");
    is_not_named("Conflicts"@, "package"@, 0);
    reveal_strlit("version");
    is_not_named("Conflicts"@, "version"@, 0);
    reveal_strlit("architecture");
    is_not_named("Conflicts"@, "architecture"@, 0);
    reveal_strlit("maintainer");
    is_not_named("Conflicts"@, "maintainer"@, 0);
    reveal_strlit("installed-size");
    is_not_named("Conflicts"@, "installed-size"@, 0);
    reveal_strlit("depends");
    is_not_named("Conflicts"@, "depends"@, 0);
    reveal_strlit("pre-depends");
    is_not_named("Conflicts"@, "pre-depends"@, 0);
    reveal_strlit("recommends");
    is_not_named("Conflicts"@, "recommends"@, 0);
    reveal_strlit("suggests");
    is_not_named("Conflicts"@, "suggests"@, 0);
    reveal_strlit("conflicts");
}

proof fn sets_provides(c: ControlModel, value: Seq<char>)
    ensures
        with_field(c, "Provides"@, value) == (ControlModel { provides: Some(dependency_list(value)), ..c }),
{
    reveal_strlit("Provides");
    reveal_strlit("package");
    is_not_named("Provides"@, "package"@, 0);
    reveal_strlit("version");
    is_not_named("Provides"@, "version"@, 0);
    reveal_strlit("architecture");
    is_not_named("Provides"@, "architecture"@, 0);
    reveal_strlit("maintainer");
    is_not_named("Provides"@, "maintainer"@, 0);
    reveal_strlit("installed-size");
    is_not_named("Provides"@, "installed-size"@, 0);
    reveal_strlit("depends");
    is_not_named("Provides"@, "depends"@, 0);
    reveal_strlit("pre-depends");
    is_not_named("Provides"@, "pre-depends"@, 0);
    reveal_strlit("recommends");
    is_not_named("Provides"@, "recommends"@, 0);
    reveal_strlit("suggests");
    is_not_named("Provides"@, "suggests"@, 0);
    reveal_strlit("conflicts");
    is_not_named("Provides"@, "conflicts"@, 0);
    reveal_strlit("provides");
}

proof fn sets_replaces(c: ControlModel, value: Seq<char>)
    ensures
        with_field(c, "Replaces"@, value) == (ControlModel { replaces: Some(dependency_list(value)), ..c }),
{
    reveal_strlit("Replaces");
    reveal_strlit("package");
    is_not_named("Replaces"@, "package"@, 0);
    reveal_strlit("version");
    is_not_named("Replaces"@, "version"@, 0);
    reveal_strlit("architecture");
    is_not_named("Replaces"@, "architecture"@, 0);
    reveal_strlit("maintainer");
    is_not_named("Replaces"@, "maintainer"@, 0);
    reveal_strlit("installed-size");
    is_not_named("Replaces"@, "installed-size"@, 0);
    reveal_strlit("depends");
    is_not_named("Replaces"@, "depends"@, 0);
    reveal_strlit("pre-depends");
    is_not_named("Replaces"@, "pre-depends"@, 0);
    reveal_strlit("recommends");
    is_not_named("Replaces"@, "recommends"@, 0);
    reveal_strlit("suggests");
    is_not_named("Replaces"@, "suggests"@, 0);
    reveal_strlit("conflicts");
    is_not_named("Replaces"@, "conflicts"@, 0);
    reveal_strlit("provides");
    is_not_named("Replaces"@, "provides"@, 0);
    reveal_strlit("replaces");
}

proof fn sets_section(c: ControlModel, value: Seq<char>)
    ensures
        with_field(c, "Section"@, value) == (ControlModel { section: Some(value), ..c }),
{
    reveal_strlit("Section");
    reveal_strlit("package");
    is_not_named("Section"@, "package"@, 0);
    reveal_strlit("version");
    is_not_named("Section"@, "version"@, 0);
    reveal_strlit("architecture");
    is_not_named("Section"@, "architecture"@, 0);
    reveal_strlit("maintainer");
    is_not_named("Section"@, "maintainer"@, 0);
    reveal_strlit("installed-size");
    is_not_named("Section"@, "installed-size"@, 0);
    reveal_strlit("depends");
    is_not_named("Section"@, "depends"@, 0);
    reveal_strlit("pre-depends");
    is_not_named("Section"@, "pre-depends"@, 0);
    reveal_strlit("recommends");
    is_not_named("Section"@, "recommends"@, 0);
    reveal_strlit("suggests");
    is_not_named("Section"@, "suggests"@, 0);
    reveal_strlit("conflicts");
    is_not_named("Section"@, "conflicts"@, 0);
    reveal_strlit("provides");
    is_not_named("Section"@, "provides"@, 0);
    reveal_strlit("replaces");
    is_not_named("Section"@, "replaces"@, 0);
    reveal_strlit("section");
}

proof fn sets_priority(c: ControlModel, value: Seq<char>)
    ensures
        with_field(c, "Priority"@, value) == (ControlModel { priority: Some(value), ..c }),
{
    reveal_strlit("Priority");
    reveal_strlit("package");
    is_not_named("Priority"@, "package"@, 0);
    reveal_strlit("version");
    is_not_named("Priority"@, "version"@, 0);
    reveal_strlit("architecture");
    is_not_named("Priority"@, "architecture"@, 0);
    reveal_strlit("maintainer");
    is_not_named("Priority"@, "maintainer"@, 0);
    reveal_strlit("installed-size");
    is_not_named("Priority"@, "installed-size"@, 0);
    reveal_strlit("depends");
    is_not_named("Priority"@, "depends"@, 0);
    reveal_strlit("pre-depends");
    is_not_named("Priority"@, "pre-depends"@, 0);
    reveal_strlit("recommends");
    is_not_named("Priority"@, "recommends"@, 0);
    reveal_strlit("suggests");
    is_not_named("Priority"@, "suggests"@, 0);
    reveal_strlit("conflicts");
    is_not_named("Priority"@, "conflicts"@, 0);
    reveal_strlit("provides");
    is_not_named("Priority"@, "provides"@, 2);
    reveal_strlit("replaces");
    is_not_named("Priority"@, "replaces"@, 0);
    reveal_strlit("section");
    is_not_named("Priority"@, "section"@, 0);
    reveal_strlit("priority");
}

proof fn sets_homepage(c: ControlModel, value: Seq<char>)
    ensures
        with_field(c, "Homepage"@, value) == (ControlModel { homepage: Some(value), ..c }),
{
    reveal_strlit("Homepage");
    reveal_strlit("package");
    is_not_named("Homepage"@, "package"@, 0);
    reveal_strlit("version");
    is_not_named("Homepage"@, "version"@, 0);
    reveal_strlit("architecture");
    is_not_named("Homepage"@, "architecture"@, 0);
    reveal_strlit("maintainer");
    is_not_named("Homepage"@, "maintainer"@, 0);
    reveal_strlit("installed-size");
    is_not_named("Homepage"@, "installed-size"@, 0);
    reveal_strlit("depends");
    is_not_named("Homepage"@, "depends"@, 0);
    reveal_strlit("pre-depends");
    is_not_named("Homepage"@, "pre-depends"@, 0);
    reveal_strlit("recommends");
    is_not_named("Homepage"@, "recommends"@, 0);
    reveal_strlit("suggests");
    is_not_named("Homepage"@, "suggests"@, 0);
    reveal_strlit("conflicts");
    is_not_named("Homepage"@, "conflicts"@, 0);
    reveal_strlit("provides");
    is_not_named("Homepage"@, "provides"@, 0);
    reveal_strlit("replaces");
    is_not_named("Homepage"@, "replaces"@, 0);
    reveal_strlit("section");
    is_not_named("Homepage"@, "section"@, 0);
    reveal_strlit("priority");
    is_not_named("Homepage"@, "priority"@, 0);
    reveal_strlit("homepage");
}

proof fn sets_description(c: ControlModel, value: Seq<char>)
    ensures
        with_field(c, "Description"@, value) == (ControlModel { description: Some(value), ..c }),
{
    reveal_strlit("Description");
    reveal_strlit("package");
    is_not_named("Description"@, "package"@, 0);
    reveal_strlit("version");
    is_not_named("Description"@, "version"@, 0);
    reveal_strlit("architecture");
    is_not_named("Description"@, "architecture"@, 0);
    reveal_strlit("maintainer");
    is_not_named("Description"@, "maintainer"@, 0);
    reveal_strlit("installed-size");
    is_not_named("Description"@, "installed-size"@, 0);
    reveal_strlit("depends");
    is_not_named("Description"@, "depends"@, 0);
    reveal_strlit("pre-depends");
    is_not_named("Description"@, "pre-depends"@, 0);
    reveal_strlit("recommends");
    is_not_named("Description"@, "recommends"@, 0);
    reveal_strlit("suggests");
    is_not_named("Description"@, "suggests"@, 0);
    reveal_strlit("conflicts");
    is_not_named("Description"@, "conflicts"@, 0);
    reveal_strlit("provides");
    is_not_named("Description"@, "provides"@, 0);
    reveal_strlit("replaces");
    is_not_named("Description"@, "replaces"@, 0);
    reveal_strlit("section");
    is_not_named("Description"@, "section"@, 0);
    reveal_strlit("priority");
    is_not_named("Description"@, "priority"@, 0);
    reveal_strlit("homepage");
    is_not_named("Description"@, "homepage"@, 0);
    reveal_strlit("description");
}

proof fn sets_source(c: ControlModel, value: Seq<char>)
    ensures
        with_field(c, "Source"@, value) == (ControlModel { source: Some(value), ..c }),
{
    reveal_strlit("Source");
    reveal_strlit("package");
    is_not_named("Source"@, "package"@, 0);
    reveal_strlit("version");
    is_not_named("Source"@, "version"@, 0);
    reveal_strlit("architecture");
    is_not_named("Source"@, "architecture"@, 0);
    reveal_strlit("maintainer");
    is_not_named("Source"@, "maintainer"@, 0);
    reveal_strlit("installed-size");
    is_not_named("Source"@, "installed-size"@, 0);
    reveal_strlit("depends");
    is_not_named("Source"@, "depends"@, 0);
    reveal_strlit("pre-depends");
    is_not_named("Source"@, "pre-depends"@, 0);
    reveal_strlit("recommends");
    is_not_named("Source"@, "recommends"@, 0);
    reveal_strlit("suggests");
    is_not_named("Source"@, "suggests"@, 0);
    reveal_strlit("conflicts");
    is_not_named("Source"@, "conflicts"@, 0);
    reveal_strlit("provides");
    is_not_named("Source"@, "provides"@, 0);
    reveal_strlit("replaces");
    is_not_named("Source"@, "replaces"@, 0);
    reveal_strlit("section");
    is_not_named("Source"@, "section"@, 0);
    reveal_strlit("priority");
    is_not_named("Source"@, "priority"@, 0);
    reveal_strlit("homepage");
    is_not_named("Source"@, "homepage"@, 0);
    reveal_strlit("description");
    is_not_named("Source"@, "description"@, 0);
    reveal_strlit("source");
}

proof fn keeps_filename(c: ControlModel, value: Seq<char>)
    ensures
        with_field(c, "Filename"@, value) == (ControlModel { extra: put(c.extra, "Filename"@, value), ..c }),
{
    reveal_strlit("Filename");
    reveal_strlit("package");
    is_not_named("Filename"@, "package"@, 0);
    reveal_strlit("version");
    is_not_named("Filename"@, "version"@, 0);
    reveal_strlit("architecture");
    is_not_named("Filename"@, "architecture"@, 0);
    reveal_strlit("maintainer");
    is_not_named("Filename"@, "maintainer"@, 0);
    reveal_strlit("installed-size");
    is_not_named("Filename"@, "installed-size"@, 0);
    reveal_strlit("depends");
    is_not_named("Filename"@, "depends"@, 0);
    reveal_strlit("pre-depends");
    is_not_named("Filename"@, "pre-depends"@, 0);
    reveal_strlit("recommends");
    is_not_named("Filename"@, "recommends"@, 0);
    reveal_strlit("suggests");
    is_not_named("Filename"@, "suggests"@, 0);
    reveal_strlit("conflicts");
    is_not_named("Filename"@, "conflicts"@, 0);
    reveal_strlit("provides");
    is_not_named("Filename"@, "provides"@, 0);
    reveal_strlit("replaces");
    is_not_named("Filename"@, "replaces"@, 0);
    reveal_strlit("section");
    is_not_named("Filename"@, "section"@, 0);
    reveal_strlit("priority");
    is_not_named("Filename"@, "priority"@, 0);
    reveal_strlit("homepage");
    is_not_named("Filename"@, "homepage"@, 0);
    reveal_strlit("description");
    is_not_named("Filename"@, "description"@, 0);
    reveal_strlit("source");
    is_not_named("Filename"@, "source"@, 0);
}

proof fn keeps_size(c: ControlModel, value: Seq<char>)
    ensures
        with_field(c, "Size"@, value) == (ControlModel { extra: put(c.extra, "Size"@, value), ..c }),
{
    reveal_strlit("Size");
    reveal_strlit("package");
    is_not_named("Size"@, "package"@, 0);
    reveal_strlit("version");
    is_not_named("Size"@, "version"@, 0);
    reveal_strlit("architecture");
    is_not_named("Size"@, "architecture"@, 0);
    reveal_strlit("maintainer");
    is_not_named("Size"@, "maintainer"@, 0);
    reveal_strlit("installed-size");
    is_not_named("Size"@, "installed-size"@, 0);
    reveal_strlit("depends");
    is_not_named("Size"@, "depends"@, 0);
    reveal_strlit("pre-depends");
    is_not_named("Size"@, "pre-depends"@, 0);
    reveal_strlit("recommends");
    is_not_named("Size"@, "recommends"@, 0);
    reveal_strlit("suggests");
    is_not_named("Size"@, "suggests"@, 0);
    reveal_strlit("conflicts");
    is_not_named("Size"@, "conflicts"@, 0);
    reveal_strlit("provides");
    is_not_named("Size"@, "provides"@, 0);
    reveal_strlit("replaces");
    is_not_named("Size"@, "replaces"@, 0);
    reveal_strlit("section");
    is_not_named("Size"@, "section"@, 0);
    reveal_strlit("priority");
    is_not_named("Size"@, "priority"@, 0);
    reveal_strlit("homepage");
    is_not_named("Size"@, "homepage"@, 0);
    reveal_strlit("description");
    is_not_named("Size"@, "description"@, 0);
    reveal_strlit("source");
    is_not_named("Size"@, "source"@, 0);
}

proof fn keeps_md5sum(c: ControlModel, value: Seq<char>)
    ensures
        with_field(c, "MD5sum"@, value) == (ControlModel { extra: put(c.extra, "MD5sum"@, value), ..c }),
{
    reveal_strlit("MD5sum");
    reveal_strlit("package");
    is_not_named("MD5sum"@, "package"@, 0);
    reveal_strlit("version");
    is_not_named("MD5sum"@, "version"@, 0);
    reveal_strlit("architecture");
    is_not_named("MD5sum"@, "architecture"@, 0);
    reveal_strlit("maintainer");
    is_not_named("MD5sum"@, "maintainer"@, 0);
    reveal_strlit("installed-size");
    is_not_named("MD5sum"@, "installed-size"@, 0);
    reveal_strlit("depends");
    is_not_named("MD5sum"@, "depends"@, 0);
    reveal_strlit("pre-depends");
    is_not_named("MD5sum"@, "pre-depends"@, 0);
    reveal_strlit("recommends");
    is_not_named("MD5sum"@, "recommends"@, 0);
    reveal_strlit("suggests");
    is_not_named("MD5sum"@, "suggests"@, 0);
    reveal_strlit("conflicts");
    is_not_named("MD5sum"@, "conflicts"@, 0);
    reveal_strlit("provides");
    is_not_named("MD5sum"@, "provides"@, 0);
    reveal_strlit("replaces");
    is_not_named("MD5sum"@, "replaces"@, 0);
    reveal_strlit("section");
    is_not_named("MD5sum"@, "section"@, 0);
    reveal_strlit("priority");
    is_not_named("MD5sum"@, "priority"@, 0);
    reveal_strlit("homepage");
    is_not_named("MD5sum"@, "homepage"@, 0);
    reveal_strlit("description");
    is_not_named("MD5sum"@, "description"@, 0);
    reveal_strlit("source");
    is_not_named("MD5sum"@, "source"@, 0);
}

proof fn keeps_sha1(c: ControlModel, value: Seq<char>)
    ensures
        with_field(c, "SHA1"@, value) == (ControlModel { extra: put(c.extra, "SHA1"@, value), ..c }),
{
    reveal_strlit("SHA1");
    reveal_strlit("package");
    is_not_named("SHA1"@, "package"@, 0);
    reveal_strlit("version");
    is_not_named("SHA1"@, "version"@, 0);
    reveal_strlit("architecture");
    is_not_named("SHA1"@, "architecture"@, 0);
    reveal_strlit("maintainer");
    is_not_named("SHA1"@, "maintainer"@, 0);
    reveal_strlit("installed-size");
    is_not_named("SHA1"@, "installed-size"@, 0);
    reveal_strlit("depends");
    is_not_named("SHA1"@, "depends"@, 0);
    reveal_strlit("pre-depends");
    is_not_named("SHA1"@, "pre-depends"@, 0);
    reveal_strlit("recommends");
    is_not_named("SHA1"@, "recommends"@, 0);
    reveal_strlit("suggests");
    is_not_named("SHA1"@, "suggests"@, 0);
    reveal_strlit("conflicts");
    is_not_named("SHA1"@, "conflicts"@, 0);
    reveal_strlit("provides");
    is_not_named("SHA1"@, "provides"@, 0);
    reveal_strlit("replaces");
    is_not_named("SHA1"@, "replaces"@, 0);
    reveal_strlit("section");
    is_not_named("SHA1"@, "section"@, 0);
    reveal_strlit("priority");
    is_not_named("SHA1"@, "priority"@, 0);
    reveal_strlit("homepage");
    is_not_named("SHA1"@, "homepage"@, 0);
    reveal_strlit("description");
    is_not_named("SHA1"@, "description"@, 0);
    reveal_strlit("source");
    is_not_named("SHA1"@, "source"@, 0);
}

proof fn keeps_sha256(c: ControlModel, value: Seq<char>)
    ensures
        with_field(c, "SHA256"@, value) == (ControlModel { extra: put(c.extra, "SHA256"@, value), ..c }),
{
    reveal_strlit("SHA256");
    reveal_strlit("package");
    is_not_named("SHA256"@, "package"@, 0);
    reveal_strlit("version");
    is_not_named("SHA256"@, "version"@, 0);
    reveal_strlit("architecture");
    is_not_named("SHA256"@, "architecture"@, 0);
    reveal_strlit("maintainer");
    is_not_named("SHA256"@, "maintainer"@, 0);
    reveal_strlit("installed-size");
    is_not_named("SHA256"@, "installed-size"@, 0);
    reveal_strlit("depends");
    is_not_named("SHA256"@, "depends"@, 0);
    reveal_strlit("pre-depends");
    is_not_named("SHA256"@, "pre-depends"@, 0);
    reveal_strlit("recommends");
    is_not_named("SHA256"@, "recommends"@, 0);
    reveal_strlit("suggests");
    is_not_named("SHA256"@, "suggests"@, 0);
    reveal_strlit("conflicts");
    is_not_named("SHA256"@, "conflicts"@, 0);
    reveal_strlit("provides");
    is_not_named("SHA256"@, "provides"@, 0);
    reveal_strlit("replaces");
    is_not_named("SHA256"@, "replaces"@, 0);
    reveal_strlit("section");
    is_not_named("SHA256"@, "section"@, 0);
    reveal_strlit("priority");
    is_not_named("SHA256"@, "priority"@, 0);
    reveal_strlit("homepage");
    is_not_named("SHA256"@, "homepage"@, 0);
    reveal_strlit("description");
    is_not_named("SHA256"@, "description"@, 0);
    reveal_strlit("source");
    is_not_named("SHA256"@, "source"@, 1);
}

pub(crate) proof fn key_package()
    ensures
        is_key("Package"@),
{
    reveal_strlit("Package");
    let key = "Package"@;
    assert forall|k: int| 0 <= k < key.len() implies key[k] != ':' && key[k] != '\n' by {
        assert(k == 0 || k == 1 || k == 2 || k == 3 || k == 4 || k == 5 || k == 6);
    }
}

pub(crate) proof fn key_version()
    ensures
        is_key("Version"@),
{
    reveal_strlit("Version");
    let key = "Version"@;
    assert forall|k: int| 0 <= k < key.len() implies key[k] != ':' && key[k] != '\n' by {
        assert(k == 0 || k == 1 || k == 2 || k == 3 || k == 4 || k == 5 || k == 6);
    }
}

proof fn key_architecture()
    ensures
        is_key("Architecture"@),
{
    reveal_strlit("Architecture");
    let key = "Architecture"@;
    assert forall|k: int| 0 <= k < key.len() implies key[k] != ':' && key[k] != '\n' by {
        assert(k == 0 || k == 1 || k == 2 || k == 3 || k == 4 || k == 5 || k == 6 || k == 7 || k == 8 || k == 9 || k == 10 || k == 11);
    }
}

proof fn key_maintainer()
    ensures
        is_key("Maintainer"@),
{
    reveal_strlit("Maintainer");
    let key = "Maintainer"@;
    assert forall|k: int| 0 <= k < key.len() implies key[k] != ':' && key[k] != '\n' by {
        assert(k == 0 || k == 1 || k == 2 || k == 3 || k == 4 || k == 5 || k == 6 || k == 7 || k == 8 || k == 9);
    }
}

proof fn key_installed_size()
    ensures
        is_key("Installed-Size"@),
{
    reveal_strlit("Installed-Size");
    let key = "Installed-Size"@;
    assert forall|k: int| 0 <= k < key.len() implies key[k] != ':' && key[k] != '\n' by {
        assert(k == 0 || k == 1 || k == 2 || k == 3 || k == 4 || k == 5 || k == 6 || k == 7 || k == 8 || k == 9 || k == 10 || k == 11 || k == 12 || k == 13);
    }
}

proof fn key_depends()
    ensures
        is_key("Depends"@),
{
    reveal_strlit("Depends");
    let key = "Depends"@;
    assert forall|k: int| 0 <= k < key.len() implies key[k] != ':' && key[k] != '\n' by {
        assert(k == 0 || k == 1 || k == 2 || k == 3 || k == 4 || k == 5 || k == 6);
    }
}

proof fn key_pre_depends()
    ensures
        is_key("Pre-Depends"@),
{
    reveal_strlit("Pre-Depends");
    let key = "Pre-Depends"@;
    assert forall|k: int| 0 <= k < key.len() implies key[k] != ':' && key[k] != '\n' by {
        assert(k == 0 || k == 1 || k == 2 || k == 3 || k == 4 || k == 5 || k == 6 || k == 7 || k == 8 || k == 9 || k == 10);
    }
}

proof fn key_recommends()
    ensures
        is_key("Recommends"@),
{
    reveal_strlit("Recommends");
    let key = "Recommends"@;
    assert forall|k: int| 0 <= k < key.len() implies key[k] != ':' && key[k] != '\n' by {
        assert(k == 0 || k == 1 || k == 2 || k == 3 || k == 4 || k == 5 || k == 6 || k == 7 || k == 8 || k == 9);
    }
}

proof fn key_suggests()
    ensures
        is_key("Suggests"@),
{
    reveal_strlit("Suggests");
    let key = "Suggests"@;
    assert forall|k: int| 0 <= k < key.len() implies key[k] != ':' && key[k] != '\n' by {
        assert(k == 0 || k == 1 || k == 2 || k == 3 || k == 4 || k == 5 || k == 6 || k == 7);
    }
}

proof fn key_conflicts()
    ensures
        is_key("Conflicts"@),
{
    reveal_strlit("Conflicts");
    let key = "Conflicts"@;
    assert forall|k: int| 0 <= k < key.len() implies key[k] != ':' && key[k] != '\n' by {
        assert(k == 0 || k == 1 || k == 2 || k == 3 || k == 4 || k == 5 || k == 6 || k == 7 || k == 8);
    }
}

proof fn key_provides()
    ensures
        is_key("Provides"@),
{
    reveal_strlit("Provides");
    let key = "Provides"@;
    assert forall|k: int| 0 <= k < key.len() implies key[k] != ':' && key[k] != '\n' by {
        assert(k == 0 || k == 1 || k == 2 || k == 3 || k == 4 || k == 5 || k == 6 || k == 7);
    }
}

proof fn key_replaces()
    ensures
        is_key("Replaces"@),
{
    reveal_strlit("Replaces");
    let key = "Replaces"@;
    assert forall|k: int| 0 <= k < key.len() implies key[k] != ':' && key[k] != '\n' by {
        assert(k == 0 || k == 1 || k == 2 || k == 3 || k == 4 || k == 5 || k == 6 || k == 7);
    }
}

proof fn key_section()
    ensures
        is_key("Section"@),
{
    reveal_strlit("Section");
    let key = "Section"@;
    assert forall|k: int| 0 <= k < key.len() implies key[k] != ':' && key[k] != '\n' by {
        assert(k == 0 || k == 1 || k == 2 || k == 3 || k == 4 || k == 5 || k == 6);
    }
}

proof fn key_priority()
    ensures
        is_key("Priority"@),
{
    reveal_strlit("Priority");
    let key = "Priority"@;
    assert forall|k: int| 0 <= k < key.len() implies key[k] != ':' && key[k] != '\n' by {
        assert(k == 0 || k == 1 || k == 2 || k == 3 || k == 4 || k == 5 || k == 6 || k == 7);
    }
}

proof fn key_homepage()
    ensures
        is_key("Homepage"@),
{
    reveal_strlit("Homepage");
    let key = "Homepage"@;
    assert forall|k: int| 0 <= k < key.len() implies key[k] != ':' && key[k] != '\n' by {
        assert(k == 0 || k == 1 || k == 2 || k == 3 || k == 4 || k == 5 || k == 6 || k == 7);
    }
}

pub(crate) proof fn key_description()
    ensures
        is_key("Description"@),
{
    reveal_strlit("Description");
    let key = "Description"@;
    assert forall|k: int| 0 <= k < key.len() implies key[k] != ':' && key[k] != '\n' by {
        assert(k == 0 || k == 1 || k == 2 || k == 3 || k == 4 || k == 5 || k == 6 || k == 7 || k == 8 || k == 9 || k == 10);
    }
}

proof fn key_source()
    ensures
        is_key("Source"@),
{
    reveal_strlit("Source");
    let key = "Source"@;
    assert forall|k: int| 0 <= k < key.len() implies key[k] != ':' && key[k] != '\n' by {
        assert(k == 0 || k == 1 || k == 2 || k == 3 || k == 4 || k == 5);
    }
}

proof fn key_filename()
    ensures
        is_key("Filename"@),
{
    reveal_strlit("Filename");
    let key = "Filename"@;
    assert forall|k: int| 0 <= k < key.len() implies key[k] != ':' && key[k] != '\n' by {
        assert(k == 0 || k == 1 || k == 2 || k == 3 || k == 4 || k == 5 || k == 6 || k == 7);
    }
}

proof fn key_size()
    ensures
        is_key("Size"@),
{
    reveal_strlit("Size");
    let key = "Size"@;
    assert forall|k: int| 0 <= k < key.len() implies key[k] != ':' && key[k] != '\n' by {
        assert(k == 0 || k == 1 || k == 2 || k == 3);
    }
}

proof fn key_md5sum()
    ensures
        is_key("MD5sum"@),
{
    reveal_strlit("MD5sum");
    let key = "MD5sum"@;
    assert forall|k: int| 0 <= k < key.len() implies key[k] != ':' && key[k] != '\n' by {
        assert(k == 0 || k == 1 || k == 2 || k == 3 || k == 4 || k == 5);
    }
}

pub(crate) proof fn key_sha1()
    ensures
        is_key("SHA1"@),
{
    reveal_strlit("SHA1");
    let key = "SHA1"@;
    assert forall|k: int| 0 <= k < key.len() implies key[k] != ':' && key[k] != '\n' by {
        assert(k == 0 || k == 1 || k == 2 || k == 3);
    }
}

pub(crate) proof fn key_sha256()
    ensures
        is_key("SHA256"@),
{
    reveal_strlit("SHA256");
    let key = "SHA256"@;
    assert forall|k: int| 0 <= k < key.len() implies key[k] != ':' && key[k] != '\n' by {
        assert(k == 0 || k == 1 || k == 2 || k == 3 || k == 4 || k == 5);
    }
}

// ---------------------------------------------------------------------------
// Entries
// ---------------------------------------------------------------------------

/// The field of an optional value.
spec fn option_field(key: Seq<char>, value: Option<Seq<char>>) -> Seq<(Seq<char>, Seq<char>)> {
    match value {
        Some(text) => seq![(key, text)],
        None => seq![],
    }
}

/// The field of an optional list.
spec fn list_field(key: Seq<char>, value: Option<Seq<Seq<char>>>) -> Seq<(Seq<char>, Seq<char>)> {
    match value {
        Some(items) => seq![(key, join(items, ", "@))],
        None => seq![],
    }
}

/// The field of an optional number.
spec fn number_field(key: Seq<char>, value: Option<u64>) -> Seq<(Seq<char>, Seq<char>)> {
    match value {
        Some(n) => seq![(key, decimal_text(n as nat))],
        None => seq![],
    }
}

/// The fields that every control stanza has.
spec fn required_fields(c: ControlModel) -> Seq<(Seq<char>, Seq<char>)> {
    seq![("Package"@, c.package), ("Version"@, c.version), ("Architecture"@, c.architecture)]
}

/// The fields of a control stanza, as they are written.
spec fn control_fields(c: ControlModel) -> Seq<(Seq<char>, Seq<char>)> {
    required_fields(c) + option_field("Maintainer"@, c.maintainer) + number_field("Installed-Size"@, c.installed_size) + list_field("Depends"@, c.depends) + list_field("Pre-Depends"@, c.pre_depends) + list_field("Recommends"@, c.recommends) + list_field("Suggests"@, c.suggests) + list_field("Conflicts"@, c.conflicts) + list_field("Provides"@, c.provides) + list_field("Replaces"@, c.replaces) + option_field("Section"@, c.section) + option_field("Priority"@, c.priority) + option_field("Homepage"@, c.homepage) + option_field("Source"@, c.source) + c.extra + option_field("Description"@, c.description)
}

/// The fields of an entry, as they are written.
#[verifier::opaque]
spec fn entry_fields(e: PackageModel) -> Seq<(Seq<char>, Seq<char>)> {
    control_fields(e.control) + option_field("Filename"@, e.filename) + number_field("Size"@, e.size) + option_field("MD5sum"@, e.md5sum) + option_field("SHA1"@, e.sha1) + option_field("SHA256"@, e.sha256)
}

proof fn fields_text_add(a: Seq<(Seq<char>, Seq<char>)>, b: Seq<(Seq<char>, Seq<char>)>)
    ensures
        fields_text(a + b) == fields_text(a) + fields_text(b),
    decreases b.len(),
{
    if b.len() == 0 {
        assert(a + b =~= a);
        assert(fields_text(a) + fields_text(b) =~= fields_text(a));
    } else {
        assert((a + b).drop_last() =~= a + b.drop_last());
        fields_text_add(a, b.drop_last());
        assert(fields_text(a + b) =~= fields_text(a) + fields_text(b));
    }
}

proof fn one_field_text(key: Seq<char>, value: Seq<char>)
    ensures
        fields_text(seq![(key, value)]) == field_text(key, value),
{
    let one = seq![(key, value)];
    assert(fields_text(one.drop_last()) =~= Seq::<char>::empty());
    assert(fields_text(one) =~= field_text(key, value));
}

proof fn option_field_text(key: Seq<char>, value: Option<Seq<char>>)
    requires
        is_writable_option(value),
    ensures
        fields_text(option_field(key, value)) == optional_text(key, value),
{
    if let Some(text) = value {
        writable_is_not_blank(text);
        one_field_text(key, text);
    }
}

proof fn list_field_text(key: Seq<char>, value: Option<Seq<Seq<char>>>)
    requires
        is_writable_list_option(value),
    ensures
        fields_text(list_field(key, value)) == list_text(key, value),
{
    if let Some(items) = value {
        one_field_text(key, join(items, ", "@));
    }
}

proof fn number_field_text(key: Seq<char>, value: Option<u64>)
    ensures
        fields_text(number_field(key, value)) == number_text(key, value),
{
    if let Some(n) = value {
        one_field_text(key, decimal_text(n as nat));
    }
}

proof fn are_writable_add(a: Seq<(Seq<char>, Seq<char>)>, b: Seq<(Seq<char>, Seq<char>)>)
    requires
        are_writable(a),
        are_writable(b),
    ensures
        are_writable(a + b),
{
    reveal(are_writable);
    let s = a + b;
    assert forall|i: int| 0 <= i < s.len() implies is_key((#[trigger] s[i]).0) && is_writable(
        s[i].1,
    ) by {
        if i < a.len() {
            assert(s[i] == a[i]);
        } else {
            assert(s[i] == b[i - a.len()]);
        }
    }
}

proof fn number_is_writable(n: nat)
    ensures
        is_writable(decimal_text(n)),
{
    decimal_text_is_digits(n);
    let s = decimal_text(n);
    find_is_first(s, '\n');
    if find(s, '\n') < s.len() {
        assert(s[find(s, '\n') as int] == '\n');
    }
    let ls = lines(s);
    assert(ls =~= seq![s]);
    assert(!is_white(s[0]));
    assert(!is_white(s[s.len() - 1]));
    assert(trim_start(s) == s);
    assert(trim_end(s) == s);
}

proof fn append_fields(
    fs: Seq<(Seq<char>, Seq<char>)>,
    text: Seq<char>,
    more: Seq<(Seq<char>, Seq<char>)>,
)
    requires
        fields_text(fs) == text,
        are_writable(fs),
        are_writable(more),
    ensures
        fields_text(fs + more) == text + fields_text(more),
        are_writable(fs + more),
{
    fields_text_add(fs, more);
    are_writable_add(fs, more);
}

proof fn append_option(
    fs: Seq<(Seq<char>, Seq<char>)>,
    text: Seq<char>,
    key: Seq<char>,
    value: Option<Seq<char>>,
)
    requires
        fields_text(fs) == text,
        are_writable(fs),
        is_key(key),
        is_writable_option(value),
    ensures
        fields_text(fs + option_field(key, value)) == text + optional_text(key, value),
        are_writable(fs + option_field(key, value)),
{
    assert(are_writable(option_field(key, value))) by {
        reveal(are_writable);
    }
    option_field_text(key, value);
    append_fields(fs, text, option_field(key, value));
}

proof fn append_list(
    fs: Seq<(Seq<char>, Seq<char>)>,
    text: Seq<char>,
    key: Seq<char>,
    value: Option<Seq<Seq<char>>>,
)
    requires
        fields_text(fs) == text,
        are_writable(fs),
        is_key(key),
        is_writable_list_option(value),
    ensures
        fields_text(fs + list_field(key, value)) == text + list_text(key, value),
        are_writable(fs + list_field(key, value)),
{
    assert(are_writable(list_field(key, value))) by {
        reveal(are_writable);
    }
    list_field_text(key, value);
    append_fields(fs, text, list_field(key, value));
}

proof fn append_number(
    fs: Seq<(Seq<char>, Seq<char>)>,
    text: Seq<char>,
    key: Seq<char>,
    value: Option<u64>,
)
    requires
        fields_text(fs) == text,
        are_writable(fs),
        is_key(key),
    ensures
        fields_text(fs + number_field(key, value)) == text + number_text(key, value),
        are_writable(fs + number_field(key, value)),
{
    assert(are_writable(number_field(key, value))) by {
        reveal(are_writable);
        if let Some(n) = value {
            number_is_writable(n as nat);
        }
    }
    number_field_text(key, value);
    append_fields(fs, text, number_field(key, value));
}

proof fn required_text(c: ControlModel)
    requires
        is_writable(c.package),
        is_writable(c.version),
        is_writable(c.architecture),
    ensures
        fields_text(required_fields(c)) == field_text("Package"@, c.package) + field_text(
            "Version"@,
            c.version,
        ) + field_text("Architecture"@, c.architecture),
        are_writable(required_fields(c)),
{
    key_package();
    key_version();
    key_architecture();
    let p = seq![("Package"@, c.package)];
    let v = seq![("Version"@, c.version)];
    let a = seq![("Architecture"@, c.architecture)];
    assert(required_fields(c) =~= p + v + a);
    fields_text_add(p + v, a);
    fields_text_add(p, v);
    one_field_text("Package"@, c.package);
    one_field_text("Version"@, c.version);
    one_field_text("Architecture"@, c.architecture);
    reveal(are_writable);
}

/// The text of a control stanza is that of its fields.
proof fn control_text_is_fields(c: ControlModel)
    requires
        is_writable_control(c),
    ensures
        control_text(c) == fields_text(control_fields(c)),
        are_writable(control_fields(c)),
{
    required_text(c);
    let f0 = required_fields(c);
    let t0 = field_text("Package"@, c.package) + field_text("Version"@, c.version) + field_text(
        "Architecture"@,
        c.architecture,
    );
    key_maintainer();
    append_option(f0, t0, "Maintainer"@, c.maintainer);
    let f1 = f0 + option_field("Maintainer"@, c.maintainer);
    let t1 = t0 + optional_text("Maintainer"@, c.maintainer);
    key_installed_size();
    append_number(f1, t1, "Installed-Size"@, c.installed_size);
    let f2 = f1 + number_field("Installed-Size"@, c.installed_size);
    let t2 = t1 + number_text("Installed-Size"@, c.installed_size);
    key_depends();
    append_list(f2, t2, "Depends"@, c.depends);
    let f3 = f2 + list_field("Depends"@, c.depends);
    let t3 = t2 + list_text("Depends"@, c.depends);
    key_pre_depends();
    append_list(f3, t3, "Pre-Depends"@, c.pre_depends);
    let f4 = f3 + list_field("Pre-Depends"@, c.pre_depends);
    let t4 = t3 + list_text("Pre-Depends"@, c.pre_depends);
    key_recommends();
    append_list(f4, t4, "Recommends"@, c.recommends);
    let f5 = f4 + list_field("Recommends"@, c.recommends);
    let t5 = t4 + list_text("Recommends"@, c.recommends);
    key_suggests();
    append_list(f5, t5, "Suggests"@, c.suggests);
    let f6 = f5 + list_field("Suggests"@, c.suggests);
    let t6 = t5 + list_text("Suggests"@, c.suggests);
    key_conflicts();
    append_list(f6, t6, "Conflicts"@, c.conflicts);
    let f7 = f6 + list_field("Conflicts"@, c.conflicts);
    let t7 = t6 + list_text("Conflicts"@, c.conflicts);
    key_provides();
    append_list(f7, t7, "Provides"@, c.provides);
    let f8 = f7 + list_field("Provides"@, c.provides);
    let t8 = t7 + list_text("Provides"@, c.provides);
    key_replaces();
    append_list(f8, t8, "Replaces"@, c.replaces);
    let f9 = f8 + list_field("Replaces"@, c.replaces);
    let t9 = t8 + list_text("Replaces"@, c.replaces);
    key_section();
    append_option(f9, t9, "Section"@, c.section);
    let f10 = f9 + option_field("Section"@, c.section);
    let t10 = t9 + optional_text("Section"@, c.section);
    key_priority();
    append_option(f10, t10, "Priority"@, c.priority);
    let f11 = f10 + option_field("Priority"@, c.priority);
    let t11 = t10 + optional_text("Priority"@, c.priority);
    key_homepage();
    append_option(f11, t11, "Homepage"@, c.homepage);
    let f12 = f11 + option_field("Homepage"@, c.homepage);
    let t12 = t11 + optional_text("Homepage"@, c.homepage);
    key_source();
    append_option(f12, t12, "Source"@, c.source);
    let f13 = f12 + option_field("Source"@, c.source);
    let t13 = t12 + optional_text("Source"@, c.source);
    assert(are_writable(c.extra)) by {
        reveal(are_writable);
    }
    append_fields(f13, t13, c.extra);
    let f14 = f13 + c.extra;
    let t14 = t13 + fields_text(c.extra);
    key_description();
    append_option(f14, t14, "Description"@, c.description);
}

/// The text of an entry is that of its fields.
proof fn entry_text_is_fields(e: PackageModel)
    requires
        is_writable_entry(e),
    ensures
        mirrored_entry_text(e) == fields_text(entry_fields(e)),
        are_writable(entry_fields(e)),
{
    reveal(entry_fields);
    control_text_is_fields(e.control);
    let f0 = control_fields(e.control);
    let t0 = control_text(e.control);
    key_filename();
    append_option(f0, t0, "Filename"@, e.filename);
    let f1 = f0 + option_field("Filename"@, e.filename);
    let t1 = t0 + optional_text("Filename"@, e.filename);
    key_size();
    append_number(f1, t1, "Size"@, e.size);
    let f2 = f1 + number_field("Size"@, e.size);
    let t2 = t1 + number_text("Size"@, e.size);
    key_md5sum();
    append_option(f2, t2, "MD5sum"@, e.md5sum);
    let f3 = f2 + option_field("MD5sum"@, e.md5sum);
    let t3 = t2 + optional_text("MD5sum"@, e.md5sum);
    key_sha1();
    append_option(f3, t3, "SHA1"@, e.sha1);
    let f4 = f3 + option_field("SHA1"@, e.sha1);
    let t4 = t3 + optional_text("SHA1"@, e.sha1);
    key_sha256();
    append_option(f4, t4, "SHA256"@, e.sha256);
}

// ---------------------------------------------------------------------------
// Control stanzas
// ---------------------------------------------------------------------------

/// A control stanza with more fields set, one after the other.
spec fn control_from(c: ControlModel, fs: Seq<(Seq<char>, Seq<char>)>) -> ControlModel
    decreases fs.len(),
{
    if fs.len() == 0 {
        c
    } else {
        with_field(control_from(c, fs.drop_last()), fs.last().0, fs.last().1)
    }
}

proof fn control_with_is_from(fs: Seq<(Seq<char>, Seq<char>)>)
    ensures
        control_with(fs) == control_from(blank_control(), fs),
    decreases fs.len(),
{
    if fs.len() > 0 {
        control_with_is_from(fs.drop_last());
    }
}

proof fn control_from_add(
    c: ControlModel,
    a: Seq<(Seq<char>, Seq<char>)>,
    b: Seq<(Seq<char>, Seq<char>)>,
)
    ensures
        control_from(c, a + b) == control_from(control_from(c, a), b),
    decreases b.len(),
{
    if b.len() == 0 {
        assert(a + b =~= a);
    } else {
        assert((a + b).drop_last() =~= a + b.drop_last());
        assert((a + b).last() == b.last());
        control_from_add(c, a, b.drop_last());
    }
}

proof fn control_from_one(c: ControlModel, key: Seq<char>, value: Seq<char>)
    ensures
        control_from(c, seq![(key, value)]) == with_field(c, key, value),
{
    let one = seq![(key, value)];
    assert(one.drop_last() =~= seq![]);
    assert(control_from(c, one.drop_last()) == c);
    assert(one.last() == (key, value));
}

/// Fields that a stanza does not know are kept, in ascending order.
proof fn extras_are_kept(c: ControlModel, extra: Seq<(Seq<char>, Seq<char>)>)
    requires
        c.extra == Seq::<(Seq<char>, Seq<char>)>::empty(),
        ascending(keys_of(extra)),
        forall|i: int| 0 <= i < extra.len() ==> is_extra((#[trigger] extra[i]).0),
    ensures
        control_from(c, extra) == (ControlModel { extra, ..c }),
    decreases extra.len(),
{
    if extra.len() == 0 {
        assert(extra =~= c.extra);
    } else {
        let t = extra.drop_last();
        let key = extra.last().0;
        let keys = keys_of(extra);
        assert forall|i: int, j: int| 0 <= i < j < keys_of(t).len() implies text_lt(
            #[trigger] keys_of(t)[i],
            #[trigger] keys_of(t)[j],
        ) by {
            assert(text_lt(keys[i], keys[j]));
        }
        assert forall|i: int| 0 <= i < t.len() implies is_extra((#[trigger] t[i]).0) by {
            assert(t[i] == extra[i]);
        }
        extras_are_kept(c, t);
        assert(is_extra(extra[extra.len() - 1].0));
        slot_cuts(keys_of(t), key);
        let n = slot(keys_of(t), key) as int;
        if n < t.len() {
            assert(text_lt(keys[n], keys[extra.len() - 1]));
            assert(keys_of(t)[n] == keys[n]);
        }
        assert(put(t, key, extra.last().1) =~= extra);
    }
}

/// A map with an optional value stored.
spec fn put_option(
    m: Seq<(Seq<char>, Seq<char>)>,
    key: Seq<char>,
    value: Option<Seq<char>>,
) -> Seq<(Seq<char>, Seq<char>)> {
    match value {
        Some(text) => put(m, key, text),
        None => m,
    }
}

/// The size as it is written.
spec fn size_text(size: Option<u64>) -> Option<Seq<char>> {
    match size {
        Some(n) => Some(decimal_text(n as nat)),
        None => None,
    }
}

/// The unknown fields of an entry, with those that describe the file.
spec fn all_extra(e: PackageModel) -> Seq<(Seq<char>, Seq<char>)> {
    put_option(
        put_option(
            put_option(
                put_option(
                    put_option(e.control.extra, "Filename"@, e.filename),
                    "Size"@,
                    size_text(e.size),
                ),
                "MD5sum"@,
                e.md5sum,
            ),
            "SHA1"@,
            e.sha1,
        ),
        "SHA256"@,
        e.sha256,
    )
}

proof fn option_field_sets(c: ControlModel, key: Seq<char>, value: Option<Seq<char>>)
    ensures
        control_from(c, option_field(key, value)) == match value {
            Some(text) => with_field(c, key, text),
            None => c,
        },
{
    if let Some(text) = value {
        control_from_one(c, key, text);
    }
}

proof fn number_field_sets(c: ControlModel, key: Seq<char>, value: Option<u64>)
    ensures
        control_from(c, number_field(key, value)) == match value {
            Some(n) => with_field(c, key, decimal_text(n as nat)),
            None => c,
        },
        value matches Some(n) ==> decimal_u64(decimal_text(n as nat)) == Some(n),
{
    if let Some(n) = value {
        control_from_one(c, key, decimal_text(n as nat));
        decimal_round_trip(n as nat, u64::MAX as nat);
    }
}

/// The fields that every control stanza has are read back.
proof fn required_read_back(c: ControlModel)
    ensures
        control_from(blank_control(), required_fields(c)) == (ControlModel {
            package: c.package,
            version: c.version,
            architecture: c.architecture,
            ..blank_control()
        }),
{
    let p = seq![("Package"@, c.package)];
    let v = seq![("Version"@, c.version)];
    let a = seq![("Architecture"@, c.architecture)];
    assert(required_fields(c) =~= p + v + a);
    let b0 = blank_control();
    control_from_add(b0, p + v, a);
    control_from_add(b0, p, v);
    control_from_one(b0, "Package"@, c.package);
    sets_package(b0, c.package);
    let b1 = with_field(b0, "Package"@, c.package);
    control_from_one(b1, "Version"@, c.version);
    sets_version(b1, c.version);
    let b2 = with_field(b1, "Version"@, c.version);
    control_from_one(b2, "Architecture"@, c.architecture);
    sets_architecture(b2, c.architecture);
}

/// An optional list that is read back as it is written.
#[verifier::opaque]
spec fn list_comes_back(value: Option<Seq<Seq<char>>>) -> bool {
    value matches Some(items) ==> dependency_list(join(items, ", "@)) == items
}

proof fn writable_list_comes_back(value: Option<Seq<Seq<char>>>)
    requires
        is_writable_list_option(value),
    ensures
        list_comes_back(value),
{
    reveal(list_comes_back);
    if let Some(items) = value {
        list_reads_back(items);
    }
}

proof fn adds_maintainer(fs: Seq<(Seq<char>, Seq<char>)>, c: ControlModel, value: Option<Seq<char>>)
    requires
        control_from(blank_control(), fs) == c,
        c.maintainer is None,
    ensures
        control_from(blank_control(), fs + option_field("Maintainer"@, value)) == (ControlModel {
            maintainer: value,
            ..c
        }),
{
    let more = option_field("Maintainer"@, value);
    control_from_add(blank_control(), fs, more);
    if let Some(v) = value {
        control_from_one(c, "Maintainer"@, v);
        sets_maintainer(c, v);
    }
}

proof fn adds_installed_size(fs: Seq<(Seq<char>, Seq<char>)>, c: ControlModel, value: Option<u64>)
    requires
        control_from(blank_control(), fs) == c,
        c.installed_size is None,
    ensures
        control_from(blank_control(), fs + number_field("Installed-Size"@, value)) == (ControlModel {
            installed_size: value,
            ..c
        }),
{
    let more = number_field("Installed-Size"@, value);
    control_from_add(blank_control(), fs, more);
    if let Some(v) = value {
        control_from_one(c, "Installed-Size"@, decimal_text(v as nat));
        sets_installed_size(c, decimal_text(v as nat));
        decimal_round_trip(v as nat, u64::MAX as nat);
    }
}

proof fn adds_depends(fs: Seq<(Seq<char>, Seq<char>)>, c: ControlModel, value: Option<Seq<Seq<char>>>)
    requires
        control_from(blank_control(), fs) == c,
        c.depends is None,
        list_comes_back(value),
    ensures
        control_from(blank_control(), fs + list_field("Depends"@, value)) == (ControlModel {
            depends: value,
            ..c
        }),
{
    let more = list_field("Depends"@, value);
    control_from_add(blank_control(), fs, more);
    if let Some(v) = value {
        reveal(list_comes_back);
        control_from_one(c, "Depends"@, join(v, ", "@));
        sets_depends(c, join(v, ", "@));
    }
}

proof fn adds_pre_depends(fs: Seq<(Seq<char>, Seq<char>)>, c: ControlModel, value: Option<Seq<Seq<char>>>)
    requires
        control_from(blank_control(), fs) == c,
        c.pre_depends is None,
        list_comes_back(value),
    ensures
        control_from(blank_control(), fs + list_field("Pre-Depends"@, value)) == (ControlModel {
            pre_depends: value,
            ..c
        }),
{
    let more = list_field("Pre-Depends"@, value);
    control_from_add(blank_control(), fs, more);
    if let Some(v) = value {
        reveal(list_comes_back);
        control_from_one(c, "Pre-Depends"@, join(v, ", "@));
        sets_pre_depends(c, join(v, ", "@));
    }
}

proof fn adds_recommends(fs: Seq<(Seq<char>, Seq<char>)>, c: ControlModel, value: Option<Seq<Seq<char>>>)
    requires
        control_from(blank_control(), fs) == c,
        c.recommends is None,
        list_comes_back(value),
    ensures
        control_from(blank_control(), fs + list_field("Recommends"@, value)) == (ControlModel {
            recommends: value,
            ..c
        }),
{
    let more = list_field("Recommends"@, value);
    control_from_add(blank_control(), fs, more);
    if let Some(v) = value {
        reveal(list_comes_back);
        control_from_one(c, "Recommends"@, join(v, ", "@));
        sets_recommends(c, join(v, ", "@));
    }
}

proof fn adds_suggests(fs: Seq<(Seq<char>, Seq<char>)>, c: ControlModel, value: Option<Seq<Seq<char>>>)
    requires
        control_from(blank_control(), fs) == c,
        c.suggests is None,
        list_comes_back(value),
    ensures
        control_from(blank_control(), fs + list_field("Suggests"@, value)) == (ControlModel {
            suggests: value,
            ..c
        }),
{
    let more = list_field("Suggests"@, value);
    control_from_add(blank_control(), fs, more);
    if let Some(v) = value {
        reveal(list_comes_back);
        control_from_one(c, "Suggests"@, join(v, ", "@));
        sets_suggests(c, join(v, ", "@));
    }
}

proof fn adds_conflicts(fs: Seq<(Seq<char>, Seq<char>)>, c: ControlModel, value: Option<Seq<Seq<char>>>)
    requires
        control_from(blank_control(), fs) == c,
        c.conflicts is None,
        list_comes_back(value),
    ensures
        control_from(blank_control(), fs + list_field("Conflicts"@, value)) == (ControlModel {
            conflicts: value,
            ..c
        }),
{
    let more = list_field("Conflicts"@, value);
    control_from_add(blank_control(), fs, more);
    if let Some(v) = value {
        reveal(list_comes_back);
        control_from_one(c, "Conflicts"@, join(v, ", "@));
        sets_conflicts(c, join(v, ", "@));
    }
}

proof fn adds_provides(fs: Seq<(Seq<char>, Seq<char>)>, c: ControlModel, value: Option<Seq<Seq<char>>>)
    requires
        control_from(blank_control(), fs) == c,
        c.provides is None,
        list_comes_back(value),
    ensures
        control_from(blank_control(), fs + list_field("Provides"@, value)) == (ControlModel {
            provides: value,
            ..c
        }),
{
    let more = list_field("Provides"@, value);
    control_from_add(blank_control(), fs, more);
    if let Some(v) = value {
        reveal(list_comes_back);
        control_from_one(c, "Provides"@, join(v, ", "@));
        sets_provides(c, join(v, ", "@));
    }
}

proof fn adds_replaces(fs: Seq<(Seq<char>, Seq<char>)>, c: ControlModel, value: Option<Seq<Seq<char>>>)
    requires
        control_from(blank_control(), fs) == c,
        c.replaces is None,
        list_comes_back(value),
    ensures
        control_from(blank_control(), fs + list_field("Replaces"@, value)) == (ControlModel {
            replaces: value,
            ..c
        }),
{
    let more = list_field("Replaces"@, value);
    control_from_add(blank_control(), fs, more);
    if let Some(v) = value {
        reveal(list_comes_back);
        control_from_one(c, "Replaces"@, join(v, ", "@));
        sets_replaces(c, join(v, ", "@));
    }
}

proof fn adds_section(fs: Seq<(Seq<char>, Seq<char>)>, c: ControlModel, value: Option<Seq<char>>)
    requires
        control_from(blank_control(), fs) == c,
        c.section is None,
    ensures
        control_from(blank_control(), fs + option_field("Section"@, value)) == (ControlModel {
            section: value,
            ..c
        }),
{
    let more = option_field("Section"@, value);
    control_from_add(blank_control(), fs, more);
    if let Some(v) = value {
        control_from_one(c, "Section"@, v);
        sets_section(c, v);
    }
}

proof fn adds_priority(fs: Seq<(Seq<char>, Seq<char>)>, c: ControlModel, value: Option<Seq<char>>)
    requires
        control_from(blank_control(), fs) == c,
        c.priority is None,
    ensures
        control_from(blank_control(), fs + option_field("Priority"@, value)) == (ControlModel {
            priority: value,
            ..c
        }),
{
    let more = option_field("Priority"@, value);
    control_from_add(blank_control(), fs, more);
    if let Some(v) = value {
        control_from_one(c, "Priority"@, v);
        sets_priority(c, v);
    }
}

proof fn adds_homepage(fs: Seq<(Seq<char>, Seq<char>)>, c: ControlModel, value: Option<Seq<char>>)
    requires
        control_from(blank_control(), fs) == c,
        c.homepage is None,
    ensures
        control_from(blank_control(), fs + option_field("Homepage"@, value)) == (ControlModel {
            homepage: value,
            ..c
        }),
{
    let more = option_field("Homepage"@, value);
    control_from_add(blank_control(), fs, more);
    if let Some(v) = value {
        control_from_one(c, "Homepage"@, v);
        sets_homepage(c, v);
    }
}

proof fn adds_source(fs: Seq<(Seq<char>, Seq<char>)>, c: ControlModel, value: Option<Seq<char>>)
    requires
        control_from(blank_control(), fs) == c,
        c.source is None,
    ensures
        control_from(blank_control(), fs + option_field("Source"@, value)) == (ControlModel {
            source: value,
            ..c
        }),
{
    let more = option_field("Source"@, value);
    control_from_add(blank_control(), fs, more);
    if let Some(v) = value {
        control_from_one(c, "Source"@, v);
        sets_source(c, v);
    }
}

proof fn adds_description(fs: Seq<(Seq<char>, Seq<char>)>, c: ControlModel, value: Option<Seq<char>>)
    requires
        control_from(blank_control(), fs) == c,
        c.description is None,
    ensures
        control_from(blank_control(), fs + option_field("Description"@, value)) == (ControlModel {
            description: value,
            ..c
        }),
{
    let more = option_field("Description"@, value);
    control_from_add(blank_control(), fs, more);
    if let Some(v) = value {
        control_from_one(c, "Description"@, v);
        sets_description(c, v);
    }
}

/// The fields of a control stanza are read back.
proof fn control_reads_back(c: ControlModel)
    requires
        is_writable_control(c),
    ensures
        control_from(blank_control(), control_fields(c)) == c,
{
    writable_list_comes_back(c.depends);
    writable_list_comes_back(c.pre_depends);
    writable_list_comes_back(c.recommends);
    writable_list_comes_back(c.suggests);
    writable_list_comes_back(c.conflicts);
    writable_list_comes_back(c.provides);
    writable_list_comes_back(c.replaces);
    known_fields_read_back(c);
}

proof fn known_fields_read_back(c: ControlModel)
    requires
        list_comes_back(c.depends),
        list_comes_back(c.pre_depends),
        list_comes_back(c.recommends),
        list_comes_back(c.suggests),
        list_comes_back(c.conflicts),
        list_comes_back(c.provides),
        list_comes_back(c.replaces),
        ascending(keys_of(c.extra)),
        forall|i: int| 0 <= i < c.extra.len() ==> is_extra((#[trigger] c.extra[i]).0),
    ensures
        control_from(blank_control(), control_fields(c)) == c,
{
    required_read_back(c);
    let f0 = required_fields(c);
    let c0 = control_from(blank_control(), f0);
    adds_maintainer(f0, c0, c.maintainer);
    let f1 = f0 + option_field("Maintainer"@, c.maintainer);
    let c1 = ControlModel { maintainer: c.maintainer, ..c0 };
    adds_installed_size(f1, c1, c.installed_size);
    let f2 = f1 + number_field("Installed-Size"@, c.installed_size);
    let c2 = ControlModel { installed_size: c.installed_size, ..c1 };
    adds_depends(f2, c2, c.depends);
    let f3 = f2 + list_field("Depends"@, c.depends);
    let c3 = ControlModel { depends: c.depends, ..c2 };
    adds_pre_depends(f3, c3, c.pre_depends);
    let f4 = f3 + list_field("Pre-Depends"@, c.pre_depends);
    let c4 = ControlModel { pre_depends: c.pre_depends, ..c3 };
    adds_recommends(f4, c4, c.recommends);
    let f5 = f4 + list_field("Recommends"@, c.recommends);
    let c5 = ControlModel { recommends: c.recommends, ..c4 };
    adds_suggests(f5, c5, c.suggests);
    let f6 = f5 + list_field("Suggests"@, c.suggests);
    let c6 = ControlModel { suggests: c.suggests, ..c5 };
    adds_conflicts(f6, c6, c.conflicts);
    let f7 = f6 + list_field("Conflicts"@, c.conflicts);
    let c7 = ControlModel { conflicts: c.conflicts, ..c6 };
    adds_provides(f7, c7, c.provides);
    let f8 = f7 + list_field("Provides"@, c.provides);
    let c8 = ControlModel { provides: c.provides, ..c7 };
    adds_replaces(f8, c8, c.replaces);
    let f9 = f8 + list_field("Replaces"@, c.replaces);
    let c9 = ControlModel { replaces: c.replaces, ..c8 };
    adds_section(f9, c9, c.section);
    let f10 = f9 + option_field("Section"@, c.section);
    let c10 = ControlModel { section: c.section, ..c9 };
    adds_priority(f10, c10, c.priority);
    let f11 = f10 + option_field("Priority"@, c.priority);
    let c11 = ControlModel { priority: c.priority, ..c10 };
    adds_homepage(f11, c11, c.homepage);
    let f12 = f11 + option_field("Homepage"@, c.homepage);
    let c12 = ControlModel { homepage: c.homepage, ..c11 };
    adds_source(f12, c12, c.source);
    let f13 = f12 + option_field("Source"@, c.source);
    let c13 = ControlModel { source: c.source, ..c12 };
    control_from_add(blank_control(), f13, c.extra);
    extras_are_kept(c13, c.extra);
    let f14 = f13 + c.extra;
    let c14 = ControlModel { extra: c.extra, ..c13 };
    adds_description(f14, c14, c.description);
}

/// The fields of an entry are read back, those that describe the file among the
/// unknown ones.
proof fn entry_control_reads_back(e: PackageModel)
    requires
        is_writable_entry(e),
    ensures
        control_with(entry_fields(e)) == (ControlModel { extra: all_extra(e), ..e.control }),
{
    reveal(entry_fields);
    control_with_is_from(entry_fields(e));
    control_reads_back(e.control);
    let blank = blank_control();
    let f0 = control_fields(e.control);
    let x0 = e.control.extra;
    let c0 = e.control;
    let s1 = option_field("Filename"@, e.filename);
    control_from_add(blank, f0, s1);
    let f1 = f0 + s1;
    let x1 = put_option(x0, "Filename"@, e.filename);
    let c1 = ControlModel { extra: x1, ..e.control };
    assert(control_from(blank, f1) == c1) by {
        option_field_sets(c0, "Filename"@, e.filename);
        if let Some(v) = e.filename {
            keeps_filename(c0, v);
        }
    }
    let s2 = number_field("Size"@, e.size);
    control_from_add(blank, f1, s2);
    let f2 = f1 + s2;
    let x2 = put_option(x1, "Size"@, size_text(e.size));
    let c2 = ControlModel { extra: x2, ..e.control };
    assert(control_from(blank, f2) == c2) by {
        number_field_sets(c1, "Size"@, e.size);
        if let Some(v) = e.size {
            keeps_size(c1, decimal_text(v as nat));
        }
    }
    let s3 = option_field("MD5sum"@, e.md5sum);
    control_from_add(blank, f2, s3);
    let f3 = f2 + s3;
    let x3 = put_option(x2, "MD5sum"@, e.md5sum);
    let c3 = ControlModel { extra: x3, ..e.control };
    assert(control_from(blank, f3) == c3) by {
        option_field_sets(c2, "MD5sum"@, e.md5sum);
        if let Some(v) = e.md5sum {
            keeps_md5sum(c2, v);
        }
    }
    let s4 = option_field("SHA1"@, e.sha1);
    control_from_add(blank, f3, s4);
    let f4 = f3 + s4;
    let x4 = put_option(x3, "SHA1"@, e.sha1);
    let c4 = ControlModel { extra: x4, ..e.control };
    assert(control_from(blank, f4) == c4) by {
        option_field_sets(c3, "SHA1"@, e.sha1);
        if let Some(v) = e.sha1 {
            keeps_sha1(c3, v);
        }
    }
    let s5 = option_field("SHA256"@, e.sha256);
    control_from_add(blank, f4, s5);
    let f5 = f4 + s5;
    let x5 = put_option(x4, "SHA256"@, e.sha256);
    let c5 = ControlModel { extra: x5, ..e.control };
    assert(control_from(blank, f5) == c5) by {
        option_field_sets(c4, "SHA256"@, e.sha256);
        if let Some(v) = e.sha256 {
            keeps_sha256(c4, v);
        }
    }
}

// ---------------------------------------------------------------------------
// Unknown fields
// ---------------------------------------------------------------------------

proof fn put_option_lookup(
    m: Seq<(Seq<char>, Seq<char>)>,
    key: Seq<char>,
    value: Option<Seq<char>>,
)
    requires
        ascending(keys_of(m)),
        lookup(m, key) is None,
    ensures
        ascending(keys_of(put_option(m, key, value))),
        lookup(put_option(m, key, value), key) == value,
        forall|other: Seq<char>|
            other != key ==> #[trigger] lookup(put_option(m, key, value), other) == lookup(m, other),
{
    if let Some(text) = value {
        lookup_after_put(m, key, text, key);
        assert forall|other: Seq<char>| other != key implies #[trigger] lookup(
            put_option(m, key, value),
            other,
        ) == lookup(m, other) by {
            lookup_after_put(m, key, text, other);
        }
    }
}

proof fn file_fields_differ()
    ensures
        "Filename"@ != "Size"@,
        "Filename"@ != "MD5sum"@,
        "Filename"@ != "SHA1"@,
        "Filename"@ != "SHA256"@,
        "Size"@ != "MD5sum"@,
        "Size"@ != "SHA1"@,
        "Size"@ != "SHA256"@,
        "MD5sum"@ != "SHA1"@,
        "MD5sum"@ != "SHA256"@,
        "SHA1"@ != "SHA256"@,
{
    reveal_strlit("Filename");
    reveal_strlit("Size");
    reveal_strlit("MD5sum");
    reveal_strlit("SHA1");
    reveal_strlit("SHA256");
    assert("Filename"@.len() == 8 && "Size"@.len() == 4 && "MD5sum"@.len() == 6);
    assert("SHA1"@.len() == 4 && "SHA256"@.len() == 6);
    assert("Size"@[1] != "SHA1"@[1]);
    assert("MD5sum"@[0] != "SHA256"@[0]);
}

/// The fields that describe the file come out of the unknown ones, and leave
/// the others as they were.
proof fn file_fields_come_out(e: PackageModel)
    requires
        is_writable_control(e.control),
    ensures
        lookup(all_extra(e), "Filename"@) == e.filename,
        lookup(all_extra(e), "Size"@) == size_text(e.size),
        lookup(all_extra(e), "MD5sum"@) == e.md5sum,
        lookup(all_extra(e), "SHA1"@) == e.sha1,
        lookup(all_extra(e), "SHA256"@) == e.sha256,
        without_all(all_extra(e), file_fields()) == e.control.extra,
{
    file_fields_differ();
    let x0 = e.control.extra;
    let names = file_fields();
    assert forall|k: Seq<char>| names.contains(k) implies #[trigger] lookup(x0, k) is None by {
        lookup_iff_contains(x0, k);
        if keys_of(x0).contains(k) {
            let i = choose|i: int| 0 <= i < keys_of(x0).len() && keys_of(x0)[i] == k;
            assert(x0[i].0 == k);
        }
    }
    assert(names[0] == "Filename"@ && names[1] == "Size"@ && names[2] == "MD5sum"@ && names[3]
        == "SHA1"@ && names[4] == "SHA256"@);
    assert(names.contains("Filename"@) && names.contains("Size"@) && names.contains("MD5sum"@)
        && names.contains("SHA1"@) && names.contains("SHA256"@));
    put_option_lookup(x0, "Filename"@, e.filename);
    let x1 = put_option(x0, "Filename"@, e.filename);
    put_option_lookup(x1, "Size"@, size_text(e.size));
    let x2 = put_option(x1, "Size"@, size_text(e.size));
    put_option_lookup(x2, "MD5sum"@, e.md5sum);
    let x3 = put_option(x2, "MD5sum"@, e.md5sum);
    put_option_lookup(x3, "SHA1"@, e.sha1);
    let x4 = put_option(x3, "SHA1"@, e.sha1);
    put_option_lookup(x4, "SHA256"@, e.sha256);
    let x5 = all_extra(e);
    let left = without_all(x5, names);
    without_all_lookup(x5, names, names[0]);
    assert forall|k: Seq<char>| #[trigger] lookup(left, k) == lookup(x0, k) by {
        without_all_lookup(x5, names, k);
        if names.contains(k) {
            assert(lookup(x0, k) is None);
        } else {
            assert(k != names[0] && k != names[1] && k != names[2] && k != names[3] && k
                != names[4]);
            assert(lookup(x5, k) == lookup(x4, k));
            assert(lookup(x4, k) == lookup(x3, k));
            assert(lookup(x3, k) == lookup(x2, k));
            assert(lookup(x2, k) == lookup(x1, k));
            assert(lookup(x1, k) == lookup(x0, k));
        }
    }
    same_lookups_same_map(left, x0);
}

// ---------------------------------------------------------------------------
// Laws
// ---------------------------------------------------------------------------

proof fn entry_has_fields(e: PackageModel)
    ensures
        entry_fields(e).len() > 0,
{
    reveal(entry_fields);
    assert(required_fields(e.control).len() == 3);
}

proof fn entry_is_stanza(e: PackageModel)
    requires
        is_writable_entry(e),
    ensures
        is_stanza(all_lines(entry_fields(e))),
        mirrored_entry_text(e) == flat(all_lines(entry_fields(e))),
{
    entry_text_is_fields(e);
    fields_are_flat(entry_fields(e));
    fields_read_back(entry_fields(e));
    entry_has_fields(e);
}

/// An entry of a Packages index reads back as it was written.
pub proof fn written_entry_reads_back(e: PackageModel)
    requires
        is_writable_entry(e),
    ensures
        package_of(trim_end(mirrored_entry_text(e))) == Ok::<PackageModel, Failure>(e),
{
    entry_is_stanza(e);
    entry_text_is_fields(e);
    let ls = all_lines(entry_fields(e));
    stanza_text(ls);
    lines_of_open_flat(ls);
    fields_read_back(entry_fields(e));
    entry_control_reads_back(e);
    file_fields_come_out(e);
    writable_is_not_blank(e.control.package);
    writable_is_not_blank(e.control.version);
    writable_is_not_blank(e.control.architecture);
    if let Some(n) = e.size {
        decimal_round_trip(n as nat, u64::MAX as nat);
    }
    let c = ControlModel { extra: all_extra(e), ..e.control };
    assert(control_of(trim_end(mirrored_entry_text(e))) == Ok::<ControlModel, Failure>(c));
    assert(ControlModel { extra: e.control.extra, ..c } == e.control);
}

spec fn documents(es: Seq<PackageModel>) -> Seq<Seq<Seq<char>>> {
    es.map_values(|e: PackageModel| all_lines(entry_fields(e)))
}

proof fn index_is_documents(es: Seq<PackageModel>)
    requires
        forall|i: int| 0 <= i < es.len() ==> is_writable_entry(#[trigger] es[i]),
    ensures
        mirrored_text(es) == flat(document_lines(documents(es))),
        forall|i: int| 0 <= i < documents(es).len() ==> is_stanza(#[trigger] documents(es)[i]),
    decreases es.len(),
{
    assert forall|i: int| 0 <= i < documents(es).len() implies is_stanza(
        #[trigger] documents(es)[i],
    ) by {
        assert(is_writable_entry(es[i]));
        entry_is_stanza(es[i]);
    }
    if es.len() == 1 {
        assert(is_writable_entry(es[0]));
        entry_is_stanza(es[0]);
    } else if es.len() > 1 {
        let t = es.drop_last();
        assert forall|i: int| 0 <= i < t.len() implies is_writable_entry(#[trigger] t[i]) by {
            assert(t[i] == es[i]);
        }
        index_is_documents(t);
        assert(is_writable_entry(es[es.len() - 1]));
        entry_is_stanza(es.last());
        assert(documents(es).drop_last() =~= documents(t));
        let blank = seq![Seq::<char>::empty()];
        flat_add(document_lines(documents(t)) + blank, documents(es).last());
        flat_add(document_lines(documents(t)), blank);
        assert(flat(blank.drop_last()) =~= Seq::<char>::empty());
        assert(flat(blank) =~= seq!['\n']);
    }
}

/// Stanzas that each read as the package at their place read as the packages.
proof fn stanzas_read_in_turn(ss: Seq<Seq<char>>, es: Seq<PackageModel>)
    requires
        ss.len() == es.len(),
        forall|i: int|
            0 <= i < ss.len() ==> package_of(#[trigger] ss[i]) == Ok::<PackageModel, Failure>(es[i]),
    ensures
        packages_from(ss) == Ok::<Seq<PackageModel>, Failure>(es),
    decreases ss.len(),
{
    if ss.len() == 0 {
        assert(es =~= seq![]);
    } else {
        let n = ss.len() - 1;
        assert(package_of(ss[n]) == Ok::<PackageModel, Failure>(es[n]));
        assert forall|i: int| 0 <= i < ss.drop_last().len() implies package_of(
            #[trigger] ss.drop_last()[i],
        ) == Ok::<PackageModel, Failure>(es.drop_last()[i]) by {
            assert(ss.drop_last()[i] == ss[i]);
        }
        stanzas_read_in_turn(ss.drop_last(), es.drop_last());
        assert(es.drop_last().push(es.last()) =~= es);
    }
}

proof fn document_reads_back(e: PackageModel)
    requires
        is_writable_entry(e),
    ensures
        package_of(trim_end(flat(all_lines(entry_fields(e))))) == Ok::<PackageModel, Failure>(e),
{
    entry_is_stanza(e);
    written_entry_reads_back(e);
}

proof fn stanzas_read_back(es: Seq<PackageModel>)
    requires
        forall|i: int| 0 <= i < es.len() ==> is_writable_entry(#[trigger] es[i]),
    ensures
        packages_from(
            documents(es).map_values(|ls: Seq<Seq<char>>| trim_end(flat(ls))),
        ) == Ok::<Seq<PackageModel>, Failure>(es),
{
    let ss = documents(es).map_values(|ls: Seq<Seq<char>>| trim_end(flat(ls)));
    assert forall|i: int| 0 <= i < ss.len() implies package_of(#[trigger] ss[i]) == Ok::<
        PackageModel,
        Failure,
    >(es[i]) by {
        assert(is_writable_entry(es[i]));
        document_reads_back(es[i]);
    }
    stanzas_read_in_turn(ss, es);
}

/// A Packages index reads back as it was written, entry by entry.
pub proof fn written_index_reads_back(es: Seq<PackageModel>)
    requires
        forall|i: int| 0 <= i < es.len() ==> is_writable_entry(#[trigger] es[i]),
    ensures
        packages_of(mirrored_text(es)) == Ok::<Seq<PackageModel>, Failure>(es),
{
    index_is_documents(es);
    let docs = documents(es);
    let closed = |ls: Seq<Seq<char>>| trim_end(flat(ls));
    let text = mirrored_text(es);
    if es.len() == 0 {
        assert(es =~= seq![]);
        assert(lines(text) =~= seq![]);
    } else {
        documents_split(docs);
        lines_of_flat(document_lines(docs));
        assert(is_stanza(docs[docs.len() - 1]));
        stanza_text(docs.last());
        assert(stanzas(text) =~= docs.map_values(closed));
    }
    stanzas_read_back(es);
}

/// An entry that is generated for a package file reads back: the control stanza
/// and what is said of the file.
pub proof fn generated_entry_reads_back(
    c: ControlModel,
    filename: Seq<char>,
    size: u64,
    md5sum: Seq<char>,
    sha256: Seq<char>,
)
    requires
        is_writable_control(c),
        is_writable(filename),
        is_writable(md5sum),
        is_writable(sha256),
    ensures
        packages_of(packages_entry_text(c, filename, size, md5sum, sha256)) == Ok::<
            Seq<PackageModel>,
            Failure,
        >(
            seq![
                PackageModel {
                    control: c,
                    filename: Some(filename),
                    size: Some(size),
                    md5sum: Some(md5sum),
                    sha1: None,
                    sha256: Some(sha256),
                },
            ],
        ),
{
    let e = PackageModel {
        control: c,
        filename: Some(filename),
        size: Some(size),
        md5sum: Some(md5sum),
        sha1: None,
        sha256: Some(sha256),
    };
    writable_is_not_blank(filename);
    writable_is_not_blank(md5sum);
    writable_is_not_blank(sha256);
    assert(packages_entry_text(c, filename, size, md5sum, sha256) =~= mirrored_entry_text(e));
    let es = seq![e];
    assert(is_writable_entry(es[0]));
    written_index_reads_back(es);
    assert(mirrored_text(es) == mirrored_entry_text(e));
}

/// What the entry of a hosted package says. A size below zero counts as zero.
pub open spec fn hosted_package(entry: HostedModel) -> PackageModel {
    PackageModel {
        control: entry.control,
        filename: Some(entry.filename),
        size: Some(
            if entry.size < 0 {
                0
            } else {
                entry.size as u64
            },
        ),
        md5sum: entry.md5,
        sha1: entry.sha1,
        sha256: Some(entry.sha256),
    }
}

/// What the index of hosted packages says.
pub open spec fn hosted_packages(entries: Seq<HostedModel>) -> Seq<PackageModel> {
    entries.map_values(|entry: HostedModel| hosted_package(entry))
}

proof fn hosted_text_is_mirrored(entries: Seq<HostedModel>)
    ensures
        hosted_text(entries) == mirrored_text(hosted_packages(entries)),
    decreases entries.len(),
{
    if entries.len() > 1 {
        hosted_text_is_mirrored(entries.drop_last());
        assert(hosted_packages(entries).drop_last() =~= hosted_packages(entries.drop_last()));
    }
}

/// The Packages index of a repository that holds its own packages reads back:
/// the control stanza of each package, and what is said of its file.
pub proof fn hosted_index_reads_back(entries: Seq<HostedModel>)
    requires
        forall|i: int|
            0 <= i < entries.len() ==> is_writable_entry(hosted_package(#[trigger] entries[i])),
    ensures
        packages_of(hosted_text(entries)) == Ok::<Seq<PackageModel>, Failure>(
            hosted_packages(entries),
        ),
{
    hosted_text_is_mirrored(entries);
    let es = hosted_packages(entries);
    assert forall|i: int| 0 <= i < es.len() implies is_writable_entry(#[trigger] es[i]) by {
        assert(is_writable_entry(hosted_package(entries[i])));
    }
    written_index_reads_back(es);
}

} // verus!
