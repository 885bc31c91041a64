//! What is read out of control data, said of its lines and fields.

use vstd::prelude::*;

use crate::control::{control_of, control_with, dependency_list, trimmed_items};
use crate::error::Failure;
use crate::number::decimal_u64;
use crate::ordered::{ascending, keys_of, lookup, lookup_after_put};
use crate::stanza::{closed_stanzas, field_of, fields, is_indented, map_of, map_of_ascending, open_stanza, stanzas};
use crate::stanza::strict_fields;
use crate::text::{find, find_is_first, is_blank, lines, lower, lowers_to, split, starts_with, trim};
use crate::text::{trim_empty_iff_blank, trim_end, trim_start};

verus! {

// ---------------------------------------------------------------------------
// Lines
// ---------------------------------------------------------------------------

/// The line is that of a field: a name, a colon, and a value.
pub open spec fn is_field_line(line: Seq<char>, name: Seq<char>, value: Seq<char>) -> bool {
    &&& line == name + ":"@ + value
    &&& !name.contains(':')
    &&& !starts_with(line, " "@)
    &&& !starts_with(line, "\t"@)
}

/// The line belongs to the field above it.
pub open spec fn is_folded(line: Seq<char>) -> bool {
    starts_with(line, " "@) || starts_with(line, "\t"@)
}

proof fn folded_is_indented(line: Seq<char>)
    ensures
        is_folded(line) <==> is_indented(line),
{
    reveal_strlit(" ");
    reveal_strlit("\t");
    if line.len() > 0 {
        assert(line.take(1) =~= seq![line[0]]);
        assert(" "@ =~= seq![' ']);
        assert("\t"@ =~= seq!['\t']);
        assert(seq![line[0]][0] == line[0]);
        assert(seq![' '][0] == ' ');
        assert(seq!['\t'][0] == '\t');
    }
}

proof fn field_line_is_read(line: Seq<char>, name: Seq<char>, value: Seq<char>)
    requires
        is_field_line(line, name, value),
    ensures
        !is_indented(line),
        find(line, ':') < line.len(),
        field_of(line) == (name, trim(value)),
{
    folded_is_indented(line);
    reveal_strlit(":");
    let n = find(line, ':') as int;
    find_is_first(line, ':');
    assert(line[name.len() as int] == ':');
    if n < name.len() {
        assert(name[n] == line[n]);
    }
    assert(n == name.len());
    assert(line.take(n) =~= name);
    assert(line.skip(n + 1) =~= value);
}

/// A line that begins a field adds it behind those of the lines before, under its
/// name as written and with its value trimmed, for either reader.
pub proof fn line_begins_field(
    ls: Seq<Seq<char>>,
    line: Seq<char>,
    name: Seq<char>,
    value: Seq<char>,
)
    requires
        is_field_line(line, name, value),
    ensures
        fields(ls.push(line)) == fields(ls).push((name, trim(value))),
        strict_fields(ls) is Ok ==> strict_fields(ls.push(line)) == Ok::<
            Seq<(Seq<char>, Seq<char>)>,
            Failure,
        >(strict_fields(ls)->Ok_0.push((name, trim(value)))),
{
    assert(ls.push(line).drop_last() =~= ls);
    field_line_is_read(line, name, value);
}

/// An indented line lengthens the value of the field above it by a line, without its
/// indent, and changes no other field, for either reader.
pub proof fn line_continues_field(ls: Seq<Seq<char>>, line: Seq<char>)
    requires
        is_folded(line),
    ensures
        fields(ls).len() > 0 ==> {
            let before = fields(ls);
            let after = fields(ls.push(line));
            &&& after.len() == before.len()
            &&& forall|i: int| 0 <= i < before.len() - 1 ==> #[trigger] after[i] == before[i]
            &&& after.last() == (before.last().0, before.last().1 + "\n"@ + trim_start(line))
        },
        strict_fields(ls) matches Ok(before) && before.len() > 0 ==> {
            let before = strict_fields(ls)->Ok_0;
            let after = strict_fields(ls.push(line))->Ok_0;
            &&& strict_fields(ls.push(line)) is Ok
            &&& after.len() == before.len()
            &&& forall|i: int| 0 <= i < before.len() - 1 ==> #[trigger] after[i] == before[i]
            &&& after.last() == (before.last().0, before.last().1 + "\n"@ + trim_start(line))
        },
        fields(ls).len() == 0 ==> fields(ls.push(line)) == fields(ls),
        strict_fields(ls) matches Ok(before) && before.len() == 0 ==> strict_fields(
            ls.push(line),
        ) is Err,
{
    assert(ls.push(line).drop_last() =~= ls);
    folded_is_indented(line);
    reveal_strlit("\n");
    assert("\n"@ =~= seq!['\n']);
}

/// A line that neither is indented nor holds a colon is passed over by the reader of
/// control files and refused by the strict one.
pub proof fn line_without_colon(ls: Seq<Seq<char>>, line: Seq<char>)
    requires
        !is_folded(line),
        !line.contains(':'),
    ensures
        fields(ls.push(line)) == fields(ls),
        strict_fields(ls.push(line)) is Err,
{
    assert(ls.push(line).drop_last() =~= ls);
    folded_is_indented(line);
    find_is_first(line, ':');
    if find(line, ':') < line.len() {
        assert(line.contains(line[find(line, ':') as int]));
    }
}

/// A text whose lines all hold something is one stanza, of all its lines.
pub proof fn text_without_blank_lines_is_one_stanza(content: Seq<char>)
    requires
        lines(content).len() > 0,
        forall|i: int| 0 <= i < lines(content).len() ==> !is_blank(#[trigger] lines(content)[i]),
    ensures
        stanzas(content) == seq![
            trim_end(
                lines(content).map_values(|line: Seq<char>| line + "\n"@).flatten(),
            ),
        ],
{
    filled_lines_stay_open(lines(content));
}

proof fn filled_lines_stay_open(ls: Seq<Seq<char>>)
    requires
        forall|i: int| 0 <= i < ls.len() ==> !is_blank(#[trigger] ls[i]),
    ensures
        open_stanza(ls) == ls.map_values(|line: Seq<char>| line + "\n"@).flatten(),
        ls.len() > 0 ==> open_stanza(ls).len() > 0,
        closed_stanzas(ls) == Seq::<Seq<char>>::empty(),
    decreases ls.len(),
{
    let ended = |line: Seq<char>| line + "\n"@;
    let ss = ls.map_values(ended);
    reveal_strlit("\n");
    assert("\n"@ =~= seq!['\n']);
    ss.lemma_flatten_and_flatten_alt_are_equivalent();
    if ls.len() > 0 {
        let t = ls.drop_last();
        assert forall|i: int| 0 <= i < t.len() implies !is_blank(#[trigger] t[i]) by {
            assert(t[i] == ls[i]);
        }
        filled_lines_stay_open(t);
        assert(!is_blank(ls[ls.len() - 1]));
        t.map_values(ended).lemma_flatten_and_flatten_alt_are_equivalent();
        assert(ss.drop_last() =~= t.map_values(ended));
        assert(open_stanza(ls) =~= ss.flatten());
    } else {
        assert(ss =~= seq![]);
        assert(open_stanza(ls) =~= ss.flatten());
    }
}

// ---------------------------------------------------------------------------
// Fields of a name
// ---------------------------------------------------------------------------

/// The field is the last of exactly this name.
pub open spec fn is_last_of(fs: Seq<(Seq<char>, Seq<char>)>, name: Seq<char>, i: int) -> bool {
    &&& 0 <= i < fs.len()
    &&& fs[i].0 == name
    &&& forall|j: int| i < j < fs.len() ==> (#[trigger] fs[j]).0 != name
}

/// No field has exactly this name.
pub open spec fn has_none_of(fs: Seq<(Seq<char>, Seq<char>)>, name: Seq<char>) -> bool {
    forall|j: int| 0 <= j < fs.len() ==> (#[trigger] fs[j]).0 != name
}

/// Of the fields of a name the last one counts, trimmed.
pub proof fn last_field_counts(fs: Seq<(Seq<char>, Seq<char>)>, name: Seq<char>, i: int)
    requires
        is_last_of(fs, name, i),
    ensures
        lookup(map_of(fs), name) == Some(trim(fs[i].1)),
    decreases fs.len(),
{
    let t = fs.drop_last();
    map_of_ascending(t);
    lookup_after_put(map_of(t), fs.last().0, trim(fs.last().1), name);
    if i < t.len() {
        assert(fs[fs.len() - 1].0 != name);
        assert forall|j: int| i < j < t.len() implies (#[trigger] t[j]).0 != name by {
            assert(t[j] == fs[j]);
        }
        last_field_counts(t, name, i);
    }
}

/// A name that no field has is not there.
pub proof fn missing_field_is_missing(fs: Seq<(Seq<char>, Seq<char>)>, name: Seq<char>)
    requires
        has_none_of(fs, name),
    ensures
        lookup(map_of(fs), name) is None,
    decreases fs.len(),
{
    if fs.len() > 0 {
        let t = fs.drop_last();
        map_of_ascending(t);
        lookup_after_put(map_of(t), fs.last().0, trim(fs.last().1), name);
        assert(fs[fs.len() - 1].0 != name);
        assert forall|j: int| 0 <= j < t.len() implies (#[trigger] t[j]).0 != name by {
            assert(t[j] == fs[j]);
        }
        missing_field_is_missing(t, name);
    }
}

// ---------------------------------------------------------------------------
// Control stanzas
// ---------------------------------------------------------------------------

/// A list of dependencies holds what stands between its commas, trimmed, in order;
/// only what is blank is left out.
pub proof fn list_holds_every_item(value: Seq<char>)
    ensures
        dependency_list(value) == split(value, ',').filter(
            |item: Seq<char>| !is_blank(item),
        ).map_values(|item: Seq<char>| trim(item)),
{
    items_are_trimmed(split(value, ','));
}

proof fn items_are_trimmed(items: Seq<Seq<char>>)
    ensures
        trimmed_items(items) == items.filter(|item: Seq<char>| !is_blank(item)).map_values(
            |item: Seq<char>| trim(item),
        ),
    decreases items.len(),
{
    reveal(Seq::filter);
    let holds = |item: Seq<char>| !is_blank(item);
    let clean = |item: Seq<char>| trim(item);
    if items.len() > 0 {
        items_are_trimmed(items.drop_last());
        trim_empty_iff_blank(items.last());
    }
    assert(trimmed_items(items) =~= items.filter(holds).map_values(clean));
}

/// The field is the last whose name is the word, whatever the case of its letters.
pub open spec fn is_last_named(fs: Seq<(Seq<char>, Seq<char>)>, word: Seq<char>, i: int) -> bool {
    &&& 0 <= i < fs.len()
    &&& lowers_to(fs[i].0, word)
    &&& forall|j: int| i < j < fs.len() ==> !lowers_to((#[trigger] fs[j]).0, word)
}

/// No field is named by the word, whatever the case of its letters.
pub open spec fn has_none_named(fs: Seq<(Seq<char>, Seq<char>)>, word: Seq<char>) -> bool {
    forall|j: int| 0 <= j < fs.len() ==> !lowers_to((#[trigger] fs[j]).0, word)
}

spec fn last_named(fs: Seq<(Seq<char>, Seq<char>)>, word: Seq<char>) -> Option<Seq<char>>
    decreases fs.len(),
{
    if fs.len() == 0 {
        None
    } else if lowers_to(fs.last().0, word) {
        Some(fs.last().1)
    } else {
        last_named(fs.drop_last(), word)
    }
}

proof fn last_named_is(fs: Seq<(Seq<char>, Seq<char>)>, word: Seq<char>)
    ensures
        forall|i: int| #[trigger]
            is_last_named(fs, word, i) ==> last_named(fs, word) == Some(fs[i].1),
        has_none_named(fs, word) ==> last_named(fs, word) is None,
    decreases fs.len(),
{
    if fs.len() > 0 {
        let t = fs.drop_last();
        last_named_is(t, word);
        assert forall|i: int| #[trigger] is_last_named(fs, word, i) implies last_named(fs, word)
            == Some(fs[i].1) by {
            if i < t.len() {
                assert(!lowers_to(fs[fs.len() - 1].0, word));
                assert forall|j: int| i < j < t.len() implies !lowers_to(
                    (#[trigger] t[j]).0,
                    word,
                ) by {
                    assert(t[j] == fs[j]);
                }
                assert(is_last_named(t, word, i));
            }
        }
        if has_none_named(fs, word) {
            assert(!lowers_to(fs[fs.len() - 1].0, word));
            assert forall|j: int| 0 <= j < t.len() implies !lowers_to(
                (#[trigger] t[j]).0,
                word,
            ) by {
                assert(t[j] == fs[j]);
            }
        }
    }
}

/// The words that name the fields of a control stanza, in the order in which they are
/// compared.
pub open spec fn control_words() -> Seq<Seq<char>> {
    seq![
        "package"@,
        "version"@,
        "architecture"@,
        "maintainer"@,
        "installed-size"@,
        "depends"@,
        "pre-depends"@,
        "recommends"@,
        "suggests"@,
        "conflicts"@,
        "provides"@,
        "replaces"@,
        "section"@,
        "priority"@,
        "homepage"@,
        "description"@,
        "source"@,
    ]
}

/// No two words name the same field: they differ in their length or in a letter.
proof fn one_word_at_most(key: Seq<char>, a: int, b: int)
    requires
        0 <= a < b < control_words().len(),
        lowers_to(key, control_words()[a]),
    ensures
        !lowers_to(key, control_words()[b]),
{
    reveal_strlit("package");
    reveal_strlit("version");
    reveal_strlit("architecture");
    reveal_strlit("maintainer");
    reveal_strlit("installed-size");
    reveal_strlit("depends");
    reveal_strlit("pre-depends");
    reveal_strlit("recommends");
    reveal_strlit("suggests");
    reveal_strlit("conflicts");
    reveal_strlit("provides");
    reveal_strlit("replaces");
    reveal_strlit("section");
    reveal_strlit("priority");
    reveal_strlit("homepage");
    reveal_strlit("description");
    reveal_strlit("source");
    if lowers_to(key, control_words()[b]) {
        assert(control_words()[a].len() == control_words()[b].len());
        if a == 0 && b == 1 {
            assert(lower(key[0]) == 'p' && lower(key[0]) == 'v');
        }
        if a == 0 && b == 5 {
            assert(lower(key[0]) == 'p' && lower(key[0]) == 'd');
        }
        if a == 0 && b == 12 {
            assert(lower(key[0]) == 'p' && lower(key[0]) == 's');
        }
        if a == 1 && b == 5 {
            assert(lower(key[0]) == 'v' && lower(key[0]) == 'd');
        }
        if a == 1 && b == 12 {
            assert(lower(key[0]) == 'v' && lower(key[0]) == 's');
        }
        if a == 3 && b == 7 {
            assert(lower(key[0]) == 'm' && lower(key[0]) == 'r');
        }
        if a == 5 && b == 12 {
            assert(lower(key[0]) == 'd' && lower(key[0]) == 's');
        }
        if a == 6 && b == 15 {
            assert(lower(key[0]) == 'p' && lower(key[0]) == 'd');
        }
        if a == 8 && b == 10 {
            assert(lower(key[0]) == 's' && lower(key[0]) == 'p');
        }
        if a == 8 && b == 11 {
            assert(lower(key[0]) == 's' && lower(key[0]) == 'r');
        }
        if a == 8 && b == 13 {
            assert(lower(key[0]) == 's' && lower(key[0]) == 'p');
        }
        if a == 8 && b == 14 {
            assert(lower(key[0]) == 's' && lower(key[0]) == 'h');
        }
        if a == 10 && b == 11 {
            assert(lower(key[0]) == 'p' && lower(key[0]) == 'r');
        }
        if a == 10 && b == 13 {
            assert(lower(key[2]) == 'o' && lower(key[2]) == 'i');
        }
        if a == 10 && b == 14 {
            assert(lower(key[0]) == 'p' && lower(key[0]) == 'h');
        }
        if a == 11 && b == 13 {
            assert(lower(key[0]) == 'r' && lower(key[0]) == 'p');
        }
        if a == 11 && b == 14 {
            assert(lower(key[0]) == 'r' && lower(key[0]) == 'h');
        }
        if a == 13 && b == 14 {
            assert(lower(key[0]) == 'p' && lower(key[0]) == 'h');
        }
    }
}

proof fn package_is_last(fs: Seq<(Seq<char>, Seq<char>)>)
    ensures
        control_with(fs).package == (match last_named(fs, "package"@) {
            Some(value) => value,
            None => seq![],
        }),
    decreases fs.len(),
{
    if fs.len() > 0 {
        let key = fs.last().0;
        let before = control_with(fs.drop_last());
        package_is_last(fs.drop_last());
        if lowers_to(key, "package"@) {
            assert forall|a: int| 0 <= a < 0 implies !lowers_to(
                key,
                #[trigger] control_words()[a],
            ) by {
                if lowers_to(key, control_words()[a]) {
                    one_word_at_most(key, a, 0);
                    assert(control_words()[0] == "package"@);
                }
            }
            earlier_words(key, 0);
        }
    }
}

proof fn version_is_last(fs: Seq<(Seq<char>, Seq<char>)>)
    ensures
        control_with(fs).version == (match last_named(fs, "version"@) {
            Some(value) => value,
            None => seq![],
        }),
    decreases fs.len(),
{
    if fs.len() > 0 {
        let key = fs.last().0;
        let before = control_with(fs.drop_last());
        version_is_last(fs.drop_last());
        if lowers_to(key, "version"@) {
            assert forall|a: int| 0 <= a < 1 implies !lowers_to(
                key,
                #[trigger] control_words()[a],
            ) by {
                if lowers_to(key, control_words()[a]) {
                    one_word_at_most(key, a, 1);
                    assert(control_words()[1] == "version"@);
                }
            }
            earlier_words(key, 1);
        }
    }
}

proof fn architecture_is_last(fs: Seq<(Seq<char>, Seq<char>)>)
    ensures
        control_with(fs).architecture == (match last_named(fs, "architecture"@) {
            Some(value) => value,
            None => seq![],
        }),
    decreases fs.len(),
{
    if fs.len() > 0 {
        let key = fs.last().0;
        let before = control_with(fs.drop_last());
        architecture_is_last(fs.drop_last());
        if lowers_to(key, "architecture"@) {
            assert forall|a: int| 0 <= a < 2 implies !lowers_to(
                key,
                #[trigger] control_words()[a],
            ) by {
                if lowers_to(key, control_words()[a]) {
                    one_word_at_most(key, a, 2);
                    assert(control_words()[2] == "architecture"@);
                }
            }
            earlier_words(key, 2);
        }
    }
}

proof fn maintainer_is_last(fs: Seq<(Seq<char>, Seq<char>)>)
    ensures
        control_with(fs).maintainer == (match last_named(fs, "maintainer"@) {
            Some(value) => Some(value),
            None => None,
        }),
    decreases fs.len(),
{
    if fs.len() > 0 {
        let key = fs.last().0;
        let before = control_with(fs.drop_last());
        maintainer_is_last(fs.drop_last());
        if lowers_to(key, "maintainer"@) {
            assert forall|a: int| 0 <= a < 3 implies !lowers_to(
                key,
                #[trigger] control_words()[a],
            ) by {
                if lowers_to(key, control_words()[a]) {
                    one_word_at_most(key, a, 3);
                    assert(control_words()[3] == "maintainer"@);
                }
            }
            earlier_words(key, 3);
        }
    }
}

proof fn installed_size_is_last(fs: Seq<(Seq<char>, Seq<char>)>)
    ensures
        control_with(fs).installed_size == (match last_named(fs, "installed-size"@) {
            Some(value) => decimal_u64(value),
            None => None,
        }),
    decreases fs.len(),
{
    if fs.len() > 0 {
        let key = fs.last().0;
        let before = control_with(fs.drop_last());
        installed_size_is_last(fs.drop_last());
        if lowers_to(key, "installed-size"@) {
            assert forall|a: int| 0 <= a < 4 implies !lowers_to(
                key,
                #[trigger] control_words()[a],
            ) by {
                if lowers_to(key, control_words()[a]) {
                    one_word_at_most(key, a, 4);
                    assert(control_words()[4] == "installed-size"@);
                }
            }
            earlier_words(key, 4);
        }
    }
}

proof fn depends_is_last(fs: Seq<(Seq<char>, Seq<char>)>)
    ensures
        control_with(fs).depends == (match last_named(fs, "depends"@) {
            Some(value) => Some(dependency_list(value)),
            None => None,
        }),
    decreases fs.len(),
{
    if fs.len() > 0 {
        let key = fs.last().0;
        let before = control_with(fs.drop_last());
        depends_is_last(fs.drop_last());
        if lowers_to(key, "depends"@) {
            assert forall|a: int| 0 <= a < 5 implies !lowers_to(
                key,
                #[trigger] control_words()[a],
            ) by {
                if lowers_to(key, control_words()[a]) {
                    one_word_at_most(key, a, 5);
                    assert(control_words()[5] == "depends"@);
                }
            }
            earlier_words(key, 5);
        }
    }
}

proof fn pre_depends_is_last(fs: Seq<(Seq<char>, Seq<char>)>)
    ensures
        control_with(fs).pre_depends == (match last_named(fs, "pre-depends"@) {
            Some(value) => Some(dependency_list(value)),
            None => None,
        }),
    decreases fs.len(),
{
    if fs.len() > 0 {
        let key = fs.last().0;
        let before = control_with(fs.drop_last());
        pre_depends_is_last(fs.drop_last());
        if lowers_to(key, "pre-depends"@) {
            assert forall|a: int| 0 <= a < 6 implies !lowers_to(
                key,
                #[trigger] control_words()[a],
            ) by {
                if lowers_to(key, control_words()[a]) {
                    one_word_at_most(key, a, 6);
                    assert(control_words()[6] == "pre-depends"@);
                }
            }
            earlier_words(key, 6);
        }
    }
}

proof fn recommends_is_last(fs: Seq<(Seq<char>, Seq<char>)>)
    ensures
        control_with(fs).recommends == (match last_named(fs, "recommends"@) {
            Some(value) => Some(dependency_list(value)),
            None => None,
        }),
    decreases fs.len(),
{
    if fs.len() > 0 {
        let key = fs.last().0;
        let before = control_with(fs.drop_last());
        recommends_is_last(fs.drop_last());
        if lowers_to(key, "recommends"@) {
            assert forall|a: int| 0 <= a < 7 implies !lowers_to(
                key,
                #[trigger] control_words()[a],
            ) by {
                if lowers_to(key, control_words()[a]) {
                    one_word_at_most(key, a, 7);
                    assert(control_words()[7] == "recommends"@);
                }
            }
            earlier_words(key, 7);
        }
    }
}

proof fn suggests_is_last(fs: Seq<(Seq<char>, Seq<char>)>)
    ensures
        control_with(fs).suggests == (match last_named(fs, "suggests"@) {
            Some(value) => Some(dependency_list(value)),
            None => None,
        }),
    decreases fs.len(),
{
    if fs.len() > 0 {
        let key = fs.last().0;
        let before = control_with(fs.drop_last());
        suggests_is_last(fs.drop_last());
        if lowers_to(key, "suggests"@) {
            assert forall|a: int| 0 <= a < 8 implies !lowers_to(
                key,
                #[trigger] control_words()[a],
            ) by {
                if lowers_to(key, control_words()[a]) {
                    one_word_at_most(key, a, 8);
                    assert(control_words()[8] == "suggests"@);
                }
            }
            earlier_words(key, 8);
        }
    }
}

proof fn conflicts_is_last(fs: Seq<(Seq<char>, Seq<char>)>)
    ensures
        control_with(fs).conflicts == (match last_named(fs, "conflicts"@) {
            Some(value) => Some(dependency_list(value)),
            None => None,
        }),
    decreases fs.len(),
{
    if fs.len() > 0 {
        let key = fs.last().0;
        let before = control_with(fs.drop_last());
        conflicts_is_last(fs.drop_last());
        if lowers_to(key, "conflicts"@) {
            assert forall|a: int| 0 <= a < 9 implies !lowers_to(
                key,
                #[trigger] control_words()[a],
            ) by {
                if lowers_to(key, control_words()[a]) {
                    one_word_at_most(key, a, 9);
                    assert(control_words()[9] == "conflicts"@);
                }
            }
            earlier_words(key, 9);
        }
    }
}

proof fn provides_is_last(fs: Seq<(Seq<char>, Seq<char>)>)
    ensures
        control_with(fs).provides == (match last_named(fs, "provides"@) {
            Some(value) => Some(dependency_list(value)),
            None => None,
        }),
    decreases fs.len(),
{
    if fs.len() > 0 {
        let key = fs.last().0;
        let before = control_with(fs.drop_last());
        provides_is_last(fs.drop_last());
        if lowers_to(key, "provides"@) {
            assert forall|a: int| 0 <= a < 10 implies !lowers_to(
                key,
                #[trigger] control_words()[a],
            ) by {
                if lowers_to(key, control_words()[a]) {
                    one_word_at_most(key, a, 10);
                    assert(control_words()[10] == "provides"@);
                }
            }
            earlier_words(key, 10);
        }
    }
}

proof fn replaces_is_last(fs: Seq<(Seq<char>, Seq<char>)>)
    ensures
        control_with(fs).replaces == (match last_named(fs, "replaces"@) {
            Some(value) => Some(dependency_list(value)),
            None => None,
        }),
    decreases fs.len(),
{
    if fs.len() > 0 {
        let key = fs.last().0;
        let before = control_with(fs.drop_last());
        replaces_is_last(fs.drop_last());
        if lowers_to(key, "replaces"@) {
            assert forall|a: int| 0 <= a < 11 implies !lowers_to(
                key,
                #[trigger] control_words()[a],
            ) by {
                if lowers_to(key, control_words()[a]) {
                    one_word_at_most(key, a, 11);
                    assert(control_words()[11] == "replaces"@);
                }
            }
            earlier_words(key, 11);
        }
    }
}

proof fn section_is_last(fs: Seq<(Seq<char>, Seq<char>)>)
    ensures
        control_with(fs).section == (match last_named(fs, "section"@) {
            Some(value) => Some(value),
            None => None,
        }),
    decreases fs.len(),
{
    if fs.len() > 0 {
        let key = fs.last().0;
        let before = control_with(fs.drop_last());
        section_is_last(fs.drop_last());
        if lowers_to(key, "section"@) {
            assert forall|a: int| 0 <= a < 12 implies !lowers_to(
                key,
                #[trigger] control_words()[a],
            ) by {
                if lowers_to(key, control_words()[a]) {
                    one_word_at_most(key, a, 12);
                    assert(control_words()[12] == "section"@);
                }
            }
            earlier_words(key, 12);
        }
    }
}

proof fn priority_is_last(fs: Seq<(Seq<char>, Seq<char>)>)
    ensures
        control_with(fs).priority == (match last_named(fs, "priority"@) {
            Some(value) => Some(value),
            None => None,
        }),
    decreases fs.len(),
{
    if fs.len() > 0 {
        let key = fs.last().0;
        let before = control_with(fs.drop_last());
        priority_is_last(fs.drop_last());
        if lowers_to(key, "priority"@) {
            assert forall|a: int| 0 <= a < 13 implies !lowers_to(
                key,
                #[trigger] control_words()[a],
            ) by {
                if lowers_to(key, control_words()[a]) {
                    one_word_at_most(key, a, 13);
                    assert(control_words()[13] == "priority"@);
                }
            }
            earlier_words(key, 13);
        }
    }
}

proof fn homepage_is_last(fs: Seq<(Seq<char>, Seq<char>)>)
    ensures
        control_with(fs).homepage == (match last_named(fs, "homepage"@) {
            Some(value) => Some(value),
            None => None,
        }),
    decreases fs.len(),
{
    if fs.len() > 0 {
        let key = fs.last().0;
        let before = control_with(fs.drop_last());
        homepage_is_last(fs.drop_last());
        if lowers_to(key, "homepage"@) {
            assert forall|a: int| 0 <= a < 14 implies !lowers_to(
                key,
                #[trigger] control_words()[a],
            ) by {
                if lowers_to(key, control_words()[a]) {
                    one_word_at_most(key, a, 14);
                    assert(control_words()[14] == "homepage"@);
                }
            }
            earlier_words(key, 14);
        }
    }
}

proof fn description_is_last(fs: Seq<(Seq<char>, Seq<char>)>)
    ensures
        control_with(fs).description == (match last_named(fs, "description"@) {
            Some(value) => Some(value),
            None => None,
        }),
    decreases fs.len(),
{
    if fs.len() > 0 {
        let key = fs.last().0;
        let before = control_with(fs.drop_last());
        description_is_last(fs.drop_last());
        if lowers_to(key, "description"@) {
            assert forall|a: int| 0 <= a < 15 implies !lowers_to(
                key,
                #[trigger] control_words()[a],
            ) by {
                if lowers_to(key, control_words()[a]) {
                    one_word_at_most(key, a, 15);
                    assert(control_words()[15] == "description"@);
                }
            }
            earlier_words(key, 15);
        }
    }
}

proof fn source_is_last(fs: Seq<(Seq<char>, Seq<char>)>)
    ensures
        control_with(fs).source == (match last_named(fs, "source"@) {
            Some(value) => Some(value),
            None => None,
        }),
    decreases fs.len(),
{
    if fs.len() > 0 {
        let key = fs.last().0;
        let before = control_with(fs.drop_last());
        source_is_last(fs.drop_last());
        if lowers_to(key, "source"@) {
            assert forall|a: int| 0 <= a < 16 implies !lowers_to(
                key,
                #[trigger] control_words()[a],
            ) by {
                if lowers_to(key, control_words()[a]) {
                    one_word_at_most(key, a, 16);
                    assert(control_words()[16] == "source"@);
                }
            }
            earlier_words(key, 16);
        }
    }
}

/// The words before one name none of the fields.
proof fn earlier_words(key: Seq<char>, n: int)
    requires
        0 <= n <= control_words().len(),
        forall|a: int| 0 <= a < n ==> !lowers_to(key, #[trigger] control_words()[a]),
    ensures
        n > 0 ==> !lowers_to(key, "package"@),
        n > 1 ==> !lowers_to(key, "version"@),
        n > 2 ==> !lowers_to(key, "architecture"@),
        n > 3 ==> !lowers_to(key, "maintainer"@),
        n > 4 ==> !lowers_to(key, "installed-size"@),
        n > 5 ==> !lowers_to(key, "depends"@),
        n > 6 ==> !lowers_to(key, "pre-depends"@),
        n > 7 ==> !lowers_to(key, "recommends"@),
        n > 8 ==> !lowers_to(key, "suggests"@),
        n > 9 ==> !lowers_to(key, "conflicts"@),
        n > 10 ==> !lowers_to(key, "provides"@),
        n > 11 ==> !lowers_to(key, "replaces"@),
        n > 12 ==> !lowers_to(key, "section"@),
        n > 13 ==> !lowers_to(key, "priority"@),
        n > 14 ==> !lowers_to(key, "homepage"@),
        n > 15 ==> !lowers_to(key, "description"@),
        n > 16 ==> !lowers_to(key, "source"@),
{
    assert(control_words()[0] == "package"@);
    assert(control_words()[1] == "version"@);
    assert(control_words()[2] == "architecture"@);
    assert(control_words()[3] == "maintainer"@);
    assert(control_words()[4] == "installed-size"@);
    assert(control_words()[5] == "depends"@);
    assert(control_words()[6] == "pre-depends"@);
    assert(control_words()[7] == "recommends"@);
    assert(control_words()[8] == "suggests"@);
    assert(control_words()[9] == "conflicts"@);
    assert(control_words()[10] == "provides"@);
    assert(control_words()[11] == "replaces"@);
    assert(control_words()[12] == "section"@);
    assert(control_words()[13] == "priority"@);
    assert(control_words()[14] == "homepage"@);
    assert(control_words()[15] == "description"@);
    assert(control_words()[16] == "source"@);
}

/// A control stanza says of each field what the last field of that name says, in
/// whatever case the name is written; a field that is not there is left empty.
pub proof fn control_says_what_its_fields_say(fs: Seq<(Seq<char>, Seq<char>)>, i: int)
    ensures
        is_last_named(fs, "package"@, i) ==> control_with(fs).package == fs[i].1,
        has_none_named(fs, "package"@) ==> control_with(fs).package == Seq::<char>::empty(),
        is_last_named(fs, "version"@, i) ==> control_with(fs).version == fs[i].1,
        has_none_named(fs, "version"@) ==> control_with(fs).version == Seq::<char>::empty(),
        is_last_named(fs, "architecture"@, i) ==> control_with(fs).architecture == fs[i].1,
        has_none_named(fs, "architecture"@) ==> control_with(fs).architecture == Seq::<char>::empty(),
        is_last_named(fs, "maintainer"@, i) ==> control_with(fs).maintainer == Some(fs[i].1),
        has_none_named(fs, "maintainer"@) ==> control_with(fs).maintainer == None::<Seq<char>>,
        is_last_named(fs, "installed-size"@, i) ==> control_with(fs).installed_size == decimal_u64(fs[i].1),
        has_none_named(fs, "installed-size"@) ==> control_with(fs).installed_size == None::<u64>,
        is_last_named(fs, "depends"@, i) ==> control_with(fs).depends == Some(dependency_list(fs[i].1)),
        has_none_named(fs, "depends"@) ==> control_with(fs).depends == None::<Seq<Seq<char>>>,
        is_last_named(fs, "pre-depends"@, i) ==> control_with(fs).pre_depends == Some(dependency_list(fs[i].1)),
        has_none_named(fs, "pre-depends"@) ==> control_with(fs).pre_depends == None::<Seq<Seq<char>>>,
        is_last_named(fs, "recommends"@, i) ==> control_with(fs).recommends == Some(dependency_list(fs[i].1)),
        has_none_named(fs, "recommends"@) ==> control_with(fs).recommends == None::<Seq<Seq<char>>>,
        is_last_named(fs, "suggests"@, i) ==> control_with(fs).suggests == Some(dependency_list(fs[i].1)),
        has_none_named(fs, "suggests"@) ==> control_with(fs).suggests == None::<Seq<Seq<char>>>,
        is_last_named(fs, "conflicts"@, i) ==> control_with(fs).conflicts == Some(dependency_list(fs[i].1)),
        has_none_named(fs, "conflicts"@) ==> control_with(fs).conflicts == None::<Seq<Seq<char>>>,
        is_last_named(fs, "provides"@, i) ==> control_with(fs).provides == Some(dependency_list(fs[i].1)),
        has_none_named(fs, "provides"@) ==> control_with(fs).provides == None::<Seq<Seq<char>>>,
        is_last_named(fs, "replaces"@, i) ==> control_with(fs).replaces == Some(dependency_list(fs[i].1)),
        has_none_named(fs, "replaces"@) ==> control_with(fs).replaces == None::<Seq<Seq<char>>>,
        is_last_named(fs, "section"@, i) ==> control_with(fs).section == Some(fs[i].1),
        has_none_named(fs, "section"@) ==> control_with(fs).section == None::<Seq<char>>,
        is_last_named(fs, "priority"@, i) ==> control_with(fs).priority == Some(fs[i].1),
        has_none_named(fs, "priority"@) ==> control_with(fs).priority == None::<Seq<char>>,
        is_last_named(fs, "homepage"@, i) ==> control_with(fs).homepage == Some(fs[i].1),
        has_none_named(fs, "homepage"@) ==> control_with(fs).homepage == None::<Seq<char>>,
        is_last_named(fs, "description"@, i) ==> control_with(fs).description == Some(fs[i].1),
        has_none_named(fs, "description"@) ==> control_with(fs).description == None::<Seq<char>>,
        is_last_named(fs, "source"@, i) ==> control_with(fs).source == Some(fs[i].1),
        has_none_named(fs, "source"@) ==> control_with(fs).source == None::<Seq<char>>,
{
    last_named_is(fs, "package"@);
    package_is_last(fs);
    last_named_is(fs, "version"@);
    version_is_last(fs);
    last_named_is(fs, "architecture"@);
    architecture_is_last(fs);
    last_named_is(fs, "maintainer"@);
    maintainer_is_last(fs);
    last_named_is(fs, "installed-size"@);
    installed_size_is_last(fs);
    last_named_is(fs, "depends"@);
    depends_is_last(fs);
    last_named_is(fs, "pre-depends"@);
    pre_depends_is_last(fs);
    last_named_is(fs, "recommends"@);
    recommends_is_last(fs);
    last_named_is(fs, "suggests"@);
    suggests_is_last(fs);
    last_named_is(fs, "conflicts"@);
    conflicts_is_last(fs);
    last_named_is(fs, "provides"@);
    provides_is_last(fs);
    last_named_is(fs, "replaces"@);
    replaces_is_last(fs);
    last_named_is(fs, "section"@);
    section_is_last(fs);
    last_named_is(fs, "priority"@);
    priority_is_last(fs);
    last_named_is(fs, "homepage"@);
    homepage_is_last(fs);
    last_named_is(fs, "description"@);
    description_is_last(fs);
    last_named_is(fs, "source"@);
    source_is_last(fs);
}

/// The name is that of none of the fields that a control stanza knows.
pub open spec fn is_unknown_name(name: Seq<char>) -> bool {
    forall|a: int| 0 <= a < control_words().len() ==> !lowers_to(name, #[trigger] control_words()[a])
}

/// A control stanza keeps every field that it does not know: under its name as
/// written, with the value of the last field of that name.
pub proof fn control_keeps_other_fields(fs: Seq<(Seq<char>, Seq<char>)>, name: Seq<char>)
    requires
        is_unknown_name(name),
    ensures
        ascending(keys_of(control_with(fs).extra)),
        forall|i: int| #[trigger]
            is_last_of(fs, name, i) ==> lookup(control_with(fs).extra, name) == Some(fs[i].1),
        has_none_of(fs, name) ==> lookup(control_with(fs).extra, name) is None,
    decreases fs.len(),
{
    if fs.len() > 0 {
        let t = fs.drop_last();
        let key = fs.last().0;
        let before = control_with(t).extra;
        control_keeps_other_fields(t, name);
        lookup_after_put(before, key, fs.last().1, name);
        earlier_words(name, control_words().len() as int);
        assert forall|i: int| #[trigger] is_last_of(fs, name, i) implies lookup(
            control_with(fs).extra,
            name,
        ) == Some(fs[i].1) by {
            if i < t.len() {
                assert(fs[fs.len() - 1].0 != name);
                assert forall|j: int| i < j < t.len() implies (#[trigger] t[j]).0 != name by {
                    assert(t[j] == fs[j]);
                }
                assert(is_last_of(t, name, i));
            }
        }
        if has_none_of(fs, name) {
            assert(fs[fs.len() - 1].0 != name);
            assert forall|j: int| 0 <= j < t.len() implies (#[trigger] t[j]).0 != name by {
                assert(t[j] == fs[j]);
            }
        }
    }
}

/// A control file is accepted if and only if it names a package, a version and an
/// architecture, and then says what its fields say.
pub proof fn control_needs_its_fields(content: Seq<char>)
    ensures
        ({
            let c = control_with(fields(lines(content)));
            &&& control_of(content) is Ok <==> c.package.len() > 0 && c.version.len() > 0
                && c.architecture.len() > 0
            &&& control_of(content) is Ok ==> control_of(content)->Ok_0 == c
        }),
{
}

} // verus!
