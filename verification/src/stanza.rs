//! Stanzas of fields: the syntax that all metadata files share.

use vstd::prelude::*;
use vstd::slice::slice_subrange;

use crate::error::{invalid, outcome, AppError, Failure, Result};
use crate::ordered::{ascending, keys_of, put, put_keys, with_text_ascending, TextMap};
use crate::text::{cat3, chars_of, find_char, is_blank_chars, lines_of, text_of, trim_end_of, trim_of, trim_start_of};
use crate::text::{drop_return, find, find_is_first, is_blank, is_white, lines, pieces, trim, trim_end, trim_start, vec_of};

verus! {

// ---------------------------------------------------------------------------
// Model
// ---------------------------------------------------------------------------

/// The line continues the field above it.
pub open spec fn is_indented(line: Seq<char>) -> bool {
    line.len() > 0 && (line[0] == ' ' || line[0] == '\t')
}

/// The fields with the value of the last one continued by an indented line.
pub open spec fn continued(
    fields: Seq<(Seq<char>, Seq<char>)>,
    line: Seq<char>,
) -> Seq<(Seq<char>, Seq<char>)> {
    fields.drop_last().push((fields.last().0, fields.last().1 + seq!['\n'] + trim_start(line)))
}

/// The field that a line with a colon begins.
pub open spec fn field_of(line: Seq<char>) -> (Seq<char>, Seq<char>) {
    let n = find(line, ':') as int;
    (line.take(n), trim(line.skip(n + 1)))
}

/// The fields of a stanza, in order. An indented line continues the field above
/// it; of the other lines, those without a colon are passed over.
pub open spec fn fields(ls: Seq<Seq<char>>) -> Seq<(Seq<char>, Seq<char>)>
    decreases ls.len(),
{
    if ls.len() == 0 {
        seq![]
    } else {
        let before = fields(ls.drop_last());
        let line = ls.last();
        if is_indented(line) {
            if before.len() == 0 {
                before
            } else {
                continued(before, line)
            }
        } else if find(line, ':') < line.len() {
            before.push(field_of(line))
        } else {
            before
        }
    }
}

/// The lines of the stanza that the lines leave open, each with its line feed.
pub open spec fn open_stanza(ls: Seq<Seq<char>>) -> Seq<char>
    decreases ls.len(),
{
    if ls.len() == 0 || is_blank(ls.last()) {
        seq![]
    } else {
        open_stanza(ls.drop_last()) + ls.last() + seq!['\n']
    }
}

/// The stanzas that the lines close. A blank line closes a stanza.
pub open spec fn closed_stanzas(ls: Seq<Seq<char>>) -> Seq<Seq<char>>
    decreases ls.len(),
{
    if ls.len() == 0 {
        seq![]
    } else {
        let before = closed_stanzas(ls.drop_last());
        let current = open_stanza(ls.drop_last());
        if is_blank(ls.last()) && current.len() > 0 {
            before.push(trim_end(current))
        } else {
            before
        }
    }
}

/// The stanzas of a file's lines: the stretches between blank lines.
pub open spec fn stanzas_of(ls: Seq<Seq<char>>) -> Seq<Seq<char>> {
    let last = open_stanza(ls);
    if last.len() > 0 {
        closed_stanzas(ls).push(trim_end(last))
    } else {
        closed_stanzas(ls)
    }
}

/// The stanzas of a file.
pub open spec fn stanzas(content: Seq<char>) -> Seq<Seq<char>> {
    stanzas_of(lines(content))
}

/// The fields of a stanza in which every line has to be part of a field.
pub open spec fn strict_fields(ls: Seq<Seq<char>>) -> std::result::Result<
    Seq<(Seq<char>, Seq<char>)>,
    Failure,
>
    decreases ls.len(),
{
    if ls.len() == 0 {
        Ok(seq![])
    } else {
        let line = ls.last();
        match strict_fields(ls.drop_last()) {
            Err(failure) => Err(failure),
            Ok(before) => if is_indented(line) {
                if before.len() == 0 {
                    Err(Failure::Validation("Debian metadata continuation without field"@))
                } else {
                    Ok(continued(before, line))
                }
            } else if find(line, ':') < line.len() {
                Ok(before.push(field_of(line)))
            } else {
                Err(Failure::Validation("Malformed Debian metadata line '"@ + line + "'"@))
            },
        }
    }
}

/// The fields under their names, trimmed. Of two fields of one name the last counts.
pub open spec fn map_of(fs: Seq<(Seq<char>, Seq<char>)>) -> Seq<(Seq<char>, Seq<char>)>
    decreases fs.len(),
{
    if fs.len() == 0 {
        seq![]
    } else {
        put(map_of(fs.drop_last()), fs.last().0, trim(fs.last().1))
    }
}

/// The fields of a stanza under their names.
pub open spec fn field_map(stanza: Seq<char>) -> std::result::Result<
    Seq<(Seq<char>, Seq<char>)>,
    Failure,
> {
    match strict_fields(lines(stanza)) {
        Err(failure) => Err(failure),
        Ok(fs) => Ok(map_of(fs)),
    }
}

/// The fields of a file that is one stanza.
pub open spec fn only_stanza(content: Seq<char>) -> std::result::Result<
    Seq<(Seq<char>, Seq<char>)>,
    Failure,
> {
    let all = stanzas(content);
    if all.len() == 0 {
        Err(Failure::Validation("Debian metadata is empty"@))
    } else if all.len() > 1 {
        Err(Failure::Validation("Expected one Debian metadata stanza"@))
    } else {
        field_map(all[0])
    }
}

// ---------------------------------------------------------------------------
// Laws
// ---------------------------------------------------------------------------

/// A field map holds its fields in ascending order of their names.
pub proof fn map_of_ascending(fs: Seq<(Seq<char>, Seq<char>)>)
    ensures
        ascending(keys_of(map_of(fs))),
    decreases fs.len(),
{
    if fs.len() > 0 {
        let before = map_of(fs.drop_last());
        map_of_ascending(fs.drop_last());
        put_keys(before, fs.last().0, trim(fs.last().1));
        with_text_ascending(keys_of(before), fs.last().0);
    }
}

/// The lines of a blank text are blank.
proof fn blank_lines(content: Seq<char>)
    requires
        is_blank(content),
    ensures
        forall|i: int| 0 <= i < lines(content).len() ==> is_blank(#[trigger] lines(content)[i]),
    decreases content.len(),
{
    find_is_first(content, '\n');
    let n = find(content, '\n') as int;
    if n < content.len() {
        let rest = content.skip(n + 1);
        assert forall|i: int| 0 <= i < rest.len() implies is_white(#[trigger] rest[i]) by {
            assert(is_white(content[n + 1 + i]));
        }
        blank_lines(rest);
        let ls = lines(content);
        assert forall|i: int| 0 <= i < ls.len() implies is_blank(#[trigger] ls[i]) by {
            if i == 0 {
                assert forall|j: int| 0 <= j < ls[0].len() implies is_white(
                    #[trigger] ls[0][j],
                ) by {
                    assert(ls[0][j] == content[j]);
                }
            } else {
                assert(ls[i] == lines(rest)[i - 1]);
            }
        }
    }
}

/// Blank lines hold no stanza.
proof fn blank_lines_hold_nothing(ls: Seq<Seq<char>>)
    requires
        forall|i: int| 0 <= i < ls.len() ==> is_blank(#[trigger] ls[i]),
    ensures
        open_stanza(ls).len() == 0,
        closed_stanzas(ls).len() == 0,
    decreases ls.len(),
{
    if ls.len() > 0 {
        blank_lines_hold_nothing(ls.drop_last());
    }
}

/// A blank text holds no stanza.
pub proof fn blank_has_no_stanza(content: Seq<char>)
    requires
        is_blank(content),
    ensures
        stanzas(content) == Seq::<Seq<char>>::empty(),
{
    blank_lines(content);
    blank_lines_hold_nothing(lines(content));
}

/// A line feed ends the line before it, and the lines behind it are those of the
/// text behind it.
proof fn lines_at_feed(a: Seq<char>, b: Seq<char>)
    ensures
        lines(a + seq!['\n'] + b) == lines(a + seq!['\n']) + lines(b),
        a.len() > 0 && a.last() != '\n' ==> lines(a).len() > 0 && lines(a + seq!['\n']) == lines(
            a,
        ).drop_last().push(drop_return(lines(a).last())),
        a.len() == 0 || a.last() == '\n' ==> lines(a + seq!['\n']) == lines(a).push(seq![]),
    decreases a.len(),
{
    let f = a + seq!['\n'];
    let s = a + seq!['\n'] + b;
    let n = find(a, '\n') as int;
    find_is_first(a, '\n');
    find_is_first(f, '\n');
    find_is_first(s, '\n');
    assert(f[a.len() as int] == '\n');
    assert(s[a.len() as int] == '\n');
    if n < a.len() {
        let rest = a.skip(n + 1);
        assert(f[n] == '\n' && s[n] == '\n');
        if find(f, '\n') < n {
            assert(a[find(f, '\n') as int] == '\n');
        }
        if find(s, '\n') < n {
            assert(a[find(s, '\n') as int] == '\n');
        }
        assert(f.take(n) =~= a.take(n));
        assert(s.take(n) =~= a.take(n));
        assert(f.skip(n + 1) =~= rest + seq!['\n']);
        assert(s.skip(n + 1) =~= rest + seq!['\n'] + b);
        lines_at_feed(rest, b);
        let first = seq![drop_return(a.take(n))];
        assert(first + (lines(rest + seq!['\n']) + lines(b)) =~= first + lines(
            rest + seq!['\n'],
        ) + lines(b));
        if a.last() != '\n' {
            assert(rest.len() > 0);
            assert(rest.last() == a.last());
            assert(first + lines(rest).drop_last().push(drop_return(lines(rest).last())) =~= (first
                + lines(rest)).drop_last().push(drop_return(lines(rest).last())));
        } else {
            if rest.len() > 0 {
                assert(rest.last() == a.last());
            }
            assert(first + lines(rest).push(seq![]) =~= (first + lines(rest)).push(seq![]));
        }
    } else {
        if find(f, '\n') < a.len() {
            assert(a[find(f, '\n') as int] == '\n');
        }
        if find(s, '\n') < a.len() {
            assert(a[find(s, '\n') as int] == '\n');
        }
        assert(f.take(a.len() as int) =~= a);
        assert(s.take(a.len() as int) =~= a);
        assert(f.skip(a.len() as int + 1) =~= seq![]);
        assert(s.skip(a.len() as int + 1) =~= b);
        assert(lines(Seq::<char>::empty()) =~= seq![]);
        assert(lines(f) =~= seq![drop_return(a)]);
        if a.len() > 0 {
            assert(a.last() == a[a.len() - 1]);
            assert(lines(a) =~= seq![a]);
            assert(seq![a].drop_last().push(drop_return(a)) =~= seq![drop_return(a)]);
        } else {
            assert(a =~= seq![]);
            assert(lines(a).push(seq![]) =~= seq![drop_return(a)]);
        }
    }
}

/// A carriage return at the end of the last line is no part of a stanza.
pub(crate) proof fn last_return_is_dropped(ls: Seq<Seq<char>>)
    requires
        ls.len() > 0,
    ensures
        stanzas_of(ls.drop_last().push(drop_return(ls.last()))) == stanzas_of(ls),
{
    let line = ls.last();
    if line.len() > 0 && line.last() == '\r' {
        let short = line.drop_last();
        let other = ls.drop_last().push(short);
        assert(other.drop_last() =~= ls.drop_last());
        assert(is_blank(line) <==> is_blank(short)) by {
            if is_blank(short) {
                assert forall|i: int| 0 <= i < line.len() implies is_white(#[trigger] line[i]) by {
                    if i < short.len() {
                        assert(is_white(short[i]));
                    }
                }
            }
            if is_blank(line) {
                assert forall|i: int| 0 <= i < short.len() implies is_white(
                    #[trigger] short[i],
                ) by {
                    assert(is_white(line[i]));
                }
            }
        }
        if !is_blank(line) {
            let front = open_stanza(ls.drop_last());
            let a = front + line + seq!['\n'];
            let b = front + short + seq!['\n'];
            assert(a.drop_last() =~= front + line);
            assert(a.drop_last().drop_last() =~= front + short);
            assert(b.drop_last() =~= front + short);
            assert(a.drop_last().last() == '\r');
            reveal_with_fuel(trim_end, 3);
            assert(trim_end(a) == trim_end(b));
        }
    } else {
        assert(ls.drop_last().push(line) =~= ls);
    }
}

/// A blank line parts the stanzas before it from those behind it.
proof fn blank_line_parts(a: Seq<Seq<char>>, blank: Seq<char>, b: Seq<Seq<char>>)
    requires
        is_blank(blank),
    ensures
        open_stanza(a.push(blank) + b) == open_stanza(b),
        closed_stanzas(a.push(blank) + b) == stanzas_of(a) + closed_stanzas(b),
    decreases b.len(),
{
    let all = a.push(blank) + b;
    if b.len() == 0 {
        assert(all =~= a.push(blank));
        assert(all.drop_last() =~= a);
        assert(stanzas_of(a) + closed_stanzas(b) =~= stanzas_of(a));
    } else {
        let t = b.drop_last();
        blank_line_parts(a, blank, t);
        assert(all.drop_last() =~= a.push(blank) + t);
        assert(all.last() == b.last());
        if is_blank(b.last()) && open_stanza(t).len() > 0 {
            assert(stanzas_of(a) + closed_stanzas(t).push(trim_end(open_stanza(t))) =~= (stanzas_of(
                a,
            ) + closed_stanzas(t)).push(trim_end(open_stanza(t))));
        }
    }
}

proof fn parted_stanzas(a: Seq<Seq<char>>, b: Seq<Seq<char>>)
    ensures
        stanzas_of(a.push(seq![]) + b) == stanzas_of(a) + stanzas_of(b),
{
    blank_line_parts(a, seq![], b);
    assert((stanzas_of(a) + closed_stanzas(b)).push(trim_end(open_stanza(b))) =~= stanzas_of(a)
        + closed_stanzas(b).push(trim_end(open_stanza(b))));
}

/// Two files with an empty line between them hold the stanzas of the one and then
/// those of the other.
pub proof fn joined_files_hold_both(x: Seq<char>, y: Seq<char>)
    ensures
        stanzas(x + "\n\n"@ + y) == stanzas(x) + stanzas(y),
{
    reveal_strlit("\n\n");
    let z = x + seq!['\n'];
    assert(x + "\n\n"@ + y =~= z + seq!['\n'] + y);
    lines_at_feed(z, y);
    lines_at_feed(x, seq![]);
    let ls = lines(x);
    assert(z.last() == '\n');
    assert(lines(z + seq!['\n']) == lines(z).push(seq![]));
    parted_stanzas(lines(z), lines(y));
    if x.len() == 0 || x.last() == '\n' {
        parted_stanzas(ls, seq![]);
        assert(ls.push(seq![]) + Seq::<Seq<char>>::empty() =~= ls.push(seq![]));
        assert(stanzas_of(ls) + stanzas_of(seq![]) =~= stanzas_of(ls));
    } else {
        last_return_is_dropped(ls);
    }
}

// ---------------------------------------------------------------------------
// Parsing
// ---------------------------------------------------------------------------

/// The line continues the field above it.
pub fn is_indented_line(line: &[char]) -> (r: bool)
    ensures
        r == is_indented(line@),
{
    line.len() > 0 && (line[0] == ' ' || line[0] == '\t')
}

/// Splits a file into its stanzas.
pub fn split_debian_stanzas(content: &str) -> (r: Vec<String>)
    ensures
        r.deep_view() == stanzas(content@),
{
    let chars = chars_of(content);
    let ls = lines_of(chars.as_slice());
    let ghost all = pieces(ls@);
    let mut r: Vec<String> = Vec::new();
    let mut current: Vec<char> = Vec::new();
    assert(r.deep_view() =~= closed_stanzas(all.take(0)));
    for i in 0..ls.len()
        invariant
            all == pieces(ls@),
            current@ == open_stanza(all.take(i as int)),
            r.deep_view() == closed_stanzas(all.take(i as int)),
    {
        let line = ls[i];
        let ghost before = r.deep_view();
        proof {
            assert(all.take(i + 1).drop_last() =~= all.take(i as int));
            assert(all.take(i + 1).last() == line@);
        }
        if is_blank_chars(line) {
            if current.len() > 0 {
                r.push(text_of(trim_end_of(current.as_slice())));
                assert(r.deep_view() =~= before.push(trim_end(current@)));
                current = Vec::new();
            }
        } else {
            current.extend_from_slice(line);
            current.push('\n');
            assert(current@ =~= open_stanza(all.take(i as int)) + line@ + seq!['\n']);
        }
    }
    assert(all.take(all.len() as int) =~= all);
    if current.len() > 0 {
        let ghost before = r.deep_view();
        r.push(text_of(trim_end_of(current.as_slice())));
        assert(r.deep_view() =~= before.push(trim_end(current@)));
    }
    r
}

/// Parses the fields of a stanza. Every line has to begin or continue a field.
pub fn parse_field_map(stanza: &str) -> (r: Result<TextMap<String>>)
    ensures
        outcome(r) == field_map(stanza@),
{
    let chars = chars_of(stanza);
    let ls = lines_of(chars.as_slice());
    let ghost all = pieces(ls@);
    let mut map: TextMap<String> = TextMap::new();
    let mut key: Option<&[char]> = None;
    let mut value: Vec<char> = Vec::new();
    for i in 0..ls.len()
        invariant
            all == pieces(ls@),
            all == lines(stanza@),
            strict_fields(all.take(i as int)) is Ok,
            key is None ==> strict_fields(all.take(i as int))->Ok_0.len() == 0 && map.deep_view()
                == Seq::<(Seq<char>, Seq<char>)>::empty(),
            key matches Some(k) ==> {
                let fs = strict_fields(all.take(i as int))->Ok_0;
                &&& fs.len() > 0
                &&& fs.last() == (k@, value@)
                &&& map.deep_view() == map_of(fs.drop_last())
            },
    {
        let line = ls[i];
        let ghost fs = strict_fields(all.take(i as int))->Ok_0;
        proof {
            assert(all.take(i + 1).drop_last() =~= all.take(i as int));
            assert(all.take(i + 1).last() == line@);
        }
        if is_indented_line(line) {
            if key.is_none() {
                proof {
                    strict_fields_fail(all, i + 1);
                }
                return Err(invalid("Debian metadata continuation without field"));
            }
            let rest = trim_start_of(line);
            let ghost before = value@;
            value.push('\n');
            value.extend_from_slice(rest);
            assert(value@ =~= before + seq!['\n'] + trim_start(line@));
            assert(continued(fs, line@).drop_last() =~= fs.drop_last());
        } else {
            proof {
                find_is_first(line@, ':');
            }
            let colon = find_char(line, ':');
            if colon >= line.len() {
                proof {
                    strict_fields_fail(all, i + 1);
                }
                let text = text_of(line);
                return Err(
                    AppError::Validation(
                        cat3("Malformed Debian metadata line '", text.as_str(), "'"),
                    ),
                );
            }
            if let Some(k) = key {
                map.insert(text_of(k), text_of(trim_of(value.as_slice())));
            }
            key = Some(slice_subrange(line, 0, colon));
            let rest = trim_of(slice_subrange(line, colon + 1, line.len()));
            value = vec_of(rest);
            proof {
                assert(line@.subrange(0, colon as int) =~= line@.take(colon as int));
                assert(line@.subrange(colon + 1, line@.len() as int) =~= line@.skip(colon + 1));
                assert(fs.push(field_of(line@)).drop_last() =~= fs);
                assert(fs.len() == 0 ==> fs =~= seq![]);
            }
        }
    }
    assert(all.take(all.len() as int) =~= all);
    if let Some(k) = key {
        map.insert(text_of(k), text_of(trim_of(value.as_slice())));
    } else {
        assert(strict_fields(all)->Ok_0 =~= seq![]);
    }
    Ok(map)
}

proof fn strict_fields_fail(ls: Seq<Seq<char>>, n: int)
    requires
        0 <= n <= ls.len(),
        strict_fields(ls.take(n)) is Err,
    ensures
        strict_fields(ls) == strict_fields(ls.take(n)),
    decreases ls.len(),
{
    if n == ls.len() {
        assert(ls.take(n) =~= ls);
    } else {
        assert(ls.drop_last().take(n) =~= ls.take(n));
        strict_fields_fail(ls.drop_last(), n);
    }
}

/// Parses the fields of a file that is one stanza.
pub fn parse_debian_stanza_fields(content: &str) -> (r: Result<TextMap<String>>)
    ensures
        outcome(r) == only_stanza(content@),
{
    let all = split_debian_stanzas(content);
    if all.len() == 0 {
        return Err(invalid("Debian metadata is empty"));
    }
    if all.len() > 1 {
        return Err(invalid("Expected one Debian metadata stanza"));
    }
    parse_field_map(all[0].as_str())
}

} // verus!
