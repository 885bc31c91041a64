//! How lines, fields and stanzas read back as they were written.

use vstd::prelude::*;

use crate::emit::{continuation, field_text, fields_text};
use crate::error::Failure;
use crate::number::{decimal_text, decimal_text_is_digits};
use crate::ordered::{ascending, keys_of, lookup, lookup_after_put, lookup_after_without, slot_cuts, slot_splits};
use crate::ordered::without_all;
use crate::stanza::{closed_stanzas, continued, fields, is_indented, map_of, map_of_ascending, open_stanza};
use crate::stanza::strict_fields;
use crate::text::{drop_return, find, find_is_first, is_blank, is_white, lines, text_lt, text_lt_irreflexive};
use crate::text::{text_lt_total, text_lt_transitive, trim, trim_end, trim_end_is_prefix, trim_start};
use crate::text::{trim_start_is_suffix, word_len, word_len_is_run, words};

verus! {

// ---------------------------------------------------------------------------
// What can be written
// ---------------------------------------------------------------------------

/// The lines with a line feed between each two.
pub open spec fn glued(ls: Seq<Seq<char>>) -> Seq<char>
    decreases ls.len(),
{
    if ls.len() <= 1 {
        ls[0]
    } else {
        glued(ls.drop_last()) + seq!['\n'] + ls.last()
    }
}

/// A value that a field can hold: its first line is trimmed, no other line is
/// empty or begins with white space, and it does not end with white space.
pub open spec fn is_writable(value: Seq<char>) -> bool {
    let ls = lines(value);
    &&& ls.len() > 0
    &&& value == glued(ls)
    &&& trim(ls[0]) == ls[0]
    &&& forall|i: int| 1 <= i < ls.len() ==> is_continuation(#[trigger] ls[i])
    &&& ls.last().len() > 0
    &&& !is_white(ls.last().last())
}

/// A line that can continue a field.
pub open spec fn is_continuation(line: Seq<char>) -> bool {
    line.len() > 0 && !is_white(line[0]) && line.last() != '\r'
}

/// A name that a field can have.
pub open spec fn is_key(key: Seq<char>) -> bool {
    !key.contains(':') && !key.contains('\n') && !is_indented(key)
}

/// A text without white space that is not empty.
pub open spec fn is_word(s: Seq<char>) -> bool {
    s.len() > 0 && forall|i: int| 0 <= i < s.len() ==> !is_white(#[trigger] s[i])
}

// ---------------------------------------------------------------------------
// Lines
// ---------------------------------------------------------------------------

/// The lines, each with its line feed.
pub open spec fn flat(ls: Seq<Seq<char>>) -> Seq<char>
    decreases ls.len(),
{
    if ls.len() == 0 {
        seq![]
    } else {
        flat(ls.drop_last()) + ls.last() + seq!['\n']
    }
}

/// A line that is read as it is written.
pub open spec fn is_plain(line: Seq<char>) -> bool {
    !line.contains('\n') && (line.len() > 0 ==> line.last() != '\r')
}

pub(crate) proof fn flat_add(a: Seq<Seq<char>>, b: Seq<Seq<char>>)
    ensures
        flat(a + b) == flat(a) + flat(b),
    decreases b.len(),
{
    if b.len() == 0 {
        assert(a + b =~= a);
        assert(flat(a) + flat(b) =~= flat(a));
    } else {
        assert((a + b).drop_last() =~= a + b.drop_last());
        flat_add(a, b.drop_last());
        assert(flat(a + b) =~= flat(a) + flat(b));
    }
}

pub(crate) proof fn flat_front(ls: Seq<Seq<char>>)
    requires
        ls.len() > 0,
    ensures
        flat(ls) == ls[0] + seq!['\n'] + flat(ls.drop_first()),
{
    let a = seq![ls[0]];
    assert(ls =~= a + ls.drop_first());
    flat_add(a, ls.drop_first());
    assert(flat(a.drop_last()) =~= Seq::<char>::empty());
    assert(flat(a) =~= ls[0] + seq!['\n']);
}

pub(crate) proof fn find_behind(a: Seq<char>, b: Seq<char>, c: char)
    requires
        !a.contains(c),
    ensures
        find(a + seq![c] + b, c) == a.len(),
{
    let s = a + seq![c] + b;
    find_is_first(s, c);
    let n = find(s, c) as int;
    assert(s[a.len() as int] == c);
    if n < a.len() {
        assert(a.contains(a[n]));
    }
}

/// Lines that are written one after the other are read back.
pub(crate) proof fn lines_of_flat(ls: Seq<Seq<char>>)
    requires
        forall|i: int| 0 <= i < ls.len() ==> is_plain(#[trigger] ls[i]),
    ensures
        lines(flat(ls)) == ls,
    decreases ls.len(),
{
    if ls.len() > 0 {
        let t = ls.drop_first();
        flat_front(ls);
        let s = flat(ls);
        assert(is_plain(ls[0]));
        find_behind(ls[0], flat(t), '\n');
        assert(s.take(ls[0].len() as int) =~= ls[0]);
        assert(s.skip(ls[0].len() as int + 1) =~= flat(t));
        assert forall|i: int| 0 <= i < t.len() implies is_plain(#[trigger] t[i]) by {
            assert(t[i] == ls[i + 1]);
        }
        lines_of_flat(t);
        assert(seq![ls[0]] + t =~= ls);
    }
}

/// The same without the last line feed.
pub(crate) proof fn lines_of_open_flat(ls: Seq<Seq<char>>)
    requires
        ls.len() > 0,
        ls.last().len() > 0,
        forall|i: int| 0 <= i < ls.len() ==> is_plain(#[trigger] ls[i]),
    ensures
        flat(ls).len() > 0,
        lines(flat(ls).drop_last()) == ls,
    decreases ls.len(),
{
    let t = ls.drop_first();
    flat_front(ls);
    let s = flat(ls).drop_last();
    assert(is_plain(ls[0]));
    if ls.len() == 1 {
        assert(flat(t) =~= seq![]);
        assert(s =~= ls[0]);
        find_is_first(s, '\n');
        if find(s, '\n') < s.len() {
            assert(s.contains(s[find(s, '\n') as int]));
        }
        assert(seq![s] =~= ls);
    } else {
        assert forall|i: int| 0 <= i < t.len() implies is_plain(#[trigger] t[i]) by {
            assert(t[i] == ls[i + 1]);
        }
        assert(t.last() == ls.last());
        lines_of_open_flat(t);
        assert(s =~= ls[0] + seq!['\n'] + flat(t).drop_last());
        find_behind(ls[0], flat(t).drop_last(), '\n');
        assert(s.take(ls[0].len() as int) =~= ls[0]);
        assert(s.skip(ls[0].len() as int + 1) =~= flat(t).drop_last());
        assert(seq![ls[0]] + t =~= ls);
    }
}

/// No line holds a line feed.
pub(crate) proof fn lines_hold_no_feed(s: Seq<char>)
    ensures
        forall|i: int| 0 <= i < lines(s).len() ==> !(#[trigger] lines(s)[i]).contains('\n'),
    decreases s.len(),
{
    let n = find(s, '\n') as int;
    find_is_first(s, '\n');
    if s.len() == 0 {
    } else if n >= s.len() {
        assert(!s.contains('\n')) by {
            if s.contains('\n') {
                let k = choose|k: int| 0 <= k < s.len() && s[k] == '\n';
            }
        }
    } else {
        let rest = s.skip(n + 1);
        lines_hold_no_feed(rest);
        let first = drop_return(s.take(n));
        assert(!first.contains('\n')) by {
            if first.contains('\n') {
                let k = choose|k: int| 0 <= k < first.len() && first[k] == '\n';
                assert(s[k] == '\n');
            }
        }
        assert forall|i: int| 0 <= i < lines(s).len() implies !(#[trigger] lines(s)[i]).contains(
            '\n',
        ) by {
            if i > 0 {
                assert(lines(s)[i] == lines(rest)[i - 1]);
            }
        }
    }
}

pub(crate) proof fn glued_ends(ls: Seq<Seq<char>>)
    requires
        ls.len() > 0,
        ls.last().len() > 0,
    ensures
        glued(ls).len() > 0,
        glued(ls).last() == ls.last().last(),
{
}

pub(crate) proof fn glued_is_open_flat(ls: Seq<Seq<char>>)
    requires
        ls.len() > 0,
    ensures
        flat(ls).len() > 0,
        flat(ls).drop_last() == glued(ls),
    decreases ls.len(),
{
    if ls.len() == 1 {
        assert(flat(ls.drop_last()) =~= Seq::<char>::empty());
        assert(flat(ls).drop_last() =~= glued(ls));
    } else {
        glued_is_open_flat(ls.drop_last());
        let f = flat(ls.drop_last());
        assert(f.last() == '\n');
        assert(f =~= glued(ls.drop_last()) + seq!['\n']);
        assert(flat(ls).drop_last() =~= glued(ls));
    }
}

pub(crate) proof fn glued_behind_empty(ls: Seq<Seq<char>>)
    requires
        ls.len() > 0,
    ensures
        glued(seq![Seq::<char>::empty()] + ls) == seq!['\n'] + glued(ls),
    decreases ls.len(),
{
    let all = seq![Seq::<char>::empty()] + ls;
    if ls.len() == 1 {
        assert(all.drop_last() =~= seq![Seq::<char>::empty()]);
        assert(glued(all.drop_last()) == Seq::<char>::empty());
        assert(glued(all) =~= seq!['\n'] + glued(ls));
    } else {
        assert(all.drop_last() =~= seq![Seq::<char>::empty()] + ls.drop_last());
        glued_behind_empty(ls.drop_last());
        assert(glued(all) =~= seq!['\n'] + glued(ls));
    }
}

pub(crate) proof fn glued_begins(ls: Seq<Seq<char>>)
    requires
        ls.len() > 0,
        ls[0].len() > 0,
    ensures
        glued(ls).len() > 0,
        glued(ls)[0] == ls[0][0],
    decreases ls.len(),
{
    if ls.len() > 1 {
        glued_begins(ls.drop_last());
    }
}

pub(crate) proof fn writable_is_not_blank(value: Seq<char>)
    requires
        is_writable(value),
    ensures
        value.len() > 0,
        !is_blank(value),
{
    let ls = lines(value);
    glued_ends(ls);
    assert(!is_white(value[value.len() - 1]));
}

pub(crate) proof fn number_is_word(n: nat)
    ensures
        is_word(decimal_text(n)),
{
    decimal_text_is_digits(n);
}

pub(crate) proof fn word_then_rest(w: Seq<char>, rest: Seq<char>)
    requires
        is_word(w),
    ensures
        words(w + seq![' '] + rest) == seq![w] + words(rest),
        words(w) == seq![w],
{
    let s = w + seq![' '] + rest;
    word_len_is_run(s);
    let n = word_len(s) as int;
    assert(is_white(s[w.len() as int]));
    if n < w.len() {
        assert(s[n] == w[n]);
    }
    assert(s[0] == w[0]);
    assert(s.take(n) =~= w);
    assert(s.skip(n) =~= seq![' '] + rest);
    assert((seq![' '] + rest).drop_first() =~= rest);
    assert(words(seq![' '] + rest) == words(rest));
    word_len_is_run(w);
    let m = word_len(w) as int;
    if m < w.len() {
        assert(is_white(w[m]));
    }
    assert(w.take(m) =~= w);
    assert(w.skip(m) =~= seq![]);
    assert(seq![w] + words(w.skip(m)) =~= seq![w]);
}

// ---------------------------------------------------------------------------
// Fields
// ---------------------------------------------------------------------------

/// The lines of a field.
pub open spec fn field_lines(key: Seq<char>, value: Seq<char>) -> Seq<Seq<char>> {
    let ls = lines(value);
    Seq::new(
        ls.len(),
        |i: int|
            if i == 0 {
                key + ": "@ + ls[0]
            } else {
                seq![' '] + ls[i]
            },
    )
}

/// The lines of fields.
pub open spec fn all_lines(fs: Seq<(Seq<char>, Seq<char>)>) -> Seq<Seq<char>>
    decreases fs.len(),
{
    if fs.len() == 0 {
        seq![]
    } else {
        all_lines(fs.drop_last()) + field_lines(fs.last().0, fs.last().1)
    }
}

/// Fields that can be written.
#[verifier::opaque]
pub open spec fn are_writable(fs: Seq<(Seq<char>, Seq<char>)>) -> bool {
    forall|i: int| 0 <= i < fs.len() ==> is_key((#[trigger] fs[i]).0) && is_writable(fs[i].1)
}

pub(crate) proof fn continuation_is_flat(ls: Seq<Seq<char>>)
    requires
        forall|i: int| 0 <= i < ls.len() ==> is_continuation(#[trigger] ls[i]),
    ensures
        continuation(ls) == flat(ls.map_values(|l: Seq<char>| seq![' '] + l)),
    decreases ls.len(),
{
    if ls.len() > 0 {
        let m = ls.map_values(|l: Seq<char>| seq![' '] + l);
        let t = ls.drop_last();
        assert forall|i: int| 0 <= i < t.len() implies is_continuation(#[trigger] t[i]) by {
            assert(t[i] == ls[i]);
        }
        continuation_is_flat(t);
        assert(m.drop_last() =~= t.map_values(|l: Seq<char>| seq![' '] + l));
        assert(is_continuation(ls[ls.len() - 1]));
        assert(continuation(ls) =~= flat(m));
    }
}

/// A field as it is written is made of its lines.
pub(crate) proof fn field_is_flat(key: Seq<char>, value: Seq<char>)
    requires
        is_writable(value),
    ensures
        field_text(key, value) == flat(field_lines(key, value)),
{
    let ls = lines(value);
    let rest = ls.drop_first();
    assert forall|i: int| 0 <= i < rest.len() implies is_continuation(#[trigger] rest[i]) by {
        assert(rest[i] == ls[i + 1]);
    }
    continuation_is_flat(rest);
    let fl = field_lines(key, value);
    flat_front(fl);
    assert(fl.drop_first() =~= rest.map_values(|l: Seq<char>| seq![' '] + l));
    assert(field_text(key, value) =~= flat(fl));
}

pub(crate) proof fn fields_are_flat(fs: Seq<(Seq<char>, Seq<char>)>)
    requires
        are_writable(fs),
    ensures
        fields_text(fs) == flat(all_lines(fs)),
    decreases fs.len(),
{
    reveal(are_writable);
    if fs.len() > 0 {
        let t = fs.drop_last();
        assert forall|i: int| 0 <= i < t.len() implies is_key((#[trigger] t[i]).0) && is_writable(
            t[i].1,
        ) by {
            assert(t[i] == fs[i]);
        }
        fields_are_flat(t);
        assert(is_key(fs[fs.len() - 1].0));
        field_is_flat(fs.last().0, fs.last().1);
        flat_add(all_lines(t), field_lines(fs.last().0, fs.last().1));
    }
}

pub(crate) proof fn trim_behind_space(l: Seq<char>)
    requires
        trim(l) == l,
    ensures
        trim(seq![' '] + l) == l,
{
    assert((seq![' '] + l).drop_first() =~= l);
}

pub(crate) proof fn trim_start_behind_space(l: Seq<char>)
    requires
        is_continuation(l),
    ensures
        trim_start(seq![' '] + l) == l,
{
    reveal_with_fuel(trim_start, 2);
    assert((seq![' '] + l).drop_first() =~= l);
}

/// A line of a field is plain and not blank, and only its first is not indented.
pub(crate) proof fn field_lines_are_plain(key: Seq<char>, value: Seq<char>)
    requires
        is_key(key),
        is_writable(value),
    ensures
        field_lines(key, value).len() > 0,
        forall|i: int|
            0 <= i < field_lines(key, value).len() ==> is_plain(
                #[trigger] field_lines(key, value)[i],
            ) && !is_blank(field_lines(key, value)[i]),
        field_lines(key, value).last().len() > 0,
        !is_white(field_lines(key, value).last().last()),
{
    reveal_strlit(": ");
    let ls = lines(value);
    let fl = field_lines(key, value);
    lines_hold_no_feed(value);
    assert forall|i: int| 0 <= i < fl.len() implies is_plain(#[trigger] fl[i]) && !is_blank(
        fl[i],
    ) by {
        assert(!ls[i].contains('\n'));
        if i == 0 {
            let line = key + ": "@ + ls[0];
            assert(line[key.len() as int] == ':');
            assert(!is_white(':'));
            assert(!line.contains('\n')) by {
                if line.contains('\n') {
                    let k = choose|k: int| 0 <= k < line.len() && line[k] == '\n';
                    if k < key.len() {
                        assert(key.contains(key[k]));
                    } else if k >= key.len() + 2 {
                        assert(ls[0].contains(ls[0][k - key.len() - 2]));
                    }
                }
            }
            trim_start_is_suffix(ls[0]);
            trim_end_is_prefix(trim_start(ls[0]));
            if ls[0].len() > 0 {
                assert(line.last() == ls[0].last());
            }
        } else {
            let line = seq![' '] + ls[i];
            assert(is_continuation(ls[i]));
            assert(line[1] == ls[i][0]);
            assert(line.last() == ls[i].last());
            assert(!line.contains('\n')) by {
                if line.contains('\n') {
                    let k = choose|k: int| 0 <= k < line.len() && line[k] == '\n';
                    if k >= 1 {
                        assert(ls[i].contains(ls[i][k - 1]));
                    }
                }
            }
        }
    }
    assert(fl.last().last() == ls.last().last());
}

/// Reading the lines of a field adds the field.
pub(crate) proof fn field_reads_back(before: Seq<Seq<char>>, key: Seq<char>, value: Seq<char>)
    requires
        is_key(key),
        is_writable(value),
    ensures
        fields(before + field_lines(key, value)) == fields(before).push((key, value)),
{
    let n = lines(value).len() as int;
    field_prefix_reads_back(before, key, value, n);
    assert(field_lines(key, value).take(n) =~= field_lines(key, value));
    assert(lines(value).take(n) =~= lines(value));
}

pub(crate) proof fn field_prefix_reads_back(
    before: Seq<Seq<char>>,
    key: Seq<char>,
    value: Seq<char>,
    n: int,
)
    requires
        is_key(key),
        is_writable(value),
        1 <= n <= lines(value).len(),
    ensures
        fields(before + field_lines(key, value).take(n)) == fields(before).push(
            (key, glued(lines(value).take(n))),
        ),
    decreases n,
{
    reveal_strlit(": ");
    let ls = lines(value);
    let fl = field_lines(key, value);
    let all = before + fl.take(n);
    assert(all.drop_last() =~= before + fl.take(n - 1));
    assert(all.last() == fl[n - 1]);
    if n == 1 {
        assert(before + fl.take(0) =~= before);
        let line = key + ": "@ + ls[0];
        assert(line =~= key + seq![':'] + (seq![' '] + ls[0]));
        find_behind(key, seq![' '] + ls[0], ':');
        assert(line.take(key.len() as int) =~= key);
        assert(line.skip(key.len() as int + 1) =~= seq![' '] + ls[0]);
        trim_behind_space(ls[0]);
        assert(!is_indented(line)) by {
            if key.len() > 0 {
                assert(line[0] == key[0]);
            } else {
                assert(line[0] == ':');
            }
        }
        assert(ls.take(1).len() == 1);
    } else {
        field_prefix_reads_back(before, key, value, n - 1);
        let line = seq![' '] + ls[n - 1];
        assert(is_continuation(ls[n - 1]));
        trim_start_behind_space(ls[n - 1]);
        assert(is_indented(line));
        assert(ls.take(n).drop_last() =~= ls.take(n - 1));
        let got = fields(before).push((key, glued(ls.take(n - 1))));
        assert(got.drop_last() =~= fields(before));
        assert(fields(all) =~= fields(before).push((key, glued(ls.take(n)))));
    }
}

/// Fields that are written are read back.
pub(crate) proof fn fields_read_back(fs: Seq<(Seq<char>, Seq<char>)>)
    requires
        are_writable(fs),
    ensures
        fields(all_lines(fs)) == fs,
        forall|i: int|
            0 <= i < all_lines(fs).len() ==> is_plain(#[trigger] all_lines(fs)[i]) && !is_blank(
                all_lines(fs)[i],
            ),
        fs.len() > 0 ==> all_lines(fs).len() > 0 && all_lines(fs).last().len() > 0 && !is_white(
            all_lines(fs).last().last(),
        ),
    decreases fs.len(),
{
    reveal(are_writable);
    if fs.len() > 0 {
        let t = fs.drop_last();
        assert forall|i: int| 0 <= i < t.len() implies is_key((#[trigger] t[i]).0) && is_writable(
            t[i].1,
        ) by {
            assert(t[i] == fs[i]);
        }
        fields_read_back(t);
        assert(is_key(fs[fs.len() - 1].0));
        field_reads_back(all_lines(t), fs.last().0, fs.last().1);
        field_lines_are_plain(fs.last().0, fs.last().1);
        assert(t.push(fs.last()) =~= fs);
        let fl = field_lines(fs.last().0, fs.last().1);
        let al = all_lines(fs);
        assert(al.last() == fl.last());
        assert forall|i: int| 0 <= i < al.len() implies is_plain(#[trigger] al[i]) && !is_blank(
            al[i],
        ) by {
            if i < all_lines(t).len() {
                assert(al[i] == all_lines(t)[i]);
            } else {
                assert(al[i] == fl[i - all_lines(t).len()]);
            }
        }
    }
}

// ---------------------------------------------------------------------------
// Chunks of lines
// ---------------------------------------------------------------------------

/// The lines of a field whose first line stands behind a colon and `pad`.
pub open spec fn chunk(key: Seq<char>, pad: Seq<char>, ls: Seq<Seq<char>>) -> Seq<Seq<char>> {
    Seq::new(
        ls.len(),
        |i: int|
            if i == 0 {
                key + seq![':'] + pad + ls[0]
            } else {
                seq![' '] + ls[i]
            },
    )
}

/// A first line, the padding before it, and the lines that continue it.
pub open spec fn is_chunk(key: Seq<char>, pad: Seq<char>, ls: Seq<Seq<char>>) -> bool {
    &&& is_key(key)
    &&& !pad.contains('\n')
    &&& ls.len() > 0
    &&& trim(pad + ls[0]) == ls[0]
    &&& trim(ls[0]) == ls[0]
    &&& forall|i: int| 0 <= i < ls.len() ==> !(#[trigger] ls[i]).contains('\n')
    &&& forall|i: int| 1 <= i < ls.len() ==> is_continuation(#[trigger] ls[i])
    &&& pad.len() == 0 || pad.last() != '\r'
}

/// Reading the lines of a chunk adds a field.
pub(crate) proof fn chunk_reads_back(
    before: Seq<Seq<char>>,
    fs: Seq<(Seq<char>, Seq<char>)>,
    key: Seq<char>,
    pad: Seq<char>,
    ls: Seq<Seq<char>>,
    n: int,
)
    requires
        strict_fields(before) == Ok::<Seq<(Seq<char>, Seq<char>)>, Failure>(fs),
        is_chunk(key, pad, ls),
        1 <= n <= ls.len(),
    ensures
        strict_fields(before + chunk(key, pad, ls).take(n)) == Ok::<
            Seq<(Seq<char>, Seq<char>)>,
            Failure,
        >(fs.push((key, glued(ls.take(n))))),
    decreases n,
{
    let cl = chunk(key, pad, ls);
    let all = before + cl.take(n);
    assert(all.drop_last() =~= before + cl.take(n - 1));
    assert(all.last() == cl[n - 1]);
    if n == 1 {
        assert(before + cl.take(0) =~= before);
        let line = key + seq![':'] + pad + ls[0];
        assert(line =~= key + seq![':'] + (pad + ls[0]));
        find_behind(key, pad + ls[0], ':');
        assert(line.take(key.len() as int) =~= key);
        assert(line.skip(key.len() as int + 1) =~= pad + ls[0]);
        assert(!is_indented(line)) by {
            if key.len() > 0 {
                assert(line[0] == key[0]);
            } else {
                assert(line[0] == ':');
            }
        }
        assert(ls.take(1).len() == 1);
    } else {
        chunk_reads_back(before, fs, key, pad, ls, n - 1);
        let line = seq![' '] + ls[n - 1];
        assert(is_continuation(ls[n - 1]));
        trim_start_behind_space(ls[n - 1]);
        assert(is_indented(line));
        assert(ls.take(n).drop_last() =~= ls.take(n - 1));
        let got = fs.push((key, glued(ls.take(n - 1))));
        assert(got.drop_last() =~= fs);
        assert(continued(got, line) =~= fs.push((key, glued(ls.take(n)))));
    }
}

/// The lines of a chunk are plain and not blank.
pub(crate) proof fn chunk_is_plain(key: Seq<char>, pad: Seq<char>, ls: Seq<Seq<char>>)
    requires
        is_chunk(key, pad, ls),
    ensures
        forall|i: int|
            0 <= i < chunk(key, pad, ls).len() ==> is_plain(#[trigger] chunk(key, pad, ls)[i])
                && !is_blank(chunk(key, pad, ls)[i]),
{
    let cl = chunk(key, pad, ls);
    assert forall|i: int| 0 <= i < cl.len() implies is_plain(#[trigger] cl[i]) && !is_blank(
        cl[i],
    ) by {
        assert(!ls[i].contains('\n'));
        if i == 0 {
            let line = key + seq![':'] + pad + ls[0];
            assert(line[key.len() as int] == ':');
            assert(!is_white(':'));
            assert(!line.contains('\n')) by {
                if line.contains('\n') {
                    let k = choose|k: int| 0 <= k < line.len() && line[k] == '\n';
                    if k < key.len() {
                        assert(key.contains(key[k]));
                    } else if k > key.len() && k < key.len() + 1 + pad.len() {
                        assert(pad.contains(pad[k - key.len() - 1]));
                    } else if k >= key.len() + 1 + pad.len() {
                        assert(ls[0].contains(ls[0][k - key.len() - 1 - pad.len()]));
                    }
                }
            }
            trim_start_is_suffix(ls[0]);
            trim_end_is_prefix(trim_start(ls[0]));
            if ls[0].len() > 0 {
                assert(line.last() == ls[0].last());
            } else if pad.len() > 0 {
                assert(line.last() == pad.last());
            } else {
                assert(line.last() == ':');
            }
        } else {
            let line = seq![' '] + ls[i];
            assert(is_continuation(ls[i]));
            assert(line[1] == ls[i][0]);
            assert(line.last() == ls[i].last());
            assert(!line.contains('\n')) by {
                if line.contains('\n') {
                    let k = choose|k: int| 0 <= k < line.len() && line[k] == '\n';
                    if k >= 1 {
                        assert(ls[i].contains(ls[i][k - 1]));
                    }
                }
            }
        }
    }
}

/// Lines that are read as fields.
pub open spec fn reads_as(ls: Seq<Seq<char>>, fs: Seq<(Seq<char>, Seq<char>)>) -> bool {
    &&& strict_fields(ls) == Ok::<Seq<(Seq<char>, Seq<char>)>, Failure>(fs)
    &&& forall|i: int| 0 <= i < ls.len() ==> is_plain(#[trigger] ls[i]) && !is_blank(ls[i])
}

pub(crate) proof fn add_chunk(
    before: Seq<Seq<char>>,
    fs: Seq<(Seq<char>, Seq<char>)>,
    key: Seq<char>,
    pad: Seq<char>,
    ls: Seq<Seq<char>>,
)
    requires
        reads_as(before, fs),
        is_chunk(key, pad, ls),
    ensures
        reads_as(before + chunk(key, pad, ls), fs + seq![(key, glued(ls))]),
{
    let cl = chunk(key, pad, ls);
    chunk_reads_back(before, fs, key, pad, ls, ls.len() as int);
    chunk_is_plain(key, pad, ls);
    assert(cl.take(ls.len() as int) =~= cl);
    assert(ls.take(ls.len() as int) =~= ls);
    assert(fs.push((key, glued(ls))) =~= fs + seq![(key, glued(ls))]);
    let all = before + cl;
    assert forall|i: int| 0 <= i < all.len() implies is_plain(#[trigger] all[i]) && !is_blank(
        all[i],
    ) by {
        if i < before.len() {
            assert(all[i] == before[i]);
        } else {
            assert(all[i] == cl[i - before.len()]);
        }
    }
}

pub(crate) proof fn writable_is_chunk(key: Seq<char>, value: Seq<char>)
    requires
        is_key(key),
        is_writable(value),
    ensures
        is_chunk(key, seq![' '], lines(value)),
        glued(lines(value)) == value,
        flat(chunk(key, seq![' '], lines(value))) == field_text(key, value),
{
    reveal_strlit(": ");
    lines_hold_no_feed(value);
    trim_behind_space(lines(value)[0]);
    assert(!seq![' '].contains('\n')) by {
        assert(seq![' '][0] == ' ');
    }
    field_is_flat(key, value);
    let fl = field_lines(key, value);
    let cl = chunk(key, seq![' '], lines(value));
    assert forall|i: int| 0 <= i < fl.len() implies fl[i] == cl[i] by {
        assert(key + ": "@ + lines(value)[0] =~= key + seq![':'] + seq![' '] + lines(value)[0]);
    }
    assert(fl =~= cl);
}

// ---------------------------------------------------------------------------
// Fields of one line
// ---------------------------------------------------------------------------

/// A text that stands on one line.
pub open spec fn is_line(value: Seq<char>) -> bool {
    !value.contains('\n') && (value.len() > 0 ==> value.last() != '\r')
}

/// A trimmed text stays as it is.
pub(crate) proof fn trim_once(s: Seq<char>)
    ensures
        trim(trim(s)) == trim(s),
{
    let a = trim_start(s);
    let t = trim(s);
    trim_start_is_suffix(s);
    trim_end_is_prefix(a);
    if t.len() > 0 {
        assert(t[0] == a[0]);
    }
    assert(trim_start(t) == t);
    assert(trim_end(t) == t);
}

/// What does not end with white space is not cut by trimming what is behind it.
pub(crate) proof fn trim_end_behind(a: Seq<char>, x: Seq<char>)
    requires
        a.len() > 0,
        !is_white(a.last()),
    ensures
        trim_end(a + x) == a + trim_end(x),
    decreases x.len(),
{
    if x.len() == 0 {
        assert(a + x =~= a);
        assert(a + trim_end(x) =~= a);
        assert(trim_end(a) == a);
    } else {
        assert((a + x).last() == x.last());
        if is_white(x.last()) {
            assert((a + x).drop_last() =~= a + x.drop_last());
            trim_end_behind(a, x.drop_last());
        }
    }
}

/// It does not matter which end is trimmed first.
pub(crate) proof fn trims_commute(y: Seq<char>)
    ensures
        trim_start(trim_end(y)) == trim(y),
    decreases y.len(),
{
    trim_end_is_prefix(y);
    let t = trim_end(y);
    if y.len() > 0 && is_white(y[0]) {
        let r = y.drop_first();
        trims_commute(r);
        trim_end_is_prefix(r);
        let m = trim_end(r).len() as int;
        let n = t.len() as int;
        if m > 0 {
            if n - 1 < m {
                assert(y.skip(n)[m - n] == r[m - 1]);
            }
            if n - 1 > m {
                assert(r.skip(m)[n - 2 - m] == t.last());
            }
            assert(t =~= seq![y[0]] + trim_end(r));
            assert(t.drop_first() =~= trim_end(r));
        } else {
            if n > 1 {
                assert(r.skip(0)[n - 2] == t.last());
            } else if n == 1 {
                assert(t.last() == y[0]);
            }
            assert(trim_end(r) =~= seq![]);
            assert(t =~= seq![]);
        }
    } else if t.len() > 0 {
        assert(t[0] == y[0]);
    }
}

/// The line of a field that stands on one line.
pub open spec fn one_line(key: Seq<char>, value: Seq<char>) -> Seq<char> {
    key + ": "@ + value
}

proof fn colon_line_reads_back(
    ls: Seq<Seq<char>>,
    fs: Seq<(Seq<char>, Seq<char>)>,
    key: Seq<char>,
    rest: Seq<char>,
)
    requires
        reads_as(ls, fs),
        is_key(key),
        is_line(rest),
    ensures
        reads_as(ls + seq![key + seq![':'] + rest], fs + seq![(key, trim(rest))]),
{
    let line = key + seq![':'] + rest;
    let all = ls + seq![line];
    find_behind(key, rest, ':');
    assert(line.take(key.len() as int) =~= key);
    assert(line.skip(key.len() as int + 1) =~= rest);
    assert(!is_indented(line)) by {
        if key.len() > 0 {
            assert(line[0] == key[0]);
        } else {
            assert(line[0] == ':');
        }
    }
    assert(all.drop_last() =~= ls);
    assert(all.last() == line);
    assert(fs.push((key, trim(rest))) =~= fs + seq![(key, trim(rest))]);
    assert(!line.contains('\n')) by {
        if line.contains('\n') {
            let k = choose|k: int| 0 <= k < line.len() && line[k] == '\n';
            if k < key.len() {
                assert(key.contains(key[k]));
            } else if k > key.len() {
                assert(rest.contains(rest[k - key.len() - 1]));
            }
        }
    }
    if rest.len() > 0 {
        assert(line.last() == rest.last());
    } else {
        assert(line.last() == ':');
    }
    assert(line[key.len() as int] == ':');
    assert(!is_white(':'));
    assert forall|i: int| 0 <= i < all.len() implies is_plain(#[trigger] all[i]) && !is_blank(
        all[i],
    ) by {
        if i < ls.len() {
            assert(all[i] == ls[i]);
        }
    }
}

/// Reading a line with a field adds the field, trimmed.
pub(crate) proof fn add_line(
    ls: Seq<Seq<char>>,
    fs: Seq<(Seq<char>, Seq<char>)>,
    text: Seq<char>,
    key: Seq<char>,
    value: Seq<char>,
)
    requires
        reads_as(ls, fs),
        flat(ls) == text,
        is_key(key),
        is_line(value),
    ensures
        reads_as(ls + seq![one_line(key, value)], fs + seq![(key, trim(value))]),
        flat(ls + seq![one_line(key, value)]) == text + key + ": "@ + value + "\n"@,
{
    reveal_strlit(": ");
    reveal_strlit("\n");
    let rest = seq![' '] + value;
    assert(rest.drop_first() =~= value);
    assert(trim(rest) == trim(value));
    assert(!rest.contains('\n')) by {
        if rest.contains('\n') {
            let k = choose|k: int| 0 <= k < rest.len() && rest[k] == '\n';
            assert(value.contains(value[k - 1]));
        }
    }
    if value.len() > 0 {
        assert(rest.last() == value.last());
    }
    colon_line_reads_back(ls, fs, key, rest);
    assert(key + seq![':'] + rest =~= one_line(key, value));
    let one = seq![one_line(key, value)];
    flat_add(ls, one);
    assert(flat(one.drop_last()) =~= Seq::<char>::empty());
    assert(flat(one) =~= key + ": "@ + value + "\n"@);
    assert(text + flat(one) =~= text + key + ": "@ + value + "\n"@);
}

/// The same where the line is the last of a stanza, which loses the white space
/// at its end.
pub(crate) proof fn add_last_line(
    ls: Seq<Seq<char>>,
    fs: Seq<(Seq<char>, Seq<char>)>,
    key: Seq<char>,
    value: Seq<char>,
)
    requires
        reads_as(ls, fs),
        is_key(key),
        is_line(value),
    ensures
        strict_fields(lines(trim_end(flat(ls + seq![one_line(key, value)])))) == Ok::<
            Seq<(Seq<char>, Seq<char>)>,
            Failure,
        >(fs + seq![(key, trim(value))]),
        trim_end(flat(ls + seq![one_line(key, value)])).len() > 0,
{
    reveal_strlit(": ");
    let line = one_line(key, value);
    let front = key + seq![':'];
    let rest = seq![' '] + value;
    assert(line =~= front + rest);
    trim_end_behind(front, rest);
    let cut = trim_end(rest);
    trim_end_is_prefix(rest);
    trims_commute(rest);
    assert(rest.drop_first() =~= value);
    assert(trim_end(cut) == cut);
    trim_start_is_suffix(cut);
    trim_end_is_prefix(trim_start(cut));
    trim_once(value);
    assert(trim(cut) == trim(value)) by {
        assert(trim_start(cut) == trim(rest));
        assert(trim(rest) == trim(value));
        assert(trim(cut) == trim_end(trim(value)));
        let t = trim(value);
        trim_end_is_prefix(trim_start(value));
        assert(trim_end(t) == t);
    }
    assert(is_line(cut)) by {
        if cut.contains('\n') {
            let k = choose|k: int| 0 <= k < cut.len() && cut[k] == '\n';
            assert(rest[k] == '\n');
            assert(value.contains(value[k - 1]));
        }
        if cut.len() > 0 {
            assert(!is_white(cut.last()));
        }
    }
    colon_line_reads_back(ls, fs, key, cut);
    let last = front + cut;
    let short = ls + seq![last];
    let whole = ls + seq![line];
    assert(short.last() == last);
    assert(last.len() > 0);
    lines_of_open_flat(short);
    assert(whole.drop_last() =~= ls);
    assert(short.drop_last() =~= ls);
    let head = flat(ls) + front;
    assert(head.last() == ':');
    assert(flat(whole) =~= head + (rest + seq!['\n']));
    trim_end_behind(head, rest + seq!['\n']);
    assert((rest + seq!['\n']).drop_last() =~= rest);
    assert(trim_end(rest + seq!['\n']) == cut);
    assert(flat(short).drop_last() =~= head + cut);
}

// ---------------------------------------------------------------------------
// Sections
// ---------------------------------------------------------------------------

/// An entry of a section: a hash, a size and a path.
pub open spec fn entry_text(hash: Seq<char>, size: nat, path: Seq<char>) -> Seq<char> {
    hash + seq![' '] + decimal_text(size) + seq![' '] + path
}

/// A line of a section: it neither begins nor ends with white space.
pub open spec fn is_entry(line: Seq<char>) -> bool {
    line.len() > 0 && !is_white(line[0]) && !is_white(line.last()) && !line.contains('\n')
}

/// The lines of the value of a section: an empty one, and the entries.
pub open spec fn section_of(es: Seq<Seq<char>>) -> Seq<Seq<char>> {
    seq![Seq::<char>::empty()] + es
}

/// An entry is made of its three words.
pub(crate) proof fn entry_has_words(hash: Seq<char>, size: nat, path: Seq<char>)
    requires
        is_word(hash),
        is_word(path),
    ensures
        words(entry_text(hash, size, path)) == seq![hash, decimal_text(size), path],
        is_entry(entry_text(hash, size, path)),
        !is_blank(entry_text(hash, size, path)),
{
    number_is_word(size);
    let d = decimal_text(size);
    let e = entry_text(hash, size, path);
    assert(e =~= hash + seq![' '] + (d + seq![' '] + path));
    word_then_rest(hash, d + seq![' '] + path);
    word_then_rest(d, path);
    word_then_rest(path, seq![]);
    assert(words(e) =~= seq![hash, d, path]);
    assert(e[0] == hash[0]);
    assert(e.last() == path.last());
    assert(!is_white(path[path.len() - 1]));
    assert(!is_white(e[0]));
    assert(!e.contains('\n')) by {
        if e.contains('\n') {
            let k = choose|k: int| 0 <= k < e.len() && e[k] == '\n';
            if k < hash.len() {
                assert(!is_white(hash[k]));
            } else if hash.len() < k < hash.len() + 1 + d.len() {
                assert(!is_white(d[k - hash.len() - 1]));
            } else if k > hash.len() + 1 + d.len() {
                assert(!is_white(path[k - hash.len() - d.len() - 2]));
            }
        }
    }
}

/// A section is a chunk of lines.
pub(crate) proof fn entries_are_chunk(key: Seq<char>, es: Seq<Seq<char>>)
    requires
        is_key(key),
        forall|i: int| 0 <= i < es.len() ==> is_entry(#[trigger] es[i]),
    ensures
        is_chunk(key, seq![], section_of(es)),
        flat(chunk(key, seq![], section_of(es))) == key + seq![':', '\n'] + flat(
            es.map_values(|l: Seq<char>| seq![' '] + l),
        ),
{
    let ls = section_of(es);
    let pad = Seq::<char>::empty();
    assert(pad + ls[0] =~= ls[0]);
    assert(trim(ls[0]) =~= ls[0]);
    assert forall|i: int| 1 <= i < ls.len() implies is_continuation(#[trigger] ls[i]) by {
        assert(is_entry(es[i - 1]));
    }
    assert forall|i: int| 0 <= i < ls.len() implies !(#[trigger] ls[i]).contains('\n') by {
        if i > 0 {
            assert(is_entry(es[i - 1]));
        }
    }
    let cl = chunk(key, pad, ls);
    flat_front(cl);
    let indented = es.map_values(|l: Seq<char>| seq![' '] + l);
    assert(cl.drop_first() =~= indented);
    assert(flat(cl) =~= key + seq![':', '\n'] + flat(indented));
}

/// The value of a section, trimmed, has its entries as lines.
pub(crate) proof fn entries_come_back(es: Seq<Seq<char>>)
    requires
        es.len() > 0,
        forall|i: int| 0 <= i < es.len() ==> is_entry(#[trigger] es[i]),
    ensures
        trim(glued(section_of(es))) == glued(es),
        lines(glued(es)) == es,
{
    assert forall|i: int| 0 <= i < es.len() implies is_plain(#[trigger] es[i]) by {
        assert(is_entry(es[i]));
    }
    assert(is_entry(es[0]));
    assert(is_entry(es[es.len() - 1]));
    glued_behind_empty(es);
    glued_is_open_flat(es);
    lines_of_open_flat(es);
    glued_ends(es);
    glued_begins(es);
    let g = glued(es);
    let v = seq!['\n'] + g;
    assert(trim(v) == g) by {
        reveal_with_fuel(trim_start, 2);
        assert(v.drop_first() =~= g);
        assert(trim_end(g) == g);
    }
}

// ---------------------------------------------------------------------------
// Stanzas
// ---------------------------------------------------------------------------

/// Lines behind a blank line, none of them blank, make up an open stanza.
pub(crate) proof fn stanza_stays_open(before: Seq<Seq<char>>, ls: Seq<Seq<char>>)
    requires
        before.len() == 0 || is_blank(before.last()),
        forall|i: int| 0 <= i < ls.len() ==> !is_blank(#[trigger] ls[i]),
    ensures
        open_stanza(before + ls) == flat(ls),
        closed_stanzas(before + ls) == closed_stanzas(before),
    decreases ls.len(),
{
    if ls.len() == 0 {
        assert(before + ls =~= before);
    } else {
        let t = ls.drop_last();
        assert((before + ls).drop_last() =~= before + t);
        assert forall|i: int| 0 <= i < t.len() implies !is_blank(#[trigger] t[i]) by {
            assert(t[i] == ls[i]);
        }
        stanza_stays_open(before, t);
        assert(!is_blank(ls[ls.len() - 1]));
        assert((before + ls).last() == ls.last());
    }
}

/// The stanza of lines that do not end with white space.
pub(crate) proof fn stanza_text(ls: Seq<Seq<char>>)
    requires
        ls.len() > 0,
        ls.last().len() > 0,
        !is_white(ls.last().last()),
    ensures
        trim_end(flat(ls)) == flat(ls).drop_last(),
        flat(ls).len() > 0,
{
    reveal_with_fuel(trim_end, 2);
    let s = flat(ls);
    assert(s.last() == '\n');
    assert(s.drop_last() =~= flat(ls.drop_last()) + ls.last());
    assert(s.drop_last().last() == ls.last().last());
}

/// The lines of documents, an empty line between each two.
pub open spec fn document_lines(docs: Seq<Seq<Seq<char>>>) -> Seq<Seq<char>>
    decreases docs.len(),
{
    if docs.len() == 0 {
        seq![]
    } else if docs.len() == 1 {
        docs[0]
    } else {
        document_lines(docs.drop_last()) + seq![Seq::<char>::empty()] + docs.last()
    }
}

/// Lines that make up one stanza.
pub open spec fn is_stanza(ls: Seq<Seq<char>>) -> bool {
    &&& ls.len() > 0
    &&& ls.last().len() > 0
    &&& !is_white(ls.last().last())
    &&& forall|i: int| 0 <= i < ls.len() ==> is_plain(#[trigger] ls[i]) && !is_blank(ls[i])
}

pub(crate) proof fn documents_split(docs: Seq<Seq<Seq<char>>>)
    requires
        docs.len() > 0,
        forall|i: int| 0 <= i < docs.len() ==> is_stanza(#[trigger] docs[i]),
    ensures
        open_stanza(document_lines(docs)) == flat(docs.last()),
        closed_stanzas(document_lines(docs)) == docs.drop_last().map_values(
            |ls: Seq<Seq<char>>| trim_end(flat(ls)),
        ),
        forall|i: int|
            0 <= i < document_lines(docs).len() ==> is_plain(#[trigger] document_lines(docs)[i]),
    decreases docs.len(),
{
    let last = docs[docs.len() - 1];
    assert(is_stanza(last));
    if docs.len() == 1 {
        stanza_stays_open(seq![], last);
        assert(Seq::<Seq<char>>::empty() + last =~= last);
        assert(docs.drop_last().map_values(|ls: Seq<Seq<char>>| trim_end(flat(ls))) =~= seq![]);
    } else {
        let t = docs.drop_last();
        assert forall|i: int| 0 <= i < t.len() implies is_stanza(#[trigger] t[i]) by {
            assert(t[i] == docs[i]);
        }
        documents_split(t);
        let before = document_lines(t) + seq![Seq::<char>::empty()];
        assert(before.drop_last() =~= document_lines(t));
        assert(is_blank(before.last()));
        assert(is_stanza(t[t.len() - 1]));
        stanza_text(t.last());
        stanza_stays_open(before, last);
        assert(before + last =~= document_lines(docs));
        let closed = |ls: Seq<Seq<char>>| trim_end(flat(ls));
        assert(docs.drop_last().map_values(closed) =~= t.drop_last().map_values(closed).push(
            trim_end(flat(t.last())),
        ));
        let dl = document_lines(docs);
        assert forall|i: int| 0 <= i < dl.len() implies is_plain(#[trigger] dl[i]) by {
            let n = document_lines(t).len();
            if i < n {
                assert(dl[i] == document_lines(t)[i]);
            } else if i > n {
                assert(dl[i] == last[i - n - 1]);
            }
        }
    }
}

// ---------------------------------------------------------------------------
// Maps
// ---------------------------------------------------------------------------

pub(crate) proof fn lookup_iff_contains(m: Seq<(Seq<char>, Seq<char>)>, k: Seq<char>)
    requires
        ascending(keys_of(m)),
    ensures
        lookup(m, k) is Some <==> keys_of(m).contains(k),
{
    slot_splits(keys_of(m), k);
    slot_cuts(keys_of(m), k);
}

pub(crate) proof fn lookup_in_tail(m: Seq<(Seq<char>, Seq<char>)>, k: Seq<char>)
    requires
        m.len() > 0,
        ascending(keys_of(m)),
    ensures
        ascending(keys_of(m.drop_first())),
        lookup(m, m[0].0) == Some(m[0].1),
        text_lt(m[0].0, k) ==> lookup(m, k) == lookup(m.drop_first(), k),
        text_lt(k, m[0].0) ==> lookup(m, k) is None && lookup(m.drop_first(), k) is None,
        lookup(m.drop_first(), m[0].0) is None,
{
    let t = m.drop_first();
    let keys = keys_of(m);
    assert(keys.drop_first() =~= keys_of(t));
    assert forall|i: int, j: int| 0 <= i < j < keys_of(t).len() implies text_lt(
        #[trigger] keys_of(t)[i],
        #[trigger] keys_of(t)[j],
    ) by {
        assert(text_lt(keys[i + 1], keys[j + 1]));
    }
    text_lt_irreflexive(m[0].0);
    if t.len() > 0 {
        assert(text_lt(keys[0], keys[1]));
        assert(keys_of(t)[0] == keys[1]);
        if text_lt(keys[1], m[0].0) {
            text_lt_transitive(keys[0], keys[1], m[0].0);
        }
        if keys[1] == m[0].0 {
            text_lt_irreflexive(keys[1]);
        }
    }
    if text_lt(k, m[0].0) {
        if text_lt(m[0].0, k) {
            text_lt_transitive(k, m[0].0, k);
            text_lt_irreflexive(k);
        }
        if k == m[0].0 {
            text_lt_irreflexive(k);
        }
        if t.len() > 0 {
            text_lt_transitive(k, keys[0], keys[1]);
            if text_lt(keys[1], k) {
                text_lt_transitive(k, keys[1], k);
                text_lt_irreflexive(k);
            }
            if keys[1] == k {
                text_lt_irreflexive(k);
            }
        }
    }
}

/// Two maps that give the same for every key are the same.
pub(crate) proof fn same_lookups_same_map(a: Seq<(Seq<char>, Seq<char>)>, b: Seq<(Seq<char>, Seq<char>)>)
    requires
        ascending(keys_of(a)),
        ascending(keys_of(b)),
        forall|k: Seq<char>| #[trigger] lookup(a, k) == lookup(b, k),
    ensures
        a == b,
    decreases a.len(),
{
    if a.len() == 0 && b.len() == 0 {
        assert(a =~= b);
    } else if a.len() == 0 {
        lookup_in_tail(b, b[0].0);
        assert(lookup(a, b[0].0) is None);
    } else if b.len() == 0 {
        lookup_in_tail(a, a[0].0);
        assert(lookup(b, a[0].0) is None);
        assert(lookup(a, a[0].0) == lookup(b, a[0].0));
    } else {
        lookup_in_tail(a, a[0].0);
        lookup_in_tail(b, b[0].0);
        assert(lookup(a, a[0].0) == lookup(b, a[0].0));
        assert(lookup(a, b[0].0) == lookup(b, b[0].0));
        if a[0].0 != b[0].0 {
            text_lt_total(a[0].0, b[0].0);
            lookup_in_tail(a, b[0].0);
            lookup_in_tail(b, a[0].0);
        }
        assert(a[0] == b[0]);
        let ta = a.drop_first();
        let tb = b.drop_first();
        assert forall|k: Seq<char>| #[trigger] lookup(ta, k) == lookup(tb, k) by {
            assert(lookup(a, k) == lookup(b, k));
            lookup_in_tail(a, k);
            lookup_in_tail(b, k);
            if k != a[0].0 {
                text_lt_total(k, a[0].0);
            }
        }
        same_lookups_same_map(ta, tb);
        assert(a =~= seq![a[0]] + ta);
        assert(b =~= seq![b[0]] + tb);
    }
}

pub(crate) proof fn without_all_lookup(m: Seq<(Seq<char>, Seq<char>)>, keys: Seq<Seq<char>>, k: Seq<char>)
    requires
        ascending(keys_of(m)),
    ensures
        ascending(keys_of(without_all(m, keys))),
        lookup(without_all(m, keys), k) == if keys.contains(k) {
            None
        } else {
            lookup(m, k)
        },
    decreases keys.len(),
{
    if keys.len() > 0 {
        let t = keys.drop_last();
        without_all_lookup(m, t, k);
        lookup_after_without(without_all(m, t), keys.last(), k);
        assert(keys.contains(k) <==> (t.contains(k) || k == keys.last())) by {
            if t.contains(k) {
                let i = choose|i: int| 0 <= i < t.len() && t[i] == k;
                assert(keys[i] == k);
            }
            if keys.contains(k) {
                let i = choose|i: int| 0 <= i < keys.len() && keys[i] == k;
                if i < t.len() {
                    assert(t[i] == k);
                }
            }
            if k == keys.last() {
                assert(keys[keys.len() - 1] == k);
            }
        }
    }
}

pub(crate) proof fn last_field_counts(fs: Seq<(Seq<char>, Seq<char>)>, k: Seq<char>, v: Seq<char>)
    ensures
        lookup(map_of(fs + seq![(k, v)]), k) == Some(trim(v)),
{
    let all = fs + seq![(k, v)];
    assert(all.drop_last() =~= fs);
    assert(all.last() == (k, v));
    map_of_ascending(fs);
    lookup_after_put(map_of(fs), k, trim(v), k);
}

pub(crate) proof fn other_fields_stay(
    fs: Seq<(Seq<char>, Seq<char>)>,
    k: Seq<char>,
    v: Seq<char>,
    other: Seq<char>,
)
    requires
        other != k,
    ensures
        lookup(map_of(fs + seq![(k, v)]), other) == lookup(map_of(fs), other),
{
    let all = fs + seq![(k, v)];
    assert(all.drop_last() =~= fs);
    assert(all.last() == (k, v));
    map_of_ascending(fs);
    lookup_after_put(map_of(fs), k, trim(v), other);
}

} // verus!
