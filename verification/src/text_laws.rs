//! What holds of the texts that everything else is read from.

use vstd::prelude::*;

use crate::text::{ascii_lower, contains_text, find, find_is_first, find_text, is_blank, is_white, join, lines};
use crate::text::{occurs_at, pieces, split, starts_with, trim, trim_char, trim_end, trim_end_char};
use crate::text::{trim_end_is_prefix, trim_start, trim_start_char, trim_start_is_suffix, word_len, word_len_is_run};
use crate::text::words;

verus! {

// ---------------------------------------------------------------------------
// Pieces
// ---------------------------------------------------------------------------

proof fn join_from_front(pieces: Seq<Seq<char>>, sep: Seq<char>)
    requires
        pieces.len() > 1,
    ensures
        join(pieces, sep) == pieces[0] + sep + join(pieces.drop_first(), sep),
    decreases pieces.len(),
{
    let rest = pieces.drop_first();
    if pieces.len() == 2 {
        assert(pieces.drop_last() =~= seq![pieces[0]]);
        assert(rest =~= seq![pieces[1]]);
        assert(join(seq![pieces[0]], sep) == pieces[0]);
        assert(join(seq![pieces[1]], sep) == pieces[1]);
        assert(pieces.last() == pieces[1]);
    } else {
        let front = pieces.drop_last();
        join_from_front(front, sep);
        assert(front.drop_first() =~= rest.drop_last());
        assert(rest.last() == pieces.last());
        assert(pieces[0] + sep + join(rest.drop_last(), sep) + sep + pieces.last() =~= pieces[0]
            + sep + (join(rest.drop_last(), sep) + sep + pieces.last()));
    }
}

/// The pieces of a text hold no separator, and with a separator between each two they
/// are the text again.
pub proof fn pieces_make_the_text(s: Seq<char>, c: char)
    ensures
        split(s, c).len() > 0,
        join(split(s, c), seq![c]) == s,
        forall|i: int| 0 <= i < split(s, c).len() ==> !(#[trigger] split(s, c)[i]).contains(c),
    decreases s.len(),
{
    find_is_first(s, c);
    let n = find(s, c) as int;
    if n >= s.len() {
        assert(!s.contains(c));
        assert(split(s, c) =~= seq![s]);
    } else {
        let rest = s.skip(n + 1);
        let tail = split(rest, c);
        let all = split(s, c);
        pieces_make_the_text(rest, c);
        assert(all =~= seq![s.take(n)] + tail);
        assert(all.drop_first() =~= tail);
        join_from_front(all, seq![c]);
        assert(s =~= s.take(n) + seq![c] + rest);
        assert forall|i: int| 0 <= i < all.len() implies !(#[trigger] all[i]).contains(c) by {
            if i > 0 {
                assert(all[i] == tail[i - 1]);
            }
        }
    }
}

/// A text of three pieces is these, with the separators between them.
pub(crate) proof fn three_pieces_make_the_text(s: Seq<char>, c: char)
    requires
        split(s, c).len() == 3,
    ensures
        s == split(s, c)[0] + seq![c] + split(s, c)[1] + seq![c] + split(s, c)[2],
{
    pieces_make_the_text(s, c);
    let p = split(s, c);
    join_from_front(p, seq![c]);
    join_from_front(p.drop_first(), seq![c]);
    assert(p.drop_first().drop_first() =~= seq![p[2]]);
    assert(s =~= p[0] + seq![c] + p[1] + seq![c] + p[2]);
}

/// A text of two pieces is these, with the separator between them.
pub(crate) proof fn two_pieces_make_the_text(s: Seq<char>, c: char)
    requires
        split(s, c).len() == 2,
    ensures
        s == split(s, c)[0] + seq![c] + split(s, c)[1],
{
    pieces_make_the_text(s, c);
    let p = split(s, c);
    join_from_front(p, seq![c]);
    assert(p.drop_first() =~= seq![p[1]]);
}

// ---------------------------------------------------------------------------
// Ends
// ---------------------------------------------------------------------------

/// Trimming takes white space from both ends, all of it, and nothing else.
pub proof fn trimmed_text_is_inside(s: Seq<char>)
    ensures
        exists|before: Seq<char>, behind: Seq<char>|
            is_blank(before) && is_blank(behind) && s == #[trigger] (before + trim(s) + behind),
        trim(s).len() > 0 ==> !is_white(trim(s)[0]) && !is_white(trim(s).last()),
{
    let m = trim_start(s);
    trim_start_is_suffix(s);
    trim_end_is_prefix(m);
    start_is_blank(s);
    end_is_blank(m);
    let before = s.take(s.len() - m.len());
    let behind = m.skip(trim(s).len() as int);
    assert(m =~= trim(s) + behind);
    assert(s =~= before + m);
    assert(s =~= before + trim(s) + behind);
    if trim(s).len() > 0 {
        assert(trim(s)[0] == m[0]);
    }
}

proof fn start_is_blank(s: Seq<char>)
    ensures
        trim_start(s).len() <= s.len(),
        s.skip(s.len() - trim_start(s).len()) == trim_start(s),
        is_blank(s.take(s.len() - trim_start(s).len())),
        trim_start(s).len() > 0 ==> !is_white(trim_start(s)[0]),
    decreases s.len(),
{
    if s.len() > 0 && is_white(s[0]) {
        let t = s.drop_first();
        start_is_blank(t);
        let n = s.len() - trim_start(s).len();
        assert(s.skip(n) =~= t.skip(n - 1));
        assert forall|i: int| 0 <= i < n implies is_white(#[trigger] s.take(n)[i]) by {
            if i > 0 {
                assert(t.take(n - 1)[i - 1] == s[i]);
            }
        }
    } else {
        assert(s.skip(0) =~= s);
    }
}

proof fn end_is_blank(s: Seq<char>)
    ensures
        trim_end(s).len() <= s.len(),
        s.take(trim_end(s).len() as int) == trim_end(s),
        is_blank(s.skip(trim_end(s).len() as int)),
        trim_end(s).len() > 0 ==> !is_white(trim_end(s).last()),
    decreases s.len(),
{
    let n = trim_end(s).len() as int;
    if s.len() > 0 && is_white(s.last()) {
        let t = s.drop_last();
        end_is_blank(t);
        assert(s.take(n) =~= t.take(n));
        assert forall|i: int| 0 <= i < s.skip(n).len() implies is_white(#[trigger] s.skip(n)[i]) by {
            if i < t.skip(n).len() {
                assert(t.skip(n)[i] == s.skip(n)[i]);
            }
        }
    } else {
        assert(s.take(n) =~= s);
    }
}

/// Every character of the text is this one.
pub open spec fn is_run_of(s: Seq<char>, c: char) -> bool {
    forall|i: int| 0 <= i < s.len() ==> #[trigger] s[i] == c
}

proof fn start_is_run(s: Seq<char>, c: char)
    ensures
        trim_start_char(s, c).len() <= s.len(),
        s.skip(s.len() - trim_start_char(s, c).len()) == trim_start_char(s, c),
        is_run_of(s.take(s.len() - trim_start_char(s, c).len()), c),
        trim_start_char(s, c).len() > 0 ==> trim_start_char(s, c)[0] != c,
    decreases s.len(),
{
    if s.len() > 0 && s[0] == c {
        let t = s.drop_first();
        start_is_run(t, c);
        let n = s.len() - trim_start_char(s, c).len();
        assert(s.skip(n) =~= t.skip(n - 1));
        assert forall|i: int| 0 <= i < n implies #[trigger] s.take(n)[i] == c by {
            if i > 0 {
                assert(t.take(n - 1)[i - 1] == s[i]);
            }
        }
    } else {
        assert(s.skip(0) =~= s);
    }
}

proof fn end_is_run(s: Seq<char>, c: char)
    ensures
        trim_end_char(s, c).len() <= s.len(),
        s.take(trim_end_char(s, c).len() as int) == trim_end_char(s, c),
        is_run_of(s.skip(trim_end_char(s, c).len() as int), c),
        trim_end_char(s, c).len() > 0 ==> trim_end_char(s, c).last() != c,
    decreases s.len(),
{
    let n = trim_end_char(s, c).len() as int;
    if s.len() > 0 && s.last() == c {
        let t = s.drop_last();
        end_is_run(t, c);
        assert(s.take(n) =~= t.take(n));
        assert forall|i: int| 0 <= i < s.skip(n).len() implies #[trigger] s.skip(n)[i] == c by {
            if i < t.skip(n).len() {
                assert(t.skip(n)[i] == s.skip(n)[i]);
            }
        }
    } else {
        assert(s.take(n) =~= s);
    }
}

/// Trimming a character takes it from both ends, as often as it stands there, and
/// nothing else.
pub proof fn text_without_character_is_inside(s: Seq<char>, c: char)
    ensures
        exists|before: Seq<char>, behind: Seq<char>|
            is_run_of(before, c) && is_run_of(behind, c) && s == #[trigger] (before + trim_char(
                s,
                c,
            ) + behind),
        trim_char(s, c).len() > 0 ==> trim_char(s, c)[0] != c && trim_char(s, c).last() != c,
        exists|before: Seq<char>|
            is_run_of(before, c) && s == #[trigger] (before + trim_start_char(s, c)),
        trim_start_char(s, c).len() > 0 ==> trim_start_char(s, c)[0] != c,
{
    let m = trim_start_char(s, c);
    start_is_run(s, c);
    end_is_run(m, c);
    let before = s.take(s.len() - m.len());
    let behind = m.skip(trim_char(s, c).len() as int);
    assert(m =~= trim_char(s, c) + behind);
    assert(s =~= before + m);
    assert(s =~= before + trim_char(s, c) + behind);
    if trim_char(s, c).len() > 0 {
        assert(trim_char(s, c)[0] == m[0]);
    }
}

// ---------------------------------------------------------------------------
// Words
// ---------------------------------------------------------------------------

/// White space parts words: those of a text are those before it and those behind it. A
/// text without any is one word, and an empty text none.
pub proof fn white_space_parts_words(a: Seq<char>, w: char, b: Seq<char>)
    requires
        is_white(w),
    ensures
        words(a + seq![w] + b) == words(a) + words(b),
        a.len() > 0 && (forall|i: int| 0 <= i < a.len() ==> !is_white(#[trigger] a[i])) ==> words(
            a,
        ) == seq![a],
        words(Seq::<char>::empty()) == Seq::<Seq<char>>::empty(),
    decreases a.len(),
{
    let s = a + seq![w] + b;
    if a.len() == 0 {
        assert(s.drop_first() =~= b);
        assert(s[0] == w);
        assert(words(a) + words(b) =~= words(b));
    } else if is_white(a[0]) {
        let t = a.drop_first();
        assert(s.drop_first() =~= t + seq![w] + b);
        white_space_parts_words(t, w, b);
    } else {
        word_len_is_run(a);
        word_len_is_run(s);
        let n = word_len(a) as int;
        assert(word_len(s) == n) by {
            let m = word_len(s) as int;
            if m < n {
                assert(s[m] == a[m]);
            }
            if m > n {
                if n < a.len() {
                    assert(s[n] == a[n]);
                } else {
                    assert(s[n] == w);
                }
            }
        }
        assert(s.take(n) =~= a.take(n));
        let t = a.skip(n);
        assert(s.skip(n) =~= t + seq![w] + b);
        white_space_parts_words(t, w, b);
        assert(seq![a.take(n)] + (words(t) + words(b)) =~= seq![a.take(n)] + words(t) + words(b));
        if forall|i: int| 0 <= i < a.len() ==> !is_white(#[trigger] a[i]) {
            if n < a.len() {
                assert(is_white(a[n]));
            }
            assert(a.take(n) =~= a);
            assert(t =~= seq![]);
            assert(words(a) =~= seq![a]);
        }
    }
}

// ---------------------------------------------------------------------------
// Lines
// ---------------------------------------------------------------------------

/// A line feed parts lines: the first line is what stands before it, without a
/// carriage return at its end, and the others are those of what stands behind.
pub proof fn line_feed_parts_lines(line: Seq<char>, rest: Seq<char>)
    requires
        !line.contains('\n'),
        line.len() > 0 ==> line.last() != '\r',
    ensures
        lines(line + seq!['\n'] + rest) == seq![line] + lines(rest),
        lines(line + seq!['\r', '\n'] + rest) == seq![line] + lines(rest),
        line.len() > 0 ==> lines(line) == seq![line],
        lines(Seq::<char>::empty()) == Seq::<Seq<char>>::empty(),
{
    let s = line + seq!['\n'] + rest;
    find_is_first(s, '\n');
    let n = find(s, '\n') as int;
    assert(s[line.len() as int] == '\n');
    if n < line.len() {
        assert(line[n] == s[n]);
    }
    assert(s.take(n) =~= line);
    assert(s.skip(n + 1) =~= rest);
    let t = line + seq!['\r', '\n'] + rest;
    find_is_first(t, '\n');
    let m = find(t, '\n') as int;
    assert(t[line.len() as int] == '\r');
    assert(t[line.len() as int + 1] == '\n');
    if m < line.len() {
        assert(line[m] == t[m]);
    }
    assert(m == line.len() + 1);
    assert(t.take(m) =~= line.push('\r'));
    assert(t.take(m).drop_last() =~= line);
    assert(t.skip(m + 1) =~= rest);
    if line.len() > 0 {
        find_is_first(line, '\n');
        if find(line, '\n') < line.len() {
            assert(line.contains(line[find(line, '\n') as int]));
        }
    }
}

// ---------------------------------------------------------------------------
// Case
// ---------------------------------------------------------------------------

/// Lower case is as long as the text; it changes the letters from A to Z and no other
/// character, and is the same for two texts if and only if they differ in the case of
/// such letters alone.
pub proof fn lower_case_changes_letters(s: Seq<char>, t: Seq<char>)
    ensures
        ascii_lower(s).len() == s.len(),
        forall|i: int|
            0 <= i < s.len() && !('A' <= s[i] <= 'Z') ==> #[trigger] ascii_lower(s)[i] == s[i],
        forall|i: int|
            0 <= i < s.len() && 'A' <= s[i] <= 'Z' ==> #[trigger] ascii_lower(s)[i] as u32
                == s[i] as u32 + 32,
        ascii_lower(ascii_lower(s)) == ascii_lower(s),
        ascii_lower(s + t) == ascii_lower(s) + ascii_lower(t),
{
    assert(ascii_lower(ascii_lower(s)) =~= ascii_lower(s));
    assert(ascii_lower(s + t) =~= ascii_lower(s) + ascii_lower(t));
}

// ---------------------------------------------------------------------------
// Occurrences
// ---------------------------------------------------------------------------

/// What is found is the first occurrence; nothing is found where there is none.
pub proof fn first_occurrence_is_found(s: Seq<char>, p: Seq<char>)
    ensures
        find_text(s, p) matches Some(n) ==> occurs_at(s, p, n as int) && forall|i: int|
            0 <= i < n ==> !(#[trigger] occurs_at(s, p, i)),
        find_text(s, p) is None ==> !contains_text(s, p),
    decreases s.len(),
{
    if starts_with(s, p) {
        assert(s.subrange(0, p.len() as int) =~= s.take(p.len() as int));
    } else if s.len() == 0 {
        assert(!contains_text(s, p)) by {
            if contains_text(s, p) {
                let i = choose|i: int| occurs_at(s, p, i);
                assert(i == 0);
                assert(s.subrange(0, 0) =~= s.take(0));
            }
        }
    } else {
        let t = s.drop_first();
        first_occurrence_is_found(t, p);
        assert(!occurs_at(s, p, 0)) by {
            if occurs_at(s, p, 0) {
                assert(s.subrange(0, p.len() as int) =~= s.take(p.len() as int));
            }
        }
        assert forall|i: int| 0 < i implies occurs_at(s, p, i) == occurs_at(t, p, i - 1) by {
            if 0 <= i <= s.len() - p.len() {
                assert(s.subrange(i, i + p.len()) =~= t.subrange(i - 1, i - 1 + p.len()));
            }
        }
        if let Some(n) = find_text(s, p) {
            assert forall|i: int| 0 <= i < n implies !(#[trigger] occurs_at(s, p, i)) by {
                if i > 0 {
                    assert(!occurs_at(t, p, i - 1));
                }
            }
        } else if contains_text(s, p) {
            let i = choose|i: int| occurs_at(s, p, i);
            assert(occurs_at(t, p, i - 1));
        }
    }
}

} // verus!
