//! A signed Release reads as the Release that was signed.

use vstd::prelude::*;

use crate::error::Failure;
use crate::ordered::{ascending, keys_of, lookup, slot, slot_cuts, without_all};
use crate::release::{after_empty, field_words, hash_section, hashes_of, in_release_of, known_fields, needed_field};
use crate::release::{release_from, release_of, signed_text, unstuffed};
use crate::roundtrip::{find_behind, flat, flat_add, flat_front, glued, glued_is_open_flat, is_plain};
use crate::roundtrip::{lines_hold_no_feed, same_lookups_same_map, trim_end_behind, trim_once, trims_commute};
use crate::roundtrip::without_all_lookup;
use crate::roundtrip_release::{filled_has_words, kept, known_names_listed, release_fields_differ};
use crate::roundtrip_release::trimming_keeps_words;
use crate::stanza::{closed_stanzas, continued, field_map, field_of, is_indented, map_of, map_of_ascending};
use crate::stanza::{open_stanza, stanzas, stanzas_of, strict_fields};
use crate::text::{contains_text, drop_return, find, find_is_first, is_blank, is_white, lines, occurs_at, starts_with};
use crate::text::{trim, trim_empty_iff_blank, trim_end, trim_end_is_prefix, trim_start, trim_start_is_suffix};
use crate::text::{word_len, word_len_is_run, words};

verus! {

// ---------------------------------------------------------------------------
// A signed Release
// ---------------------------------------------------------------------------

/// A line as it is signed: one that begins with a dash is marked.
pub open spec fn stuffed(line: Seq<char>) -> Seq<char> {
    if line.len() > 0 && line[0] == '-' {
        "- "@ + line
    } else {
        line
    }
}

/// The lines of a clear-signed text, before its signature: the header, the armor
/// headers, an empty line, and the signed lines.
pub open spec fn signed_lines(armor: Seq<Seq<char>>, body: Seq<Seq<char>>) -> Seq<Seq<char>> {
    seq!["-----BEGIN PGP SIGNED MESSAGE-----"@] + armor + seq![Seq::<char>::empty()]
        + body.map_values(|line: Seq<char>| stuffed(line)) + seq![
        "-----BEGIN PGP SIGNATURE-----"@,
    ]
}

/// A clear-signed text: its lines, and the signature.
pub open spec fn clear_signed(
    armor: Seq<Seq<char>>,
    body: Seq<Seq<char>>,
    signature: Seq<char>,
) -> Seq<char> {
    flat(signed_lines(armor, body)) + signature
}

/// The lines, each without the carriage return at its end.
pub open spec fn without_returns(ls: Seq<Seq<char>>) -> Seq<Seq<char>> {
    ls.map_values(|line: Seq<char>| drop_return(line))
}

/// The lines of a text that goes on behind lines.
proof fn lines_behind_flat(ls: Seq<Seq<char>>, rest: Seq<char>)
    requires
        forall|i: int| 0 <= i < ls.len() ==> !(#[trigger] ls[i]).contains('\n'),
    ensures
        lines(flat(ls) + rest) == without_returns(ls) + lines(rest),
    decreases ls.len(),
{
    if ls.len() == 0 {
        assert(flat(ls) + rest =~= rest);
        assert(without_returns(ls) + lines(rest) =~= lines(rest));
    } else {
        let t = ls.drop_first();
        flat_front(ls);
        assert(!ls[0].contains('\n'));
        let behind = flat(t) + rest;
        let s = flat(ls) + rest;
        assert(s =~= ls[0] + seq!['\n'] + behind);
        find_behind(ls[0], behind, '\n');
        assert(s.take(ls[0].len() as int) =~= ls[0]);
        assert(s.skip(ls[0].len() as int + 1) =~= behind);
        assert forall|i: int| 0 <= i < t.len() implies !(#[trigger] t[i]).contains('\n') by {
            assert(t[i] == ls[i + 1]);
        }
        lines_behind_flat(t, rest);
        assert(seq![drop_return(ls[0])] + (without_returns(t) + lines(rest)) =~= without_returns(ls)
            + lines(rest));
    }
}

proof fn stuffing_comes_off(line: Seq<char>)
    ensures
        unstuffed(stuffed(line)) == line,
        stuffed(line) != "-----BEGIN PGP SIGNATURE-----"@,
        !line.contains('\n') ==> !stuffed(line).contains('\n'),
        drop_return(stuffed(line)) == stuffed(drop_return(line)),
{
    reveal_strlit("- ");
    reveal_strlit("-----BEGIN PGP SIGNATURE-----");
    let s = stuffed(line);
    let mark = "- "@;
    if line.len() > 0 && line[0] == '-' {
        assert(s.take(2) =~= mark);
        assert(s.skip(2) =~= line);
        assert(s[1] == ' ');
        assert(s.last() == line.last());
        if line.last() == '\r' {
            assert(line.drop_last()[0] == '-');
            assert(s.drop_last() =~= mark + line.drop_last());
        }
        if s.contains('\n') {
            let k = choose|k: int| 0 <= k < s.len() && s[k] == '\n';
            if k >= 2 {
                assert(line.contains(line[k - 2]));
            }
        }
    } else {
        if starts_with(s, mark) {
            assert(s.take(2)[0] == mark[0]);
        }
        if s.len() > 0 {
            assert(s[0] != '-');
        }
    }
}

/// The signed lines come back from before the signature.
proof fn signed_text_comes_back(body: Seq<Seq<char>>, rest: Seq<Seq<char>>)
    requires
        rest.len() > 0,
        rest[0] == "-----BEGIN PGP SIGNATURE-----"@,
    ensures
        signed_text(body.map_values(|line: Seq<char>| stuffed(line)) + rest) == flat(body),
    decreases body.len(),
{
    let marked = body.map_values(|line: Seq<char>| stuffed(line));
    let all = marked + rest;
    if body.len() == 0 {
        assert(all =~= rest);
    } else {
        let t = body.drop_first();
        stuffing_comes_off(body[0]);
        assert(all[0] == stuffed(body[0]));
        assert(all.drop_first() =~= t.map_values(|line: Seq<char>| stuffed(line)) + rest);
        signed_text_comes_back(t, rest);
        flat_front(body);
    }
}

proof fn armor_is_skipped(armor: Seq<Seq<char>>, rest: Seq<Seq<char>>)
    requires
        forall|i: int| 0 <= i < armor.len() ==> (#[trigger] armor[i]).len() > 0,
    ensures
        after_empty(armor + seq![Seq::<char>::empty()] + rest) == rest,
    decreases armor.len(),
{
    let all = armor + seq![Seq::<char>::empty()] + rest;
    if armor.len() == 0 {
        assert(all.drop_first() =~= rest);
    } else {
        let t = armor.drop_first();
        assert(armor[0].len() > 0);
        assert(all[0] == armor[0]);
        assert forall|i: int| 0 <= i < t.len() implies (#[trigger] t[i]).len() > 0 by {
            assert(t[i] == armor[i + 1]);
        }
        assert(all.drop_first() =~= t + seq![Seq::<char>::empty()] + rest);
        armor_is_skipped(t, rest);
    }
}

/// A text of blank lines is blank.
proof fn blank_lines_are_blank(s: Seq<char>)
    requires
        forall|i: int| 0 <= i < lines(s).len() ==> is_blank(#[trigger] lines(s)[i]),
    ensures
        is_blank(s),
    decreases s.len(),
{
    find_is_first(s, '\n');
    let n = find(s, '\n') as int;
    if s.len() == 0 {
    } else if n >= s.len() {
        assert(lines(s)[0] == s);
    } else {
        let rest = s.skip(n + 1);
        let line = s.take(n);
        assert(lines(s)[0] == drop_return(line));
        assert forall|i: int| 0 <= i < lines(rest).len() implies is_blank(
            #[trigger] lines(rest)[i],
        ) by {
            assert(lines(rest)[i] == lines(s)[i + 1]);
        }
        blank_lines_are_blank(rest);
        assert forall|i: int| 0 <= i < s.len() implies is_white(#[trigger] s[i]) by {
            if i < n {
                assert(line[i] == s[i]);
                if i < drop_return(line).len() {
                    assert(is_white(drop_return(line)[i]));
                }
            } else if i > n {
                assert(is_white(rest[i - n - 1]));
            }
        }
    }
}

proof fn filled_line_is_kept(ls: Seq<Seq<char>>, i: int)
    requires
        0 <= i < ls.len(),
        !is_blank(ls[i]),
    ensures
        !is_blank(flat(ls)),
    decreases ls.len(),
{
    let front = flat(ls.drop_last());
    let all = flat(ls);
    if i < ls.len() - 1 {
        filled_line_is_kept(ls.drop_last(), i);
        let k = choose|k: int| 0 <= k < front.len() && !is_white(#[trigger] front[k]);
        assert(all[k] == front[k]);
    } else {
        let k = choose|k: int| 0 <= k < ls[i].len() && !is_white(#[trigger] ls[i][k]);
        assert(all[front.len() + k] == ls[i][k]);
    }
}

proof fn kept_text_is_not_blank(r: Seq<char>)
    requires
        !is_blank(r),
    ensures
        !is_blank(flat(without_returns(lines(r)))),
{
    let body = lines(r);
    let once = without_returns(body);
    if forall|i: int| 0 <= i < body.len() ==> is_blank(#[trigger] body[i]) {
        blank_lines_are_blank(r);
    }
    let i = choose|i: int| 0 <= i < body.len() && !is_blank(#[trigger] body[i]);
    let line = body[i];
    let k = choose|k: int| 0 <= k < line.len() && !is_white(#[trigger] line[k]);
    assert(once[i] == drop_return(line));
    assert(once[i][k] == line[k]);
    filled_line_is_kept(once, i);
}

proof fn markers_are_plain()
    ensures
        is_plain("-----BEGIN PGP SIGNED MESSAGE-----"@),
        is_plain("-----BEGIN PGP SIGNATURE-----"@),
{
    reveal_strlit("-----BEGIN PGP SIGNED MESSAGE-----");
    reveal_strlit("-----BEGIN PGP SIGNATURE-----");
    let a = "-----BEGIN PGP SIGNED MESSAGE-----"@;
    let b = "-----BEGIN PGP SIGNATURE-----"@;
    assert forall|k: int| 0 <= k < a.len() implies a[k] != '\n' by {
        assert(k == 0 || k == 1 || k == 2 || k == 3 || k == 4 || k == 5 || k == 6 || k == 7
            || k == 8 || k == 9 || k == 10 || k == 11 || k == 12 || k == 13 || k == 14
            || k == 15 || k == 16 || k == 17 || k == 18 || k == 19 || k == 20 || k == 21
            || k == 22 || k == 23 || k == 24 || k == 25 || k == 26 || k == 27 || k == 28
            || k == 29 || k == 30 || k == 31 || k == 32 || k == 33);
    }
    assert forall|k: int| 0 <= k < b.len() implies b[k] != '\n' by {
        assert(k == 0 || k == 1 || k == 2 || k == 3 || k == 4 || k == 5 || k == 6 || k == 7
            || k == 8 || k == 9 || k == 10 || k == 11 || k == 12 || k == 13 || k == 14
            || k == 15 || k == 16 || k == 17 || k == 18 || k == 19 || k == 20 || k == 21
            || k == 22 || k == 23 || k == 24 || k == 25 || k == 26 || k == 27 || k == 28);
    }
}

/// Whatever the text, what comes out of it clear-signed reads as its lines, each
/// without a carriage return at its end.
pub proof fn signed_text_is_kept(armor: Seq<Seq<char>>, release: Seq<char>, signature: Seq<char>)
    requires
        forall|i: int|
            0 <= i < armor.len() ==> is_plain(#[trigger] armor[i]) && armor[i].len() > 0,
        !is_blank(release),
    ensures
        in_release_of(clear_signed(armor, lines(release), signature)) == release_of(
            flat(without_returns(lines(release))),
        ),
{
    markers_are_plain();
    let body = lines(release);
    let kept = without_returns(body);
    let ls = signed_lines(armor, body);
    let marked = kept.map_values(|line: Seq<char>| stuffed(line));
    let head = seq!["-----BEGIN PGP SIGNED MESSAGE-----"@];
    let blank = seq![Seq::<char>::empty()];
    let end = seq!["-----BEGIN PGP SIGNATURE-----"@];
    let n = armor.len();
    lines_hold_no_feed(release);
    assert forall|i: int| 0 <= i < ls.len() implies !(#[trigger] ls[i]).contains('\n')
        && drop_return(ls[i]) == signed_lines(armor, kept)[i] by {
        if i == 0 {
        } else if i < 1 + n {
            assert(ls[i] == armor[i - 1]);
        } else if i == 1 + n {
            assert(ls[i] == Seq::<char>::empty());
        } else if i < 2 + n + body.len() {
            let line = body[i - 2 - n];
            assert(ls[i] == stuffed(line));
            assert(!line.contains('\n'));
            assert(kept[i - 2 - n] == drop_return(line));
            stuffing_comes_off(line);
        } else {
            assert(ls[i] == end[0]);
        }
    }
    assert(without_returns(ls) =~= signed_lines(armor, kept));
    let content = clear_signed(armor, body, signature);
    lines_behind_flat(ls, signature);
    let rest = end + lines(signature);
    let all = signed_lines(armor, kept) + lines(signature);
    assert(all.drop_first() =~= armor + blank + (marked + rest));
    assert(all[0] == head[0]);
    armor_is_skipped(armor, marked + rest);
    signed_text_comes_back(kept, rest);
    flat_front(ls);
    assert(content.take(head[0].len() as int) =~= head[0]);
    kept_text_is_not_blank(release);
}

// ---------------------------------------------------------------------------
// Carriage returns
// ---------------------------------------------------------------------------

/// The second line is the first without some of the carriage returns at its end.
spec fn is_shorn(a: Seq<char>, b: Seq<char>) -> bool {
    &&& b.len() <= a.len()
    &&& b == a.take(b.len() as int)
    &&& forall|i: int| b.len() <= i < a.len() ==> #[trigger] a[i] == '\r'
}

/// The lines are those of the first list, each without some of the carriage
/// returns at its end.
spec fn are_shorn(xs: Seq<Seq<char>>, ys: Seq<Seq<char>>) -> bool {
    xs.len() == ys.len() && forall|i: int| 0 <= i < xs.len() ==> is_shorn(#[trigger] xs[i], ys[i])
}

/// None of the lines holds a line feed.
spec fn hold_no_feed(ls: Seq<Seq<char>>) -> bool {
    forall|i: int| 0 <= i < ls.len() ==> !(#[trigger] ls[i]).contains('\n')
}

/// The lines of one stanza: not blank, and without line feeds.
spec fn are_filled(ls: Seq<Seq<char>>) -> bool {
    &&& hold_no_feed(ls)
    &&& forall|i: int| 0 <= i < ls.len() ==> !is_blank(#[trigger] ls[i])
}

proof fn same_is_shorn(a: Seq<char>)
    ensures
        is_shorn(a, a),
{
    assert(a.take(a.len() as int) =~= a);
}

proof fn shorn_is_blank_alike(a: Seq<char>, b: Seq<char>)
    requires
        is_shorn(a, b),
    ensures
        is_blank(a) <==> is_blank(b),
        !is_blank(a) ==> b.len() > 0 && b[0] == a[0],
{
    if is_blank(a) {
        assert forall|i: int| 0 <= i < b.len() implies is_white(#[trigger] b[i]) by {
            assert(b[i] == a[i]);
        }
    } else {
        let i = choose|i: int| 0 <= i < a.len() && !is_white(#[trigger] a[i]);
        assert(i < b.len());
        assert(b[i] == a[i]);
        assert(b[0] == a[0]);
    }
}

proof fn shorn_holds_no_feed(a: Seq<char>, b: Seq<char>)
    requires
        is_shorn(a, b),
        !a.contains('\n'),
    ensures
        !b.contains('\n'),
{
    if b.contains('\n') {
        let i = choose|i: int| 0 <= i < b.len() && b[i] == '\n';
        assert(a[i] == b[i]);
    }
}

proof fn dropped_return_is_shorn(a: Seq<char>, b: Seq<char>)
    requires
        is_shorn(a, b),
    ensures
        is_shorn(a, drop_return(b)),
        is_shorn(drop_return(a), drop_return(b)),
{
    let c = drop_return(b);
    let d = drop_return(a);
    assert(c =~= a.take(c.len() as int));
    assert forall|i: int| c.len() <= i < a.len() implies #[trigger] a[i] == '\r' by {
        if i < b.len() {
            assert(a[i] == b[i]);
            assert(i == b.len() - 1);
        }
    }
    if a.len() == b.len() {
        assert(a =~= b);
        same_is_shorn(d);
    } else {
        assert(a.last() == '\r');
        assert(d.len() >= b.len());
        assert(c =~= d.take(c.len() as int));
        assert forall|i: int| c.len() <= i < d.len() implies #[trigger] d[i] == '\r' by {
            assert(d[i] == a[i]);
        }
    }
}

proof fn shorn_trims_alike(a: Seq<char>, b: Seq<char>)
    requires
        is_shorn(a, b),
    ensures
        trim_end(a) == trim_end(b),
        trim(a) == trim(b),
    decreases a.len(),
{
    if a.len() == b.len() {
        assert(a =~= b);
    } else {
        let c = a.drop_last();
        assert(a.last() == '\r');
        assert(b =~= c.take(b.len() as int));
        assert forall|i: int| b.len() <= i < c.len() implies #[trigger] c[i] == '\r' by {
            assert(c[i] == a[i]);
        }
        shorn_trims_alike(c, b);
        trims_commute(a);
        trims_commute(b);
    }
}

proof fn shorn_has_same_words(a: Seq<char>, b: Seq<char>)
    requires
        is_shorn(a, b),
    ensures
        words(a) == words(b),
{
    shorn_trims_alike(a, b);
    trimming_keeps_words(a);
    trimming_keeps_words(b);
}

/// A line that has no carriage return at its end is shorn of nothing.
proof fn plain_is_shorn_of_nothing(a: Seq<char>, b: Seq<char>)
    requires
        is_shorn(a, b),
        a.len() > 0 ==> a.last() != '\r',
    ensures
        a == b,
{
    if b.len() < a.len() {
        assert(a[a.len() - 1] == '\r');
    }
    assert(a =~= b);
}

proof fn dropped_returns_are_shorn(xs: Seq<Seq<char>>, ys: Seq<Seq<char>>)
    requires
        are_shorn(xs, ys),
    ensures
        are_shorn(xs, without_returns(ys)),
        are_shorn(without_returns(xs), without_returns(ys)),
{
    assert forall|i: int| 0 <= i < xs.len() implies is_shorn(
        #[trigger] xs[i],
        without_returns(ys)[i],
    ) by {
        dropped_return_is_shorn(xs[i], ys[i]);
    }
    assert forall|i: int| 0 <= i < xs.len() implies is_shorn(
        #[trigger] without_returns(xs)[i],
        without_returns(ys)[i],
    ) by {
        assert(is_shorn(xs[i], ys[i]));
        dropped_return_is_shorn(xs[i], ys[i]);
    }
}

// ---------------------------------------------------------------------------
// Stanzas
// ---------------------------------------------------------------------------

/// The lines of the stanza that the lines leave open.
spec fn open_lines(ls: Seq<Seq<char>>) -> Seq<Seq<char>>
    decreases ls.len(),
{
    if ls.len() == 0 || is_blank(ls.last()) {
        seq![]
    } else {
        open_lines(ls.drop_last()).push(ls.last())
    }
}

/// The lines of each stanza that the lines close.
spec fn closed_lines(ls: Seq<Seq<char>>) -> Seq<Seq<Seq<char>>>
    decreases ls.len(),
{
    if ls.len() == 0 {
        seq![]
    } else if is_blank(ls.last()) && open_lines(ls.drop_last()).len() > 0 {
        closed_lines(ls.drop_last()).push(open_lines(ls.drop_last()))
    } else {
        closed_lines(ls.drop_last())
    }
}

/// The lines of each stanza.
spec fn stanza_lines(ls: Seq<Seq<char>>) -> Seq<Seq<Seq<char>>> {
    if open_lines(ls).len() > 0 {
        closed_lines(ls).push(open_lines(ls))
    } else {
        closed_lines(ls)
    }
}

/// The texts of stanzas.
spec fn stanza_texts(segments: Seq<Seq<Seq<char>>>) -> Seq<Seq<char>> {
    segments.map_values(|ls: Seq<Seq<char>>| trim_end(flat(ls)))
}

proof fn open_lines_make_stanza(ls: Seq<Seq<char>>)
    ensures
        open_stanza(ls) == flat(open_lines(ls)),
        open_stanza(ls).len() > 0 <==> open_lines(ls).len() > 0,
    decreases ls.len(),
{
    if ls.len() > 0 && !is_blank(ls.last()) {
        open_lines_make_stanza(ls.drop_last());
        assert(open_lines(ls).drop_last() =~= open_lines(ls.drop_last()));
    }
}

proof fn closed_lines_make_stanzas(ls: Seq<Seq<char>>)
    ensures
        closed_stanzas(ls) == stanza_texts(closed_lines(ls)),
    decreases ls.len(),
{
    if ls.len() == 0 {
        assert(closed_stanzas(ls) =~= stanza_texts(closed_lines(ls)));
    } else {
        let t = ls.drop_last();
        closed_lines_make_stanzas(t);
        open_lines_make_stanza(t);
        if is_blank(ls.last()) && open_lines(t).len() > 0 {
            assert(stanza_texts(closed_lines(t).push(open_lines(t))) =~= stanza_texts(
                closed_lines(t),
            ).push(trim_end(flat(open_lines(t)))));
        }
    }
}

proof fn stanza_lines_make_stanzas(ls: Seq<Seq<char>>)
    ensures
        stanzas_of(ls) == stanza_texts(stanza_lines(ls)),
{
    open_lines_make_stanza(ls);
    closed_lines_make_stanzas(ls);
    if open_lines(ls).len() > 0 {
        assert(stanza_texts(closed_lines(ls).push(open_lines(ls))) =~= stanza_texts(
            closed_lines(ls),
        ).push(trim_end(flat(open_lines(ls)))));
    }
}

/// The stanzas of two lists of lines are of one shape.
spec fn are_alike(a: Seq<Seq<Seq<char>>>, b: Seq<Seq<Seq<char>>>) -> bool {
    a.len() == b.len() && forall|i: int|
        0 <= i < a.len() ==> are_shorn(#[trigger] a[i], b[i]) && are_filled(a[i]) && a[i].len() > 0
}

proof fn open_lines_are_alike(xs: Seq<Seq<char>>, ys: Seq<Seq<char>>)
    requires
        are_shorn(xs, ys),
        hold_no_feed(xs),
    ensures
        are_shorn(open_lines(xs), open_lines(ys)),
        are_filled(open_lines(xs)),
    decreases xs.len(),
{
    if xs.len() > 0 {
        let n = xs.len() - 1;
        assert(is_shorn(xs[n], ys[n]));
        assert(!xs[n].contains('\n'));
        shorn_is_blank_alike(xs[n], ys[n]);
        if !is_blank(xs[n]) {
            shorter_lists_are_shorn(xs, ys);
            open_lines_are_alike(xs.drop_last(), ys.drop_last());
            let a = open_lines(xs);
            let b = open_lines(ys);
            assert forall|i: int| 0 <= i < a.len() implies is_shorn(#[trigger] a[i], b[i]) && !a[i].contains(
                '\n',
            ) && !is_blank(a[i]) by {
                if i < a.len() - 1 {
                    assert(a[i] == open_lines(xs.drop_last())[i]);
                    assert(b[i] == open_lines(ys.drop_last())[i]);
                }
            }
        }
    }
}

proof fn shorter_lists_are_shorn(xs: Seq<Seq<char>>, ys: Seq<Seq<char>>)
    requires
        xs.len() > 0,
        are_shorn(xs, ys),
        hold_no_feed(xs),
    ensures
        are_shorn(xs.drop_last(), ys.drop_last()),
        hold_no_feed(xs.drop_last()),
{
    let a = xs.drop_last();
    assert forall|i: int| 0 <= i < a.len() implies is_shorn(#[trigger] a[i], ys.drop_last()[i])
        && !a[i].contains('\n') by {
        assert(a[i] == xs[i]);
    }
}

proof fn closed_lines_are_alike(xs: Seq<Seq<char>>, ys: Seq<Seq<char>>)
    requires
        are_shorn(xs, ys),
        hold_no_feed(xs),
    ensures
        are_alike(closed_lines(xs), closed_lines(ys)),
    decreases xs.len(),
{
    if xs.len() > 0 {
        let n = xs.len() - 1;
        assert(is_shorn(xs[n], ys[n]));
        shorn_is_blank_alike(xs[n], ys[n]);
        shorter_lists_are_shorn(xs, ys);
        closed_lines_are_alike(xs.drop_last(), ys.drop_last());
        open_lines_are_alike(xs.drop_last(), ys.drop_last());
        let a = closed_lines(xs);
        let b = closed_lines(ys);
        assert forall|i: int| 0 <= i < a.len() implies are_shorn(#[trigger] a[i], b[i])
            && are_filled(a[i]) && a[i].len() > 0 by {
            if i < closed_lines(xs.drop_last()).len() {
                assert(a[i] == closed_lines(xs.drop_last())[i]);
                assert(b[i] == closed_lines(ys.drop_last())[i]);
            }
        }
    }
}

proof fn stanza_lines_are_alike(xs: Seq<Seq<char>>, ys: Seq<Seq<char>>)
    requires
        are_shorn(xs, ys),
        hold_no_feed(xs),
    ensures
        are_alike(stanza_lines(xs), stanza_lines(ys)),
{
    closed_lines_are_alike(xs, ys);
    open_lines_are_alike(xs, ys);
    let a = stanza_lines(xs);
    let b = stanza_lines(ys);
    assert forall|i: int| 0 <= i < a.len() implies are_shorn(#[trigger] a[i], b[i]) && are_filled(
        a[i],
    ) && a[i].len() > 0 by {
        if i < closed_lines(xs).len() {
            assert(a[i] == closed_lines(xs)[i]);
            assert(b[i] == closed_lines(ys)[i]);
        }
    }
}

/// The lines of a text that goes on behind lines, where it is one line.
proof fn lines_before_last(front: Seq<Seq<char>>, last: Seq<char>)
    requires
        hold_no_feed(front),
        !last.contains('\n'),
    ensures
        last.len() > 0 ==> lines(flat(front) + last) == without_returns(front).push(last),
        last.len() == 0 ==> lines(flat(front) + last) == without_returns(front),
{
    lines_behind_flat(front, last);
    if last.len() > 0 {
        find_is_first(last, '\n');
        if find(last, '\n') < last.len() {
            assert(last.contains(last[find(last, '\n') as int]));
        }
        assert(lines(last) =~= seq![last]);
        assert(without_returns(front) + seq![last] =~= without_returns(front).push(last));
    } else {
        assert(last =~= seq![]);
        assert(lines(last) =~= seq![]);
        assert(without_returns(front) + lines(last) =~= without_returns(front));
    }
}

/// The lines of a stanza's text: its lines, without a carriage return at the end
/// of each, and without white space at the end of the last.
proof fn lines_of_stanza(ls: Seq<Seq<char>>)
    requires
        are_filled(ls),
        ls.len() > 0,
    ensures
        lines(trim_end(flat(ls))) == without_returns(ls.drop_last()).push(trim_end(ls.last())),
{
    let n = ls.len() - 1;
    let line = ls[n];
    let front = flat(ls.drop_last());
    let s = flat(ls);
    assert(!is_blank(line) && !line.contains('\n'));
    assert(s.last() == '\n');
    assert(s.drop_last() =~= front + line);
    trim_cuts_last_line(front, line);
    trim_end_is_prefix(line);
    let k = trim_end(line).len() as int;
    assert(trim_end(s) == front + trim_end(line));
    if trim_end(line).contains('\n') {
        let i = choose|i: int| 0 <= i < k && trim_end(line)[i] == '\n';
        assert(line[i] == '\n');
    }
    assert forall|i: int| 0 <= i < ls.drop_last().len() implies !(
    #[trigger] ls.drop_last()[i]).contains('\n') by {
        assert(ls.drop_last()[i] == ls[i]);
    }
    lines_before_last(ls.drop_last(), trim_end(line));
}

pub(crate) proof fn blank_trims_to_nothing(s: Seq<char>)
    requires
        is_blank(s),
    ensures
        trim_end(s) == Seq::<char>::empty(),
    decreases s.len(),
{
    if s.len() > 0 {
        assert(is_white(s[s.len() - 1]));
        assert forall|i: int| 0 <= i < s.drop_last().len() implies is_white(
            #[trigger] s.drop_last()[i],
        ) by {
            assert(s.drop_last()[i] == s[i]);
        }
        blank_trims_to_nothing(s.drop_last());
    } else {
        assert(s =~= seq![]);
    }
}

/// The lines of two stanzas of one shape are shorn too, and not blank.
proof fn stanzas_read_as_shorn(xs: Seq<Seq<char>>, ys: Seq<Seq<char>>)
    requires
        are_shorn(xs, ys),
        are_filled(xs),
        xs.len() > 0,
    ensures
        are_shorn(lines(trim_end(flat(xs))), lines(trim_end(flat(ys)))),
        are_filled(lines(trim_end(flat(xs)))),
{
    shorn_list_is_filled(xs, ys);
    lines_of_stanza(xs);
    lines_of_stanza(ys);
    let a = lines(trim_end(flat(xs)));
    let b = lines(trim_end(flat(ys)));
    let n = xs.len() - 1;
    assert forall|i: int| 0 <= i < a.len() implies is_shorn(#[trigger] a[i], b[i]) && !a[i].contains(
        '\n',
    ) && !is_blank(a[i]) by {
        assert(is_shorn(xs[i], ys[i]));
        assert(!is_blank(xs[i]) && !xs[i].contains('\n'));
        same_is_shorn(xs[i]);
        if i < n {
            assert(a[i] == drop_return(xs[i]));
            assert(b[i] == drop_return(ys[i]));
            dropped_return_is_shorn(xs[i], ys[i]);
            dropped_return_is_shorn(xs[i], xs[i]);
            shorn_is_blank_alike(xs[i], a[i]);
            shorn_holds_no_feed(xs[i], a[i]);
        } else {
            assert(a[i] == trim_end(xs[i]));
            shorn_trims_alike(xs[i], ys[i]);
            same_is_shorn(a[i]);
            trim_end_is_prefix(xs[i]);
            let k = choose|k: int| 0 <= k < xs[i].len() && !is_white(#[trigger] xs[i][k]);
            if k >= a[i].len() {
                assert(xs[i].skip(a[i].len() as int)[k - a[i].len()] == xs[i][k]);
            }
            assert(a[i][k] == xs[i][k]);
            if a[i].contains('\n') {
                let c = choose|c: int| 0 <= c < a[i].len() && a[i][c] == '\n';
                assert(xs[i][c] == '\n');
            }
        }
    }
}

// ---------------------------------------------------------------------------
// Values
// ---------------------------------------------------------------------------

/// The lines of a value: the first is trimmed, and every other begins with more
/// than white space.
spec fn are_value_lines(vs: Seq<Seq<char>>) -> bool {
    &&& vs.len() > 0
    &&& hold_no_feed(vs)
    &&& trim(vs[0]) == vs[0]
    &&& forall|i: int| 1 <= i < vs.len() ==> (#[trigger] vs[i]).len() > 0 && !is_white(vs[i][0])
}

/// The lines of a value, as they are once it is trimmed.
spec fn trimmed_lines(vs: Seq<Seq<char>>) -> Seq<Seq<char>> {
    let t = if vs.len() > 1 && vs[0].len() == 0 {
        vs.drop_first()
    } else {
        vs
    };
    t.drop_last().push(trim_end(t.last()))
}

proof fn trim_cuts_last_line(front: Seq<char>, line: Seq<char>)
    requires
        !is_blank(line),
    ensures
        trim_end(front + line) == front + trim_end(line),
        trim_end(line).len() > 0,
        trim_end(line)[0] == line[0],
{
    trim_end_is_prefix(line);
    let k = trim_end(line).len() as int;
    if k == 0 {
        let i = choose|i: int| 0 <= i < line.len() && !is_white(#[trigger] line[i]);
        assert(line.skip(0)[i] == line[i]);
    }
    assert(line =~= line.take(k) + line.skip(k));
    let a = front + line.take(k);
    assert(front + line =~= a + line.skip(k));
    assert(a.last() == line.take(k).last());
    trim_end_behind(a, line.skip(k));
    blank_trims_to_nothing(line.skip(k));
    assert(a + Seq::<char>::empty() =~= a);
}

proof fn glued_is_flat_front(vs: Seq<Seq<char>>)
    requires
        vs.len() > 0,
    ensures
        glued(vs) == flat(vs.drop_last()) + vs.last(),
{
    glued_is_open_flat(vs);
    assert(flat(vs).drop_last() =~= flat(vs.drop_last()) + vs.last());
}

proof fn trimmed_is_filled(v: Seq<char>)
    requires
        trim(v) == v,
    ensures
        v.len() > 0 ==> !is_white(v[0]),
        trim_end(v) == v,
{
    trim_start_is_suffix(v);
    trim_end_is_prefix(trim_start(v));
    if v.len() > 0 {
        assert(trim(v)[0] == trim_start(v)[0]);
    }
}

/// The text of a value, trimmed.
proof fn trimmed_value_text(vs: Seq<Seq<char>>)
    requires
        are_value_lines(vs),
    ensures
        ({
            let t = trimmed_lines(vs);
            &&& trim(glued(vs)) == flat(t.drop_last()) + t.last()
            &&& t.len() > 0
            &&& hold_no_feed(t)
            &&& t.len() > 1 ==> t.last().len() > 0
        }),
{
    let t = trimmed_lines(vs);
    let g = glued(vs);
    let n = vs.len() - 1;
    let last = vs[n];
    glued_is_flat_front(vs);
    trimmed_is_filled(vs[0]);
    assert forall|i: int| 0 <= i < t.len() implies !(#[trigger] t[i]).contains('\n') by {
        let j = if vs.len() > 1 && vs[0].len() == 0 { i + 1 } else { i };
        assert(!vs[j].contains('\n'));
        if i == t.len() - 1 {
            trim_end_is_prefix(vs[j]);
            if t[i].contains('\n') {
                let c = choose|c: int| 0 <= c < t[i].len() && t[i][c] == '\n';
                assert(vs[j][c] == '\n');
            }
        } else {
            assert(t[i] == vs[j]);
        }
    }
    if n == 0 {
        assert(flat(vs.drop_last()) =~= seq![]);
        assert(flat(t.drop_last()) =~= seq![]);
        assert(g =~= vs[0]);
        assert(flat(t.drop_last()) + t.last() =~= vs[0]);
    } else {
        assert(last.len() > 0 && !is_white(last[0]));
        assert(!is_blank(last));
        if vs[0].len() > 0 {
            assert(t.drop_last() =~= vs.drop_last());
            flat_front(vs.drop_last());
            assert(g[0] == vs[0][0]);
            assert(trim_start(g) == g);
            trim_cuts_last_line(flat(vs.drop_last()), last);
        } else {
            let ws = vs.drop_first();
            assert(ws.last() == last);
            assert(t.drop_last() =~= ws.drop_last());
            assert(vs.drop_last().drop_first() =~= ws.drop_last());
            flat_front(vs.drop_last());
            let h = flat(ws.drop_last()) + last;
            assert(g =~= seq!['\n'] + h);
            assert(g.drop_first() =~= h);
            assert(g[0] == '\n');
            assert(vs[1].len() > 0 && !is_white(vs[1][0]));
            if ws.len() > 1 {
                flat_front(ws.drop_last());
                assert(ws.drop_last()[0] == vs[1]);
            } else {
                assert(flat(ws.drop_last()) =~= seq![]);
            }
            assert(h[0] == vs[1][0]);
            assert(trim_start(h) == h);
            assert(trim_start(g) == trim_start(h));
            trim_cuts_last_line(flat(ws.drop_last()), last);
        }
    }
}

proof fn words_are_parted(a: Seq<char>, c: char, b: Seq<char>)
    requires
        is_white(c),
    ensures
        words(a + seq![c] + b) == words(a) + words(b),
    decreases a.len(),
{
    let all = a + seq![c] + b;
    if a.len() == 0 {
        assert(all.drop_first() =~= b);
        assert(words(a) + words(b) =~= words(b));
    } else if is_white(a[0]) {
        assert(all.drop_first() =~= a.drop_first() + seq![c] + b);
        words_are_parted(a.drop_first(), c, b);
    } else {
        word_len_is_run(a);
        word_len_is_run(all);
        let n = word_len(a) as int;
        let m = word_len(all) as int;
        assert(all[a.len() as int] == c);
        if m < n {
            assert(is_white(all[m]));
            assert(a[m] == all[m]);
        }
        if n < m {
            if n < a.len() {
                assert(a[n] == all[n]);
            }
            assert(!is_white(all[n]));
        }
        assert(all.take(n) =~= a.take(n));
        assert(all.skip(n) =~= a.skip(n) + seq![c] + b);
        assert(n > 0);
        words_are_parted(a.skip(n), c, b);
        assert(seq![a.take(n)] + (words(a.skip(n)) + words(b)) =~= (seq![a.take(n)] + words(
            a.skip(n),
        )) + words(b));
    }
}

proof fn glued_words_are_alike(vs: Seq<Seq<char>>, ws: Seq<Seq<char>>)
    requires
        vs.len() > 0,
        are_shorn(vs, ws),
    ensures
        words(glued(vs)) == words(glued(ws)),
    decreases vs.len(),
{
    let n = vs.len() - 1;
    assert(is_shorn(vs[n], ws[n]));
    shorn_has_same_words(vs[n], ws[n]);
    if n > 0 {
        let a = vs.drop_last();
        let b = ws.drop_last();
        assert forall|i: int| 0 <= i < a.len() implies is_shorn(#[trigger] a[i], b[i]) by {
            assert(a[i] == vs[i]);
        }
        glued_words_are_alike(a, b);
        words_are_parted(glued(a), '\n', vs.last());
        words_are_parted(glued(b), '\n', ws.last());
    }
}

proof fn hashes_are_alike(xs: Seq<Seq<char>>, ys: Seq<Seq<char>>)
    requires
        are_shorn(xs, ys),
        hashes_of(xs) is Ok,
    ensures
        hashes_of(ys) == hashes_of(xs),
    decreases xs.len(),
{
    if xs.len() > 0 {
        let n = xs.len() - 1;
        let a = xs.drop_last();
        let b = ys.drop_last();
        assert(is_shorn(xs[n], ys[n]));
        assert forall|i: int| 0 <= i < a.len() implies is_shorn(#[trigger] a[i], b[i]) by {
            assert(a[i] == xs[i]);
        }
        hashes_are_alike(a, b);
        shorn_is_blank_alike(xs[n], ys[n]);
        shorn_has_same_words(xs[n], ys[n]);
    }
}

/// A return before a line feed shows in the text.
proof fn return_shows(t: Seq<Seq<char>>, last: Seq<char>, i: int)
    requires
        0 <= i < t.len(),
        t[i].len() > 0,
        t[i].last() == '\r',
    ensures
        contains_text(flat(t) + last, "\r\n"@),
{
    reveal_strlit("\r\n");
    let front = t.take(i);
    let back = t.skip(i + 1);
    assert(t =~= front + (seq![t[i]] + back));
    flat_add(front, seq![t[i]] + back);
    flat_front(seq![t[i]] + back);
    assert((seq![t[i]] + back).drop_first() =~= back);
    let s = flat(t) + last;
    let k = flat(front).len() + t[i].len() - 1;
    assert(s[k] == '\r');
    assert(s[k + 1] == '\n');
    assert(s.subrange(k, k + 2) =~= "\r\n"@);
    assert(occurs_at(s, "\r\n"@, k));
}

/// Two values of which the second lacks some carriage returns at the ends of lines
/// read alike: as they are, where no line of the first but the last ends in one;
/// as words; and as hashes.
spec fn reads_alike(a: Seq<char>, b: Seq<char>) -> bool {
    &&& !contains_text(a, "\r\n"@) ==> a == b
    &&& words(a) == words(b)
    &&& hashes_of(lines(a)) is Ok ==> hashes_of(lines(b)) == hashes_of(lines(a))
}

proof fn shorn_values_read_alike(vs: Seq<Seq<char>>, ws: Seq<Seq<char>>)
    requires
        are_value_lines(vs),
        are_value_lines(ws),
        are_shorn(vs, ws),
    ensures
        reads_alike(trim(glued(vs)), trim(glued(ws))),
{
    let a = trim(glued(vs));
    let b = trim(glued(ws));
    let t = trimmed_lines(vs);
    let u = trimmed_lines(ws);
    let n = vs.len() - 1;
    trimmed_value_text(vs);
    trimmed_value_text(ws);
    assert(is_shorn(vs[0], ws[0]));
    trimmed_is_filled(vs[0]);
    if vs[0].len() > 0 {
        assert(trim_end(vs[0]) == vs[0]);
        if vs[0].last() == '\r' {
            assert(trim_end(vs[0]).len() < vs[0].len()) by {
                trim_end_is_prefix(vs[0].drop_last());
            }
        }
    }
    plain_is_shorn_of_nothing(vs[0], ws[0]);
    assert(is_shorn(vs[n], ws[n]));
    shorn_trims_alike(vs[n], ws[n]);
    assert(t.last() == u.last());
    let front = t.drop_last();
    let other = u.drop_last();
    assert forall|i: int| 0 <= i < front.len() implies is_shorn(#[trigger] front[i], other[i])
        && !front[i].contains('\n') && !other[i].contains('\n') by {
        let j = if vs.len() > 1 && vs[0].len() == 0 { i + 1 } else { i };
        assert(is_shorn(vs[j], ws[j]));
        assert(!vs[j].contains('\n') && !ws[j].contains('\n'));
        assert(front[i] == vs[j]);
        assert(other[i] == ws[j]);
    }
    // As words.
    glued_words_are_alike(vs, ws);
    trimming_keeps_words(glued(vs));
    trimming_keeps_words(glued(ws));
    // As they are.
    if !contains_text(a, "\r\n"@) {
        assert forall|i: int| 0 <= i < front.len() implies front[i] == other[i] by {
            assert(is_shorn(front[i], other[i]));
            if front[i].len() > 0 && front[i].last() == '\r' {
                return_shows(front, t.last(), i);
            }
            plain_is_shorn_of_nothing(front[i], other[i]);
        }
        assert(front =~= other);
    }
    // As hashes.
    assert(!t[t.len() - 1].contains('\n'));
    lines_before_last(front, t.last());
    lines_before_last(other, t.last());
    dropped_returns_are_shorn(front, other);
    assert(are_shorn(lines(a), lines(b))) by {
        let x = lines(a);
        let y = lines(b);
        same_is_shorn(t.last());
        assert forall|i: int| 0 <= i < x.len() implies is_shorn(#[trigger] x[i], y[i]) by {
            if i < front.len() {
                assert(x[i] == without_returns(front)[i]);
                assert(y[i] == without_returns(other)[i]);
            }
        }
    }
    if hashes_of(lines(a)) is Ok {
        hashes_are_alike(lines(a), lines(b));
    }
}

// ---------------------------------------------------------------------------
// Fields
// ---------------------------------------------------------------------------

/// The fields of lines, each with the lines of its value.
spec fn field_parts(ls: Seq<Seq<char>>) -> Seq<(Seq<char>, Seq<Seq<char>>)>
    decreases ls.len(),
{
    if ls.len() == 0 {
        seq![]
    } else {
        let before = field_parts(ls.drop_last());
        let line = ls.last();
        if is_indented(line) {
            if before.len() == 0 {
                before
            } else {
                before.drop_last().push((before.last().0, before.last().1.push(trim_start(line))))
            }
        } else if find(line, ':') < line.len() {
            before.push((field_of(line).0, seq![field_of(line).1]))
        } else {
            before
        }
    }
}

/// The fields with their values as texts.
spec fn parts_as_fields(parts: Seq<(Seq<char>, Seq<Seq<char>>)>) -> Seq<(Seq<char>, Seq<char>)> {
    parts.map_values(|part: (Seq<char>, Seq<Seq<char>>)| (part.0, glued(part.1)))
}

/// The values consist of lines of values.
spec fn are_parts(parts: Seq<(Seq<char>, Seq<Seq<char>>)>) -> bool {
    forall|i: int| 0 <= i < parts.len() ==> are_value_lines((#[trigger] parts[i]).1)
}

proof fn trimmed_start_is_filled(line: Seq<char>)
    requires
        !is_blank(line),
        !line.contains('\n'),
    ensures
        trim_start(line).len() > 0,
        !is_white(trim_start(line)[0]),
        !trim_start(line).contains('\n'),
{
    trim_start_is_suffix(line);
    let t = trim_start(line);
    let cut = line.len() - t.len();
    if t.len() == 0 {
        let i = choose|i: int| 0 <= i < line.len() && !is_white(#[trigger] line[i]);
        assert(line.take(cut)[i] == line[i]);
    }
    if t.contains('\n') {
        let i = choose|i: int| 0 <= i < t.len() && t[i] == '\n';
        assert(line[i + cut] == '\n');
    }
}

proof fn field_value_is_line(line: Seq<char>)
    requires
        !line.contains('\n'),
        find(line, ':') < line.len(),
    ensures
        are_value_lines(seq![field_of(line).1]),
{
    let rest = line.skip(find(line, ':') as int + 1);
    let v = trim(rest);
    trim_once(rest);
    trim_start_is_suffix(rest);
    trim_end_is_prefix(trim_start(rest));
    if v.contains('\n') {
        let i = choose|i: int| 0 <= i < v.len() && v[i] == '\n';
        let cut = rest.len() - trim_start(rest).len();
        assert(trim_start(rest)[i] == '\n');
        assert(rest[i + cut] == '\n');
        assert(line[i + cut + find(line, ':') + 1] == '\n');
    }
}

proof fn parts_make_fields(ls: Seq<Seq<char>>)
    requires
        are_filled(ls),
    ensures
        are_parts(field_parts(ls)),
        strict_fields(ls) matches Ok(fs) ==> fs == parts_as_fields(field_parts(ls)),
    decreases ls.len(),
{
    if ls.len() == 0 {
        assert(parts_as_fields(field_parts(ls)) =~= seq![]);
    } else {
        let t = ls.drop_last();
        let n = ls.len() - 1;
        let line = ls[n];
        assert(!is_blank(line) && !line.contains('\n'));
        assert forall|i: int| 0 <= i < t.len() implies !(#[trigger] t[i]).contains('\n')
            && !is_blank(t[i]) by {
            assert(t[i] == ls[i]);
        }
        parts_make_fields(t);
        let before = field_parts(t);
        let parts = field_parts(ls);
        if is_indented(line) {
            trimmed_start_is_filled(line);
            if before.len() > 0 {
                let m = before.len() - 1;
                let vs = before[m].1;
                let ws = vs.push(trim_start(line));
                assert(are_value_lines(vs));
                assert(ws.drop_last() =~= vs);
                assert(are_value_lines(ws)) by {
                    assert forall|i: int| 0 <= i < ws.len() implies !(#[trigger] ws[i]).contains(
                        '\n',
                    ) by {
                        if i < vs.len() {
                            assert(!vs[i].contains('\n'));
                        }
                    }
                    assert forall|i: int| 1 <= i < ws.len() implies (#[trigger] ws[i]).len() > 0
                        && !is_white(ws[i][0]) by {
                        if i < vs.len() {
                            assert(vs[i].len() > 0 && !is_white(vs[i][0]));
                        }
                    }
                }
                assert(glued(ws) == glued(vs) + seq!['\n'] + trim_start(line));
                assert forall|i: int| 0 <= i < parts.len() implies are_value_lines(
                    (#[trigger] parts[i]).1,
                ) by {
                    if i < m {
                        assert(parts[i] == before[i]);
                    }
                }
                if let Ok(fs) = strict_fields(t) {
                    assert(continued(fs, line) =~= parts_as_fields(parts));
                }
            }
        } else if find(line, ':') < line.len() {
            field_value_is_line(line);
            assert forall|i: int| 0 <= i < parts.len() implies are_value_lines(
                (#[trigger] parts[i]).1,
            ) by {
                if i < before.len() {
                    assert(parts[i] == before[i]);
                }
            }
            if let Ok(fs) = strict_fields(t) {
                assert(fs.push(field_of(line)) =~= parts_as_fields(parts));
            }
        }
    }
}

proof fn shorn_line_reads_alike(a: Seq<char>, b: Seq<char>)
    requires
        is_shorn(a, b),
        !is_blank(a),
    ensures
        is_indented(a) == is_indented(b),
        find(a, ':') < a.len() <==> find(b, ':') < b.len(),
        find(a, ':') < a.len() ==> field_of(a) == field_of(b),
{
    shorn_is_blank_alike(a, b);
    find_is_first(a, ':');
    find_is_first(b, ':');
    let n = find(a, ':') as int;
    let m = find(b, ':') as int;
    if n < a.len() {
        assert(n < b.len());
        assert(b[n] == ':');
        if m < n {
            assert(a[m] == b[m]);
        }
        assert(a.take(n) =~= b.take(n));
        let x = a.skip(n + 1);
        let y = b.skip(n + 1);
        assert(y =~= x.take(y.len() as int));
        assert forall|i: int| y.len() <= i < x.len() implies #[trigger] x[i] == '\r' by {
            assert(x[i] == a[i + n + 1]);
        }
        shorn_trims_alike(x, y);
    } else if m < b.len() {
        assert(a[m] == b[m]);
    }
}

proof fn shorn_start_is_shorn(a: Seq<char>, b: Seq<char>)
    requires
        is_shorn(a, b),
        !is_blank(a),
    ensures
        is_shorn(trim_start(a), trim_start(b)),
    decreases a.len(),
{
    shorn_is_blank_alike(a, b);
    if is_white(a[0]) {
        let x = a.drop_first();
        let y = b.drop_first();
        assert(y =~= x.take(y.len() as int));
        assert forall|i: int| y.len() <= i < x.len() implies #[trigger] x[i] == '\r' by {
            assert(x[i] == a[i + 1]);
        }
        let k = choose|k: int| 0 <= k < a.len() && !is_white(#[trigger] a[k]);
        assert(x[k - 1] == a[k]);
        shorn_start_is_shorn(x, y);
    }
}

/// The fields of two lists are of one shape.
spec fn parts_are_alike(
    a: Seq<(Seq<char>, Seq<Seq<char>>)>,
    b: Seq<(Seq<char>, Seq<Seq<char>>)>,
) -> bool {
    a.len() == b.len() && forall|i: int|
        0 <= i < a.len() ==> (#[trigger] a[i]).0 == b[i].0 && are_shorn(a[i].1, b[i].1)
}

/// A line that is no part of a field has no carriage return at its end.
pub open spec fn bad_lines_are_plain(ls: Seq<Seq<char>>) -> bool {
    forall|i: int|
        0 <= i < ls.len() && !is_indented(#[trigger] ls[i]) && find(ls[i], ':') >= ls[i].len()
            && ls[i].len() > 0 ==> ls[i].last() != '\r'
}

proof fn shorn_lines_give_parts_alike(xs: Seq<Seq<char>>, ys: Seq<Seq<char>>)
    requires
        are_shorn(xs, ys),
        are_filled(xs),
    ensures
        parts_are_alike(field_parts(xs), field_parts(ys)),
        strict_fields(xs) is Ok <==> strict_fields(ys) is Ok,
        strict_fields(xs) matches Ok(fs) ==> fs.len() == field_parts(xs).len(),
        strict_fields(ys) matches Ok(fs) ==> fs.len() == field_parts(ys).len(),
        bad_lines_are_plain(xs) ==> (strict_fields(xs) matches Err(failure) ==> strict_fields(ys)
            == Err::<Seq<(Seq<char>, Seq<char>)>, Failure>(failure)),
    decreases xs.len(),
{
    if xs.len() > 0 {
        let n = xs.len() - 1;
        let x = xs[n];
        let y = ys[n];
        let t = xs.drop_last();
        let u = ys.drop_last();
        assert(is_shorn(x, y));
        assert(!is_blank(x) && !x.contains('\n'));
        shorter_lists_are_shorn(xs, ys);
        assert forall|i: int| 0 <= i < t.len() implies !is_blank(#[trigger] t[i]) by {
            assert(t[i] == xs[i]);
        }
        shorn_lines_give_parts_alike(t, u);
        shorn_line_reads_alike(x, y);
        shorn_start_is_shorn(x, y);
        if bad_lines_are_plain(xs) {
            assert forall|i: int|
                0 <= i < t.len() && !is_indented(#[trigger] t[i]) && find(t[i], ':') >= t[i].len()
                    && t[i].len() > 0 implies t[i].last() != '\r' by {
                assert(t[i] == xs[i]);
            }
            if !is_indented(x) && find(x, ':') >= x.len() {
                plain_is_shorn_of_nothing(x, y);
            }
        }
        let a = field_parts(t);
        let b = field_parts(u);
        let p = field_parts(xs);
        let q = field_parts(ys);
        assert forall|i: int| 0 <= i < p.len() implies (#[trigger] p[i]).0 == q[i].0 && are_shorn(
            p[i].1,
            q[i].1,
        ) by {
            if i < a.len() {
                assert(a[i].0 == b[i].0 && are_shorn(a[i].1, b[i].1));
            }
            if is_indented(x) && i == a.len() - 1 {
                let vs = p[i].1;
                let ws = q[i].1;
                assert forall|j: int| 0 <= j < vs.len() implies is_shorn(
                    #[trigger] vs[j],
                    ws[j],
                ) by {
                    if j < a[i].1.len() {
                        assert(is_shorn(a[i].1[j], b[i].1[j]));
                    }
                }
            } else if i == a.len() {
                same_is_shorn(field_of(x).1);
            }
        }
    }
}

/// The fields of two maps have the same names, and values that read alike.
spec fn maps_read_alike(m: Seq<(Seq<char>, Seq<char>)>, n: Seq<(Seq<char>, Seq<char>)>) -> bool {
    m.len() == n.len() && forall|i: int|
        0 <= i < m.len() ==> (#[trigger] m[i]).0 == n[i].0 && reads_alike(m[i].1, n[i].1)
}

proof fn fields_make_maps_alike(fs: Seq<(Seq<char>, Seq<char>)>, gs: Seq<(Seq<char>, Seq<char>)>)
    requires
        fs.len() == gs.len(),
        forall|i: int|
            0 <= i < fs.len() ==> (#[trigger] fs[i]).0 == gs[i].0 && reads_alike(
                trim(fs[i].1),
                trim(gs[i].1),
            ),
    ensures
        maps_read_alike(map_of(fs), map_of(gs)),
    decreases fs.len(),
{
    if fs.len() > 0 {
        let n = fs.len() - 1;
        let f = fs.drop_last();
        let g = gs.drop_last();
        assert forall|i: int| 0 <= i < f.len() implies (#[trigger] f[i]).0 == g[i].0
            && reads_alike(trim(f[i].1), trim(g[i].1)) by {
            assert(f[i] == fs[i]);
        }
        fields_make_maps_alike(f, g);
        assert(fs[n].0 == gs[n].0);
        let a = map_of(f);
        let b = map_of(g);
        let k = fs[n].0;
        assert(keys_of(a) =~= keys_of(b)) by {
            assert forall|i: int| 0 <= i < a.len() implies keys_of(a)[i] == keys_of(b)[i] by {
                assert(a[i].0 == b[i].0);
            }
        }
        let s = slot(keys_of(a), k) as int;
        slot_cuts(keys_of(a), k);
        if s < a.len() {
            assert(a[s].0 == b[s].0);
        }
        let c = map_of(fs);
        let d = map_of(gs);
        assert forall|i: int| 0 <= i < c.len() implies (#[trigger] c[i]).0 == d[i].0
            && reads_alike(c[i].1, d[i].1) by {
            if i < a.len() {
                assert(a[i].0 == b[i].0 && reads_alike(a[i].1, b[i].1));
            }
            if 0 < i {
                assert(i - 1 < a.len() ==> a[i - 1].0 == b[i - 1].0);
            }
        }
    }
}

/// A field of which only the words count.
pub open spec fn is_word_field(key: Seq<char>) -> bool {
    key == "Architectures"@ || key == "Components"@
}

/// A field that lists hashes.
pub open spec fn is_hash_field(key: Seq<char>) -> bool {
    key == "MD5Sum"@ || key == "SHA1"@ || key == "SHA256"@ || key == "SHA512"@
}

/// A field of which no carriage return counts: one that is read as words, a list
/// of hashes without a fault, one of a Release that is refused, unless it lists
/// hashes, and one in which no line but the last ends in a carriage return.
pub open spec fn counts_no_return(key: Seq<char>, value: Seq<char>, is_refused: bool) -> bool {
    ||| is_word_field(key)
    ||| is_hash_field(key) && hash_section(Some(value)) is Ok
    ||| !is_hash_field(key) && is_refused
    ||| !contains_text(value, "\r\n"@)
}

/// No carriage return of the fields of a Release counts.
pub open spec fn count_no_returns(fields: Seq<(Seq<char>, Seq<char>)>) -> bool {
    forall|i: int|
        0 <= i < fields.len() ==> counts_no_return(
            (#[trigger] fields[i]).0,
            fields[i].1,
            release_from(fields) is Err,
        )
}

proof fn blank_has_no_words(s: Seq<char>)
    ensures
        is_blank(s) <==> words(s).len() == 0,
        trim(s).len() == 0 <==> words(s).len() == 0,
    decreases s.len(),
{
    trim_empty_iff_blank(s);
    if is_blank(s) {
        if s.len() > 0 {
            assert(is_white(s[0]));
            assert forall|i: int| 0 <= i < s.drop_first().len() implies is_white(
                #[trigger] s.drop_first()[i],
            ) by {
                assert(s.drop_first()[i] == s[i + 1]);
            }
            blank_has_no_words(s.drop_first());
        }
    } else {
        filled_has_words(s);
    }
}

proof fn lookups_are_alike(
    m: Seq<(Seq<char>, Seq<char>)>,
    n: Seq<(Seq<char>, Seq<char>)>,
    k: Seq<char>,
)
    requires
        maps_read_alike(m, n),
        count_no_returns(m),
    ensures
        lookup(m, k) is Some <==> lookup(n, k) is Some,
        field_words(lookup(m, k)) == field_words(lookup(n, k)),
        needed_field(m, k) is Ok <==> needed_field(n, k) is Ok,
        is_hash_field(k) && !is_word_field(k) ==> hash_section(lookup(m, k)) == hash_section(
            lookup(n, k),
        ),
        !is_hash_field(k) && !is_word_field(k) && release_from(m) is Ok ==> lookup(m, k) == lookup(
            n,
            k,
        ),
{
    assert(keys_of(m) =~= keys_of(n)) by {
        assert forall|i: int| 0 <= i < m.len() implies keys_of(m)[i] == keys_of(n)[i] by {
            assert(m[i].0 == n[i].0);
        }
    }
    let i = slot(keys_of(m), k) as int;
    if i < m.len() {
        assert(m[i].0 == n[i].0 && reads_alike(m[i].1, n[i].1));
        assert(counts_no_return(m[i].0, m[i].1, release_from(m) is Err));
        blank_has_no_words(m[i].1);
        blank_has_no_words(n[i].1);
    }
}

proof fn releases_are_alike(m: Seq<(Seq<char>, Seq<char>)>, n: Seq<(Seq<char>, Seq<char>)>)
    requires
        maps_read_alike(m, n),
        ascending(keys_of(m)),
        ascending(keys_of(n)),
        count_no_returns(m),
    ensures
        release_from(m) == release_from(n),
{
    release_fields_differ();
    lookups_are_alike(m, n, "Suite"@);
    lookups_are_alike(m, n, "Date"@);
    lookups_are_alike(m, n, "Architectures"@);
    lookups_are_alike(m, n, "MD5Sum"@);
    lookups_are_alike(m, n, "SHA1"@);
    lookups_are_alike(m, n, "SHA256"@);
    lookups_are_alike(m, n, "SHA512"@);
    if release_from(m) is Ok {
        known_names_listed();
        lookups_are_alike(m, n, "Origin"@);
        lookups_are_alike(m, n, "Label"@);
        lookups_are_alike(m, n, "Codename"@);
        lookups_are_alike(m, n, "Version"@);
        lookups_are_alike(m, n, "Components"@);
        lookups_are_alike(m, n, "Description"@);
        let a = without_all(m, known_fields());
        let b = without_all(n, known_fields());
        without_all_lookup(m, known_fields(), "Origin"@);
        without_all_lookup(n, known_fields(), "Origin"@);
        assert forall|k: Seq<char>| #[trigger] lookup(a, k) == lookup(b, k) by {
            without_all_lookup(m, known_fields(), k);
            without_all_lookup(n, known_fields(), k);
            lookups_are_alike(m, n, k);
        }
        same_lookups_same_map(a, b);
    }
}

// ---------------------------------------------------------------------------
// The law
// ---------------------------------------------------------------------------

/// No carriage return of the text counts that a line has besides its end: neither
/// one in a line that is no part of a field, nor one in a value.
pub open spec fn no_return_counts(release: Seq<char>) -> bool {
    stanzas(release).len() == 1 ==> {
        let stanza = stanzas(release)[0];
        &&& bad_lines_are_plain(lines(stanza))
        &&& field_map(stanza) matches Ok(fields) ==> count_no_returns(fields)
    }
}

proof fn stanzas_give_fields_alike(xs: Seq<Seq<char>>, ys: Seq<Seq<char>>)
    requires
        are_shorn(xs, ys),
        are_filled(xs),
        are_filled(ys),
        bad_lines_are_plain(xs),
    ensures
        match (strict_fields(xs), strict_fields(ys)) {
            (Ok(fs), Ok(gs)) => maps_read_alike(map_of(fs), map_of(gs)),
            (Err(f), Err(g)) => f == g,
            _ => false,
        },
{
    shorn_lines_give_parts_alike(xs, ys);
    parts_make_fields(xs);
    parts_make_fields(ys);
    if let (Ok(fs), Ok(gs)) = (strict_fields(xs), strict_fields(ys)) {
        let a = field_parts(xs);
        let b = field_parts(ys);
        assert forall|i: int| 0 <= i < fs.len() implies (#[trigger] fs[i]).0 == gs[i].0
            && reads_alike(trim(fs[i].1), trim(gs[i].1)) by {
            assert(a[i].0 == b[i].0 && are_shorn(a[i].1, b[i].1));
            assert(are_value_lines(a[i].1));
            assert(are_value_lines(b[i].1));
            shorn_values_read_alike(a[i].1, b[i].1);
        }
        fields_make_maps_alike(fs, gs);
    }
}

/// What is kept of a text reads as the text.
proof fn kept_text_reads_alike(r: Seq<char>)
    requires
        no_return_counts(r),
    ensures
        release_of(flat(without_returns(lines(r)))) == release_of(r),
{
    let body = lines(r);
    let once = without_returns(body);
    let twice = without_returns(once);
    lines_hold_no_feed(r);
    assert forall|i: int| 0 <= i < body.len() implies is_shorn(#[trigger] body[i], body[i]) by {
        same_is_shorn(body[i]);
    }
    dropped_returns_are_shorn(body, body);
    dropped_returns_are_shorn(body, once);
    assert forall|i: int| 0 <= i < once.len() implies !(#[trigger] once[i]).contains('\n') by {
        assert(is_shorn(body[i], once[i]));
        assert(!body[i].contains('\n'));
        shorn_holds_no_feed(body[i], once[i]);
    }
    lines_behind_flat(once, seq![]);
    assert(flat(once) + Seq::<char>::empty() =~= flat(once));
    assert(lines(Seq::<char>::empty()) =~= seq![]);
    assert(lines(flat(once)) =~= twice);
    stanza_lines_make_stanzas(body);
    stanza_lines_make_stanzas(twice);
    stanza_lines_are_alike(body, twice);
    let a = stanza_lines(body);
    let b = stanza_lines(twice);
    if a.len() == 1 {
        assert(are_shorn(a[0], b[0]) && are_filled(a[0]) && a[0].len() > 0);
        stanzas_read_as_shorn(a[0], b[0]);
        let x = stanzas(r)[0];
        let y = stanzas(flat(once))[0];
        assert(x == trim_end(flat(a[0])));
        assert(y == trim_end(flat(b[0])));
        shorn_list_is_filled(lines(x), lines(y));
        stanzas_give_fields_alike(lines(x), lines(y));
        if let (Ok(fs), Ok(gs)) = (strict_fields(lines(x)), strict_fields(lines(y))) {
            map_of_ascending(fs);
            map_of_ascending(gs);
            releases_are_alike(map_of(fs), map_of(gs));
        }
    }
}

proof fn shorn_list_is_filled(xs: Seq<Seq<char>>, ys: Seq<Seq<char>>)
    requires
        are_shorn(xs, ys),
        are_filled(xs),
    ensures
        are_filled(ys),
{
    assert forall|i: int| 0 <= i < ys.len() implies !(#[trigger] ys[i]).contains('\n')
        && !is_blank(ys[i]) by {
        assert(is_shorn(xs[i], ys[i]));
        assert(!is_blank(xs[i]));
        assert(!xs[i].contains('\n'));
        shorn_is_blank_alike(xs[i], ys[i]);
        shorn_holds_no_feed(xs[i], ys[i]);
    }
}

/// A clear-signed Release reads as the Release that was signed, whatever follows
/// the line that begins the signature. Signing may lose a carriage return that a
/// line has besides its end. That one counts only in a value of several lines
/// that is kept as it is, in a line that no field can be read from, and in a list
/// of hashes with a fault; nowhere else does the law ask anything of the text.
pub proof fn signed_release_reads_alike(
    armor: Seq<Seq<char>>,
    release: Seq<char>,
    signature: Seq<char>,
)
    requires
        forall|i: int|
            0 <= i < armor.len() ==> is_plain(#[trigger] armor[i]) && armor[i].len() > 0,
        !is_blank(release),
        no_return_counts(release),
    ensures
        in_release_of(clear_signed(armor, lines(release), signature)) == release_of(release),
{
    signed_text_is_kept(armor, release, signature);
    kept_text_reads_alike(release);
}

} // verus!
