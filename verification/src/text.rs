//! Text as a sequence of characters, and the operations on it that the
//! metadata formats are made of: trimming, splitting, searching, ordering.

use vstd::prelude::*;
use vstd::slice::slice_subrange;
use vstd::std_specs::iter::IteratorSpec;

verus! {

/// `String::push` of the standard library: appends the character to the text.
pub assume_specification[ String::push ](text: &mut String, c: char)
    ensures
        final(text)@ == old(text)@.push(c),
;

// ---------------------------------------------------------------------------
// Model
// ---------------------------------------------------------------------------

/// White space: the characters with the Unicode property `White_Space`.
pub open spec fn is_white(c: char) -> bool {
    ||| '\u{9}' <= c <= '\u{d}'
    ||| c == ' '
    ||| c == '\u{85}'
    ||| c == '\u{a0}'
    ||| c == '\u{1680}'
    ||| '\u{2000}' <= c <= '\u{200a}'
    ||| c == '\u{2028}'
    ||| c == '\u{2029}'
    ||| c == '\u{202f}'
    ||| c == '\u{205f}'
    ||| c == '\u{3000}'
}

/// `s` without the white space at its start.
pub open spec fn trim_start(s: Seq<char>) -> Seq<char>
    decreases s.len(),
{
    if s.len() > 0 && is_white(s[0]) {
        trim_start(s.drop_first())
    } else {
        s
    }
}

/// `s` without the white space at its end.
pub open spec fn trim_end(s: Seq<char>) -> Seq<char>
    decreases s.len(),
{
    if s.len() > 0 && is_white(s.last()) {
        trim_end(s.drop_last())
    } else {
        s
    }
}

/// `s` without the white space at either end.
pub open spec fn trim(s: Seq<char>) -> Seq<char> {
    trim_end(trim_start(s))
}

/// `s` holds nothing but white space.
pub open spec fn is_blank(s: Seq<char>) -> bool {
    forall|i: int| 0 <= i < s.len() ==> is_white(#[trigger] s[i])
}

/// `s` without the run of `c` at its start.
pub open spec fn trim_start_char(s: Seq<char>, c: char) -> Seq<char>
    decreases s.len(),
{
    if s.len() > 0 && s[0] == c {
        trim_start_char(s.drop_first(), c)
    } else {
        s
    }
}

/// `s` without the run of `c` at its end.
pub open spec fn trim_end_char(s: Seq<char>, c: char) -> Seq<char>
    decreases s.len(),
{
    if s.len() > 0 && s.last() == c {
        trim_end_char(s.drop_last(), c)
    } else {
        s
    }
}

/// `s` without the runs of `c` at both ends.
pub open spec fn trim_char(s: Seq<char>, c: char) -> Seq<char> {
    trim_end_char(trim_start_char(s, c), c)
}

/// `s` begins with `p`.
pub open spec fn starts_with(s: Seq<char>, p: Seq<char>) -> bool {
    p.len() <= s.len() && s.take(p.len() as int) == p
}

/// `s` ends with `p`.
pub open spec fn ends_with(s: Seq<char>, p: Seq<char>) -> bool {
    p.len() <= s.len() && s.skip(s.len() - p.len()) == p
}

/// `p` occurs in `s` at position `i`.
pub open spec fn occurs_at(s: Seq<char>, p: Seq<char>, i: int) -> bool {
    0 <= i <= s.len() - p.len() && s.subrange(i, i + p.len()) == p
}

/// `p` occurs somewhere in `s`.
pub open spec fn contains_text(s: Seq<char>, p: Seq<char>) -> bool {
    exists|i: int| occurs_at(s, p, i)
}

/// `s` without the repetitions of `p` at its start.
pub open spec fn trim_start_text(s: Seq<char>, p: Seq<char>) -> Seq<char>
    decreases s.len(),
{
    if p.len() > 0 && starts_with(s, p) {
        trim_start_text(s.skip(p.len() as int), p)
    } else {
        s
    }
}

/// The position of the first `c` in `s`, or the length of `s` where there is none.
pub open spec fn find(s: Seq<char>, c: char) -> nat
    decreases s.len(),
{
    if s.len() == 0 || s[0] == c {
        0
    } else {
        1 + find(s.drop_first(), c)
    }
}

/// The position of the first `p` in `s`, if there is one.
pub open spec fn find_text(s: Seq<char>, p: Seq<char>) -> Option<nat>
    decreases s.len(),
{
    if starts_with(s, p) {
        Some(0)
    } else if s.len() == 0 {
        None
    } else {
        match find_text(s.drop_first(), p) {
            Some(n) => Some(n + 1),
            None => None,
        }
    }
}

/// The pieces of `s` between the separators `c`; at least one piece.
pub open spec fn split(s: Seq<char>, c: char) -> Seq<Seq<char>>
    decreases s.len(),
{
    let n = find(s, c);
    if n >= s.len() {
        seq![s]
    } else {
        seq![s.take(n as int)] + split(s.skip(n as int + 1), c)
    }
}

/// The length of the word that `s` begins with.
pub open spec fn word_len(s: Seq<char>) -> nat
    decreases s.len(),
{
    if s.len() == 0 || is_white(s[0]) {
        0
    } else {
        1 + word_len(s.drop_first())
    }
}

/// The words of `s`: its longest stretches without white space.
pub open spec fn words(s: Seq<char>) -> Seq<Seq<char>>
    decreases s.len(),
{
    if s.len() == 0 {
        seq![]
    } else if is_white(s[0]) {
        words(s.drop_first())
    } else {
        let n = word_len(s);
        if 0 < n <= s.len() {
            seq![s.take(n as int)] + words(s.skip(n as int))
        } else {
            seq![]
        }
    }
}

/// A line without the carriage return before its line feed.
pub open spec fn drop_return(line: Seq<char>) -> Seq<char> {
    if line.len() > 0 && line.last() == '\r' {
        line.drop_last()
    } else {
        line
    }
}

/// The lines of `s`. A line ends with a line feed, or with a carriage return
/// and a line feed; neither is part of the line. The last line may lack its end.
pub open spec fn lines(s: Seq<char>) -> Seq<Seq<char>>
    decreases s.len(),
{
    let n = find(s, '\n');
    if s.len() == 0 {
        seq![]
    } else if n >= s.len() {
        seq![s]
    } else {
        seq![drop_return(s.take(n as int))] + lines(s.skip(n as int + 1))
    }
}

/// The pieces with `sep` between each two.
pub open spec fn join(pieces: Seq<Seq<char>>, sep: Seq<char>) -> Seq<char>
    decreases pieces.len(),
{
    if pieces.len() == 0 {
        seq![]
    } else if pieces.len() == 1 {
        pieces[0]
    } else {
        join(pieces.drop_last(), sep) + sep + pieces.last()
    }
}

/// The lower case of an ASCII letter; any other character as it is.
pub open spec fn lower(c: char) -> char {
    if 'A' <= c <= 'Z' {
        (c as u8 + 32) as char
    } else {
        c
    }
}

/// `s` with its ASCII letters in lower case.
pub open spec fn ascii_lower(s: Seq<char>) -> Seq<char> {
    s.map_values(|c: char| lower(c))
}

/// `s` in lower case is `word`, for a `word` of lower-case ASCII characters.
/// The Kelvin sign is the one other character whose lower case is an ASCII letter.
pub open spec fn lowers_to(s: Seq<char>, word: Seq<char>) -> bool {
    &&& s.len() == word.len()
    &&& forall|i: int|
        0 <= i < s.len() ==> (lower(#[trigger] s[i]) == word[i] || (s[i] == '\u{212a}' && word[i]
            == 'k'))
}

/// `a` comes strictly before `b`: at the first difference `a` has the smaller
/// character, or `a` is a proper prefix of `b`.
pub open spec fn text_lt(a: Seq<char>, b: Seq<char>) -> bool
    decreases a.len(),
{
    if b.len() == 0 {
        false
    } else if a.len() == 0 {
        true
    } else if a[0] != b[0] {
        a[0] < b[0]
    } else {
        text_lt(a.drop_first(), b.drop_first())
    }
}

/// What the slices hold.
pub open spec fn pieces(v: Seq<&[char]>) -> Seq<Seq<char>> {
    v.map_values(|p: &[char]| p@)
}

/// `s` without `p` at its start, if it begins with it.
pub open spec fn strip_start(s: Seq<char>, p: Seq<char>) -> Option<Seq<char>> {
    if starts_with(s, p) {
        Some(s.skip(p.len() as int))
    } else {
        None
    }
}

/// `s` without `p` at its end, if it ends with it.
pub open spec fn strip_end(s: Seq<char>, p: Seq<char>) -> Option<Seq<char>> {
    if ends_with(s, p) {
        Some(s.take(s.len() - p.len()))
    } else {
        None
    }
}

/// What an optional text holds.
pub open spec fn opt_text(t: Option<&str>) -> Option<Seq<char>> {
    match t {
        Some(text) => Some(text@),
        None => None,
    }
}

// ---------------------------------------------------------------------------
// Facts about the model
// ---------------------------------------------------------------------------

/// The order of texts is a strict total order: no text comes before itself.
pub proof fn text_lt_irreflexive(a: Seq<char>)
    ensures
        !text_lt(a, a),
    decreases a.len(),
{
    if a.len() > 0 {
        text_lt_irreflexive(a.drop_first());
    }
}

/// The order of texts is transitive.
pub proof fn text_lt_transitive(a: Seq<char>, b: Seq<char>, c: Seq<char>)
    requires
        text_lt(a, b),
        text_lt(b, c),
    ensures
        text_lt(a, c),
    decreases a.len(),
{
    if a.len() > 0 && a[0] == b[0] && b[0] == c[0] {
        text_lt_transitive(a.drop_first(), b.drop_first(), c.drop_first());
    }
}

/// Of two different texts one comes before the other.
pub proof fn text_lt_total(a: Seq<char>, b: Seq<char>)
    requires
        a != b,
    ensures
        text_lt(a, b) || text_lt(b, a),
    decreases a.len(),
{
    if a.len() == 0 || b.len() == 0 {
        if a.len() == b.len() {
            assert(a =~= b);
        }
    } else if a[0] == b[0] {
        if a.drop_first() == b.drop_first() {
            assert(a =~= seq![a[0]] + a.drop_first());
            assert(b =~= seq![b[0]] + b.drop_first());
        }
        text_lt_total(a.drop_first(), b.drop_first());
    }
}

/// A text without `c` before a separator is the first piece of a split.
pub proof fn split_first(a: Seq<char>, b: Seq<char>, c: char)
    requires
        !a.contains(c),
    ensures
        split(a + seq![c] + b, c) == seq![a] + split(b, c),
{
    let s = a + seq![c] + b;
    find_is_first(s, c);
    let n = find(s, c) as int;
    if n < a.len() {
        assert(a[n] == c);
    }
    assert(s[a.len() as int] == c);
    assert(n == a.len());
    assert(s.take(n) =~= a);
    assert(s.skip(n + 1) =~= b);
}

/// A text without `c` is the only piece of its split.
pub proof fn split_single(a: Seq<char>, c: char)
    requires
        !a.contains(c),
    ensures
        split(a, c) == seq![a],
{
    find_is_first(a, c);
    if find(a, c) < a.len() {
        assert(a.contains(a[find(a, c) as int]));
    }
}

/// A text without `c` behind a separator is the last piece of a split.
pub proof fn split_last(a: Seq<char>, b: Seq<char>, c: char)
    requires
        !b.contains(c),
    ensures
        split(a + seq![c] + b, c).last() == b,
    decreases a.len(),
{
    let s = a + seq![c] + b;
    find_is_first(s, c);
    let n = find(s, c) as int;
    assert(s[a.len() as int] == c);
    assert(n <= a.len());
    let rest = s.skip(n + 1);
    if n == a.len() {
        assert(rest =~= b);
        split_single(b, c);
    } else {
        assert(rest =~= a.skip(n + 1) + seq![c] + b);
        split_last(a.skip(n + 1), b, c);
    }
}

/// Whatever stands before a separator, the last piece of a split is that of what
/// stands behind it, and not the only one.
pub proof fn split_tail(a: Seq<char>, b: Seq<char>, c: char)
    ensures
        split(a + seq![c] + b, c).last() == split(b, c).last(),
        split(a + seq![c] + b, c).len() > split(b, c).len(),
    decreases a.len(),
{
    let s = a + seq![c] + b;
    find_is_first(s, c);
    find_is_first(b, c);
    let n = find(s, c) as int;
    assert(s[a.len() as int] == c);
    assert(n <= a.len());
    let rest = s.skip(n + 1);
    assert(split(rest, c).len() > 0);
    if n == a.len() {
        assert(rest =~= b);
    } else {
        assert(rest =~= a.skip(n + 1) + seq![c] + b);
        split_tail(a.skip(n + 1), b, c);
    }
}

/// What `find` finds: the first occurrence of `c`, if any.
pub proof fn find_is_first(s: Seq<char>, c: char)
    ensures
        find(s, c) <= s.len(),
        find(s, c) < s.len() ==> s[find(s, c) as int] == c,
        forall|i: int| 0 <= i < find(s, c) ==> s[i] != c,
    decreases s.len(),
{
    if s.len() > 0 && s[0] != c {
        find_is_first(s.drop_first(), c);
        assert forall|i: int| 0 <= i < find(s, c) implies s[i] != c by {
            if i > 0 {
                assert(s[i] == s.drop_first()[i - 1]);
            }
        }
    }
}

/// The word at the start of a text holds no white space and ends at the text's
/// end or at white space.
pub proof fn word_len_is_run(s: Seq<char>)
    ensures
        word_len(s) <= s.len(),
        word_len(s) < s.len() ==> is_white(s[word_len(s) as int]),
        forall|i: int| 0 <= i < word_len(s) ==> !is_white(s[i]),
    decreases s.len(),
{
    if s.len() > 0 && !is_white(s[0]) {
        word_len_is_run(s.drop_first());
        assert forall|i: int| 0 <= i < word_len(s) implies !is_white(s[i]) by {
            if i > 0 {
                assert(s[i] == s.drop_first()[i - 1]);
            }
        }
    }
}

/// Trimming the start leaves a suffix; what goes is white space.
pub proof fn trim_start_is_suffix(s: Seq<char>)
    ensures
        trim_start(s).len() <= s.len(),
        trim_start(s) == s.skip(s.len() - trim_start(s).len()),
        is_blank(s.take(s.len() - trim_start(s).len())),
        trim_start(s).len() > 0 ==> !is_white(trim_start(s)[0]),
    decreases s.len(),
{
    if s.len() > 0 && is_white(s[0]) {
        let t = s.drop_first();
        trim_start_is_suffix(t);
        assert(trim_start(s) =~= s.skip(s.len() - trim_start(s).len()));
        assert forall|i: int| 0 <= i < s.len() - trim_start(s).len() implies is_white(
            #[trigger] s.take(s.len() - trim_start(s).len())[i],
        ) by {
            if i > 0 {
                assert(t.take(t.len() - trim_start(t).len())[i - 1] == s[i]);
            }
        }
    } else {
        assert(s.skip(0) =~= s);
    }
}

/// Trimming the end leaves a prefix; what goes is white space.
pub proof fn trim_end_is_prefix(s: Seq<char>)
    ensures
        trim_end(s).len() <= s.len(),
        trim_end(s) == s.take(trim_end(s).len() as int),
        is_blank(s.skip(trim_end(s).len() as int)),
        trim_end(s).len() > 0 ==> !is_white(trim_end(s).last()),
    decreases s.len(),
{
    if s.len() > 0 && is_white(s.last()) {
        let t = s.drop_last();
        trim_end_is_prefix(t);
        assert(trim_end(s) =~= s.take(trim_end(s).len() as int));
        let n = trim_end(s).len() as int;
        assert forall|i: int| 0 <= i < s.len() - n implies is_white(#[trigger] s.skip(n)[i]) by {
            if i + n < s.len() - 1 {
                assert(t.skip(n)[i] == s[i + n]);
            }
        }
    } else {
        assert(s.take(s.len() as int) =~= s);
    }
}

/// A text is blank exactly when trimming leaves nothing.
pub proof fn trim_empty_iff_blank(s: Seq<char>)
    ensures
        trim(s).len() == 0 <==> is_blank(s),
{
    trim_start_is_suffix(s);
    trim_end_is_prefix(trim_start(s));
    let t = trim_start(s);
    if is_blank(s) {
        if t.len() > 0 {
            assert(t[0] == s[s.len() - t.len()]);
        }
    } else {
        let i = choose|i: int| 0 <= i < s.len() && !is_white(#[trigger] s[i]);
        let cut = s.len() - t.len();
        if i < cut {
            assert(s.take(cut)[i] == s[i]);
        }
        assert(t[i - cut] == s[i]);
        if trim(s).len() == 0 {
            assert(t.skip(0)[i - cut] == t[i - cut]);
        }
    }
}

// ---------------------------------------------------------------------------
// Conversions
// ---------------------------------------------------------------------------

/// The characters of a text.
pub fn chars_of(s: &str) -> (r: Vec<char>)
    ensures
        r@ == s@,
{
    let mut r: Vec<char> = Vec::new();
    for c in it: s.chars()
        invariant
            r@ == it.seq().take(it.index() as int),
            it.seq() == s@,
    {
        r.push(c);
    }
    r
}

/// The characters of a slice, in a vector.
pub fn vec_of(s: &[char]) -> (r: Vec<char>)
    ensures
        r@ == s@,
{
    let mut r: Vec<char> = Vec::new();
    r.extend_from_slice(s);
    r
}

/// The text made of these characters.
pub fn text_of(s: &[char]) -> (r: String)
    ensures
        r@ == s@,
{
    let mut r = String::new();
    let mut i: usize = 0;
    while i < s.len()
        invariant
            i <= s.len(),
            r@ == s@.take(i as int),
        decreases s.len() - i,
    {
        r.push(s[i]);
        i += 1;
    }
    assert(s@.take(s.len() as int) =~= s@);
    r
}

// ---------------------------------------------------------------------------
// Order and equality
// ---------------------------------------------------------------------------

/// The order of two texts.
#[derive(Clone, Copy, PartialEq, Eq, Structural, Debug)]
pub enum TextOrder {
    Before,
    Same,
    After,
}

/// Compares two texts character by character.
pub fn compare_text(a: &str, b: &str) -> (r: TextOrder)
    ensures
        r is Before <==> text_lt(a@, b@),
        r is Same <==> a@ == b@,
        r is After <==> text_lt(b@, a@),
{
    let mut x = a.chars();
    let mut y = b.chars();
    loop
        invariant
            text_lt(a@, b@) == text_lt(x.remaining(), y.remaining()),
            text_lt(b@, a@) == text_lt(y.remaining(), x.remaining()),
            (a@ == b@) == (x.remaining() == y.remaining()),
            x.decrease() is Some,
        decreases x.decrease()->0,
    {
        let ghost p = x.remaining();
        let ghost q = y.remaining();
        match (x.next(), y.next()) {
            (None, None) => {
                assert(p =~= q);
                return TextOrder::Same;
            },
            (None, Some(_)) => {
                return TextOrder::Before;
            },
            (Some(_), None) => {
                return TextOrder::After;
            },
            (Some(c), Some(d)) => {
                if c < d {
                    return TextOrder::Before;
                }
                if d < c {
                    return TextOrder::After;
                }
                assert(p =~= seq![c] + p.drop_first());
                assert(q =~= seq![d] + q.drop_first());
            },
        }
    }
}

/// The two texts hold the same characters.
pub fn same_text(a: &str, b: &str) -> (r: bool)
    ensures
        r == (a@ == b@),
{
    match compare_text(a, b) {
        TextOrder::Same => true,
        _ => false,
    }
}

/// The slice holds the characters of the text.
pub fn is_text(s: &[char], t: &str) -> (r: bool)
    ensures
        r == (s@ == t@),
{
    let p = chars_of(t);
    same_chars(s, p.as_slice())
}

/// The two slices hold the same characters.
pub fn same_chars(s: &[char], p: &[char]) -> (r: bool)
    ensures
        r == (s@ == p@),
{
    if s.len() != p.len() {
        return false;
    }
    let mut i: usize = 0;
    while i < s.len()
        invariant
            i <= s.len(),
            s.len() == p.len(),
            forall|j: int| 0 <= j < i ==> s@[j] == p@[j],
        decreases s.len() - i,
    {
        if s[i] != p[i] {
            return false;
        }
        i += 1;
    }
    assert(s@ =~= p@);
    true
}

/// The lower case of an ASCII letter.
pub fn lower_char(c: char) -> (r: char)
    ensures
        r == lower(c),
{
    if 'A' <= c && c <= 'Z' {
        (c as u8 + 32) as char
    } else {
        c
    }
}

/// The text with its ASCII letters in lower case.
pub fn to_ascii_lower(s: &[char]) -> (r: String)
    ensures
        r@ == ascii_lower(s@),
{
    let mut r = String::new();
    let mut i: usize = 0;
    while i < s.len()
        invariant
            i <= s.len(),
            r@ == ascii_lower(s@.take(i as int)),
        decreases s.len() - i,
    {
        r.push(lower_char(s[i]));
        i += 1;
        assert(r@ =~= ascii_lower(s@.take(i as int)));
    }
    assert(s@.take(s.len() as int) =~= s@);
    r
}

/// The two texts differ at most in the case of their ASCII letters.
pub fn same_ignoring_ascii_case(a: &str, b: &str) -> (r: bool)
    ensures
        r == (ascii_lower(a@) == ascii_lower(b@)),
{
    let x = chars_of(a);
    let y = chars_of(b);
    let p = to_ascii_lower(x.as_slice());
    let q = to_ascii_lower(y.as_slice());
    same_text(p.as_str(), q.as_str())
}

/// The text in lower case is the word.
pub fn is_lowered(s: &[char], word: &str) -> (r: bool)
    ensures
        r == lowers_to(s@, word@),
{
    let w = chars_of(word);
    if s.len() != w.len() {
        return false;
    }
    let mut i: usize = 0;
    while i < s.len()
        invariant
            i <= s.len(),
            s.len() == w.len(),
            w@ == word@,
            forall|j: int|
                0 <= j < i ==> (lower(#[trigger] s@[j]) == w@[j] || (s@[j] == '\u{212a}' && w@[j]
                    == 'k')),
        decreases s.len() - i,
    {
        if lower_char(s[i]) != w[i] && !(s[i] == '\u{212a}' && w[i] == 'k') {
            return false;
        }
        i += 1;
    }
    true
}

// ---------------------------------------------------------------------------
// Trimming
// ---------------------------------------------------------------------------

/// The character is white space.
pub fn is_white_char(c: char) -> (r: bool)
    ensures
        r == is_white(c),
{
    ('\u{9}' <= c && c <= '\u{d}') || c == ' ' || c == '\u{85}' || c == '\u{a0}' || c == '\u{1680}'
        || ('\u{2000}' <= c && c <= '\u{200a}') || c == '\u{2028}' || c == '\u{2029}' || c
        == '\u{202f}' || c == '\u{205f}' || c == '\u{3000}'
}

/// The slice without the white space at its start.
pub fn trim_start_of(s: &[char]) -> (r: &[char])
    ensures
        r@ == trim_start(s@),
{
    let mut i: usize = 0;
    assert(s@.skip(0) =~= s@);
    while i < s.len() && is_white_char(s[i])
        invariant
            i <= s.len(),
            trim_start(s@) == trim_start(s@.skip(i as int)),
        decreases s.len() - i,
    {
        assert(s@.skip(i as int).drop_first() =~= s@.skip(i + 1));
        i += 1;
    }
    slice_subrange(s, i, s.len())
}

/// The slice without the white space at its end.
pub fn trim_end_of(s: &[char]) -> (r: &[char])
    ensures
        r@ == trim_end(s@),
{
    let mut n: usize = s.len();
    assert(s@.take(s.len() as int) =~= s@);
    while n > 0 && is_white_char(s[n - 1])
        invariant
            n <= s.len(),
            trim_end(s@) == trim_end(s@.take(n as int)),
        decreases n,
    {
        assert(s@.take(n as int).drop_last() =~= s@.take(n - 1));
        n -= 1;
    }
    slice_subrange(s, 0, n)
}

/// The slice without the white space at either end.
pub fn trim_of(s: &[char]) -> (r: &[char])
    ensures
        r@ == trim(s@),
{
    trim_end_of(trim_start_of(s))
}

/// The slice without the run of `c` at its start.
pub fn trim_start_char_of(s: &[char], c: char) -> (r: &[char])
    ensures
        r@ == trim_start_char(s@, c),
{
    let mut i: usize = 0;
    assert(s@.skip(0) =~= s@);
    while i < s.len() && s[i] == c
        invariant
            i <= s.len(),
            trim_start_char(s@, c) == trim_start_char(s@.skip(i as int), c),
        decreases s.len() - i,
    {
        assert(s@.skip(i as int).drop_first() =~= s@.skip(i + 1));
        i += 1;
    }
    slice_subrange(s, i, s.len())
}

/// The slice without the run of `c` at its end.
pub fn trim_end_char_of(s: &[char], c: char) -> (r: &[char])
    ensures
        r@ == trim_end_char(s@, c),
{
    let mut n: usize = s.len();
    assert(s@.take(s.len() as int) =~= s@);
    while n > 0 && s[n - 1] == c
        invariant
            n <= s.len(),
            trim_end_char(s@, c) == trim_end_char(s@.take(n as int), c),
        decreases n,
    {
        assert(s@.take(n as int).drop_last() =~= s@.take(n - 1));
        n -= 1;
    }
    slice_subrange(s, 0, n)
}

/// The slice without the runs of `c` at both ends.
pub fn trim_char_of(s: &[char], c: char) -> (r: &[char])
    ensures
        r@ == trim_char(s@, c),
{
    trim_end_char_of(trim_start_char_of(s, c), c)
}

/// The text holds no character.
pub fn is_empty_text(s: &str) -> (r: bool)
    ensures
        r == (s@.len() == 0),
{
    let mut it = s.chars();
    it.next().is_none()
}

/// The text holds nothing but white space.
pub fn is_blank_text(s: &str) -> (r: bool)
    ensures
        r == is_blank(s@),
        r == (trim(s@).len() == 0),
{
    proof {
        trim_empty_iff_blank(s@);
    }
    let c = chars_of(s);
    is_blank_chars(c.as_slice())
}

/// The slice holds nothing but white space.
pub fn is_blank_chars(s: &[char]) -> (r: bool)
    ensures
        r == is_blank(s@),
        r == (trim(s@).len() == 0),
{
    proof {
        trim_empty_iff_blank(s@);
    }
    let mut i: usize = 0;
    while i < s.len()
        invariant
            i <= s.len(),
            is_blank(s@) == (trim(s@).len() == 0),
            forall|j: int| 0 <= j < i ==> is_white(#[trigger] s@[j]),
        decreases s.len() - i,
    {
        if !is_white_char(s[i]) {
            return false;
        }
        i += 1;
    }
    true
}

// ---------------------------------------------------------------------------
// Searching
// ---------------------------------------------------------------------------

/// The slice begins with the characters `p`.
pub fn has_prefix(s: &[char], p: &[char]) -> (r: bool)
    ensures
        r == starts_with(s@, p@),
{
    if p.len() > s.len() {
        return false;
    }
    same_chars(slice_subrange(s, 0, p.len()), p)
}

/// The slice ends with the characters `p`.
pub fn has_suffix(s: &[char], p: &[char]) -> (r: bool)
    ensures
        r == ends_with(s@, p@),
{
    if p.len() > s.len() {
        return false;
    }
    let start: usize = s.len() - p.len();
    assert(s@.subrange(start as int, s@.len() as int) =~= s@.skip(start as int));
    same_chars(slice_subrange(s, start, s.len()), p)
}

/// The slice begins with the text.
pub fn begins(s: &[char], p: &str) -> (r: bool)
    ensures
        r == starts_with(s@, p@),
{
    let p = chars_of(p);
    has_prefix(s, p.as_slice())
}

/// The slice ends with the text.
pub fn ends(s: &[char], p: &str) -> (r: bool)
    ensures
        r == ends_with(s@, p@),
{
    let p = chars_of(p);
    if p.len() > s.len() {
        return false;
    }
    same_chars(slice_subrange(s, s.len() - p.len(), s.len()), p.as_slice())
}

/// The text occurs in the slice.
pub fn holds_text(s: &[char], p: &str) -> (r: bool)
    ensures
        r == contains_text(s@, p@),
{
    let needle = chars_of(p);
    if needle.len() > s.len() {
        return false;
    }
    let mut i: usize = 0;
    loop
        invariant
            needle@ == p@,
            needle.len() <= s.len(),
            i <= s.len() - needle.len(),
            forall|j: int| 0 <= j < i ==> !occurs_at(s@, p@, j),
        decreases s.len() - needle.len() - i,
    {
        if same_chars(slice_subrange(s, i, i + needle.len()), needle.as_slice()) {
            assert(occurs_at(s@, p@, i as int));
            return true;
        }
        if i == s.len() - needle.len() {
            return false;
        }
        i += 1;
    }
}

/// The slice without the repetitions of the text at its start.
pub fn trim_start_text_of<'a>(s: &'a [char], p: &str) -> (r: &'a [char])
    ensures
        r@ == trim_start_text(s@, p@),
{
    let p = chars_of(p);
    let mut rest = s;
    while p.len() > 0 && has_prefix(rest, p.as_slice())
        invariant
            trim_start_text(s@, p@) == trim_start_text(rest@, p@),
        decreases rest.len(),
    {
        rest = slice_subrange(rest, p.len(), rest.len());
    }
    rest
}

/// The position of the first `c`, or the length of the slice where there is none.
pub fn find_char(s: &[char], c: char) -> (r: usize)
    ensures
        r == find(s@, c),
        r <= s.len(),
{
    let mut i: usize = 0;
    assert(s@.skip(0) =~= s@);
    while i < s.len() && s[i] != c
        invariant
            i <= s.len(),
            find(s@, c) == i + find(s@.skip(i as int), c),
        decreases s.len() - i,
    {
        assert(s@.skip(i as int).drop_first() =~= s@.skip(i + 1));
        i += 1;
    }
    i
}

/// The character occurs in the slice.
pub fn holds_char(s: &[char], c: char) -> (r: bool)
    ensures
        r == s@.contains(c),
{
    proof {
        find_is_first(s@, c);
    }
    find_char(s, c) < s.len()
}

/// The position of the first occurrence of the text.
pub fn find_text_of(s: &[char], p: &str) -> (r: Option<usize>)
    ensures
        r is Some <==> find_text(s@, p@) is Some,
        r matches Some(n) ==> find_text(s@, p@) == Some(n as nat) && n + p@.len() <= s.len(),
{
    let needle = chars_of(p);
    let mut i: usize = 0;
    assert(s@.skip(0) =~= s@);
    loop
        invariant
            needle@ == p@,
            i <= s.len(),
            match find_text(s@.skip(i as int), p@) {
                Some(n) => find_text(s@, p@) == Some((n + i) as nat),
                None => find_text(s@, p@) is None,
            },
        decreases s.len() - i,
    {
        let rest = slice_subrange(s, i, s.len());
        if has_prefix(rest, needle.as_slice()) {
            return Some(i);
        }
        if i == s.len() {
            return None;
        }
        assert(s@.skip(i as int).drop_first() =~= s@.skip(i + 1));
        i += 1;
    }
}

// ---------------------------------------------------------------------------
// Splitting
// ---------------------------------------------------------------------------

/// The pieces of the slice between the separators `c`.
pub fn split_at_char(s: &[char], c: char) -> (r: Vec<&[char]>)
    ensures
        pieces(r@) == split(s@, c),
        r.len() >= 1,
{
    let mut out: Vec<&[char]> = Vec::new();
    let mut rest = s;
    loop
        invariant
            split(s@, c) == pieces(out@) + split(rest@, c),
        decreases rest.len(),
    {
        let n = find_char(rest, c);
        let ghost before = pieces(out@);
        if n >= rest.len() {
            out.push(rest);
            assert(pieces(out@) =~= before + seq![rest@]);
            return out;
        }
        let piece = slice_subrange(rest, 0, n);
        out.push(piece);
        assert(pieces(out@) =~= before + seq![rest@.take(n as int)]);
        assert(before + (seq![rest@.take(n as int)] + split(rest@.skip(n + 1), c)) =~= (before
            + seq![rest@.take(n as int)]) + split(rest@.skip(n + 1), c));
        rest = slice_subrange(rest, n + 1, rest.len());
    }
}

/// The words of the slice.
pub fn words_of(s: &[char]) -> (r: Vec<&[char]>)
    ensures
        pieces(r@) == words(s@),
{
    let mut out: Vec<&[char]> = Vec::new();
    let mut rest = s;
    assert(pieces(out@) + words(s@) =~= words(s@));
    while rest.len() > 0
        invariant
            words(s@) == pieces(out@) + words(rest@),
        decreases rest.len(),
    {
        if is_white_char(rest[0]) {
            rest = slice_subrange(rest, 1, rest.len());
        } else {
            let ghost whole = rest@;
            let ghost before = pieces(out@);
            let mut n: usize = 0;
            assert(whole.skip(0) =~= whole);
            while n < rest.len() && !is_white_char(rest[n])
                invariant
                    n <= rest.len(),
                    rest@ == whole,
                    word_len(whole) == n + word_len(whole.skip(n as int)),
                decreases rest.len() - n,
            {
                assert(whole.skip(n as int).drop_first() =~= whole.skip(n + 1));
                n += 1;
            }
            assert(word_len(whole) == n);
            let piece = slice_subrange(rest, 0, n);
            out.push(piece);
            assert(n > 0) by {
                word_len_is_run(whole);
            }
            assert(pieces(out@) =~= before + seq![whole.take(n as int)]);
            assert(before + (seq![whole.take(n as int)] + words(whole.skip(n as int))) =~= (before
                + seq![whole.take(n as int)]) + words(whole.skip(n as int)));
            rest = slice_subrange(rest, n, rest.len());
        }
    }
    assert(pieces(out@) + words(rest@) =~= pieces(out@));
    out
}

/// The lines of the slice.
pub fn lines_of(s: &[char]) -> (r: Vec<&[char]>)
    ensures
        pieces(r@) == lines(s@),
{
    let mut out: Vec<&[char]> = Vec::new();
    let mut rest = s;
    assert(pieces(out@) + lines(s@) =~= lines(s@));
    while rest.len() > 0
        invariant
            lines(s@) == pieces(out@) + lines(rest@),
        decreases rest.len(),
    {
        let n = find_char(rest, '\n');
        let ghost before = pieces(out@);
        let ghost whole = rest@;
        if n >= rest.len() {
            out.push(rest);
            assert(pieces(out@) =~= before + seq![whole]);
            return out;
        }
        let end = if n > 0 && rest[n - 1] == '\r' {
            n - 1
        } else {
            n
        };
        let line = slice_subrange(rest, 0, end);
        assert(line@ =~= drop_return(whole.take(n as int)));
        out.push(line);
        assert(pieces(out@) =~= before + seq![drop_return(whole.take(n as int))]);
        assert(before + (seq![drop_return(whole.take(n as int))] + lines(whole.skip(n + 1)))
            =~= (before + seq![drop_return(whole.take(n as int))]) + lines(whole.skip(n + 1)));
        rest = slice_subrange(rest, n + 1, rest.len());
    }
    assert(pieces(out@) + lines(rest@) =~= pieces(out@));
    out
}

/// The texts with `sep` between each two.
pub fn join_texts(v: &[String], sep: &str) -> (r: String)
    ensures
        r@ == join(v.deep_view(), sep@),
{
    let mut r = String::new();
    let mut i: usize = 0;
    while i < v.len()
        invariant
            i <= v.len(),
            r@ == join(v.deep_view().take(i as int), sep@),
        decreases v.len() - i,
    {
        if i > 0 {
            r.append(sep);
        }
        r.append(v[i].as_str());
        assert(v.deep_view().take(i + 1).drop_last() =~= v.deep_view().take(i as int));
        i += 1;
    }
    assert(v.deep_view().take(v.len() as int) =~= v.deep_view());
    r
}

/// The slice without `p` at its start, if it begins with it.
pub fn strip_start_of<'a>(s: &'a [char], p: &str) -> (r: Option<&'a [char]>)
    ensures
        r is Some == strip_start(s@, p@) is Some,
        r matches Some(rest) ==> strip_start(s@, p@) == Some(rest@),
{
    let prefix = chars_of(p);
    if has_prefix(s, prefix.as_slice()) {
        assert(s@.subrange(p@.len() as int, s@.len() as int) =~= s@.skip(p@.len() as int));
        Some(slice_subrange(s, prefix.len(), s.len()))
    } else {
        None
    }
}

/// The slice without `p` at its end, if it ends with it.
pub fn strip_end_of<'a>(s: &'a [char], p: &str) -> (r: Option<&'a [char]>)
    ensures
        r is Some == strip_end(s@, p@) is Some,
        r matches Some(rest) ==> strip_end(s@, p@) == Some(rest@),
{
    let suffix = chars_of(p);
    if ends(s, p) {
        assert(s@.subrange(0, s@.len() - p@.len()) =~= s@.take(s@.len() - p@.len()));
        Some(slice_subrange(s, 0, s.len() - suffix.len()))
    } else {
        None
    }
}

/// Two texts, one behind the other.
pub fn cat2(a: &str, b: &str) -> (r: String)
    ensures
        r@ == a@ + b@,
{
    let mut r = a.to_string();
    r.append(b);
    r
}

/// Three texts, one behind the other.
pub fn cat3(a: &str, b: &str, c: &str) -> (r: String)
    ensures
        r@ == a@ + b@ + c@,
{
    let mut r = cat2(a, b);
    r.append(c);
    r
}

/// Four texts, one behind the other.
pub fn cat4(a: &str, b: &str, c: &str, d: &str) -> (r: String)
    ensures
        r@ == a@ + b@ + c@ + d@,
{
    let mut r = cat3(a, b, c);
    r.append(d);
    r
}

/// Five texts, one behind the other.
pub fn cat5(a: &str, b: &str, c: &str, d: &str, e: &str) -> (r: String)
    ensures
        r@ == a@ + b@ + c@ + d@ + e@,
{
    let mut r = cat4(a, b, c, d);
    r.append(e);
    r
}

} // verus!
