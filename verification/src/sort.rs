//! A stable sort by keys made of texts.

use vstd::prelude::*;

use crate::text::{compare_text, text_lt, text_lt_irreflexive, text_lt_total, text_lt_transitive, TextOrder};

verus! {

/// The first list of texts comes strictly before the second: at the first
/// difference its text comes before the other, or it is a proper prefix.
pub open spec fn key_lt(a: Seq<Seq<char>>, b: Seq<Seq<char>>) -> bool
    decreases a.len(),
{
    if b.len() == 0 {
        false
    } else if a.len() == 0 {
        true
    } else if a[0] != b[0] {
        text_lt(a[0], b[0])
    } else {
        key_lt(a.drop_first(), b.drop_first())
    }
}

/// What is sorted by a key made of texts.
pub trait Sortable: DeepView + Sized {
    /// The key of an item.
    spec fn key(item: Self::V) -> Seq<Seq<char>>;

    /// The key of this item comes strictly before that of the other.
    fn comes_before(&self, other: &Self) -> (r: bool)
        ensures
            r == key_lt(Self::key(self.deep_view()), Self::key(other.deep_view())),
    ;
}

/// The number of items at the start of `s` that `x` does not come before.
pub open spec fn place<T: Sortable>(s: Seq<T::V>, x: T::V) -> nat
    decreases s.len(),
{
    if s.len() > 0 && !key_lt(T::key(x), T::key(s[0])) {
        1 + place::<T>(s.drop_first(), x)
    } else {
        0
    }
}

/// The items in the order of their keys; items of equal key keep their order.
/// Each item in turn goes behind those that it does not come before.
pub open spec fn sorted<T: Sortable>(s: Seq<T::V>) -> Seq<T::V>
    decreases s.len(),
{
    if s.len() == 0 {
        seq![]
    } else {
        let t = sorted::<T>(s.drop_last());
        t.insert(place::<T>(t, s.last()) as int, s.last())
    }
}

/// No item comes before one that stands to its left.
pub open spec fn in_order<T: Sortable>(s: Seq<T::V>) -> bool {
    forall|i: int, j: int|
        0 <= i < j < s.len() ==> !key_lt(T::key(#[trigger] s[j]), T::key(#[trigger] s[i]))
}

// ---------------------------------------------------------------------------
// Facts about the model
// ---------------------------------------------------------------------------

/// No key comes before itself.
pub proof fn key_lt_irreflexive(a: Seq<Seq<char>>)
    ensures
        !key_lt(a, a),
    decreases a.len(),
{
    if a.len() > 0 {
        key_lt_irreflexive(a.drop_first());
    }
}

/// Of two keys at most one comes before the other.
pub proof fn key_lt_asymmetric(a: Seq<Seq<char>>, b: Seq<Seq<char>>)
    requires
        key_lt(a, b),
    ensures
        !key_lt(b, a),
    decreases a.len(),
{
    if a.len() > 0 {
        if a[0] == b[0] {
            key_lt_asymmetric(a.drop_first(), b.drop_first());
        } else if text_lt(b[0], a[0]) {
            text_lt_transitive(a[0], b[0], a[0]);
            text_lt_irreflexive(a[0]);
        }
    }
}

/// If `a` is not after `b`, and `b` comes before `c`, then `a` comes before `c`.
pub proof fn key_lt_transitive(a: Seq<Seq<char>>, b: Seq<Seq<char>>, c: Seq<Seq<char>>)
    requires
        !key_lt(b, a),
        key_lt(b, c),
    ensures
        key_lt(a, c),
    decreases b.len(),
{
    if a.len() > 0 && b.len() > 0 {
        if a[0] == b[0] && b[0] == c[0] {
            key_lt_transitive(a.drop_first(), b.drop_first(), c.drop_first());
        } else if a[0] == b[0] {
        } else {
            text_lt_total(a[0], b[0]);
            if b[0] != c[0] {
                text_lt_transitive(a[0], b[0], c[0]);
            }
            if a[0] == c[0] {
                text_lt_transitive(a[0], b[0], c[0]);
                text_lt_irreflexive(a[0]);
            }
        }
    }
}

/// Of two keys of which neither comes before the other, each is the other.
pub proof fn key_lt_total(a: Seq<Seq<char>>, b: Seq<Seq<char>>)
    requires
        !key_lt(a, b),
        !key_lt(b, a),
    ensures
        a == b,
    decreases a.len(),
{
    if a.len() > 0 && b.len() > 0 {
        if a[0] != b[0] {
            text_lt_total(a[0], b[0]);
        }
        key_lt_total(a.drop_first(), b.drop_first());
        assert(a =~= seq![a[0]] + a.drop_first());
        assert(b =~= seq![b[0]] + b.drop_first());
    } else {
        assert(a =~= b);
    }
}

proof fn place_cuts<T: Sortable>(s: Seq<T::V>, x: T::V)
    ensures
        place::<T>(s, x) <= s.len(),
        forall|i: int|
            0 <= i < place::<T>(s, x) ==> !key_lt(T::key(x), T::key(#[trigger] s[i])),
        place::<T>(s, x) < s.len() ==> key_lt(T::key(x), T::key(s[place::<T>(s, x) as int])),
    decreases s.len(),
{
    if s.len() > 0 && !key_lt(T::key(x), T::key(s[0])) {
        let t = s.drop_first();
        place_cuts::<T>(t, x);
        assert forall|i: int| 0 <= i < place::<T>(s, x) implies !key_lt(
            T::key(x),
            T::key(#[trigger] s[i]),
        ) by {
            if i > 0 {
                assert(s[i] == t[i - 1]);
            }
        }
    }
}

proof fn place_is<T: Sortable>(s: Seq<T::V>, x: T::V, n: int)
    requires
        0 <= n <= s.len(),
        forall|i: int| 0 <= i < n ==> !key_lt(T::key(x), T::key(#[trigger] s[i])),
        n < s.len() ==> key_lt(T::key(x), T::key(s[n])),
    ensures
        place::<T>(s, x) == n,
{
    place_cuts::<T>(s, x);
    let p = place::<T>(s, x) as int;
    if p < n {
        assert(!key_lt(T::key(x), T::key(s[p])));
    }
    if n < p {
        assert(!key_lt(T::key(x), T::key(s[n])));
    }
}

proof fn insert_keeps_order<T: Sortable>(s: Seq<T::V>, x: T::V)
    requires
        in_order::<T>(s),
    ensures
        in_order::<T>(s.insert(place::<T>(s, x) as int, x)),
{
    place_cuts::<T>(s, x);
    let n = place::<T>(s, x) as int;
    let r = s.insert(n, x);
    assert forall|i: int, j: int| 0 <= i < j < r.len() implies !key_lt(
        T::key(#[trigger] r[j]),
        T::key(#[trigger] r[i]),
    ) by {
        if i == n {
            // what stands behind the place is not before what stands at it
            let b = j - 1;
            key_lt_asymmetric(T::key(x), T::key(s[n]));
            if key_lt(T::key(s[b]), T::key(x)) && b > n {
                key_lt_transitive(T::key(s[n]), T::key(s[b]), T::key(x));
            }
        } else if j == n {
        } else {
            let a = if i < n { i } else { i - 1 };
            let b = if j < n { j } else { j - 1 };
            assert(!key_lt(T::key(s[b]), T::key(s[a])));
        }
    }
}

/// Sorting puts the items in the order of their keys, and neither adds nor
/// drops any.
pub proof fn sorted_is_ordered<T: Sortable>(s: Seq<T::V>)
    ensures
        in_order::<T>(sorted::<T>(s)),
        sorted::<T>(s).len() == s.len(),
        sorted::<T>(s).to_multiset() == s.to_multiset(),
    decreases s.len(),
{
    if s.len() > 0 {
        let t = sorted::<T>(s.drop_last());
        sorted_is_ordered::<T>(s.drop_last());
        insert_keeps_order::<T>(t, s.last());
        place_cuts::<T>(t, s.last());
        broadcast use vstd::seq_lib::group_to_multiset_ensures;

        assert(s =~= s.drop_last().push(s.last()));
        assert(t.insert(place::<T>(t, s.last()) as int, s.last()).to_multiset()
            =~= t.to_multiset().insert(s.last()));
    } else {
        assert(sorted::<T>(s) =~= s);
    }
}

/// The items of `s` whose key is `k`, in the order in which they stand.
pub open spec fn of_key<T: Sortable>(s: Seq<T::V>, k: Seq<Seq<char>>) -> Seq<T::V> {
    s.filter(|x: T::V| T::key(x) == k)
}

proof fn filter_insert<T: Sortable>(s: Seq<T::V>, n: int, x: T::V, k: Seq<Seq<char>>)
    requires
        0 <= n <= s.len(),
        forall|i: int| n <= i < s.len() ==> T::key(#[trigger] s[i]) != T::key(x),
    ensures
        of_key::<T>(s.insert(n, x), k) == if T::key(x) == k {
            of_key::<T>(s, k).push(x)
        } else {
            of_key::<T>(s, k)
        },
    decreases s.len(),
{
    let p = |y: T::V| T::key(y) == k;
    reveal(Seq::filter);
    let r = s.insert(n, x);
    if n == s.len() {
        assert(r.drop_last() =~= s);
    } else {
        let t = s.drop_last();
        assert(r.drop_last() =~= t.insert(n, x));
        assert(r.last() == s.last());
        filter_insert::<T>(t, n, x, k);
    }
}

/// Sorting is stable: the items of one key keep their order.
pub proof fn sorted_is_stable<T: Sortable>(s: Seq<T::V>, k: Seq<Seq<char>>)
    ensures
        of_key::<T>(sorted::<T>(s), k) == of_key::<T>(s, k),
    decreases s.len(),
{
    if s.len() > 0 {
        let t = sorted::<T>(s.drop_last());
        let x = s.last();
        let n = place::<T>(t, x) as int;
        sorted_is_stable::<T>(s.drop_last(), k);
        sorted_is_ordered::<T>(s.drop_last());
        place_cuts::<T>(t, x);
        assert forall|i: int| n <= i < t.len() implies T::key(#[trigger] t[i]) != T::key(x) by {
            key_lt_irreflexive(T::key(x));
            if T::key(t[i]) == T::key(x) {
                assert(i > n);
                assert(!key_lt(T::key(t[i]), T::key(t[n])));
            }
        }
        filter_insert::<T>(t, n, x, k);
        reveal(Seq::filter);
    } else {
        assert(sorted::<T>(s) =~= s);
    }
}

// ---------------------------------------------------------------------------
// Sorting
// ---------------------------------------------------------------------------

fn find_place<T: Sortable>(v: &Vec<T>, x: &T) -> (r: usize)
    requires
        in_order::<T>(v.deep_view()),
    ensures
        r == place::<T>(v.deep_view(), x.deep_view()),
        r <= v.len(),
{
    let mut lo: usize = 0;
    let mut hi: usize = v.len();
    let ghost m = v.deep_view();
    let ghost k = T::key(x.deep_view());
    while lo < hi
        invariant
            lo <= hi <= v.len(),
            m == v.deep_view(),
            k == T::key(x.deep_view()),
            in_order::<T>(m),
            forall|i: int| 0 <= i < lo ==> !key_lt(k, T::key(#[trigger] m[i])),
            forall|i: int| hi <= i < m.len() ==> key_lt(k, T::key(#[trigger] m[i])),
        decreases hi - lo,
    {
        let mid = lo + (hi - lo) / 2;
        assert(m[mid as int] == v[mid as int].deep_view());
        if x.comes_before(&v[mid]) {
            assert forall|i: int| mid <= i < m.len() implies key_lt(k, T::key(#[trigger] m[i])) by {
                if i > mid && !key_lt(k, T::key(m[i])) {
                    assert(!key_lt(T::key(m[i]), T::key(m[mid as int])));
                    key_lt_transitive(T::key(m[i]), k, T::key(m[mid as int]));
                }
            }
            hi = mid;
        } else {
            assert forall|i: int| 0 <= i < mid + 1 implies !key_lt(k, T::key(#[trigger] m[i])) by {
                if i < mid && key_lt(k, T::key(m[i])) {
                    assert(!key_lt(T::key(m[mid as int]), T::key(m[i])));
                    key_lt_transitive(T::key(m[mid as int]), k, T::key(m[i]));
                }
            }
            lo = mid + 1;
        }
    }
    proof {
        place_is::<T>(m, x.deep_view(), lo as int);
    }
    lo
}

/// Sorts the items by their keys; items of equal key keep their order.
pub fn sort_items<T: Sortable>(items: Vec<T>) -> (r: Vec<T>)
    ensures
        r.deep_view() == sorted::<T>(items.deep_view()),
{
    let ghost all = items.deep_view();
    let mut out: Vec<T> = Vec::new();
    assert(out.deep_view() =~= sorted::<T>(all.take(0)));
    for x in it: items
        invariant
            it.seq().len() == all.len(),
            forall|i: int| 0 <= i < all.len() ==> all[i] == (#[trigger] it.seq()[i]).deep_view(),
            out.deep_view() == sorted::<T>(all.take(it.index() as int)),
    {
        let ghost n = it.index() as int;
        let ghost t = out.deep_view();
        proof {
            sorted_is_ordered::<T>(all.take(n));
            assert(all.take(n + 1).drop_last() =~= all.take(n));
            assert(all.take(n + 1).last() == x.deep_view());
        }
        let ghost m = x.deep_view();
        let p = find_place(&out, &x);
        out.insert(p, x);
        assert(out.deep_view() =~= t.insert(p as int, m));
    }
    assert(all.take(all.len() as int) =~= all);
    out
}

impl Sortable for String {
    open spec fn key(item: Seq<char>) -> Seq<Seq<char>> {
        seq![item]
    }

    fn comes_before(&self, other: &Self) -> (r: bool) {
        proof {
            reveal_with_fuel(key_lt, 2);
            if self@ == other@ {
                text_lt_irreflexive(self@);
            }
        }
        text_comes_before(self.as_str(), other.as_str())
    }
}

/// The first text comes strictly before the second.
pub fn text_comes_before(a: &str, b: &str) -> (r: bool)
    ensures
        r == text_lt(a@, b@),
{
    proof {
        if a@ == b@ {
            text_lt_irreflexive(a@);
        }
        if text_lt(a@, b@) && text_lt(b@, a@) {
            text_lt_transitive(a@, b@, a@);
            text_lt_irreflexive(a@);
        }
    }
    match compare_text(a, b) {
        TextOrder::Before => true,
        _ => false,
    }
}

} // verus!
