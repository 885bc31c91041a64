//! Collections in the order of their texts: sets and maps keyed by text, and a
//! stable sort by text keys.

use vstd::prelude::*;

use crate::text::{compare_text, text_lt, text_lt_irreflexive, text_lt_total, text_lt_transitive, TextOrder};

verus! {

// ---------------------------------------------------------------------------
// Model: strictly ordered sequences of texts
// ---------------------------------------------------------------------------

/// The texts stand in strictly ascending order.
pub open spec fn ascending(keys: Seq<Seq<char>>) -> bool {
    forall|i: int, j: int|
        0 <= i < j < keys.len() ==> text_lt(#[trigger] keys[i], #[trigger] keys[j])
}

/// The number of texts at the start of `keys` that come before `k`.
pub open spec fn slot(keys: Seq<Seq<char>>, k: Seq<char>) -> nat
    decreases keys.len(),
{
    if keys.len() > 0 && text_lt(keys[0], k) {
        1 + slot(keys.drop_first(), k)
    } else {
        0
    }
}

/// The ascending texts with `k` among them.
pub open spec fn with_text(keys: Seq<Seq<char>>, k: Seq<char>) -> Seq<Seq<char>> {
    let i = slot(keys, k) as int;
    if i < keys.len() && keys[i] == k {
        keys
    } else {
        keys.insert(i, k)
    }
}

/// The ascending texts that occur in `s`, each once.
pub open spec fn text_set(s: Seq<Seq<char>>) -> Seq<Seq<char>>
    decreases s.len(),
{
    if s.len() == 0 {
        seq![]
    } else {
        with_text(text_set(s.drop_last()), s.last())
    }
}

/// The keys of the entries.
pub open spec fn keys_of<V>(entries: Seq<(Seq<char>, V)>) -> Seq<Seq<char>> {
    entries.map_values(|e: (Seq<char>, V)| e.0)
}

/// The value stored under `k`.
pub open spec fn lookup<V>(entries: Seq<(Seq<char>, V)>, k: Seq<char>) -> Option<V> {
    let i = slot(keys_of(entries), k) as int;
    if i < entries.len() && entries[i].0 == k {
        Some(entries[i].1)
    } else {
        None
    }
}

/// The entries with `v` stored under `k`.
pub open spec fn put<V>(entries: Seq<(Seq<char>, V)>, k: Seq<char>, v: V) -> Seq<(Seq<char>, V)> {
    let i = slot(keys_of(entries), k) as int;
    if i < entries.len() && entries[i].0 == k {
        entries.update(i, (k, v))
    } else {
        entries.insert(i, (k, v))
    }
}

/// The entries without the one stored under `k`.
pub open spec fn without<V>(entries: Seq<(Seq<char>, V)>, k: Seq<char>) -> Seq<(Seq<char>, V)> {
    let i = slot(keys_of(entries), k) as int;
    if i < entries.len() && entries[i].0 == k {
        entries.remove(i)
    } else {
        entries
    }
}

/// The entries without those stored under the keys.
pub open spec fn without_all<V>(entries: Seq<(Seq<char>, V)>, keys: Seq<Seq<char>>) -> Seq<
    (Seq<char>, V),
>
    decreases keys.len(),
{
    if keys.len() == 0 {
        entries
    } else {
        without(without_all(entries, keys.drop_last()), keys.last())
    }
}

// ---------------------------------------------------------------------------
// Facts about the model
// ---------------------------------------------------------------------------

/// Where `slot` cuts: what is before it comes before `k`, the text at it does not.
pub proof fn slot_cuts(keys: Seq<Seq<char>>, k: Seq<char>)
    ensures
        slot(keys, k) <= keys.len(),
        forall|i: int| 0 <= i < slot(keys, k) ==> text_lt(#[trigger] keys[i], k),
        slot(keys, k) < keys.len() ==> !text_lt(keys[slot(keys, k) as int], k),
    decreases keys.len(),
{
    if keys.len() > 0 && text_lt(keys[0], k) {
        let t = keys.drop_first();
        slot_cuts(t, k);
        assert forall|i: int| 0 <= i < slot(keys, k) implies text_lt(#[trigger] keys[i], k) by {
            if i > 0 {
                assert(keys[i] == t[i - 1]);
            }
        }
    }
}

proof fn slot_is(keys: Seq<Seq<char>>, k: Seq<char>, i: int)
    requires
        0 <= i <= keys.len(),
        forall|j: int| 0 <= j < i ==> text_lt(#[trigger] keys[j], k),
        i < keys.len() ==> !text_lt(keys[i], k),
    ensures
        slot(keys, k) == i,
{
    slot_cuts(keys, k);
    let n = slot(keys, k) as int;
    if n < i {
        assert(text_lt(keys[n], k));
    }
    if i < n {
        assert(text_lt(keys[i], k));
    }
}

/// In ascending texts everything from the slot on comes after `k`, unless `k`
/// itself stands there.
pub proof fn slot_splits(keys: Seq<Seq<char>>, k: Seq<char>)
    requires
        ascending(keys),
    ensures
        keys.contains(k) <==> (slot(keys, k) < keys.len() && keys[slot(keys, k) as int] == k),
        forall|i: int| slot(keys, k) < i < keys.len() ==> text_lt(k, #[trigger] keys[i]),
        slot(keys, k) < keys.len() && keys[slot(keys, k) as int] != k ==> text_lt(
            k,
            keys[slot(keys, k) as int],
        ),
{
    slot_cuts(keys, k);
    let n = slot(keys, k) as int;
    if n < keys.len() {
        if keys[n] != k {
            text_lt_total(keys[n], k);
        }
        assert forall|i: int| n < i < keys.len() implies text_lt(k, #[trigger] keys[i]) by {
            assert(text_lt(keys[n], keys[i]));
            if keys[n] != k {
                text_lt_transitive(k, keys[n], keys[i]);
            }
        }
    }
    if keys.contains(k) {
        let i = choose|i: int| 0 <= i < keys.len() && keys[i] == k;
        text_lt_irreflexive(k);
        assert(!(i < n));
        assert(!(i > n));
    }
}

/// Adding a text keeps the texts ascending, and adds that text alone.
pub proof fn with_text_ascending(keys: Seq<Seq<char>>, k: Seq<char>)
    requires
        ascending(keys),
    ensures
        ascending(with_text(keys, k)),
        forall|x: Seq<char>|
            with_text(keys, k).contains(x) <==> (keys.contains(x) || x == k),
{
    slot_cuts(keys, k);
    slot_splits(keys, k);
    let n = slot(keys, k) as int;
    let r = with_text(keys, k);
    if n < keys.len() && keys[n] == k {
    } else {
        assert forall|i: int, j: int| 0 <= i < j < r.len() implies text_lt(
            #[trigger] r[i],
            #[trigger] r[j],
        ) by {
            let a = if i < n { i } else { i - 1 };
            let b = if j < n { j } else { j - 1 };
            if i != n && j != n {
                assert(text_lt(keys[a], keys[b]));
            }
        }
        assert forall|x: Seq<char>| r.contains(x) <==> (keys.contains(x) || x == k) by {
            if keys.contains(x) {
                let i = choose|i: int| 0 <= i < keys.len() && keys[i] == x;
                assert(r[if i < n { i } else { i + 1 }] == x);
            }
            assert(r[n] == k);
            if r.contains(x) {
                let i = choose|i: int| 0 <= i < r.len() && r[i] == x;
                if i != n {
                    assert(keys[if i < n { i } else { i - 1 }] == x);
                }
            }
        }
    }
}

/// The set of some texts is ascending and holds exactly those texts.
pub proof fn text_set_holds(s: Seq<Seq<char>>)
    ensures
        ascending(text_set(s)),
        forall|x: Seq<char>| text_set(s).contains(x) <==> s.contains(x),
    decreases s.len(),
{
    if s.len() > 0 {
        let t = s.drop_last();
        text_set_holds(t);
        with_text_ascending(text_set(t), s.last());
        assert forall|x: Seq<char>| text_set(s).contains(x) <==> s.contains(x) by {
            if t.contains(x) {
                let i = choose|i: int| 0 <= i < t.len() && t[i] == x;
                assert(s[i] == x);
            }
            if s.contains(x) {
                let i = choose|i: int| 0 <= i < s.len() && s[i] == x;
                if i < s.len() - 1 {
                    assert(t[i] == x);
                }
            }
        }
    }
}

/// Storing a value keeps the keys ascending.
pub proof fn put_keys<V>(entries: Seq<(Seq<char>, V)>, k: Seq<char>, v: V)
    ensures
        keys_of(put(entries, k, v)) == with_text(keys_of(entries), k),
{
    slot_cuts(keys_of(entries), k);
    assert(keys_of(put(entries, k, v)) =~= with_text(keys_of(entries), k));
}

/// A map gives back what was stored under a key, and storing under one key
/// leaves every other key as it was.
pub proof fn lookup_after_put<V>(entries: Seq<(Seq<char>, V)>, k: Seq<char>, v: V, other: Seq<char>)
    requires
        ascending(keys_of(entries)),
    ensures
        ascending(keys_of(put(entries, k, v))),
        lookup(put(entries, k, v), k) == Some(v),
        other != k ==> lookup(put(entries, k, v), other) == lookup(entries, other),
{
    let keys = keys_of(entries);
    let after = put(entries, k, v);
    put_keys(entries, k, v);
    with_text_ascending(keys, k);
    slot_cuts(keys, k);
    slot_splits(keys, k);
    let n = slot(keys, k) as int;
    let akeys = keys_of(after);
    text_lt_irreflexive(k);
    slot_is(akeys, k, n);
    if other != k {
        slot_cuts(keys, other);
        slot_splits(keys, other);
        let m = slot(keys, other) as int;
        slot_cuts(akeys, other);
        slot_splits(akeys, other);
        let am = slot(akeys, other) as int;
        if n < keys.len() && keys[n] == k {
            assert(akeys =~= keys);
        } else {
            assert(akeys.contains(other) <==> keys.contains(other));
            if keys.contains(other) {
                assert(entries[m].0 == keys[m]);
                let at = if m < n { m } else { m + 1 };
                assert(akeys[at] == other);
                text_lt_irreflexive(other);
                assert(am == at);
                assert(after[at] == entries[m]);
            } else {
                if am < akeys.len() {
                    assert(akeys[am] == after[am].0);
                }
                if m < keys.len() {
                    assert(keys[m] == entries[m].0);
                }
            }
        }
    }
}

/// A key that was removed is not found, and removing one key leaves every other
/// key as it was.
pub proof fn lookup_after_without<V>(entries: Seq<(Seq<char>, V)>, k: Seq<char>, other: Seq<char>)
    requires
        ascending(keys_of(entries)),
    ensures
        ascending(keys_of(without(entries, k))),
        lookup(without(entries, k), k) is None,
        other != k ==> lookup(without(entries, k), other) == lookup(entries, other),
{
    let keys = keys_of(entries);
    let after = without(entries, k);
    let akeys = keys_of(after);
    slot_cuts(keys, k);
    slot_splits(keys, k);
    let n = slot(keys, k) as int;
    if n < keys.len() && keys[n] == k {
        assert(akeys =~= keys.remove(n));
        assert forall|i: int, j: int| 0 <= i < j < akeys.len() implies text_lt(
            #[trigger] akeys[i],
            #[trigger] akeys[j],
        ) by {
            let a = if i < n { i } else { i + 1 };
            let b = if j < n { j } else { j + 1 };
            assert(text_lt(keys[a], keys[b]));
        }
        slot_cuts(akeys, k);
        let p = slot(akeys, k) as int;
        text_lt_irreflexive(k);
        if p < akeys.len() && akeys[p] == k {
            let a = if p < n { p } else { p + 1 };
            assert(keys[a] == k);
        }
        if other != k {
            slot_cuts(keys, other);
            slot_splits(keys, other);
            let m = slot(keys, other) as int;
            slot_cuts(akeys, other);
            slot_splits(akeys, other);
            let am = slot(akeys, other) as int;
            if keys.contains(other) {
                let at = if m < n { m } else { m - 1 };
                assert(akeys[at] == other);
                text_lt_irreflexive(other);
                assert(am == at);
                assert(after[at] == entries[m]);
            } else {
                if am < akeys.len() && akeys[am] == other {
                    let a = if am < n { am } else { am + 1 };
                    assert(keys[a] == other);
                }
                if am < akeys.len() {
                    assert(akeys[am] == after[am].0);
                }
                if m < keys.len() {
                    assert(keys[m] == entries[m].0);
                }
            }
        }
    } else {
        if n < keys.len() {
            assert(keys[n] == entries[n].0);
        }
    }
}

/// Leaving out one key more.
pub proof fn without_all_step<V>(entries: Seq<(Seq<char>, V)>, keys: Seq<Seq<char>>, n: int)
    requires
        0 <= n < keys.len(),
    ensures
        without_all(entries, keys.take(n + 1)) == without(
            without_all(entries, keys.take(n)),
            keys[n],
        ),
{
    assert(keys.take(n + 1).drop_last() =~= keys.take(n));
}

// ---------------------------------------------------------------------------
// Searching
// ---------------------------------------------------------------------------

/// The slot of `k` in ascending texts, by halving.
fn find_slot(keys: &Vec<String>, k: &str) -> (r: (usize, bool))
    requires
        ascending(keys.deep_view()),
    ensures
        r.0 == slot(keys.deep_view(), k@),
        r.0 <= keys.len(),
        r.1 == (r.0 < keys.len() && keys.deep_view()[r.0 as int] == k@),
{
    let mut lo: usize = 0;
    let mut hi: usize = keys.len();
    let ghost m = keys.deep_view();
    while lo < hi
        invariant
            lo <= hi <= keys.len(),
            m == keys.deep_view(),
            ascending(m),
            forall|i: int| 0 <= i < lo ==> text_lt(#[trigger] m[i], k@),
            forall|i: int| hi <= i < m.len() ==> !text_lt(#[trigger] m[i], k@),
        decreases hi - lo,
    {
        let mid = lo + (hi - lo) / 2;
        assert(m[mid as int] == keys[mid as int]@);
        match compare_text(keys[mid].as_str(), k) {
            TextOrder::Before => {
                assert forall|i: int| 0 <= i < mid + 1 implies text_lt(#[trigger] m[i], k@) by {
                    if i < mid {
                        text_lt_transitive(m[i], m[mid as int], k@);
                    }
                }
                lo = mid + 1;
            },
            _ => {
                assert forall|i: int| mid <= i < m.len() implies !text_lt(#[trigger] m[i], k@) by {
                    if i > mid && text_lt(m[i], k@) {
                        text_lt_transitive(m[mid as int], m[i], k@);
                    }
                }
                hi = mid;
            },
        }
    }
    proof {
        slot_is(m, k@, lo as int);
    }
    if lo < keys.len() {
        match compare_text(keys[lo].as_str(), k) {
            TextOrder::Same => (lo, true),
            _ => (lo, false),
        }
    } else {
        (lo, false)
    }
}

// ---------------------------------------------------------------------------
// Set
// ---------------------------------------------------------------------------

/// A set of texts, held in ascending order.
#[derive(Debug, PartialEq, Eq)]
pub struct TextSet {
    items: Vec<String>,
}

impl DeepView for TextSet {
    type V = Seq<Seq<char>>;

    closed spec fn deep_view(&self) -> Seq<Seq<char>> {
        self.items.deep_view()
    }
}

impl TextSet {
    #[verifier::type_invariant]
    closed spec fn well_formed(self) -> bool {
        ascending(self.items.deep_view())
    }

    /// The empty set.
    pub fn new() -> (r: Self)
        ensures
            r.deep_view() == Seq::<Seq<char>>::empty(),
    {
        let items: Vec<String> = Vec::new();
        assert(items.deep_view() =~= Seq::<Seq<char>>::empty());
        TextSet { items }
    }

    /// The set of the given texts.
    pub fn of(texts: &Vec<String>) -> (r: Self)
        ensures
            r.deep_view() == text_set(texts.deep_view()),
    {
        let mut r = TextSet::new();
        let ghost all = texts.deep_view();
        assert(all.take(0) =~= seq![]);
        for i in 0..texts.len()
            invariant
                all == texts.deep_view(),
                r.deep_view() == text_set(all.take(i as int)),
        {
            r.insert(texts[i].clone());
            assert(all.take(i + 1).drop_last() =~= all.take(i as int));
        }
        assert(all.take(all.len() as int) =~= all);
        r
    }

    /// The number of texts.
    pub fn len(&self) -> (r: usize)
        ensures
            r == self.deep_view().len(),
    {
        self.items.len()
    }

    /// The set is empty.
    pub fn is_empty(&self) -> (r: bool)
        ensures
            r == (self.deep_view().len() == 0),
    {
        self.items.len() == 0
    }

    /// The texts in ascending order.
    pub fn items(&self) -> (r: &Vec<String>)
        ensures
            r.deep_view() == self.deep_view(),
            ascending(r.deep_view()),
    {
        proof {
            use_type_invariant(self);
        }
        &self.items
    }

    /// The text is in the set.
    pub fn contains(&self, k: &str) -> (r: bool)
        ensures
            r == self.deep_view().contains(k@),
    {
        proof {
            use_type_invariant(self);
            slot_splits(self.items.deep_view(), k@);
        }
        find_slot(&self.items, k).1
    }

    /// Adds a text; tells whether it was new.
    pub fn insert(&mut self, k: String) -> (r: bool)
        ensures
            final(self).deep_view() == with_text(old(self).deep_view(), k@),
            r == !old(self).deep_view().contains(k@),
    {
        proof {
            use_type_invariant(&*self);
            slot_splits(self.items.deep_view(), k@);
            with_text_ascending(self.items.deep_view(), k@);
        }
        let (i, found) = find_slot(&self.items, k.as_str());
        if found {
            return false;
        }
        let ghost before = self.items.deep_view();
        let mut items: Vec<String> = Vec::new();
        std::mem::swap(&mut items, &mut self.items);
        let ghost key = k@;
        items.insert(i, k);
        assert(items.deep_view() =~= before.insert(i as int, key));
        self.items = items;
        true
    }
}

// ---------------------------------------------------------------------------
// Map
// ---------------------------------------------------------------------------

/// A map from texts to values, held in ascending order of its keys.
#[derive(Debug, PartialEq, Eq)]
pub struct TextMap<V> {
    keys: Vec<String>,
    values: Vec<V>,
}

impl<V: DeepView> DeepView for TextMap<V> {
    type V = Seq<(Seq<char>, V::V)>;

    closed spec fn deep_view(&self) -> Seq<(Seq<char>, V::V)> {
        Seq::new(self.keys@.len(), |i: int| (self.keys@[i]@, self.values@[i].deep_view()))
    }
}

impl<V> TextMap<V> {
    #[verifier::type_invariant]
    closed spec fn well_formed(self) -> bool {
        &&& self.keys@.len() == self.values@.len()
        &&& ascending(self.keys.deep_view())
    }
}

impl<V: DeepView> TextMap<V> {
    /// The empty map.
    pub fn new() -> (r: Self)
        ensures
            r.deep_view() == Seq::<(Seq<char>, V::V)>::empty(),
    {
        let keys: Vec<String> = Vec::new();
        let values: Vec<V> = Vec::new();
        assert(keys.deep_view() =~= Seq::<Seq<char>>::empty());
        let r = TextMap { keys, values };
        assert(r.deep_view() =~= Seq::<(Seq<char>, V::V)>::empty());
        r
    }

    /// The number of entries.
    pub fn len(&self) -> (r: usize)
        ensures
            r == self.deep_view().len(),
            ascending(keys_of(self.deep_view())),
    {
        proof {
            use_type_invariant(self);
            assert(keys_of(self.deep_view()) =~= self.keys.deep_view());
        }
        self.keys.len()
    }

    /// The map is empty.
    pub fn is_empty(&self) -> (r: bool)
        ensures
            r == (self.deep_view().len() == 0),
    {
        self.keys.len() == 0
    }

    /// The key of the entry at a position in the order of keys.
    pub fn key_at(&self, i: usize) -> (r: &String)
        requires
            i < self.deep_view().len(),
        ensures
            r@ == self.deep_view()[i as int].0,
    {
        &self.keys[i]
    }

    /// The value of the entry at a position in the order of keys.
    pub fn value_at(&self, i: usize) -> (r: &V)
        requires
            i < self.deep_view().len(),
        ensures
            r.deep_view() == self.deep_view()[i as int].1,
    {
        proof {
            use_type_invariant(self);
        }
        &self.values[i]
    }

    /// The value stored under a key.
    pub fn get(&self, k: &str) -> (r: Option<&V>)
        ensures
            r is Some <==> lookup(self.deep_view(), k@) is Some,
            r matches Some(v) ==> lookup(self.deep_view(), k@) == Some(v.deep_view()),
    {
        proof {
            use_type_invariant(self);
            assert(keys_of(self.deep_view()) =~= self.keys.deep_view());
        }
        let (i, found) = find_slot(&self.keys, k);
        if found {
            Some(&self.values[i])
        } else {
            None
        }
    }

    /// A value is stored under the key.
    pub fn contains_key(&self, k: &str) -> (r: bool)
        ensures
            r == lookup(self.deep_view(), k@) is Some,
    {
        self.get(k).is_some()
    }

    /// Stores a value under a key, in place of the one stored there before.
    pub fn insert(&mut self, k: String, v: V)
        ensures
            final(self).deep_view() == put(old(self).deep_view(), k@, v.deep_view()),
    {
        let ghost entries = self.deep_view();
        proof {
            use_type_invariant(&*self);
            assert(keys_of(entries) =~= self.keys.deep_view());
            with_text_ascending(self.keys.deep_view(), k@);
        }
        let (i, found) = find_slot(&self.keys, k.as_str());
        let ghost before = self.keys.deep_view();
        let ghost key = k@;
        let ghost value = v.deep_view();
        let keys: Vec<String> = Vec::new();
        let values: Vec<V> = Vec::new();
        let mut whole = TextMap { keys, values };
        std::mem::swap(&mut whole, self);
        let TextMap { keys: mut keys, values: mut values } = whole;
        if found {
            values.remove(i);
            values.insert(i, v);
        } else {
            keys.insert(i, k);
            values.insert(i, v);
            assert(keys.deep_view() =~= before.insert(i as int, key));
        }
        *self = TextMap { keys, values };
        assert(self.deep_view() =~= put(entries, key, value));
    }

    /// Takes out the value stored under a key.
    pub fn remove(&mut self, k: &str) -> (r: Option<V>)
        ensures
            final(self).deep_view() == without(old(self).deep_view(), k@),
            r is Some <==> lookup(old(self).deep_view(), k@) is Some,
            r matches Some(v) ==> lookup(old(self).deep_view(), k@) == Some(v.deep_view()),
    {
        let ghost entries = self.deep_view();
        proof {
            use_type_invariant(&*self);
            assert(keys_of(entries) =~= self.keys.deep_view());
            lookup_after_without(entries, k@, k@);
        }
        let (i, found) = find_slot(&self.keys, k);
        if !found {
            return None;
        }
        let keys: Vec<String> = Vec::new();
        let values: Vec<V> = Vec::new();
        assert(keys.deep_view() =~= Seq::<Seq<char>>::empty());
        let mut whole = TextMap { keys, values };
        std::mem::swap(&mut whole, self);
        let TextMap { keys: mut keys, values: mut values } = whole;
        keys.remove(i);
        let v = values.remove(i);
        assert(keys.deep_view() =~= keys_of(without(entries, k@)));
        *self = TextMap { keys, values };
        assert(self.deep_view() =~= without(entries, k@));
        Some(v)
    }
}

/// Copies a list of texts.
pub(crate) fn copy_texts(texts: &[String]) -> (r: Vec<String>)
    ensures
        r.deep_view() == texts.deep_view(),
{
    let ghost all = texts.deep_view();
    let mut r: Vec<String> = Vec::new();
    assert(r.deep_view() =~= all.take(0));
    for i in 0..texts.len()
        invariant
            all == texts.deep_view(),
            r.deep_view() == all.take(i as int),
    {
        let ghost before = r.deep_view();
        r.push(texts[i].clone());
        assert(r.deep_view() =~= before.push(all[i as int]));
        assert(all.take(i + 1) =~= before.push(all[i as int]));
    }
    assert(all.take(all.len() as int) =~= all);
    r
}

impl Clone for TextSet {
    fn clone(&self) -> (r: Self)
        ensures
            r.deep_view() == self.deep_view(),
    {
        proof {
            use_type_invariant(self);
        }
        TextSet { items: copy_texts(self.items.as_slice()) }
    }
}

impl Clone for TextMap<String> {
    fn clone(&self) -> (r: Self)
        ensures
            r.deep_view() == self.deep_view(),
    {
        proof {
            use_type_invariant(self);
        }
        let keys = copy_texts(self.keys.as_slice());
        let values = copy_texts(self.values.as_slice());
        proof {
            let ks = self.keys.deep_view();
            let vs = self.values.deep_view();
            assert(keys.deep_view() == ks);
            assert(values.deep_view() == vs);
            assert(keys.deep_view().len() == ks.len());
            assert(values.deep_view().len() == vs.len());
            assert forall|i: int| 0 <= i < ks.len() implies #[trigger] keys@[i]@ == self.keys@[i]@
                && values@[i]@ == self.values@[i]@ by {
                assert(keys.deep_view()[i] == ks[i]);
                assert(values.deep_view()[i] == vs[i]);
            }
        }
        let r = TextMap { keys, values };
        assert(r.deep_view() =~= self.deep_view());
        r
    }
}

} // verus!
