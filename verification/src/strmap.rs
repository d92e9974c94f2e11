//! A map from text to values, kept as an association list in key order.

use vstd::prelude::*;
use crate::text;

verus! {

/// The value held under `k`, if any.
pub open spec fn assoc_get<T>(s: Seq<(Seq<char>, T)>, k: Seq<char>) -> Option<T>
    decreases s.len(),
{
    if s.len() == 0 {
        None
    } else if s[0].0 == k {
        Some(s[0].1)
    } else {
        assoc_get(s.drop_first(), k)
    }
}

/// The list with `k` bound to `v`: in place where `k` is there already, else in
/// front of the first greater key.
pub open spec fn assoc_insert<T>(s: Seq<(Seq<char>, T)>, k: Seq<char>, v: T) -> Seq<
    (Seq<char>, T),
>
    decreases s.len(),
{
    if s.len() == 0 {
        seq![(k, v)]
    } else if s[0].0 == k {
        seq![(k, v)] + s.drop_first()
    } else if text::lex_lt(s[0].0, k) {
        seq![s[0]] + assoc_insert(s.drop_first(), k, v)
    } else {
        seq![(k, v)] + s
    }
}

/// The values under `k`, where the list binds keys to groups of values.
pub open spec fn assoc_group<T>(s: Seq<(Seq<char>, Seq<T>)>, k: Seq<char>) -> Seq<T> {
    match assoc_get(s, k) {
        Some(g) => g,
        None => Seq::empty(),
    }
}

/// The list with `item` added at the end of the group under `k`.
pub open spec fn assoc_push<T>(s: Seq<(Seq<char>, Seq<T>)>, k: Seq<char>, item: T) -> Seq<
    (Seq<char>, Seq<T>),
> {
    assoc_insert(s, k, assoc_group(s, k).push(item))
}

/// Keys strictly ascend.
pub open spec fn assoc_sorted<T>(s: Seq<(Seq<char>, T)>) -> bool {
    forall|i: int, j: int| 0 <= i < j < s.len() ==> #[trigger] text::lex_lt(s[i].0, s[j].0)
}

/// What was put under a key is read back under it.
pub proof fn law_get_after_insert<T>(s: Seq<(Seq<char>, T)>, k: Seq<char>, v: T)
    ensures
        assoc_get(assoc_insert(s, k, v), k) == Some(v),
    decreases s.len(),
{
    if s.len() > 0 && s[0].0 != k && text::lex_lt(s[0].0, k) {
        law_get_after_insert(s.drop_first(), k, v);
        let t = assoc_insert(s, k, v);
        assert(t.drop_first() =~= assoc_insert(s.drop_first(), k, v));
    }
}

/// Putting a value under one key leaves every other key as it was.
pub proof fn law_get_other_after_insert<T>(
    s: Seq<(Seq<char>, T)>,
    k: Seq<char>,
    v: T,
    other: Seq<char>,
)
    requires
        other != k,
    ensures
        assoc_get(assoc_insert(s, k, v), other) == assoc_get(s, other),
    decreases s.len(),
{
    let t = assoc_insert(s, k, v);
    if s.len() == 0 {
        assert(t.drop_first() =~= s);
    } else if s[0].0 == k {
        assert(t.drop_first() =~= s.drop_first());
    } else if text::lex_lt(s[0].0, k) {
        law_get_other_after_insert(s.drop_first(), k, v, other);
        assert(t.drop_first() =~= assoc_insert(s.drop_first(), k, v));
    } else {
        assert(t.drop_first() =~= s);
    }
}

proof fn insert_keys<T>(s: Seq<(Seq<char>, T)>, k: Seq<char>, v: T, i: int)
    requires
        0 <= i < assoc_insert(s, k, v).len(),
    ensures
        assoc_insert(s, k, v)[i].0 == k || exists|j: int|
            0 <= j < s.len() && #[trigger] s[j].0 == assoc_insert(s, k, v)[i].0,
    decreases s.len(),
{
    let t = assoc_insert(s, k, v);
    if s.len() == 0 || i == 0 {
        if s.len() > 0 {
            assert(s[0].0 == s[0].0);
        }
    } else if s[0].0 == k {
        assert(t[i] == s[i]);
    } else if text::lex_lt(s[0].0, k) {
        insert_keys(s.drop_first(), k, v, i - 1);
        assert(t[i] == assoc_insert(s.drop_first(), k, v)[i - 1]);
        if t[i].0 != k {
            let j = choose|j: int|
                0 <= j < s.drop_first().len() && #[trigger] s.drop_first()[j].0 == t[i].0;
            assert(s[j + 1].0 == t[i].0);
        }
    } else {
        assert(t[i] == s[i - 1]);
    }
}

/// Insertion keeps the keys in strictly ascending order.
pub proof fn law_insert_keeps_order<T>(s: Seq<(Seq<char>, T)>, k: Seq<char>, v: T)
    requires
        assoc_sorted(s),
    ensures
        assoc_sorted(assoc_insert(s, k, v)),
    decreases s.len(),
{
    let t = assoc_insert(s, k, v);
    if s.len() > 0 {
        let rest = s.drop_first();
        assert(assoc_sorted(rest)) by {
            assert forall|i: int, j: int| 0 <= i < j < rest.len() implies #[trigger] text::lex_lt(
                rest[i].0,
                rest[j].0,
            ) by {
                assert(text::lex_lt(s[i + 1].0, s[j + 1].0));
            }
        }
        law_insert_keeps_order(rest, k, v);
        let u = assoc_insert(rest, k, v);
        assert forall|i: int, j: int| 0 <= i < j < t.len() implies #[trigger] text::lex_lt(
            t[i].0,
            t[j].0,
        ) by {
            if s[0].0 == k {
                assert(t[j] == s[j]);
                assert(text::lex_lt(s[i].0, s[j].0));
            } else if text::lex_lt(s[0].0, k) {
                assert(t[j] == u[j - 1]);
                if i == 0 {
                    insert_keys(rest, k, v, j - 1);
                    if u[j - 1].0 != k {
                        let m = choose|m: int| 0 <= m < rest.len() && #[trigger] rest[m].0 == u[j - 1].0;
                        assert(text::lex_lt(s[0].0, s[m + 1].0));
                    }
                } else {
                    assert(t[i] == u[i - 1]);
                    assert(text::lex_lt(u[i - 1].0, u[j - 1].0));
                }
            } else {
                text::lex_lt_total(k, s[0].0);
                assert(t[j] == s[j - 1]);
                if i == 0 {
                    if j > 1 {
                        assert(text::lex_lt(s[0].0, s[j - 1].0));
                        text::lex_lt_transitive(k, s[0].0, s[j - 1].0);
                    }
                } else {
                    assert(t[i] == s[i - 1]);
                    assert(text::lex_lt(s[i - 1].0, s[j - 1].0));
                }
            }
        }
    }
}

/// Bindings of two different keys can be made in either order.
pub proof fn law_inserts_commute<T>(
    s: Seq<(Seq<char>, T)>,
    a: Seq<char>,
    x: T,
    b: Seq<char>,
    y: T,
)
    requires
        a != b,
        assoc_sorted(s),
    ensures
        assoc_insert(assoc_insert(s, a, x), b, y) == assoc_insert(assoc_insert(s, b, y), a, x),
    decreases s.len(),
{
    text::lex_lt_total(a, b);
    if text::lex_lt(a, b) {
        inserts_commute_ordered(s, a, x, b, y);
    } else {
        inserts_commute_ordered(s, b, y, a, x);
    }
}

proof fn inserts_commute_ordered<T>(
    s: Seq<(Seq<char>, T)>,
    a: Seq<char>,
    x: T,
    b: Seq<char>,
    y: T,
)
    requires
        text::lex_lt(a, b),
        assoc_sorted(s),
    ensures
        assoc_insert(assoc_insert(s, a, x), b, y) == assoc_insert(assoc_insert(s, b, y), a, x),
    decreases s.len(),
{
    text::lex_lt_irreflexive(a);
    text::lex_lt_asymmetric(a, b);
    let l = assoc_insert(assoc_insert(s, a, x), b, y);
    let r = assoc_insert(assoc_insert(s, b, y), a, x);
    if s.len() == 0 {
        let one = seq![(a, x)];
        assert(assoc_insert(one.drop_first(), b, y) =~= seq![(b, y)]);
        assert(l =~= seq![(a, x), (b, y)]);
        assert(r =~= seq![(a, x), (b, y)]);
    } else {
        let h = s[0];
        let rest = s.drop_first();
        assert(assoc_sorted(rest)) by {
            assert forall|i: int, j: int| 0 <= i < j < rest.len() implies #[trigger] text::lex_lt(
                rest[i].0,
                rest[j].0,
            ) by {
                assert(text::lex_lt(s[i + 1].0, s[j + 1].0));
            }
        }
        if h.0 == a {
            assert(assoc_insert(s, a, x).drop_first() =~= rest);
            assert(l =~= seq![(a, x)] + assoc_insert(rest, b, y));
            assert(assoc_insert(s, b, y) =~= seq![h] + assoc_insert(rest, b, y));
            assert(assoc_insert(s, b, y).drop_first() =~= assoc_insert(rest, b, y));
            assert(r =~= l);
        } else if text::lex_lt(h.0, a) {
            text::lex_lt_transitive(h.0, a, b);
            text::lex_lt_irreflexive(h.0);
            text::lex_lt_irreflexive(b);
            inserts_commute_ordered(rest, a, x, b, y);
            assert(assoc_insert(s, a, x).drop_first() =~= assoc_insert(rest, a, x));
            assert(assoc_insert(s, b, y).drop_first() =~= assoc_insert(rest, b, y));
            assert(l =~= seq![h] + assoc_insert(assoc_insert(rest, a, x), b, y));
            assert(r =~= seq![h] + assoc_insert(assoc_insert(rest, b, y), a, x));
        } else {
            let one = assoc_insert(s, a, x);
            assert(one =~= seq![(a, x)] + s);
            assert(one.drop_first() =~= s);
            assert(l =~= seq![(a, x)] + assoc_insert(s, b, y));
            let other = assoc_insert(s, b, y);
            text::lex_lt_total(a, h.0);
            assert(other[0].0 == b || other[0].0 == h.0);
            assert(r =~= seq![(a, x)] + other);
        }
    }
}

proof fn insert_splits<T>(s: Seq<(Seq<char>, T)>, k: Seq<char>, v: T, p: int)
    requires
        0 <= p <= s.len(),
        forall|i: int| 0 <= i < p ==> (#[trigger] s[i]).0 != k && text::lex_lt(s[i].0, k),
    ensures
        assoc_insert(s, k, v) == s.take(p) + assoc_insert(s.skip(p), k, v),
    decreases p,
{
    if p == 0 {
        assert(s.take(0) + assoc_insert(s.skip(0), k, v) =~= assoc_insert(s.skip(0), k, v));
        assert(s.skip(0) =~= s);
    } else {
        let rest = s.drop_first();
        assert forall|i: int| 0 <= i < p - 1 implies (#[trigger] rest[i]).0 != k && text::lex_lt(
            rest[i].0,
            k,
        ) by {
            assert(rest[i] == s[i + 1]);
        }
        assert(s[0].0 != k && text::lex_lt(s[0].0, k));
        insert_splits(rest, k, v, p - 1);
        assert(rest.skip(p - 1) =~= s.skip(p));
        assert(assoc_insert(s, k, v) =~= s.take(p) + assoc_insert(s.skip(p), k, v));
    }
}

proof fn get_skips<T>(s: Seq<(Seq<char>, T)>, k: Seq<char>, p: int)
    requires
        0 <= p <= s.len(),
        forall|i: int| 0 <= i < p ==> (#[trigger] s[i]).0 != k,
    ensures
        assoc_get(s, k) == assoc_get(s.skip(p), k),
    decreases p,
{
    if p == 0 {
        assert(s.skip(0) =~= s);
    } else {
        let rest = s.drop_first();
        assert forall|i: int| 0 <= i < p - 1 implies (#[trigger] rest[i]).0 != k by {
            assert(rest[i] == s[i + 1]);
        }
        assert(s[0].0 != k);
        get_skips(rest, k, p - 1);
        assert(rest.skip(p - 1) =~= s.skip(p));
    }
}

/// A key that is read is one of the keys of the list.
pub proof fn get_is_an_entry<T>(s: Seq<(Seq<char>, T)>, k: Seq<char>) -> (i: int)
    requires
        assoc_get(s, k) is Some,
    ensures
        0 <= i < s.len(),
        s[i].0 == k,
        s[i].1 == assoc_get(s, k)->0,
    decreases s.len(),
{
    if s[0].0 == k {
        0
    } else {
        let j = get_is_an_entry(s.drop_first(), k);
        j + 1
    }
}

/// In a list with each key once, reading the key of an entry gives its value.
pub proof fn entry_is_read<T>(s: Seq<(Seq<char>, T)>, i: int)
    requires
        assoc_sorted(s),
        0 <= i < s.len(),
    ensures
        assoc_get(s, s[i].0) == Some(s[i].1),
{
    let k = s[i].0;
    assert forall|j: int| 0 <= j < i implies (#[trigger] s[j]).0 != k by {
        assert(text::lex_lt(s[j].0, s[i].0));
        text::lex_lt_irreflexive(k);
    }
    get_skips(s, k, i);
    assert(s.skip(i)[0] == s[i]);
}

/// Putting a value under a key that is there changes that entry alone.
pub proof fn update_in_place<T>(s: Seq<(Seq<char>, T)>, k: Seq<char>, v: T, i: int)
    requires
        assoc_sorted(s),
        0 <= i < s.len(),
        s[i].0 == k,
    ensures
        assoc_insert(s, k, v) == s.update(i, (k, v)),
{
    assert forall|j: int| 0 <= j < i implies (#[trigger] s[j]).0 != k && text::lex_lt(
        s[j].0,
        k,
    ) by {
        assert(text::lex_lt(s[j].0, s[i].0));
        text::lex_lt_irreflexive(k);
    }
    insert_splits(s, k, v, i);
    assert(s.skip(i)[0] == s[i]);
    assert(assoc_insert(s, k, v) =~= s.update(i, (k, v)));
}

/// Entries in ascending key order, each key once.
#[derive(Debug, PartialEq)]
pub struct StrMap<V> {
    pub entries: Vec<(String, V)>,
}

impl<V: DeepView> DeepView for StrMap<V> {
    type V = Seq<(Seq<char>, V::V)>;

    open spec fn deep_view(&self) -> Seq<(Seq<char>, V::V)> {
        self.entries.deep_view()
    }
}

impl<V: DeepView> StrMap<V> {
    /// The map without entries.
    pub fn new() -> (r: Self)
        ensures
            r.deep_view() == Seq::<(Seq<char>, V::V)>::empty(),
    {
        let r = StrMap { entries: Vec::new() };
        assert(r.deep_view() =~= Seq::<(Seq<char>, V::V)>::empty());
        r
    }

    /// Keys strictly ascend.
    pub open spec fn wf(&self) -> bool {
        assoc_sorted(self.deep_view())
    }

    /// How many keys the map holds.
    pub fn len(&self) -> (r: usize)
        ensures
            r == self.deep_view().len(),
    {
        self.entries.len()
    }

    /// Where `key` stands in key order, if the map holds it.
    pub fn position(&self, key: &str) -> (r: Option<usize>)
        ensures
            match r {
                Some(i) => i < self.entries@.len() && self.entries@[i as int].0@ == key@
                    && assoc_get(self.deep_view(), key@) == Some(
                    self.entries@[i as int].1.deep_view(),
                ),
                None => assoc_get(self.deep_view(), key@) is None,
            },
    {
        let mut i: usize = 0;
        let ghost s = self.deep_view();
        while i < self.entries.len()
            invariant
                s == self.deep_view(),
                0 <= i <= self.entries@.len(),
                forall|j: int| 0 <= j < i ==> (#[trigger] s[j]).0 != key@,
            decreases self.entries@.len() - i,
        {
            assert(s[i as int].0 == self.entries@[i as int].0@);
            if text::text_eq(self.entries[i].0.as_str(), key) {
                proof {
                    get_skips(s, key@, i as int);
                    assert(s.skip(i as int)[0] == s[i as int]);
                }
                return Some(i);
            }
            i += 1;
        }
        proof {
            get_skips(s, key@, i as int);
        }
        None
    }

    /// The value under `key`.
    pub fn get(&self, key: &str) -> (r: Option<&V>)
        ensures
            r.deep_view() == assoc_get(self.deep_view(), key@),
    {
        match self.position(key) {
            Some(i) => Some(&self.entries[i].1),
            None => None,
        }
    }

    /// Does the map hold `key`?
    pub fn contains_key(&self, key: &str) -> (r: bool)
        ensures
            r == assoc_get(self.deep_view(), key@) is Some,
    {
        self.position(key).is_some()
    }

    /// Bind `key` to `value`, in place of what it was bound to.
    pub fn insert(&mut self, key: String, value: V)
        ensures
            final(self).deep_view() == assoc_insert(old(self).deep_view(), key@, value.deep_view()),
            old(self).wf() ==> final(self).wf(),
    {
        let ghost s = self.deep_view();
        let ghost v = value.deep_view();
        let mut i: usize = 0;
        while i < self.entries.len() && text::text_lt(self.entries[i].0.as_str(), key.as_str())
            invariant
                s == self.deep_view(),
                0 <= i <= self.entries@.len(),
                forall|j: int|
                    0 <= j < i ==> (#[trigger] s[j]).0 != key@ && text::lex_lt(s[j].0, key@),
            decreases self.entries@.len() - i,
        {
            proof {
                assert(s[i as int].0 == self.entries@[i as int].0@);
                text::lex_lt_irreflexive(key@);
            }
            i += 1;
        }
        proof {
            insert_splits(s, key@, v, i as int);
            if assoc_sorted(s) {
                law_insert_keeps_order(s, key@, v);
            }
            if i < s.len() {
                assert(s.skip(i as int)[0] == s[i as int]);
                assert(s[i as int].0 == self.entries@[i as int].0@);
            }
        }
        let ghost k = key@;
        if i < self.entries.len() && text::text_eq(self.entries[i].0.as_str(), key.as_str()) {
            self.entries.set(i, (key, value));
            assert(self.deep_view() =~= assoc_insert(s, k, v));
        } else {
            self.entries.insert(i, (key, value));
            assert(self.deep_view() =~= assoc_insert(s, k, v));
        }
    }
}

impl<T: DeepView> StrMap<Vec<T>> {
    /// Add `item` at the end of the group under `key`, which is there from then on.
    pub fn push_to(&mut self, key: &str, item: T)
        requires
            old(self).wf(),
        ensures
            final(self).deep_view() == assoc_push(old(self).deep_view(), key@, item.deep_view()),
            final(self).wf(),
    {
        let ghost s = self.deep_view();
        let ghost x = item.deep_view();
        match self.position(key) {
            Some(i) => {
                let (k, mut group) = self.entries.remove(i);
                let ghost g = group.deep_view();
                group.push(item);
                assert(group.deep_view() =~= g.push(x));
                self.entries.insert(i, (k, group));
                proof {
                    update_in_place(s, key@, g.push(x), i as int);
                    assert(self.deep_view() =~= s.update(i as int, (key@, g.push(x))));
                    law_insert_keeps_order(s, key@, g.push(x));
                }
            },
            None => {
                let mut group: Vec<T> = Vec::new();
                group.push(item);
                assert(group.deep_view() =~= Seq::<T::V>::empty().push(x));
                self.insert(key.to_owned(), group);
            },
        }
    }
}

} // verus!
