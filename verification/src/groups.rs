//! Rows grouped under keys of several texts, groups in key order.

use vstd::prelude::*;
use crate::text;

verus! {

/// Strict lexicographic order of lists of texts; a list comes before its
/// extensions.
pub open spec fn list_lt(a: Seq<Seq<char>>, b: Seq<Seq<char>>) -> bool
    decreases a.len(),
{
    if b.len() == 0 {
        false
    } else if a.len() == 0 {
        true
    } else if a[0] == b[0] {
        list_lt(a.drop_first(), b.drop_first())
    } else {
        text::lex_lt(a[0], b[0])
    }
}

/// A list of texts does not come before itself.
pub proof fn list_lt_irreflexive(a: Seq<Seq<char>>)
    ensures
        !list_lt(a, a),
    decreases a.len(),
{
    if a.len() > 0 {
        list_lt_irreflexive(a.drop_first());
    }
}

proof fn list_lt_common_prefix(a: Seq<Seq<char>>, b: Seq<Seq<char>>, n: int)
    requires
        0 <= n <= a.len(),
        n <= b.len(),
        forall|i: int| 0 <= i < n ==> #[trigger] a[i] == b[i],
    ensures
        list_lt(a, b) == list_lt(a.skip(n), b.skip(n)),
    decreases n,
{
    if n == 0 {
        assert(a.skip(0) =~= a);
        assert(b.skip(0) =~= b);
    } else {
        assert(a[0] == b[0]);
        let (x, y) = (a.drop_first(), b.drop_first());
        assert forall|i: int| 0 <= i < n - 1 implies #[trigger] x[i] == y[i] by {
            assert(a[i + 1] == b[i + 1]);
        }
        list_lt_common_prefix(x, y, n - 1);
        assert(x.skip(n - 1) =~= a.skip(n));
        assert(y.skip(n - 1) =~= b.skip(n));
    }
}

/// Does `a` come strictly before `b`?
pub fn list_before(a: &Vec<String>, b: &Vec<String>) -> (r: bool)
    ensures
        r == list_lt(a.deep_view(), b.deep_view()),
{
    let ghost (x, y) = (a.deep_view(), b.deep_view());
    let mut i: usize = 0;
    while i < a.len() && i < b.len()
        invariant
            x == a.deep_view(),
            y == b.deep_view(),
            0 <= i <= a@.len(),
            i <= b@.len(),
            forall|j: int| 0 <= j < i ==> #[trigger] x[j] == y[j],
        decreases a@.len() - i,
    {
        assert(x[i as int] == a@[i as int]@);
        assert(y[i as int] == b@[i as int]@);
        if !text::text_eq(a[i].as_str(), b[i].as_str()) {
            proof {
                list_lt_common_prefix(x, y, i as int);
                assert(x.skip(i as int)[0] == x[i as int]);
                assert(y.skip(i as int)[0] == y[i as int]);
            }
            return text::text_lt(a[i].as_str(), b[i].as_str());
        }
        i += 1;
    }
    proof {
        list_lt_common_prefix(x, y, i as int);
    }
    i < b.len()
}

/// Do the lists hold the same texts?
pub fn list_eq(a: &Vec<String>, b: &Vec<String>) -> (r: bool)
    ensures
        r == (a.deep_view() == b.deep_view()),
{
    if a.len() != b.len() {
        assert(a.deep_view().len() != b.deep_view().len());
        return false;
    }
    let mut i: usize = 0;
    while i < a.len()
        invariant
            a@.len() == b@.len(),
            0 <= i <= a@.len(),
            forall|j: int| 0 <= j < i ==> #[trigger] a.deep_view()[j] == b.deep_view()[j],
        decreases a@.len() - i,
    {
        assert(a.deep_view()[i as int] == a@[i as int]@);
        assert(b.deep_view()[i as int] == b@[i as int]@);
        if !text::text_eq(a[i].as_str(), b[i].as_str()) {
            return false;
        }
        i += 1;
    }
    assert(a.deep_view() =~= b.deep_view());
    true
}

/// The groups with `item` added at the end of the group under `k`; a new group
/// stands in front of the first greater key.
pub open spec fn group_push<T>(s: Seq<(Seq<Seq<char>>, Seq<T>)>, k: Seq<Seq<char>>, item: T) -> Seq<
    (Seq<Seq<char>>, Seq<T>),
>
    decreases s.len(),
{
    if s.len() == 0 {
        seq![(k, seq![item])]
    } else if s[0].0 == k {
        seq![(k, s[0].1.push(item))] + s.drop_first()
    } else if list_lt(s[0].0, k) {
        seq![s[0]] + group_push(s.drop_first(), k, item)
    } else {
        seq![(k, seq![item])] + s
    }
}

proof fn group_push_splits<T>(
    s: Seq<(Seq<Seq<char>>, Seq<T>)>,
    k: Seq<Seq<char>>,
    item: T,
    p: int,
)
    requires
        0 <= p <= s.len(),
        forall|i: int| 0 <= i < p ==> (#[trigger] s[i]).0 != k && list_lt(s[i].0, k),
    ensures
        group_push(s, k, item) == s.take(p) + group_push(s.skip(p), k, item),
    decreases p,
{
    if p == 0 {
        assert(s.take(0) + group_push(s.skip(0), k, item) =~= group_push(s.skip(0), k, item));
        assert(s.skip(0) =~= s);
    } else {
        let rest = s.drop_first();
        assert forall|i: int| 0 <= i < p - 1 implies (#[trigger] rest[i]).0 != k && list_lt(
            rest[i].0,
            k,
        ) by {
            assert(rest[i] == s[i + 1]);
        }
        assert(s[0].0 != k && list_lt(s[0].0, k));
        group_push_splits(rest, k, item, p - 1);
        assert(rest.skip(p - 1) =~= s.skip(p));
        assert(group_push(s, k, item) =~= s.take(p) + group_push(s.skip(p), k, item));
    }
}

/// What holds of every key holds of every key after an item is added under a
/// key of which it holds too.
pub proof fn group_push_keeps<T>(
    s: Seq<(Seq<Seq<char>>, Seq<T>)>,
    k: Seq<Seq<char>>,
    item: T,
    p: spec_fn(Seq<Seq<char>>) -> bool,
)
    requires
        p(k),
        forall|i: int| 0 <= i < s.len() ==> p((#[trigger] s[i]).0),
    ensures
        forall|i: int|
            0 <= i < group_push(s, k, item).len() ==> p((#[trigger] group_push(s, k, item)[i]).0),
    decreases s.len(),
{
    if s.len() > 0 {
        assert(p(s[0].0));
        let rest = s.drop_first();
        assert forall|i: int| 0 <= i < rest.len() implies p((#[trigger] rest[i]).0) by {
            assert(rest[i] == s[i + 1]);
        }
        group_push_keeps(rest, k, item, p);
        let t = group_push(s, k, item);
        let u = group_push(rest, k, item);
        assert forall|i: int| 0 <= i < t.len() implies p((#[trigger] t[i]).0) by {
            if s[0].0 == k {
                assert(i > 0 ==> t[i] == s[i]);
            } else if list_lt(s[0].0, k) {
                assert(i > 0 ==> t[i] == u[i - 1]);
            } else {
                assert(i > 0 ==> t[i] == s[i - 1]);
            }
        }
    }
}

/// Add `item` to the group under `key`.
pub fn push_to_group<T: DeepView>(groups: &mut Vec<(Vec<String>, Vec<T>)>, key: Vec<String>, item: T)
    ensures
        final(groups).deep_view() == group_push(
            old(groups).deep_view(),
            key.deep_view(),
            item.deep_view(),
        ),
{
    let ghost s = groups.deep_view();
    let ghost k = key.deep_view();
    let ghost x = item.deep_view();
    let mut i: usize = 0;
    while i < groups.len() && list_before(&groups[i].0, &key)
        invariant
            s == groups.deep_view(),
            k == key.deep_view(),
            0 <= i <= groups@.len(),
            forall|j: int| 0 <= j < i ==> (#[trigger] s[j]).0 != k && list_lt(s[j].0, k),
        decreases groups@.len() - i,
    {
        proof {
            assert(s[i as int].0 == groups@[i as int].0.deep_view());
            list_lt_irreflexive(k);
        }
        i += 1;
    }
    proof {
        group_push_splits(s, k, x, i as int);
        if i < s.len() {
            assert(s.skip(i as int)[0] == s[i as int]);
            assert(s[i as int].0 == groups@[i as int].0.deep_view());
        }
    }
    if i < groups.len() && list_eq(&groups[i].0, &key) {
        let (k0, mut rows) = groups.remove(i);
        let ghost g = rows.deep_view();
        rows.push(item);
        assert(rows.deep_view() =~= g.push(x));
        groups.insert(i, (k0, rows));
        assert(groups.deep_view() =~= group_push(s, k, x));
    } else {
        let mut rows: Vec<T> = Vec::new();
        rows.push(item);
        assert(rows.deep_view() =~= seq![x]);
        groups.insert(i, (key, rows));
        assert(groups.deep_view() =~= group_push(s, k, x));
    }
}

} // verus!
