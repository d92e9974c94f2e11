//! Stable sorting by a comparison, with the result given as a function of the
//! input.

use vstd::prelude::*;

verus! {

/// `x` put into `s` behind the last item that may stand before it.
pub open spec fn insert_by<T>(s: Seq<T>, x: T, le: spec_fn(T, T) -> bool) -> Seq<T>
    decreases s.len(),
{
    if s.len() == 0 {
        seq![x]
    } else if le(s.last(), x) {
        s.push(x)
    } else {
        insert_by(s.drop_last(), x, le).push(s.last())
    }
}

/// The items of `s` in ascending order; equal items keep their order.
pub open spec fn sorted_by<T>(s: Seq<T>, le: spec_fn(T, T) -> bool) -> Seq<T>
    decreases s.len(),
{
    if s.len() == 0 {
        Seq::empty()
    } else {
        insert_by(sorted_by(s.drop_last(), le), s.last(), le)
    }
}

/// Every item stands before those that follow it.
pub open spec fn in_order<T>(s: Seq<T>, le: spec_fn(T, T) -> bool) -> bool {
    forall|i: int, j: int| 0 <= i < j < s.len() ==> #[trigger] le(s[i], s[j])
}

/// Any two items compare one way or the other, and comparison chains.
pub open spec fn is_total_preorder<T>(le: spec_fn(T, T) -> bool) -> bool {
    &&& forall|a: T, b: T| #[trigger] le(a, b) || le(b, a)
    &&& forall|a: T, b: T, c: T| #[trigger] le(a, b) && #[trigger] le(b, c) ==> le(a, c)
}

proof fn insert_by_items<T>(s: Seq<T>, x: T, le: spec_fn(T, T) -> bool)
    ensures
        insert_by(s, x, le).to_multiset() =~= s.to_multiset().insert(x),
        insert_by(s, x, le).len() == s.len() + 1,
    decreases s.len(),
{
    broadcast use vstd::seq_lib::group_to_multiset_ensures;

    if s.len() == 0 {
        assert(seq![x] =~= s.push(x));
    } else if !le(s.last(), x) {
        insert_by_items(s.drop_last(), x, le);
        assert(s =~= s.drop_last().push(s.last()));
    }
}

proof fn insert_by_order<T>(s: Seq<T>, x: T, le: spec_fn(T, T) -> bool)
    requires
        is_total_preorder(le),
        in_order(s, le),
    ensures
        in_order(insert_by(s, x, le), le),
        forall|i: int|
            0 <= i < insert_by(s, x, le).len() ==> #[trigger] insert_by(s, x, le)[i] == x
                || s.contains(insert_by(s, x, le)[i]),
    decreases s.len(),
{
    let t = insert_by(s, x, le);
    if s.len() == 0 {
    } else if le(s.last(), x) {
        assert forall|i: int, j: int| 0 <= i < j < t.len() implies #[trigger] le(t[i], t[j]) by {
            if j == s.len() {
                if i < s.len() - 1 {
                    assert(le(s[i], s.last()));
                }
            }
        }
        assert forall|i: int| 0 <= i < t.len() implies #[trigger] t[i] == x || s.contains(t[i]) by {
            if i < s.len() {
                assert(t[i] == s[i]);
            }
        }
    } else {
        let r = s.drop_last();
        insert_by_order(r, x, le);
        let u = insert_by(r, x, le);
        assert(le(x, s.last()));
        assert forall|i: int, j: int| 0 <= i < j < t.len() implies #[trigger] le(t[i], t[j]) by {
            if j == u.len() {
                if u[i] != x {
                    assert(r.contains(u[i]));
                    let m = choose|m: int| 0 <= m < r.len() && r[m] == u[i];
                    assert(le(s[m], s.last()));
                }
            } else {
                assert(le(u[i], u[j]));
            }
        }
        assert forall|i: int| 0 <= i < t.len() implies #[trigger] t[i] == x || s.contains(t[i]) by {
            if i < u.len() && u[i] != x {
                assert(r.contains(u[i]));
                let m = choose|m: int| 0 <= m < r.len() && r[m] == u[i];
                assert(s[m] == t[i]);
            } else if i == u.len() {
                assert(s[s.len() - 1] == t[i]);
            }
        }
    }
}

/// Sorting puts the items in order, and neither loses nor adds one.
pub proof fn law_sorted_by<T>(s: Seq<T>, le: spec_fn(T, T) -> bool)
    requires
        is_total_preorder(le),
    ensures
        in_order(sorted_by(s, le), le),
        sorted_by(s, le).to_multiset() =~= s.to_multiset(),
        sorted_by(s, le).len() == s.len(),
    decreases s.len(),
{
    broadcast use vstd::seq_lib::group_to_multiset_ensures;

    if s.len() > 0 {
        law_sorted_by(s.drop_last(), le);
        insert_by_order(sorted_by(s.drop_last(), le), s.last(), le);
        insert_by_items(sorted_by(s.drop_last(), le), s.last(), le);
        assert(s =~= s.drop_last().push(s.last()));
    }
}

proof fn insert_by_agrees<T>(
    s: Seq<T>,
    x: T,
    le: spec_fn(T, T) -> bool,
    other: spec_fn(T, T) -> bool,
)
    requires
        forall|i: int| 0 <= i < s.len() ==> le(#[trigger] s[i], x) == other(s[i], x),
    ensures
        insert_by(s, x, le) == insert_by(s, x, other),
    decreases s.len(),
{
    if s.len() > 0 {
        assert(le(s[s.len() - 1], x) == other(s[s.len() - 1], x));
        assert forall|i: int| 0 <= i < s.drop_last().len() implies le(
            #[trigger] s.drop_last()[i],
            x,
        ) == other(s.drop_last()[i], x) by {
            assert(s[i] == s.drop_last()[i]);
        }
        insert_by_agrees(s.drop_last(), x, le, other);
    }
}

proof fn sorted_by_agrees<T>(s: Seq<T>, le: spec_fn(T, T) -> bool, other: spec_fn(T, T) -> bool)
    requires
        forall|a: T, b: T| #![trigger le(a, b)]
            s.contains(a) && s.contains(b) ==> le(a, b) == other(a, b),
    ensures
        sorted_by(s, le) == sorted_by(s, other),
    decreases s.len(),
{
    if s.len() > 0 {
        let rest = s.drop_last();
        let x = s.last();
        assert(s.contains(x));
        assert forall|a: T| rest.contains(a) implies #[trigger] s.contains(a) by {
            let i = choose|i: int| 0 <= i < rest.len() && rest[i] == a;
            assert(s[i] == a);
        }
        sorted_by_agrees(rest, le, other);
        let sorted = sorted_by(rest, le);
        assert forall|i: int| 0 <= i < sorted.len() implies le(#[trigger] sorted[i], x) == other(
            sorted[i],
            x,
        ) by {
            sorting_adds_none(rest, le, sorted[i]);
        }
        insert_by_agrees(sorted, x, le, other);
    }
}

/// Sorting puts the items in order, and neither loses nor adds one, also where the
/// comparison is sound on these items only.
pub proof fn law_sorted_where_sound<T>(
    s: Seq<T>,
    le: spec_fn(T, T) -> bool,
    sound: spec_fn(T, T) -> bool,
)
    requires
        is_total_preorder(sound),
        forall|a: T, b: T| #![trigger le(a, b)]
            s.contains(a) && s.contains(b) ==> le(a, b) == sound(a, b),
    ensures
        in_order(sorted_by(s, le), le),
        sorted_by(s, le).to_multiset() =~= s.to_multiset(),
        sorted_by(s, le).len() == s.len(),
{
    sorted_by_agrees(s, le, sound);
    law_sorted_by(s, sound);
    let sorted = sorted_by(s, le);
    assert forall|i: int, j: int| 0 <= i < j < sorted.len() implies #[trigger] le(
        sorted[i],
        sorted[j],
    ) by {
        assert(sound(sorted[i], sorted[j]));
        sorting_adds_none(s, le, sorted[i]);
        sorting_adds_none(s, le, sorted[j]);
    }
}

proof fn insert_by_keeps<T>(s: Seq<T>, x: T, le: spec_fn(T, T) -> bool, y: T)
    requires
        y == x || s.contains(y),
    ensures
        insert_by(s, x, le).contains(y),
    decreases s.len(),
{
    let t = insert_by(s, x, le);
    if s.len() == 0 {
        assert(t[0] == x);
    } else if le(s.last(), x) {
        if y == x {
            assert(t[s.len() as int] == x);
        } else {
            let i = choose|i: int| 0 <= i < s.len() && s[i] == y;
            assert(t[i] == y);
        }
    } else {
        let u = insert_by(s.drop_last(), x, le);
        if y == s.last() {
            assert(t[u.len() as int] == y);
        } else {
            if y != x {
                let i = choose|i: int| 0 <= i < s.len() && s[i] == y;
                assert(s.drop_last()[i] == y);
            }
            insert_by_keeps(s.drop_last(), x, le, y);
            let i = choose|i: int| 0 <= i < u.len() && u[i] == y;
            assert(t[i] == y);
        }
    }
}

/// Every item is among the sorted items.
pub proof fn sorting_keeps<T>(s: Seq<T>, le: spec_fn(T, T) -> bool, y: T)
    requires
        s.contains(y),
    ensures
        sorted_by(s, le).contains(y),
    decreases s.len(),
{
    if s.len() > 0 {
        let i = choose|i: int| 0 <= i < s.len() && s[i] == y;
        if i < s.len() - 1 {
            assert(s.drop_last()[i] == y);
            sorting_keeps(s.drop_last(), le, y);
        }
        insert_by_keeps(sorted_by(s.drop_last(), le), s.last(), le, y);
    }
}

proof fn insert_by_adds_none<T>(s: Seq<T>, x: T, le: spec_fn(T, T) -> bool, y: T)
    requires
        insert_by(s, x, le).contains(y),
    ensures
        y == x || s.contains(y),
    decreases s.len(),
{
    let t = insert_by(s, x, le);
    let k = choose|k: int| 0 <= k < t.len() && t[k] == y;
    if s.len() > 0 {
        if le(s.last(), x) {
            if k < s.len() {
                assert(s[k] == y);
            }
        } else {
            let u = insert_by(s.drop_last(), x, le);
            if k < u.len() {
                assert(u[k] == y);
                insert_by_adds_none(s.drop_last(), x, le, y);
                if y != x {
                    let i = choose|i: int| 0 <= i < s.drop_last().len() && s.drop_last()[i] == y;
                    assert(s[i] == y);
                }
            } else {
                assert(s[s.len() - 1] == y);
            }
        }
    }
}

/// Every sorted item is among the items.
pub proof fn sorting_adds_none<T>(s: Seq<T>, le: spec_fn(T, T) -> bool, y: T)
    requires
        sorted_by(s, le).contains(y),
    ensures
        s.contains(y),
    decreases s.len(),
{
    if s.len() > 0 {
        let rest = sorted_by(s.drop_last(), le);
        insert_by_adds_none(rest, s.last(), le, y);
        if y == s.last() {
            assert(s[s.len() - 1] == y);
        } else {
            sorting_adds_none(s.drop_last(), le, y);
            let i = choose|i: int| 0 <= i < s.drop_last().len() && s.drop_last()[i] == y;
            assert(s[i] == y);
        }
    }
}

proof fn insert_by_at<T>(s: Seq<T>, x: T, le: spec_fn(T, T) -> bool, p: int)
    requires
        0 <= p <= s.len(),
        p > 0 ==> le(s[p - 1], x),
        forall|i: int| p <= i < s.len() ==> !#[trigger] le(s[i], x),
    ensures
        insert_by(s, x, le) == s.insert(p, x),
    decreases s.len() - p,
{
    if p == s.len() {
        assert(s.insert(p, x) =~= s.push(x));
        if s.len() == 0 {
            assert(s.push(x) =~= seq![x]);
        }
    } else {
        assert(!le(s[s.len() - 1], x));
        insert_by_at(s.drop_last(), x, le, p);
        assert(s.insert(p, x) =~= s.drop_last().insert(p, x).push(s.last()));
    }
}

/// Sort in place by `before`, which decides `le` on the items' models.
pub fn sort_items<T: DeepView, F: Fn(&T, &T) -> bool>(
    v: &mut Vec<T>,
    before: F,
    Ghost(le): Ghost<spec_fn(T::V, T::V) -> bool>,
)
    requires
        forall|a: &T, b: &T| call_requires(before, (a, b)),
        forall|a: &T, b: &T, r: bool|
            call_ensures(before, (a, b), r) ==> r == le(a.deep_view(), b.deep_view()),
    ensures
        final(v).deep_view() == sorted_by(old(v).deep_view(), le),
{
    let ghost orig = v.deep_view();
    let mut i: usize = 0;
    proof {
        assert(v.deep_view() =~= sorted_by(orig.take(0), le) + orig.skip(0));
    }
    while i < v.len()
        invariant
            0 <= i <= v@.len(),
            v@.len() == orig.len(),
            sorted_by(orig.take(i as int), le).len() == i,
            v.deep_view() == sorted_by(orig.take(i as int), le) + orig.skip(i as int),
            forall|a: &T, b: &T| call_requires(before, (a, b)),
            forall|a: &T, b: &T, r: bool|
                call_ensures(before, (a, b), r) ==> r == le(a.deep_view(), b.deep_view()),
        decreases v@.len() - i,
    {
        let ghost done = sorted_by(orig.take(i as int), le);
        let ghost before_v = v.deep_view();
        let x = v.remove(i);
        let ghost xm = x.deep_view();
        assert(xm == before_v[i as int]);
        assert(xm == orig[i as int]);
        assert(v.deep_view() =~= before_v.remove(i as int));
        assert(before_v.remove(i as int) =~= done + orig.skip(i + 1));
        let mut p: usize = i;
        while p > 0 && !before(&v[p - 1], &x)
            invariant
                0 <= p <= i <= v@.len(),
                done.len() == i,
                v.deep_view() == done + orig.skip(i + 1),
                xm == x.deep_view(),
                forall|j: int| p <= j < i ==> !#[trigger] le(done[j], xm),
                forall|a: &T, b: &T| call_requires(before, (a, b)),
                forall|a: &T, b: &T, r: bool|
                    call_ensures(before, (a, b), r) ==> r == le(a.deep_view(), b.deep_view()),
            decreases p,
        {
            assert(v.deep_view()[p - 1] == done[p - 1]);
            p -= 1;
        }
        proof {
            if p > 0 {
                assert(v.deep_view()[p - 1] == done[p - 1]);
            }
            insert_by_at(done, xm, le, p as int);
            assert(orig.take(i + 1).drop_last() =~= orig.take(i as int));
            assert(orig.take(i + 1).last() == xm);
        }
        let ghost w = v.deep_view();
        v.insert(p, x);
        assert(v.deep_view() =~= w.insert(p as int, xm));
        assert(v.deep_view() =~= done.insert(p as int, xm) + orig.skip(i + 1));
        i += 1;
    }
    proof {
        assert(orig.take(i as int) =~= orig);
        assert(v.deep_view() =~= sorted_by(orig, le));
    }
}

} // verus!
