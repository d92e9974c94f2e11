//! Sets of texts, kept as lists in ascending order.

use vstd::prelude::*;
use crate::text;

verus! {

broadcast use vstd::string::group_string_axioms;

/// The set with one more text.
pub open spec fn set_insert(s: Seq<Seq<char>>, x: Seq<char>) -> Seq<Seq<char>>
    decreases s.len(),
{
    if s.len() == 0 {
        seq![x]
    } else if s[0] == x {
        s
    } else if text::lex_lt(s[0], x) {
        seq![s[0]] + set_insert(s.drop_first(), x)
    } else {
        seq![x] + s
    }
}

/// The set with all of the texts put in.
pub open spec fn set_extended(s: Seq<Seq<char>>, more: Seq<Seq<char>>) -> Seq<Seq<char>>
    decreases more.len(),
{
    if more.len() == 0 {
        s
    } else {
        set_insert(set_extended(s, more.drop_last()), more.last())
    }
}

/// Texts strictly ascend.
pub open spec fn set_sorted(s: Seq<Seq<char>>) -> bool {
    forall|i: int, j: int| 0 <= i < j < s.len() ==> #[trigger] text::lex_lt(s[i], s[j])
}

/// A text is in the set after it was put in, and no other text comes or goes.
pub proof fn law_insert_adds_one(s: Seq<Seq<char>>, x: Seq<char>, y: Seq<char>)
    ensures
        set_insert(s, x).contains(y) <==> (y == x || s.contains(y)),
    decreases s.len(),
{
    let t = set_insert(s, x);
    if s.len() == 0 {
        assert(t[0] == x);
    } else if s[0] == x {
        assert(s.contains(s[0]));
    } else {
        let rest = s.drop_first();
        if text::lex_lt(s[0], x) {
            law_insert_adds_one(rest, x, y);
            let u = set_insert(rest, x);
            assert(t[0] == s[0]);
            if u.contains(y) {
                let i = choose|i: int| 0 <= i < u.len() && u[i] == y;
                assert(t[i + 1] == y);
            }
            if t.contains(y) {
                let i = choose|i: int| 0 <= i < t.len() && t[i] == y;
                if i > 0 {
                    assert(u[i - 1] == y);
                }
            }
            if s.contains(y) {
                let i = choose|i: int| 0 <= i < s.len() && s[i] == y;
                if i > 0 {
                    assert(rest[i - 1] == y);
                }
            }
            if rest.contains(y) {
                let i = choose|i: int| 0 <= i < rest.len() && rest[i] == y;
                assert(s[i + 1] == y);
            }
        } else {
            assert(t[0] == x);
            if s.contains(y) {
                let i = choose|i: int| 0 <= i < s.len() && s[i] == y;
                assert(t[i + 1] == y);
            }
            if t.contains(y) {
                let i = choose|i: int| 0 <= i < t.len() && t[i] == y;
                if i > 0 {
                    assert(s[i - 1] == y);
                }
            }
        }
    }
}

/// A set stays in order when a text is put in.
pub proof fn law_insert_keeps_set_order(s: Seq<Seq<char>>, x: Seq<char>)
    requires
        set_sorted(s),
    ensures
        set_sorted(set_insert(s, x)),
    decreases s.len(),
{
    let t = set_insert(s, x);
    if s.len() > 0 && s[0] != x {
        let rest = s.drop_first();
        assert(set_sorted(rest)) by {
            assert forall|i: int, j: int| 0 <= i < j < rest.len() implies #[trigger] text::lex_lt(
                rest[i],
                rest[j],
            ) by {
                assert(text::lex_lt(s[i + 1], s[j + 1]));
            }
        }
        if text::lex_lt(s[0], x) {
            law_insert_keeps_set_order(rest, x);
            let u = set_insert(rest, x);
            assert forall|i: int, j: int| 0 <= i < j < t.len() implies #[trigger] text::lex_lt(
                t[i],
                t[j],
            ) by {
                assert(t[j] == u[j - 1]);
                if i > 0 {
                    assert(t[i] == u[i - 1]);
                    assert(text::lex_lt(u[i - 1], u[j - 1]));
                } else {
                    law_insert_adds_one(rest, x, u[j - 1]);
                    assert(u.contains(u[j - 1]));
                    if u[j - 1] != x {
                        let m = choose|m: int| 0 <= m < rest.len() && rest[m] == u[j - 1];
                        assert(text::lex_lt(s[0], s[m + 1]));
                    }
                }
            }
        } else {
            text::lex_lt_total(x, s[0]);
            assert forall|i: int, j: int| 0 <= i < j < t.len() implies #[trigger] text::lex_lt(
                t[i],
                t[j],
            ) by {
                assert(t[j] == s[j - 1]);
                if i > 0 {
                    assert(t[i] == s[i - 1]);
                    assert(text::lex_lt(s[i - 1], s[j - 1]));
                } else if j > 1 {
                    assert(text::lex_lt(s[0], s[j - 1]));
                    text::lex_lt_transitive(x, s[0], s[j - 1]);
                }
            }
        }
    }
}

proof fn set_insert_at(s: Seq<Seq<char>>, x: Seq<char>, k: int)
    requires
        0 <= k <= s.len(),
        forall|i: int| 0 <= i < k ==> #[trigger] text::lex_lt(s[i], x),
        k < s.len() ==> !text::lex_lt(s[k], x),
    ensures
        set_insert(s, x) == (if k < s.len() && s[k] == x {
            s
        } else {
            s.insert(k, x)
        }),
    decreases k,
{
    let t = set_insert(s, x);
    if k == 0 {
        if s.len() > 0 && s[0] == x {
        } else {
            assert(t =~= s.insert(0, x));
        }
    } else {
        let rest = s.drop_first();
        assert(text::lex_lt(s[0], x));
        text::lex_lt_irreflexive(x);
        assert forall|i: int| 0 <= i < k - 1 implies #[trigger] text::lex_lt(rest[i], x) by {
            assert(text::lex_lt(s[i + 1], x));
        }
        set_insert_at(rest, x, k - 1);
        if k < s.len() && s[k] == x {
            assert(t =~= s);
        } else {
            assert(t =~= s.insert(k, x));
        }
    }
}

/// Put a text into the set.
pub fn insert_text(v: &mut Vec<String>, x: String)
    ensures
        final(v).deep_view() == set_insert(old(v).deep_view(), x@),
{
    let ghost s = v.deep_view();
    let ghost xm = x@;
    let mut k: usize = 0;
    while k < v.len() && text::text_lt(v[k].as_str(), x.as_str())
        invariant
            s == v.deep_view(),
            xm == x@,
            0 <= k <= v@.len(),
            forall|i: int| 0 <= i < k ==> #[trigger] text::lex_lt(s[i], xm),
        decreases v@.len() - k,
    {
        assert(s[k as int] == v@[k as int]@);
        k += 1;
    }
    proof {
        if k < s.len() {
            assert(s[k as int] == v@[k as int]@);
        }
        set_insert_at(s, xm, k as int);
    }
    if k < v.len() && text::text_eq(v[k].as_str(), x.as_str()) {
    } else {
        v.insert(k, x);
        assert(v.deep_view() =~= s.insert(k as int, xm));
    }
}

} // verus!
