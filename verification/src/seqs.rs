//! Small tools on vectors, with contracts over the models of their items.

use vstd::prelude::*;
use crate::json::copy_json;
use crate::json::Float;
use crate::json::Json;
use crate::literal::copy_literal;
use crate::literal::Literal;
use crate::strmap::StrMap;
use crate::text;

verus! {

broadcast use vstd::string::group_string_axioms;

/// A value that can be copied without change.
pub trait Copied: DeepView + Sized {
    fn copied(&self) -> (r: Self)
        ensures
            r.deep_view() == self.deep_view(),
    ;
}

impl Copied for String {
    fn copied(&self) -> (r: Self) {
        self.clone()
    }
}

impl Copied for Float {
    fn copied(&self) -> (r: Self) {
        self.copy()
    }
}

impl Copied for Json {
    fn copied(&self) -> (r: Self) {
        copy_json(self)
    }
}

impl Copied for Literal {
    fn copied(&self) -> (r: Self) {
        copy_literal(self)
    }
}

impl<T: Copied> Copied for Option<T> {
    fn copied(&self) -> (r: Self) {
        match self {
            Some(x) => Some(x.copied()),
            None => None,
        }
    }
}

impl<T: Copied> Copied for Vec<T> {
    fn copied(&self) -> (r: Self) {
        let mut out: Vec<T> = Vec::new();
        let mut i: usize = 0;
        while i < self.len()
            invariant
                0 <= i <= self@.len(),
                out.deep_view() == self.deep_view().take(i as int),
            decreases self@.len() - i,
        {
            let ghost before = out.deep_view();
            let x = self[i].copied();
            out.push(x);
            assert(out.deep_view() =~= before.push(self.deep_view()[i as int]));
            i += 1;
            assert(out.deep_view() =~= self.deep_view().take(i as int));
        }
        assert(out.deep_view() =~= self.deep_view());
        out
    }
}

impl<V: Copied> Copied for StrMap<V> {
    fn copied(&self) -> (r: Self) {
        let mut out: Vec<(String, V)> = Vec::new();
        let mut i: usize = 0;
        while i < self.entries.len()
            invariant
                0 <= i <= self.entries@.len(),
                out.deep_view() == self.deep_view().take(i as int),
            decreases self.entries@.len() - i,
        {
            let ghost before = out.deep_view();
            let x = self.entries[i].1.copied();
            out.push((self.entries[i].0.clone(), x));
            assert(out.deep_view() =~= before.push(self.deep_view()[i as int]));
            i += 1;
            assert(out.deep_view() =~= self.deep_view().take(i as int));
        }
        assert(out.deep_view() =~= self.deep_view());
        StrMap { entries: out }
    }
}

/// Add an item at the end.
pub fn push_item<T: DeepView>(v: &mut Vec<T>, x: T)
    ensures
        final(v).deep_view() == old(v).deep_view().push(x.deep_view()),
{
    v.push(x);
    assert(v.deep_view() =~= old(v).deep_view().push(x.deep_view()));
}

/// Add all items at the end.
pub fn append_items<T: DeepView>(v: &mut Vec<T>, more: Vec<T>)
    ensures
        final(v).deep_view() == old(v).deep_view() + more.deep_view(),
{
    let ghost added = more.deep_view();
    let mut more = more;
    v.append(&mut more);
    assert(v.deep_view() =~= old(v).deep_view() + added);
}

/// A vector without items.
pub fn no_items<T: DeepView>() -> (r: Vec<T>)
    ensures
        r.deep_view() == Seq::<T::V>::empty(),
        r@.len() == 0,
{
    let r: Vec<T> = Vec::new();
    assert(r.deep_view() =~= Seq::<T::V>::empty());
    r
}

/// The first item of which `p` holds.
pub open spec fn first_where<T>(s: Seq<T>, p: spec_fn(T) -> bool) -> Option<T>
    decreases s.len(),
{
    if s.len() == 0 {
        None
    } else if p(s[0]) {
        Some(s[0])
    } else {
        first_where(s.drop_first(), p)
    }
}

pub proof fn first_where_at<T>(s: Seq<T>, p: spec_fn(T) -> bool, i: int)
    requires
        0 <= i < s.len(),
        p(s[i]),
        forall|j: int| 0 <= j < i ==> !p(#[trigger] s[j]),
    ensures
        first_where(s, p) == Some(s[i]),
    decreases i,
{
    if i > 0 {
        assert(!p(s[0]));
        let rest = s.drop_first();
        assert forall|j: int| 0 <= j < i - 1 implies !p(#[trigger] rest[j]) by {
            assert(!p(s[j + 1]));
        }
        first_where_at(rest, p, i - 1);
    }
}

pub proof fn first_where_none<T>(s: Seq<T>, p: spec_fn(T) -> bool)
    requires
        forall|j: int| 0 <= j < s.len() ==> !p(#[trigger] s[j]),
    ensures
        first_where(s, p) is None,
    decreases s.len(),
{
    if s.len() > 0 {
        assert(!p(s[0]));
        let rest = s.drop_first();
        assert forall|j: int| 0 <= j < rest.len() implies !p(#[trigger] rest[j]) by {
            assert(!p(s[j + 1]));
        }
        first_where_none(rest, p);
    }
}

/// The item that is found satisfies the condition and is one of the items.
pub proof fn first_where_holds<T>(s: Seq<T>, p: spec_fn(T) -> bool) -> (i: int)
    requires
        first_where(s, p) is Some,
    ensures
        0 <= i < s.len(),
        s[i] == first_where(s, p)->0,
        p(s[i]),
        forall|j: int| 0 <= j < i ==> !p(#[trigger] s[j]),
    decreases s.len(),
{
    if p(s[0]) {
        0
    } else {
        let rest = s.drop_first();
        let k = first_where_holds(rest, p);
        assert forall|j: int| 0 <= j < k + 1 implies !p(#[trigger] s[j]) by {
            if j > 0 {
                assert(!p(rest[j - 1]));
            }
        }
        k + 1
    }
}

/// Is the text one of the items?
pub fn contains_text(v: &Vec<String>, s: &str) -> (r: bool)
    ensures
        r == v.deep_view().contains(s@),
{
    let mut i: usize = 0;
    while i < v.len()
        invariant
            0 <= i <= v@.len(),
            forall|j: int| 0 <= j < i ==> #[trigger] v.deep_view()[j] != s@,
        decreases v@.len() - i,
    {
        assert(v.deep_view()[i as int] == v@[i as int]@);
        if text::text_eq(v[i].as_str(), s) {
            return true;
        }
        i += 1;
    }
    false
}

/// Do two optional texts agree?
pub fn same_option(a: &Option<String>, b: &Option<String>) -> (r: bool)
    ensures
        r == (a.deep_view() == b.deep_view()),
{
    match (a, b) {
        (Some(x), Some(y)) => text::text_eq(x.as_str(), y.as_str()),
        (None, None) => true,
        _ => false,
    }
}

/// Is the optional text there, and the given one?
pub fn option_is(a: &Option<String>, s: &str) -> (r: bool)
    ensures
        r == (a.deep_view() == Some(s@)),
{
    match a {
        Some(x) => text::text_eq(x.as_str(), s),
        None => false,
    }
}

/// The optional text as a borrowed one.
pub fn as_deref(a: &Option<String>) -> (r: Option<&str>)
    ensures
        r.deep_view() == a.deep_view(),
{
    match a {
        Some(x) => Some(x.as_str()),
        None => None,
    }
}

/// `s` without the items that repeat the one before them.
pub open spec fn deduped<T>(s: Seq<T>) -> Seq<T>
    decreases s.len(),
{
    if s.len() <= 1 {
        s
    } else if s[s.len() - 2] == s.last() {
        deduped(s.drop_last())
    } else {
        deduped(s.drop_last()).push(s.last())
    }
}

/// Drop the texts that repeat the one before them.
pub fn dedup_texts(v: &Vec<String>) -> (r: Vec<String>)
    ensures
        r.deep_view() == deduped(v.deep_view()),
{
    let ghost all = v.deep_view();
    let mut out: Vec<String> = no_items();
    let mut i: usize = 0;
    while i < v.len()
        invariant
            all == v.deep_view(),
            0 <= i <= v@.len(),
            out.deep_view() == deduped(all.take(i as int)),
        decreases v@.len() - i,
    {
        proof {
            let next = all.take(i + 1);
            assert(next.drop_last() =~= all.take(i as int));
            assert(next.last() == v@[i as int]@);
            if i > 0 {
                assert(next[next.len() - 2] == v@[i - 1]@);
            }
        }
        if i == 0 || !text::text_eq(v[i - 1].as_str(), v[i].as_str()) {
            push_item(&mut out, v[i].clone());
            if i == 0 {
                assert(out.deep_view() =~= deduped(all.take(1)));
            }
        }
        i += 1;
    }
    assert(all.take(i as int) =~= all);
    out
}

} // verus!
