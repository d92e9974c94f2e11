//! Stable BM25-style sparse tokenization.
//!
//! Documents and queries are tokenized alike: lower-cased words without
//! stopwords, each hashed with FNV-1a, so that the term ids of a query meet
//! those of the documents.

use vstd::prelude::*;
use crate::seqs;
use crate::text;

verus! {

broadcast use vstd::string::group_string_axioms;

/// Name of the sparse vector beside the dense one, which has no name.
pub const SPARSE_VECTOR: &'static str = "text_bm25";

/// Letters and numbers, by the Unicode tables.
pub uninterp spec fn alphanumeric(c: char) -> bool;

/// `char::is_alphanumeric`. The result follows the Unicode tables of std, so it
/// has a name only.
#[verifier::external_body]
pub(crate) fn is_alphanumeric(c: char) -> (r: bool)
    ensures
        r == alphanumeric(c),
{
    c.is_alphanumeric()
}

/// The words that carry no meaning of their own.
pub open spec fn stopword(w: Seq<char>) -> bool {
    w == "а"@ || w == "без"@ || w == "более"@ || w == "бы"@ || w == "был"@ || w == "была"@
    || w == "были"@ || w == "было"@ || w == "быть"@ || w == "в"@ || w == "вам"@ || w == "вас"@
    || w == "весь"@ || w == "во"@ || w == "вот"@ || w == "все"@ || w == "всего"@ || w == "всех"@
    || w == "вы"@ || w == "где"@ || w == "да"@ || w == "даже"@ || w == "для"@ || w == "до"@
    || w == "его"@ || w == "ее"@ || w == "если"@ || w == "есть"@ || w == "еще"@ || w == "же"@
    || w == "за"@ || w == "здесь"@ || w == "и"@ || w == "из"@ || w == "или"@ || w == "им"@
    || w == "их"@ || w == "к"@ || w == "как"@ || w == "ко"@ || w == "когда"@ || w == "кто"@
    || w == "ли"@ || w == "либо"@ || w == "мне"@ || w == "может"@ || w == "мы"@ || w == "на"@
    || w == "над"@ || w == "надо"@ || w == "наш"@ || w == "не"@ || w == "него"@ || w == "нее"@
    || w == "нет"@ || w == "ни"@ || w == "них"@ || w == "но"@ || w == "ну"@ || w == "о"@
    || w == "об"@ || w == "однако"@ || w == "он"@ || w == "она"@ || w == "они"@ || w == "оно"@
    || w == "от"@ || w == "очень"@ || w == "по"@ || w == "под"@ || w == "при"@ || w == "с"@
    || w == "со"@ || w == "так"@ || w == "также"@ || w == "такой"@ || w == "там"@ || w == "те"@
    || w == "тем"@ || w == "то"@ || w == "того"@ || w == "тоже"@ || w == "той"@
    || w == "только"@ || w == "том"@ || w == "ты"@ || w == "у"@ || w == "уже"@ || w == "хотя"@
    || w == "чего"@ || w == "чей"@ || w == "чем"@ || w == "что"@ || w == "чтобы"@ || w == "чье"@
    || w == "эта"@ || w == "эти"@ || w == "это"@ || w == "я"@
}

/// Is the word one that carries no meaning of its own?
pub fn is_russian_stopword(token: &str) -> (r: bool)
    ensures
        r == stopword(token@),
{
    text::text_eq(token, "а") || text::text_eq(token, "без") || text::text_eq(token, "более")
    || text::text_eq(token, "бы") || text::text_eq(token, "был") || text::text_eq(token, "была")
    || text::text_eq(token, "были") || text::text_eq(token, "было")
    || text::text_eq(token, "быть") || text::text_eq(token, "в") || text::text_eq(token, "вам")
    || text::text_eq(token, "вас") || text::text_eq(token, "весь") || text::text_eq(token, "во")
    || text::text_eq(token, "вот") || text::text_eq(token, "все")
    || text::text_eq(token, "всего") || text::text_eq(token, "всех")
    || text::text_eq(token, "вы") || text::text_eq(token, "где") || text::text_eq(token, "да")
    || text::text_eq(token, "даже") || text::text_eq(token, "для") || text::text_eq(token, "до")
    || text::text_eq(token, "его") || text::text_eq(token, "ее") || text::text_eq(token, "если")
    || text::text_eq(token, "есть") || text::text_eq(token, "еще") || text::text_eq(token, "же")
    || text::text_eq(token, "за") || text::text_eq(token, "здесь") || text::text_eq(token, "и")
    || text::text_eq(token, "из") || text::text_eq(token, "или") || text::text_eq(token, "им")
    || text::text_eq(token, "их") || text::text_eq(token, "к") || text::text_eq(token, "как")
    || text::text_eq(token, "ко") || text::text_eq(token, "когда")
    || text::text_eq(token, "кто") || text::text_eq(token, "ли") || text::text_eq(token, "либо")
    || text::text_eq(token, "мне") || text::text_eq(token, "может")
    || text::text_eq(token, "мы") || text::text_eq(token, "на") || text::text_eq(token, "над")
    || text::text_eq(token, "надо") || text::text_eq(token, "наш") || text::text_eq(token, "не")
    || text::text_eq(token, "него") || text::text_eq(token, "нее")
    || text::text_eq(token, "нет") || text::text_eq(token, "ни") || text::text_eq(token, "них")
    || text::text_eq(token, "но") || text::text_eq(token, "ну") || text::text_eq(token, "о")
    || text::text_eq(token, "об") || text::text_eq(token, "однако")
    || text::text_eq(token, "он") || text::text_eq(token, "она") || text::text_eq(token, "они")
    || text::text_eq(token, "оно") || text::text_eq(token, "от")
    || text::text_eq(token, "очень") || text::text_eq(token, "по")
    || text::text_eq(token, "под") || text::text_eq(token, "при") || text::text_eq(token, "с")
    || text::text_eq(token, "со") || text::text_eq(token, "так")
    || text::text_eq(token, "также") || text::text_eq(token, "такой")
    || text::text_eq(token, "там") || text::text_eq(token, "те") || text::text_eq(token, "тем")
    || text::text_eq(token, "то") || text::text_eq(token, "того")
    || text::text_eq(token, "тоже") || text::text_eq(token, "той")
    || text::text_eq(token, "только") || text::text_eq(token, "том")
    || text::text_eq(token, "ты") || text::text_eq(token, "у") || text::text_eq(token, "уже")
    || text::text_eq(token, "хотя") || text::text_eq(token, "чего")
    || text::text_eq(token, "чей") || text::text_eq(token, "чем") || text::text_eq(token, "что")
    || text::text_eq(token, "чтобы") || text::text_eq(token, "чье")
    || text::text_eq(token, "эта") || text::text_eq(token, "эти") || text::text_eq(token, "это")
    || text::text_eq(token, "я")
}

/// One step of FNV-1a.
pub open spec fn fnv_step(hash: u32, byte: u8) -> u32 {
    ((hash ^ byte as u32) as u32).wrapping_mul(0x0100_0193u32)
}

/// FNV-1a over bytes, 32 bits.
pub open spec fn fnv_hash(bytes: Seq<u8>) -> u32
    decreases bytes.len(),
{
    if bytes.len() == 0 {
        0x811c_9dc5u32
    } else {
        fnv_step(fnv_hash(bytes.drop_last()), bytes.last())
    }
}

/// The term id of a token: FNV-1a over its UTF-8 bytes.
pub open spec fn term_id(token: Seq<char>) -> u32 {
    fnv_hash(vstd::utf8::encode_utf8(token))
}

/// The term id of a token.
pub fn hash_token(token: &str) -> (r: u32)
    ensures
        r == term_id(token@),
{
    let bytes = token.as_bytes();
    let mut hash: u32 = 0x811c_9dc5;
    let mut i: usize = 0;
    while i < bytes.len()
        invariant
            0 <= i <= bytes@.len(),
            hash == fnv_hash(bytes@.take(i as int)),
        decreases bytes@.len() - i,
    {
        assert(bytes@.take(i + 1).drop_last() =~= bytes@.take(i as int));
        hash = (hash ^ bytes[i] as u32).wrapping_mul(0x0100_0193u32);
        i += 1;
    }
    assert(bytes@.take(i as int) =~= bytes@);
    hash
}

/// The words that ended so far, and the word that is being read.
pub struct Reading {
    pub done: Seq<Seq<char>>,
    pub word: Seq<char>,
}

/// The words once the one that is being read ends too.
pub open spec fn closed(r: Reading) -> Seq<Seq<char>> {
    if r.word.len() == 0 {
        r.done
    } else {
        r.done.push(r.word)
    }
}

/// What has been read after `s`.
pub open spec fn reading(s: Seq<char>) -> Reading
    decreases s.len(),
{
    if s.len() == 0 {
        Reading { done: Seq::empty(), word: Seq::empty() }
    } else {
        let before = reading(s.drop_last());
        if alphanumeric(s.last()) {
            Reading { word: before.word.push(s.last()), ..before }
        } else {
            Reading { done: closed(before), word: Seq::empty() }
        }
    }
}

/// The words of a text: its longest runs of letters and numbers.
pub open spec fn words(s: Seq<char>) -> Seq<Seq<char>> {
    closed(reading(s))
}

/// The tokens of a text: its words in lower case, stopwords left out.
pub open spec fn tokens(s: Seq<char>) -> Seq<Seq<char>> {
    kept_tokens(words(s))
}

/// The lower-cased words that are no stopwords.
pub open spec fn kept_tokens(words: Seq<Seq<char>>) -> Seq<Seq<char>>
    decreases words.len(),
{
    if words.len() == 0 {
        Seq::empty()
    } else {
        let token = text::lowercase(words.last());
        let before = kept_tokens(words.drop_last());
        if stopword(token) {
            before
        } else {
            before.push(token)
        }
    }
}

/// The words of a text.
fn split_words(s: &str) -> (r: Vec<String>)
    ensures
        r.deep_view() == words(s@),
{
    let cs = text::chars_of(s);
    let mut done: Vec<String> = seqs::no_items();
    let mut word = "".to_owned();
    proof {
        reveal_strlit("");
        assert(word@ =~= Seq::<char>::empty());
    }
    let mut empty = true;
    let mut i: usize = 0;
    while i < cs.len()
        invariant
            0 <= i <= cs@.len(),
            done.deep_view() == reading(cs@.take(i as int)).done,
            word@ == reading(cs@.take(i as int)).word,
            empty == (word@.len() == 0),
        decreases cs@.len() - i,
    {
        proof {
            assert(cs@.take(i + 1).drop_last() =~= cs@.take(i as int));
            assert(cs@.take(i + 1).last() == cs@[i as int]);
        }
        if is_alphanumeric(cs[i]) {
            word.push(cs[i]);
            empty = false;
        } else {
            if !empty {
                seqs::push_item(&mut done, word);
            }
            word = "".to_owned();
            proof {
                reveal_strlit("");
                assert(word@ =~= Seq::<char>::empty());
            }
            empty = true;
        }
        i += 1;
    }
    assert(cs@.take(i as int) =~= s@);
    if !empty {
        seqs::push_item(&mut done, word);
    }
    done
}

/// The tokens of a text, in its order.
pub fn tokenize(s: &str) -> (r: Vec<String>)
    ensures
        r.deep_view() == tokens(s@),
{
    let found = split_words(s);
    let ghost all = found.deep_view();
    let mut out: Vec<String> = seqs::no_items();
    let mut i: usize = 0;
    while i < found.len()
        invariant
            all == found.deep_view(),
            0 <= i <= found@.len(),
            out.deep_view() == kept_tokens(all.take(i as int)),
        decreases found@.len() - i,
    {
        proof {
            assert(all.take(i + 1).drop_last() =~= all.take(i as int));
            assert(all.take(i + 1).last() == found@[i as int]@);
        }
        let token = text::to_lowercase(found[i].as_str());
        if !is_russian_stopword(token.as_str()) {
            seqs::push_item(&mut out, token);
        }
        i += 1;
    }
    assert(all.take(i as int) =~= all);
    out
}

/// The counts with one more for `id`, in the order of the ids.
pub open spec fn tallied(counts: Seq<(u32, nat)>, id: u32) -> Seq<(u32, nat)>
    decreases counts.len(),
{
    if counts.len() == 0 {
        seq![(id, 1)]
    } else if counts[0].0 == id {
        seq![(id, counts[0].1 + 1)] + counts.drop_first()
    } else if counts[0].0 < id {
        seq![counts[0]] + tallied(counts.drop_first(), id)
    } else {
        seq![(id, 1)] + counts
    }
}

/// How often each term id occurs among the tokens.
pub open spec fn term_counts(tokens: Seq<Seq<char>>) -> Seq<(u32, nat)>
    decreases tokens.len(),
{
    if tokens.len() == 0 {
        Seq::empty()
    } else {
        tallied(term_counts(tokens.drop_last()), term_id(tokens.last()))
    }
}

/// The ids of counts.
pub open spec fn ids_of(counts: Seq<(u32, nat)>) -> Seq<u32> {
    Seq::new(counts.len(), |i: int| counts[i].0)
}

/// The count held for `id`; none is zero.
pub open spec fn count_of(counts: Seq<(u32, nat)>, id: u32) -> nat
    decreases counts.len(),
{
    if counts.len() == 0 {
        0
    } else if counts[0].0 == id {
        counts[0].1
    } else {
        count_of(counts.drop_first(), id)
    }
}

/// How many of the tokens have the term id.
pub open spec fn occurrences(tokens: Seq<Seq<char>>, id: u32) -> nat
    decreases tokens.len(),
{
    if tokens.len() == 0 {
        0
    } else {
        occurrences(tokens.drop_last(), id) + (if term_id(tokens.last()) == id {
            1nat
        } else {
            0nat
        })
    }
}

/// Ids strictly ascend.
pub open spec fn ascending(counts: Seq<(u32, nat)>) -> bool {
    forall|i: int, j: int| 0 <= i < j < counts.len() ==> (#[trigger] counts[i]).0 < (
    #[trigger] counts[j]).0
}

proof fn tallied_counts(counts: Seq<(u32, nat)>, id: u32, other: u32)
    requires
        ascending(counts),
    ensures
        ascending(tallied(counts, id)),
        count_of(tallied(counts, id), other) == count_of(counts, other) + (if other == id {
            1nat
        } else {
            0nat
        }),
        tallied(counts, id).len() > 0,
        counts.len() > 0 ==> tallied(counts, id)[0].0 == counts[0].0 || tallied(counts, id)[0].0
            == id,
        counts.len() == 0 ==> tallied(counts, id)[0].0 == id,
    decreases counts.len(),
{
    let t = tallied(counts, id);
    if counts.len() == 0 {
        assert(t.drop_first() =~= counts);
    } else {
        let rest = counts.drop_first();
        assert(ascending(rest)) by {
            assert forall|i: int, j: int| 0 <= i < j < rest.len() implies (#[trigger] rest[i]).0 < (
            #[trigger] rest[j]).0 by {
                assert(counts[i + 1].0 < counts[j + 1].0);
            }
        }
        if counts[0].0 == id {
            assert(t.drop_first() =~= rest);
            assert forall|i: int, j: int| 0 <= i < j < t.len() implies (#[trigger] t[i]).0 < (
            #[trigger] t[j]).0 by {
                assert(counts[i].0 < counts[j].0);
            }
        } else if counts[0].0 < id {
            tallied_counts(rest, id, other);
            let u = tallied(rest, id);
            assert(t.drop_first() =~= u);
            assert forall|i: int, j: int| 0 <= i < j < t.len() implies (#[trigger] t[i]).0 < (
            #[trigger] t[j]).0 by {
                assert(t[j] == u[j - 1]);
                if i > 0 {
                    assert(t[i] == u[i - 1]);
                } else {
                    if rest.len() > 0 {
                        assert(counts[0].0 < counts[1].0);
                        assert(rest[0] == counts[1]);
                    }
                    assert(counts[0].0 < u[0].0);
                    if j > 1 {
                        assert(u[0].0 < u[j - 1].0);
                    }
                }
            }
        } else {
            assert(t.drop_first() =~= counts);
            assert forall|i: int, j: int| 0 <= i < j < t.len() implies (#[trigger] t[i]).0 < (
            #[trigger] t[j]).0 by {
                assert(t[j] == counts[j - 1]);
                if i > 0 {
                    assert(t[i] == counts[i - 1]);
                } else if j > 1 {
                    assert(counts[0].0 < counts[j - 1].0);
                }
            }
            absent_below(counts, id);
        }
    }
}

proof fn absent_below(counts: Seq<(u32, nat)>, id: u32)
    requires
        ascending(counts),
        counts.len() > 0 ==> id < counts[0].0,
    ensures
        count_of(counts, id) == 0,
    decreases counts.len(),
{
    if counts.len() > 0 {
        let rest = counts.drop_first();
        assert forall|i: int, j: int| 0 <= i < j < rest.len() implies (#[trigger] rest[i]).0 < (
        #[trigger] rest[j]).0 by {
            assert(counts[i + 1].0 < counts[j + 1].0);
        }
        if rest.len() > 0 {
            assert(counts[0].0 < counts[1].0);
        }
        absent_below(rest, id);
    }
}

/// The term ids come in strictly ascending order, and the count of each is the
/// number of tokens that hash to it.
pub proof fn law_counts_are_occurrences(tokens: Seq<Seq<char>>, id: u32)
    ensures
        ascending(term_counts(tokens)),
        count_of(term_counts(tokens), id) == occurrences(tokens, id),
    decreases tokens.len(),
{
    if tokens.len() > 0 {
        law_counts_are_occurrences(tokens.drop_last(), id);
        tallied_counts(term_counts(tokens.drop_last()), term_id(tokens.last()), id);
    }
}

/// The pairs of two columns.
pub open spec fn paired(ids: Seq<u32>, counts: Seq<u64>) -> Seq<(u32, nat)> {
    Seq::new(ids.len(), |i: int| (ids[i], counts[i] as nat))
}

proof fn tallied_at(counts: Seq<(u32, nat)>, id: u32, p: int)
    requires
        0 <= p <= counts.len(),
        forall|i: int| 0 <= i < p ==> (#[trigger] counts[i]).0 < id,
        p < counts.len() ==> counts[p].0 >= id,
    ensures
        tallied(counts, id) == (if p < counts.len() && counts[p].0 == id {
            counts.update(p, (id, counts[p].1 + 1))
        } else {
            counts.insert(p, (id, 1))
        }),
    decreases p,
{
    let t = tallied(counts, id);
    if p == 0 {
        if counts.len() > 0 && counts[0].0 == id {
            assert(t =~= counts.update(0, (id, counts[0].1 + 1)));
        } else {
            assert(t =~= counts.insert(0, (id, 1)));
        }
    } else {
        let rest = counts.drop_first();
        assert(counts[0].0 < id);
        assert forall|i: int| 0 <= i < p - 1 implies (#[trigger] rest[i]).0 < id by {
            assert(counts[i + 1].0 < id);
        }
        tallied_at(rest, id, p - 1);
        if p < counts.len() && counts[p].0 == id {
            assert(t =~= counts.update(p, (id, counts[p].1 + 1)));
        } else {
            assert(t =~= counts.insert(p, (id, 1)));
        }
    }
}

/// The sparse vector of a text: its term ids in ascending order, and how often
/// each occurs.
pub fn to_sparse_parts(s: &str) -> (r: (Vec<u32>, Vec<u64>))
    ensures
        r.0@ == ids_of(term_counts(tokens(s@))),
        r.1@.len() == r.0@.len(),
        paired(r.0@, r.1@) == term_counts(tokens(s@)),
{
    let found = tokenize(s);
    let ghost all = found.deep_view();
    let mut ids: Vec<u32> = Vec::new();
    let mut counts: Vec<u64> = Vec::new();
    let mut i: usize = 0;
    assert(paired(ids@, counts@) =~= term_counts(all.take(0)));
    while i < found.len()
        invariant
            all == found.deep_view(),
            0 <= i <= found@.len(),
            ids@.len() == counts@.len(),
            ids@.len() <= i,
            forall|j: int| 0 <= j < counts@.len() ==> #[trigger] counts@[j] <= i,
            paired(ids@, counts@) == term_counts(all.take(i as int)),
        decreases found@.len() - i,
    {
        let id = hash_token(found[i].as_str());
        let ghost before = paired(ids@, counts@);
        proof {
            assert(all.take(i + 1).drop_last() =~= all.take(i as int));
            assert(all.take(i + 1).last() == found@[i as int]@);
        }
        let mut p: usize = 0;
        while p < ids.len() && ids[p] < id
            invariant
                0 <= p <= ids@.len(),
                forall|j: int| 0 <= j < p ==> #[trigger] ids@[j] < id,
            decreases ids@.len() - p,
        {
            p += 1;
        }
        proof {
            tallied_at(before, id, p as int);
        }
        if p < ids.len() && ids[p] == id {
            let n = counts[p];
            assert(n <= i);
            counts.set(p, n + 1);
            assert(paired(ids@, counts@) =~= before.update(p as int, (id, before[p as int].1 + 1)));
        } else {
            ids.insert(p, id);
            counts.insert(p, 1);
            assert(paired(ids@, counts@) =~= before.insert(p as int, (id, 1)));
        }
        i += 1;
    }
    assert(all.take(i as int) =~= all);
    assert(ids@ =~= ids_of(paired(ids@, counts@)));
    (ids, counts)
}

} // verus!
