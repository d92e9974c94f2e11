//! Token sequences in batches, as a local model takes them.

use vstd::prelude::*;
use crate::seqs;

verus! {

broadcast use vstd::string::group_string_axioms;

/// How many tokens a model takes at once.
pub const MAX_BATCH_TOKENS: usize = 512;

/// The tokens of one text.
#[derive(Debug, PartialEq)]
pub struct LLamaTokenizer {
    pub tokens: Vec<i32>,
}

impl DeepView for LLamaTokenizer {
    type V = Seq<i32>;

    open spec fn deep_view(&self) -> Seq<i32> {
        self.tokens@
    }
}

impl LLamaTokenizer {
    /// No tokens yet.
    pub fn new() -> (r: Self)
        ensures
            r.deep_view() == Seq::<i32>::empty(),
    {
        let r = LLamaTokenizer { tokens: Vec::new() };
        assert(r.tokens@ =~= Seq::<i32>::empty());
        r
    }
}

/// The batches that are closed, the one that is open, and how many tokens are in
/// that.
pub struct Packing {
    pub closed: Seq<Seq<Seq<i32>>>,
    pub open: Seq<Seq<i32>>,
    pub tokens: int,
}

/// The open batch closed, where there is anything in it.
pub open spec fn closed_batches(p: Packing) -> Seq<Seq<Seq<i32>>> {
    if p.open.len() == 0 {
        p.closed
    } else {
        p.closed.push(p.open)
    }
}

/// One more text. A text that fits no batch has one of its own, and a text that
/// does not fit into the open batch starts a new one.
pub open spec fn pack(p: Packing, t: Seq<i32>, max: nat) -> Packing {
    if t.len() > max {
        Packing { closed: closed_batches(p).push(seq![t]), open: Seq::empty(), tokens: 0 }
    } else if p.tokens + t.len() > max {
        Packing { closed: p.closed.push(p.open), open: seq![t], tokens: t.len() as int }
    } else {
        Packing { open: p.open.push(t), tokens: p.tokens + t.len(), ..p }
    }
}

/// Texts packed one by one.
pub open spec fn packed(texts: Seq<Seq<i32>>, max: nat) -> Packing
    decreases texts.len(),
{
    if texts.len() == 0 {
        Packing { closed: Seq::empty(), open: Seq::empty(), tokens: 0 }
    } else {
        pack(packed(texts.drop_last(), max), texts.last(), max)
    }
}

/// The batches of texts.
pub open spec fn batches_of(texts: Seq<Seq<i32>>, max: nat) -> Seq<Seq<Seq<i32>>> {
    closed_batches(packed(texts, max))
}

/// How many tokens texts have together.
pub open spec fn token_count(texts: Seq<Seq<i32>>) -> nat
    decreases texts.len(),
{
    if texts.len() == 0 {
        0
    } else {
        token_count(texts.drop_last()) + texts.last().len()
    }
}

/// Batches one after the other.
pub open spec fn joined(batches: Seq<Seq<Seq<i32>>>) -> Seq<Seq<i32>>
    decreases batches.len(),
{
    if batches.len() == 0 {
        Seq::empty()
    } else {
        joined(batches.drop_last()) + batches.last()
    }
}

/// A batch holds something, and fits, unless it is a single text that fits none.
pub open spec fn fits(batch: Seq<Seq<i32>>, max: nat) -> bool {
    batch.len() > 0 && (token_count(batch) <= max || batch.len() == 1)
}

/// What holds while texts are packed.
pub open spec fn packing_sound(texts: Seq<Seq<i32>>, max: nat) -> bool {
    let p = packed(texts, max);
    &&& joined(p.closed) + p.open == texts
    &&& p.tokens == token_count(p.open)
    &&& p.tokens <= max
    &&& forall|i: int| 0 <= i < p.closed.len() ==> fits(#[trigger] p.closed[i], max)
}

proof fn joined_push(batches: Seq<Seq<Seq<i32>>>, b: Seq<Seq<i32>>)
    ensures
        joined(batches.push(b)) == joined(batches) + b,
{
    assert(batches.push(b).drop_last() =~= batches);
}

proof fn single_count(t: Seq<i32>)
    ensures
        token_count(seq![t]) == t.len(),
{
    assert(seq![t].drop_last() =~= Seq::<Seq<i32>>::empty());
    assert(token_count(seq![t].drop_last()) == 0);
}

pub(crate) proof fn packing_is_sound(texts: Seq<Seq<i32>>, max: nat)
    ensures
        packing_sound(texts, max),
    decreases texts.len(),
{
    if texts.len() == 0 {
        let p = packed(texts, max);
        assert(joined(p.closed) + p.open =~= texts);
    } else {
        let rest = texts.drop_last();
        let t = texts.last();
        packing_is_sound(rest, max);
        let p = packed(rest, max);
        let q = packed(texts, max);
        assert(texts =~= rest.push(t));
        single_count(t);
        if t.len() > max {
            let c = closed_batches(p);
            joined_push(p.closed, p.open);
            joined_push(c, seq![t]);
            assert(joined(c) =~= rest);
            assert(joined(q.closed) + q.open =~= texts);
            assert(token_count(q.open) == 0);
        } else if p.tokens + t.len() > max {
            if p.open.len() == 0 {
                assert(token_count(p.open) == 0);
            }
            joined_push(p.closed, p.open);
            assert(joined(q.closed) + q.open =~= texts);
        } else {
            assert(q.open.drop_last() =~= p.open);
            assert(joined(q.closed) + q.open =~= texts);
        }
    }
}

/// Batches hold all the texts, in their order.
pub proof fn law_batches_keep_all_texts(texts: Seq<Seq<i32>>, max: nat)
    ensures
        joined(batches_of(texts, max)) == texts,
{
    packing_is_sound(texts, max);
    let p = packed(texts, max);
    joined_push(p.closed, p.open);
    if p.open.len() == 0 {
        assert(joined(p.closed) + p.open =~= joined(p.closed));
    }
}

/// No batch is empty, and none is larger than a model takes but for a single text
/// that is.
pub proof fn law_batches_fit(texts: Seq<Seq<i32>>, max: nat, i: int)
    requires
        0 <= i < batches_of(texts, max).len(),
    ensures
        fits(batches_of(texts, max)[i], max),
{
    packing_is_sound(texts, max);
}

/// The batches of texts. None has more than `max_tokens` tokens, but for a text
/// that alone has more.
pub fn split_into_batches(tokenizers: Vec<LLamaTokenizer>, max_tokens: usize) -> (r: Vec<
    Vec<LLamaTokenizer>,
>)
    ensures
        r.deep_view() == batches_of(tokenizers.deep_view(), max_tokens as nat),
{
    let ghost all = tokenizers.deep_view();
    let ghost max = max_tokens as nat;
    let total = tokenizers.len();
    let mut rest = tokenizers;
    let mut closed: Vec<Vec<LLamaTokenizer>> = seqs::no_items();
    let mut open: Vec<LLamaTokenizer> = seqs::no_items();
    let mut tokens: usize = 0;
    let mut i: usize = 0;
    assert(all.skip(0) =~= all);
    while i < total
        invariant
            total == all.len(),
            max == max_tokens as nat,
            0 <= i <= total,
            rest.deep_view() == all.skip(i as int),
            closed.deep_view() == packed(all.take(i as int), max).closed,
            open.deep_view() == packed(all.take(i as int), max).open,
            tokens == packed(all.take(i as int), max).tokens,
            tokens <= max_tokens,
        decreases total - i,
    {
        proof {
            assert(all.take(i + 1).drop_last() =~= all.take(i as int));
            assert(all.take(i + 1).last() == all[i as int]);
            assert(rest@.len() == rest.deep_view().len());
            assert(rest.deep_view()[0] == rest@[0].deep_view());
            assert(open.deep_view().len() == open@.len());
        }
        let ghost before = rest.deep_view();
        let t = rest.remove(0);
        assert(rest.deep_view() =~= before.remove(0));
        assert(rest.deep_view() =~= all.skip(i + 1));
        let n = t.tokens.len();
        if n > max_tokens {
            if open.len() > 0 {
                seqs::push_item(&mut closed, open);
                open = seqs::no_items();
            }
            let mut alone: Vec<LLamaTokenizer> = seqs::no_items();
            seqs::push_item(&mut alone, t);
            assert(alone.deep_view() =~= seq![all[i as int]]);
            seqs::push_item(&mut closed, alone);
            assert(open.deep_view() =~= Seq::<Seq<i32>>::empty());
            tokens = 0;
        } else {
            if n > max_tokens - tokens {
                seqs::push_item(&mut closed, open);
                open = seqs::no_items();
                tokens = 0;
            }
            seqs::push_item(&mut open, t);
            tokens += n;
            proof {
                let q = packed(all.take(i + 1), max);
                assert(open.deep_view() =~= q.open);
            }
        }
        i += 1;
    }
    assert(all.take(i as int) =~= all);
    assert(open.deep_view().len() == open@.len());
    if open.len() > 0 {
        seqs::push_item(&mut closed, open);
    }
    closed
}

/// One token of a batch: its place in its text, the place of the text in the batch,
/// and whether it is the last of its text.
#[derive(Debug, Clone, Copy, PartialEq, Eq, Structural)]
pub struct BatchToken {
    pub token: i32,
    pub position: i32,
    pub sequence: i32,
    pub last: bool,
}

impl DeepView for BatchToken {
    type V = BatchToken;

    open spec fn deep_view(&self) -> BatchToken {
        *self
    }
}

/// The tokens of one text in a batch.
pub open spec fn text_tokens(t: Seq<i32>, s: int) -> Seq<BatchToken> {
    Seq::new(
        t.len(),
        |i: int|
            BatchToken {
                token: t[i],
                position: i as i32,
                sequence: s as i32,
                last: i == t.len() - 1,
            },
    )
}

/// The tokens of a batch, text by text.
pub open spec fn tokens_of(batch: Seq<Seq<i32>>) -> Seq<BatchToken>
    decreases batch.len(),
{
    if batch.len() == 0 {
        Seq::empty()
    } else {
        tokens_of(batch.drop_last()) + text_tokens(batch.last(), batch.len() - 1)
    }
}

/// A batch has as many tokens as its texts together.
pub proof fn law_tokens_are_counted(batch: Seq<Seq<i32>>)
    ensures
        tokens_of(batch).len() == token_count(batch),
    decreases batch.len(),
{
    if batch.len() > 0 {
        law_tokens_are_counted(batch.drop_last());
    }
}

/// The tokens of a batch as they are handed to a model.
pub fn batch_tokens(batch: &Vec<LLamaTokenizer>) -> (r: Vec<BatchToken>)
    requires
        batch@.len() <= i32::MAX,
        forall|i: int| 0 <= i < batch@.len() ==> (#[trigger] batch@[i]).tokens@.len() <= i32::MAX,
    ensures
        r@ == tokens_of(batch.deep_view()),
{
    let ghost all = batch.deep_view();
    let mut out: Vec<BatchToken> = Vec::new();
    let mut s: usize = 0;
    assert(out@ =~= tokens_of(all.take(0)));
    while s < batch.len()
        invariant
            all == batch.deep_view(),
            batch@.len() <= i32::MAX,
            forall|i: int|
                0 <= i < batch@.len() ==> (#[trigger] batch@[i]).tokens@.len() <= i32::MAX,
            0 <= s <= batch@.len(),
            out@ == tokens_of(all.take(s as int)),
        decreases batch@.len() - s,
    {
        let t = &batch[s];
        assert(batch@[s as int].tokens@.len() <= i32::MAX);
        let ghost before = out@;
        let ghost want = text_tokens(t.tokens@, s as int);
        let n = t.tokens.len();
        let mut i: usize = 0;
        while i < n
            invariant
                n == t.tokens@.len(),
                n <= i32::MAX,
                s <= i32::MAX,
                0 <= i <= n,
                want == text_tokens(t.tokens@, s as int),
                out@ == before + want.take(i as int),
            decreases n - i,
        {
            out.push(
                BatchToken {
                    token: t.tokens[i],
                    position: i as i32,
                    sequence: s as i32,
                    last: i == n - 1,
                },
            );
            i += 1;
            assert(out@ =~= before + want.take(i as int));
        }
        proof {
            assert(want.take(i as int) =~= want);
            assert(all.take(s + 1).drop_last() =~= all.take(s as int));
            assert(all.take(s + 1).last() == t.deep_view());
        }
        s += 1;
    }
    assert(all.take(s as int) =~= all);
    out
}

/// What a model is asked of a query and a document.
pub open spec fn rerank_text(query: Seq<char>, document: Seq<char>) -> Seq<char> {
    query + "</s></s>"@ + document
}

/// What a model is asked of a query and a document.
pub fn rerank_prompt(query: &str, document: &str) -> (r: String)
    ensures
        r@ == rerank_text(query@, document@),
{
    let mut s = query.to_owned();
    s.append("</s></s>");
    s.append(document);
    s
}

/// Tokens in pieces of at most `n`.
pub open spec fn pieces(tokens: Seq<i32>, n: nat) -> Seq<Seq<i32>>
    decreases tokens.len(),
{
    if tokens.len() == 0 || n == 0 {
        Seq::empty()
    } else if tokens.len() <= n {
        seq![tokens]
    } else {
        seq![tokens.take(n as int)] + pieces(tokens.skip(n as int), n)
    }
}

/// Pieces one after the other are the tokens.
pub proof fn law_pieces_keep_all_tokens(tokens: Seq<i32>, n: nat)
    requires
        n > 0,
    ensures
        pieces(tokens, n).flatten() == tokens,
    decreases tokens.len(),
{
    let p = pieces(tokens, n);
    if tokens.len() == 0 {
        assert(p.flatten() =~= tokens);
    } else if tokens.len() <= n {
        assert(p.drop_first() =~= Seq::<Seq<i32>>::empty());
        assert(p.drop_first().flatten() =~= Seq::<i32>::empty());
        assert(p.flatten() =~= tokens);
    } else {
        let rest = tokens.skip(n as int);
        law_pieces_keep_all_tokens(rest, n);
        assert(p.drop_first() =~= pieces(rest, n));
        assert(p.flatten() =~= tokens.take(n as int) + rest);
        assert(tokens.take(n as int) + rest =~= tokens);
    }
}

/// The tokens of a text in pieces that a model takes at once.
pub fn token_pieces(t: &LLamaTokenizer, n: usize) -> (r: Vec<Vec<i32>>)
    requires
        n > 0,
    ensures
        r.deep_view() == pieces(t.deep_view(), n as nat),
{
    let ghost all = t.tokens@;
    let mut out: Vec<Vec<i32>> = seqs::no_items();
    let mut from: usize = 0;
    proof {
        assert(all.skip(0) =~= all);
        assert(out.deep_view() + pieces(all, n as nat) =~= pieces(all, n as nat));
    }
    while from < t.tokens.len()
        invariant
            n > 0,
            all == t.tokens@,
            0 <= from <= all.len(),
            out.deep_view() + pieces(all.skip(from as int), n as nat) == pieces(all, n as nat),
        decreases all.len() - from,
    {
        let to = if t.tokens.len() - from <= n {
            t.tokens.len()
        } else {
            from + n
        };
        let mut piece: Vec<i32> = Vec::new();
        let mut i: usize = from;
        while i < to
            invariant
                all == t.tokens@,
                from <= i <= to <= all.len(),
                piece@ == all.subrange(from as int, i as int),
            decreases to - i,
        {
            piece.push(t.tokens[i]);
            i += 1;
            assert(piece@ =~= all.subrange(from as int, i as int));
        }
        proof {
            let rest = all.skip(from as int);
            if rest.len() <= n {
                assert(piece@ =~= rest);
                assert(all.skip(to as int) =~= Seq::<i32>::empty());
            } else {
                assert(piece@ =~= rest.take(n as int));
                assert(rest.skip(n as int) =~= all.skip(to as int));
            }
            assert(pieces(rest, n as nat) =~= seq![piece@] + pieces(all.skip(to as int), n as nat));
        }
        let ghost done = out.deep_view();
        let ghost x = piece@;
        assert(piece.deep_view() =~= x);
        seqs::push_item(&mut out, piece);
        proof {
            assert(out.deep_view() + pieces(all.skip(to as int), n as nat) =~= done + (seq![x]
                + pieces(all.skip(to as int), n as nat)));
        }
        from = to;
    }
    proof {
        assert(all.skip(from as int) =~= Seq::<i32>::empty());
        assert(out.deep_view() + pieces(Seq::<i32>::empty(), n as nat) =~= out.deep_view());
    }
    out
}

} // verus!
