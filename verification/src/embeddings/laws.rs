//! What tokens, stored vectors, rankings and batches hold of what went into them.

use vstd::prelude::*;
use crate::embeddings::batches;
use crate::embeddings::bm25;
use crate::embeddings::cache::EmbeddingCacheModel;
use crate::embeddings::cache;
use crate::embeddings::store::EmbeddingFilterModel;
use crate::embeddings::store::EmbeddingPayloadModel;
use crate::embeddings::store::IndexJobModel;
use crate::embeddings::store::ScoredHitModel;
use crate::embeddings::store::StoredEmbeddingModel;
use crate::embeddings::store;
use crate::embeddings;
use crate::floats;
use crate::ids;
use crate::sorting;
use crate::text;

verus! {

broadcast use vstd::string::group_string_axioms;

/// Is a text nothing but letters and numbers?
pub open spec fn is_one_word(s: Seq<char>) -> bool {
    s.len() > 0 && forall|i: int| 0 <= i < s.len() ==> bm25::alphanumeric(#[trigger] s[i])
}

proof fn word_is_read(s: Seq<char>)
    requires
        forall|i: int| 0 <= i < s.len() ==> bm25::alphanumeric(#[trigger] s[i]),
    ensures
        bm25::reading(s).done.len() == 0,
        bm25::reading(s).word == s,
    decreases s.len(),
{
    if s.len() > 0 {
        let rest = s.drop_last();
        assert forall|i: int| 0 <= i < rest.len() implies bm25::alphanumeric(
            #[trigger] rest[i],
        ) by {
            assert(rest[i] == s[i]);
        }
        word_is_read(rest);
        assert(bm25::alphanumeric(s[s.len() - 1]));
        assert(rest.push(s.last()) =~= s);
    } else {
        assert(s =~= Seq::<char>::empty());
    }
}

proof fn reading_goes_on(a: Seq<char>, sep: char, b: Seq<char>)
    requires
        !bm25::alphanumeric(sep),
    ensures
        bm25::reading(a.push(sep) + b).done == bm25::words(a) + bm25::reading(b).done,
        bm25::reading(a.push(sep) + b).word == bm25::reading(b).word,
    decreases b.len(),
{
    let whole = a.push(sep) + b;
    if b.len() == 0 {
        assert(whole =~= a.push(sep));
        assert(whole.drop_last() =~= a);
        assert(whole.last() == sep);
        assert(bm25::words(a) + Seq::<Seq<char>>::empty() =~= bm25::words(a));
    } else {
        let rest = b.drop_last();
        reading_goes_on(a, sep, rest);
        assert(whole.drop_last() =~= a.push(sep) + rest);
        assert(whole.last() == b.last());
        if !bm25::alphanumeric(b.last()) {
            let before = bm25::reading(rest);
            assert(bm25::closed(bm25::reading(whole.drop_last())) =~= bm25::words(a)
                + bm25::closed(before));
        }
    }
}

/// A word is itself, and what stands between letters and numbers separates words: the words of
/// two texts with a separator between them are the words of the one, then those of the other.
pub proof fn law_words_are_separated(a: Seq<char>, sep: char, b: Seq<char>)
    requires
        !bm25::alphanumeric(sep),
    ensures
        bm25::words(a.push(sep) + b) == bm25::words(a) + bm25::words(b),
        is_one_word(a) ==> bm25::words(a) == seq![a],
        a.len() == 0 ==> bm25::words(a).len() == 0,
{
    reading_goes_on(a, sep, b);
    assert(bm25::words(a.push(sep) + b) =~= bm25::words(a) + bm25::words(b));
    if is_one_word(a) {
        word_is_read(a);
        assert(bm25::words(a) =~= seq![a]);
    }
}

proof fn tokens_join(a: Seq<Seq<char>>, b: Seq<Seq<char>>)
    ensures
        bm25::kept_tokens(a + b) == bm25::kept_tokens(a) + bm25::kept_tokens(b),
    decreases b.len(),
{
    if b.len() == 0 {
        assert(a + b =~= a);
        assert(bm25::kept_tokens(a) + bm25::kept_tokens(b) =~= bm25::kept_tokens(a));
    } else {
        tokens_join(a, b.drop_last());
        assert((a + b).drop_last() =~= a + b.drop_last());
        assert(bm25::kept_tokens(a + b) =~= bm25::kept_tokens(a) + bm25::kept_tokens(b));
    }
}

/// The tokens of a word are the word in lower case, or none where that carries no meaning; the
/// tokens of two texts with a separator between them are those of the one, then those of the
/// other.
pub proof fn law_tokens_are_separated(a: Seq<char>, sep: char, b: Seq<char>)
    requires
        !bm25::alphanumeric(sep),
    ensures
        bm25::tokens(a.push(sep) + b) == bm25::tokens(a) + bm25::tokens(b),
        is_one_word(a) && !bm25::stopword(text::lowercase(a)) ==> bm25::tokens(a) == seq![
            text::lowercase(a),
        ],
        is_one_word(a) && bm25::stopword(text::lowercase(a)) ==> bm25::tokens(a).len() == 0,
{
    law_words_are_separated(a, sep, b);
    tokens_join(bm25::words(a), bm25::words(b));
    if is_one_word(a) {
        let one = seq![a];
        assert(one.drop_last() =~= Seq::<Seq<char>>::empty());
        assert(bm25::kept_tokens(one.drop_last()).len() == 0);
        assert(one.last() == a);
        if !bm25::stopword(text::lowercase(a)) {
            assert(bm25::tokens(a) =~= seq![text::lowercase(a)]);
        }
    }
}

/// The hash of bytes is that of FNV-1a: it starts from the offset basis, and each byte is put in
/// by an exclusive or, after which it is multiplied by the prime, modulo two to the power of 32.
pub proof fn law_hash_is_of_its_bytes(bytes: Seq<u8>, b: u8)
    ensures
        bm25::fnv_hash(Seq::empty()) == 2166136261,
        bm25::fnv_hash(bytes.push(b)) as int == ((bm25::fnv_hash(bytes) ^ (b as u32)) as int
            * 16777619) % 4294967296,
{
    assert(bytes.push(b).drop_last() =~= bytes);
    assert(bytes.push(b).last() == b);
}

/// Is a point among points under its id?
pub open spec fn holds_point(s: Seq<StoredEmbeddingModel>, p: StoredEmbeddingModel) -> bool {
    exists|i: int| 0 <= i < s.len() && #[trigger] s[i] == p
}

/// Points in ascending order of their ids.
pub open spec fn ids_ascend(s: Seq<StoredEmbeddingModel>) -> bool {
    forall|i: int, j: int| 0 <= i < j < s.len() ==> (#[trigger] s[i]).id < (#[trigger] s[j]).id
}

/// A point that is put in is there as it was given, in place of one with its id; every point
/// with another id stays as it was, and none is added.
pub proof fn law_put_point_replaces(
    s: Seq<StoredEmbeddingModel>,
    p: StoredEmbeddingModel,
    q: StoredEmbeddingModel,
)
    requires
        ids_ascend(s),
    ensures
        ids_ascend(store::put_point(s, p)),
        holds_point(store::put_point(s, p), q) <==> q == p || (q.id != p.id && holds_point(s, q)),
    decreases s.len(),
{
    let t = store::put_point(s, p);
    if s.len() == 0 {
        assert(t[0] == p);
    } else {
        let rest = s.drop_first();
        assert(ids_ascend(rest)) by {
            assert forall|i: int, j: int| 0 <= i < j < rest.len() implies (#[trigger] rest[i]).id
                < (#[trigger] rest[j]).id by {
                assert(s[i + 1].id < s[j + 1].id);
            }
        }
        if holds_point(s, q) {
            let i = choose|i: int| 0 <= i < s.len() && #[trigger] s[i] == q;
            if i > 0 {
                assert(rest[i - 1] == q);
            }
        }
        if holds_point(rest, q) {
            let i = choose|i: int| 0 <= i < rest.len() && #[trigger] rest[i] == q;
            assert(s[i + 1] == q);
        }
        if s[0].id == p.id {
            assert(t[0] == p);
            assert forall|i: int, j: int| 0 <= i < j < t.len() implies (#[trigger] t[i]).id < (
            #[trigger] t[j]).id by {
                assert(t[j] == s[j]);
                assert(s[i].id < s[j].id);
            }
            if holds_point(t, q) {
                let i = choose|i: int| 0 <= i < t.len() && #[trigger] t[i] == q;
                if i > 0 {
                    assert(s[i] == q);
                    assert(s[0].id < s[i].id);
                }
            }
            if q.id != p.id && holds_point(s, q) {
                let i = choose|i: int| 0 <= i < s.len() && #[trigger] s[i] == q;
                assert(t[i] == q);
            }
        } else if s[0].id < p.id {
            law_put_point_replaces(rest, p, q);
            let u = store::put_point(rest, p);
            assert forall|i: int, j: int| 0 <= i < j < t.len() implies (#[trigger] t[i]).id < (
            #[trigger] t[j]).id by {
                assert(t[j] == u[j - 1]);
                if i > 0 {
                    assert(t[i] == u[i - 1]);
                } else {
                    assert(holds_point(u, u[j - 1]));
                    law_put_point_replaces(rest, p, u[j - 1]);
                    if u[j - 1] != p {
                        let k = choose|k: int| 0 <= k < rest.len() && #[trigger] rest[k] == u[j - 1];
                        assert(s[0].id < s[k + 1].id);
                    }
                }
            }
            if holds_point(t, q) {
                let i = choose|i: int| 0 <= i < t.len() && #[trigger] t[i] == q;
                if i > 0 {
                    assert(u[i - 1] == q);
                } else {
                    assert(s[0] == q);
                }
            }
            if holds_point(u, q) {
                let i = choose|i: int| 0 <= i < u.len() && #[trigger] u[i] == q;
                assert(t[i + 1] == q);
            }
            assert(t[0] == s[0]);
        } else {
            assert(t[0] == p);
            assert forall|i: int, j: int| 0 <= i < j < t.len() implies (#[trigger] t[i]).id < (
            #[trigger] t[j]).id by {
                assert(t[j] == s[j - 1]);
                if i > 0 {
                    assert(t[i] == s[i - 1]);
                } else if j > 1 {
                    assert(s[0].id < s[j - 1].id);
                }
            }
            if holds_point(t, q) {
                let i = choose|i: int| 0 <= i < t.len() && #[trigger] t[i] == q;
                if i > 0 {
                    assert(s[i - 1] == q);
                    if i > 1 {
                        assert(s[0].id < s[i - 1].id);
                    }
                }
            }
            if holds_point(s, q) {
                let i = choose|i: int| 0 <= i < s.len() && #[trigger] s[i] == q;
                assert(t[i + 1] == q);
            }
        }
    }
}

/// The ids that are missing are exactly those without a point, in their order.
pub proof fn law_missing_ids_have_no_point(s: Seq<StoredEmbeddingModel>, ids: Seq<u128>)
    ensures
        store::absent_ids(s, ids) == ids.filter(
            |id: u128| forall|i: int| 0 <= i < s.len() ==> (#[trigger] s[i]).id != id,
        ),
    decreases ids.len(),
{
    reveal(Seq::filter);
    if ids.len() > 0 {
        law_missing_ids_have_no_point(s, ids.drop_last());
    }
}

/// The candidates of a search are exactly the points that the filter lets through: of one of the
/// kinds, and in one of the domains, where any are given.
pub proof fn law_candidates_meet_the_filter(
    s: Seq<StoredEmbeddingModel>,
    f: EmbeddingFilterModel,
    p: StoredEmbeddingModel,
)
    ensures
        store::candidates_of(s, f).contains(p) <==> {
            &&& s.contains(p)
            &&& f.kinds.len() > 0 ==> exists|i: int|
                0 <= i < f.kinds.len() && f.kinds[i] == p.payload.kind
            &&& f.domains.len() > 0 ==> exists|i: int|
                0 <= i < f.domains.len() && f.domains[i] == p.payload.domain
        },
    decreases s.len(),
{
    if s.len() > 0 {
        let rest = s.drop_last();
        law_candidates_meet_the_filter(rest, f, p);
        let before = store::candidates_of(rest, f);
        let all = store::candidates_of(s, f);
        if all.contains(p) {
            let i = choose|i: int| 0 <= i < all.len() && all[i] == p;
            if i < before.len() {
                assert(before[i] == p);
                let k = choose|k: int| 0 <= k < rest.len() && rest[k] == p;
                assert(s[k] == p);
            } else {
                assert(s[s.len() - 1] == p);
            }
        }
        if s.contains(p) {
            let k = choose|k: int| 0 <= k < s.len() && s[k] == p;
            if k < rest.len() {
                assert(rest[k] == p);
            }
            if before.contains(p) {
                let i = choose|i: int| 0 <= i < before.len() && before[i] == p;
                assert(all[i] == p);
            } else if store::accepted(f, s.last().payload) {
                assert(all[before.len() as int] == s.last());
            }
        }
    }
}

proof fn above_are_hits(
    found: Seq<StoredEmbeddingModel>,
    scores: Seq<u32>,
    threshold: Option<u32>,
    i: int,
)
    requires
        found.len() == scores.len(),
        0 <= i < found.len(),
        threshold is Some ==> embeddings::at_least(scores[i], threshold->0),
    ensures
        store::hits_above(found, scores, threshold).contains(
            ScoredHitModel { score: scores[i], payload: found[i].payload },
        ),
    decreases found.len(),
{
    let before = store::hits_above(found.drop_last(), scores.drop_last(), threshold);
    let all = store::hits_above(found, scores, threshold);
    let h = ScoredHitModel { score: scores[i], payload: found[i].payload };
    if i < found.len() - 1 {
        above_are_hits(found.drop_last(), scores.drop_last(), threshold, i);
        let k = choose|k: int| 0 <= k < before.len() && before[k] == h;
        assert(all[k] == h);
    } else {
        assert(all[before.len() as int] == h);
    }
}

/// A point at or above the threshold is among the hits, unless there are as many hits as were
/// asked for, none of which scores less.
pub proof fn law_hits_are_the_best(
    found: Seq<StoredEmbeddingModel>,
    scores: Seq<u32>,
    threshold: Option<u32>,
    limit: nat,
    i: int,
)
    requires
        found.len() == scores.len(),
        0 <= i < found.len(),
        !embeddings::is_nan(scores[i]),
        threshold is Some ==> !embeddings::is_nan(threshold->0) && floats::narrow_value(scores[i])
            >= floats::narrow_value(threshold->0),
    ensures
        ({
            let hits = store::ranked_hits(found, scores, threshold, limit);
            ||| hits.contains(ScoredHitModel { score: scores[i], payload: found[i].payload })
            ||| hits.len() == limit && forall|k: int|
                0 <= k < hits.len() ==> floats::narrow_value((#[trigger] hits[k]).score)
                    >= floats::narrow_value(scores[i])
        }),
{
    let above = store::hits_above(found, scores, threshold);
    let sorted = sorting::sorted_by(above, store::hit_order());
    let hits = store::ranked_hits(found, scores, threshold, limit);
    let h = ScoredHitModel { score: scores[i], payload: found[i].payload };
    if threshold is Some {
        floats::law_narrow_floats_compare_by_value(scores[i], threshold->0);
    }
    above_are_hits(found, scores, threshold, i);
    sorting::sorting_keeps(above, store::hit_order(), h);
    store::law_hit_order_is_total();
    sorting::law_sorted_by(above, store::hit_order());
    let m = choose|m: int| 0 <= m < sorted.len() && sorted[m] == h;
    if m < hits.len() {
        assert(hits[m] == h);
    } else {
        assert forall|k: int| 0 <= k < hits.len() implies floats::narrow_value(
            (#[trigger] hits[k]).score,
        ) >= floats::narrow_value(scores[i]) by {
            assert(hits[k] == sorted[k]);
            assert(store::hit_order()(sorted[k], sorted[m]));
            floats::law_narrow_floats_compare_by_value(hits[k].score, scores[i]);
        }
    }
}

/// Does a job embed one of the passages, under its id?
pub open spec fn is_job_of(
    j: IndexJobModel,
    passages: Seq<(EmbeddingPayloadModel, Seq<char>)>,
    ids: Seq<u128>,
) -> bool {
    exists|i: int|
        0 <= i < passages.len() && #[trigger] ids[i] == j.id && passages[i].0 == j.payload
            && passages[i].1 == j.text
}

/// A job embeds the text and payload of a passage under the id of that passage.
pub proof fn law_jobs_are_of_passages(
    passages: Seq<(EmbeddingPayloadModel, Seq<char>)>,
    ids: Seq<u128>,
    missing: Seq<u128>,
    k: int,
)
    requires
        passages.len() == ids.len(),
        0 <= k < store::jobs_of(passages, ids, missing).len(),
    ensures
        is_job_of(store::jobs_of(passages, ids, missing)[k], passages, ids),
    decreases passages.len(),
{
    let jobs = store::jobs_of(passages, ids, missing);
    if passages.len() > 0 {
        let before = store::jobs_of(passages.drop_last(), ids.drop_last(), missing);
        if k < before.len() {
            law_jobs_are_of_passages(passages.drop_last(), ids.drop_last(), missing, k);
            assert(jobs[k] == before[k]);
            let i = choose|i: int|
                0 <= i < passages.drop_last().len() && #[trigger] ids.drop_last()[i]
                    == before[k].id && passages.drop_last()[i].0 == before[k].payload
                    && passages.drop_last()[i].1 == before[k].text;
            assert(ids[i] == jobs[k].id);
            assert(passages[i] == passages.drop_last()[i]);
        } else {
            assert(ids[ids.len() - 1] == jobs[k].id);
        }
    }
}

/// Every job becomes a point with its own id and payload, and with the vector at its place; a
/// reply with another number of vectors is an error.
pub proof fn law_points_are_of_their_jobs(jobs: Seq<IndexJobModel>, vectors: Seq<Seq<u32>>)
    ensures
        store::points_from(jobs, vectors) is Ok <==> vectors.len() == jobs.len(),
        match store::points_from(jobs, vectors) {
            Ok(points) => points.len() == jobs.len() && forall|i: int|
                0 <= i < jobs.len() ==> (#[trigger] points[i]).id == jobs[i].id
                    && points[i].payload == jobs[i].payload && points[i].vector == vectors[i],
            Err(e) => e is Backend,
        },
{
}

/// Passages that differ in their text alone have different names, and so have payloads that
/// differ in their kind alone.
pub proof fn law_point_names_tell_texts_apart(
    model: Seq<char>,
    dim: usize,
    p: EmbeddingPayloadModel,
    s: Seq<char>,
    t: Seq<char>,
)
    ensures
        store::point_name(model, dim, p, s) == store::point_name(model, dim, p, t) <==> s == t,
        text::has_prefix(store::point_name(model, dim, p, s), model),
        text::has_suffix(store::point_name(model, dim, p, s), s),
{
    let a = store::point_name(model, dim, p, s);
    let b = store::point_name(model, dim, p, t);
    let head = store::point_name(model, dim, p, Seq::empty());
    assert(a =~= head + s);
    assert(b =~= head + t);
    if a == b {
        assert(s =~= a.skip(head.len() as int));
        assert(t =~= b.skip(head.len() as int));
    }
    assert(a.subrange(0, model.len() as int) =~= model);
    assert(a.subrange(a.len() - s.len(), a.len() as int) =~= s);
}

/// Could the first text of a batch still have gone into the batch before it?
pub open spec fn was_full(before: Seq<Seq<i32>>, next: Seq<Seq<i32>>, max: nat) -> bool {
    batches::token_count(before) + next[0].len() > max
}

proof fn packing_fills(texts: Seq<Seq<i32>>, max: nat)
    ensures
        ({
            let p = batches::packed(texts, max);
            &&& forall|i: int|
                0 <= i < p.closed.len() - 1 ==> was_full(
                    #[trigger] p.closed[i],
                    p.closed[i + 1],
                    max,
                )
            &&& p.open.len() > 0 && p.closed.len() > 0 ==> was_full(p.closed.last(), p.open, max)
        }),
    decreases texts.len(),
{
    if texts.len() > 0 {
        let rest = texts.drop_last();
        let t = texts.last();
        packing_fills(rest, max);
        batches::packing_is_sound(rest, max);
        let q = batches::packed(rest, max);
        let p = batches::packed(texts, max);
        let c = batches::closed_batches(q);
        assert(seq![t].drop_last() =~= Seq::<Seq<i32>>::empty());
        assert(batches::token_count(seq![t].drop_last()) == 0);
        assert(batches::token_count(seq![t]) == t.len());
        assert forall|i: int| 0 <= i < p.closed.len() - 1 implies was_full(
            #[trigger] p.closed[i],
            p.closed[i + 1],
            max,
        ) by {
            if i < q.closed.len() - 1 {
                assert(p.closed[i] == q.closed[i]);
                assert(p.closed[i + 1] == q.closed[i + 1]);
                assert(was_full(q.closed[i], q.closed[i + 1], max));
            } else if i == q.closed.len() - 1 {
                assert(p.closed[i] == q.closed.last());
            }
        }
        if p.open.len() > 0 && p.closed.len() > 0 {
            if q.tokens + t.len() > max {
                assert(p.closed.last() == q.open);
            } else if q.open.len() > 0 {
                assert(p.open[0] == q.open[0]);
            } else {
                assert(p.open[0] == t);
            }
        }
    }
}

/// A batch is closed only when the next text does not fit: together with the first text of the
/// batch after it, a batch has more tokens than a model takes.
pub proof fn law_batches_are_full(texts: Seq<Seq<i32>>, max: nat, i: int)
    requires
        0 <= i < batches::batches_of(texts, max).len() - 1,
    ensures
        ({
            let b = batches::batches_of(texts, max);
            batches::token_count(b[i]) + b[i + 1][0].len() > max
        }),
{
    packing_fills(texts, max);
    let p = batches::packed(texts, max);
    let b = batches::batches_of(texts, max);
    if i < p.closed.len() - 1 {
        assert(was_full(p.closed[i], p.closed[i + 1], max));
    } else {
        assert(b[i] == p.closed.last());
    }
}

/// The tokens of a text in a batch are all of its tokens, counted from zero, of the sequence of
/// that text, and only the very last one is marked as such.
pub proof fn law_batch_tokens_are_placed(t: Seq<i32>, s: int, i: int)
    requires
        0 <= i < t.len() <= i32::MAX,
        0 <= s <= i32::MAX,
    ensures
        batches::text_tokens(t, s).len() == t.len(),
        batches::text_tokens(t, s)[i].token == t[i],
        batches::text_tokens(t, s)[i].position == i,
        batches::text_tokens(t, s)[i].sequence == s,
        batches::text_tokens(t, s)[i].last <==> i + 1 == t.len(),
{
}

/// The tokens of a batch are those of its texts one after the other, each text a sequence of its
/// own.
pub proof fn law_batch_tokens_come_text_by_text(batch: Seq<Seq<i32>>, t: Seq<i32>)
    ensures
        batches::tokens_of(batch.push(t)) == batches::tokens_of(batch) + batches::text_tokens(
            t,
            batch.len() as int,
        ),
        batches::tokens_of(Seq::empty()).len() == 0,
{
    assert(batch.push(t).drop_last() =~= batch);
}

/// Every piece but the last has as many tokens as a model takes, and no piece has more or none.
pub proof fn law_pieces_are_full(tokens: Seq<i32>, n: nat, i: int)
    requires
        n > 0,
        0 <= i < batches::pieces(tokens, n).len(),
    ensures
        0 < batches::pieces(tokens, n)[i].len() <= n,
        i < batches::pieces(tokens, n).len() - 1 ==> batches::pieces(tokens, n)[i].len() == n,
    decreases tokens.len(),
{
    let p = batches::pieces(tokens, n);
    if tokens.len() > n {
        let rest = tokens.skip(n as int);
        assert(batches::pieces(rest, n).len() > 0);
        if i > 0 {
            law_pieces_are_full(rest, n, i - 1);
            assert(p[i] == batches::pieces(rest, n)[i - 1]);
        }
    }
}

/// The vector of a single text is the one that came for it; a reply without one is an error.
pub proof fn law_single_vectors_are_taken(v: Seq<u32>)
    ensures
        embeddings::sole(seq![v]) == Ok::<Seq<u32>, embeddings::EmbedErrorModel>(v),
        embeddings::sole(Seq::empty()) is Err,
{
}

/// Vectors can be compared with a query exactly when there is one for each document and each is
/// as long as that of the query.
pub proof fn law_comparable_vectors_are_as_long(lengths: Seq<nat>, documents: nat, query: nat)
    ensures
        embeddings::rerank_fault(lengths, documents, query) is None <==> lengths.len() == documents
            && forall|i: int| 0 <= i < lengths.len() ==> #[trigger] lengths[i] == query,
{
    lengths_are_checked(lengths, query);
}

proof fn lengths_are_checked(lengths: Seq<nat>, query: nat)
    ensures
        embeddings::first_length_fault(lengths, query) is None <==> forall|i: int|
            0 <= i < lengths.len() ==> #[trigger] lengths[i] == query,
    decreases lengths.len(),
{
    if lengths.len() > 0 {
        let rest = lengths.drop_last();
        lengths_are_checked(rest, query);
        if embeddings::first_length_fault(lengths, query) is None {
            assert forall|i: int| 0 <= i < lengths.len() implies #[trigger] lengths[i] == query by {
                if i < rest.len() {
                    assert(rest[i] == lengths[i]);
                }
            }
        } else if embeddings::first_length_fault(rest, query) is Some {
            let i = choose|i: int| 0 <= i < rest.len() && #[trigger] rest[i] != query;
            assert(lengths[i] != query);
        } else {
            assert(lengths[lengths.len() - 1] != query);
        }
    }
}

/// The points of passages are told by their names, one by one: two passages with one name have one
/// point, and a point is that of the name of its passage.
pub proof fn law_points_come_by_their_names(
    model: Seq<char>,
    dim: usize,
    passages: Seq<(EmbeddingPayloadModel, Seq<char>)>,
    i: int,
)
    requires
        0 <= i < passages.len(),
    ensures
        store::points_of(model, dim, passages).len() == passages.len(),
        store::points_of(model, dim, passages)[i] == ids::uuid_v5_bits(
            store::POINT_NAMESPACE,
            store::point_name(model, dim, passages[i].0, passages[i].1),
        ),
{
}

/// A cache that was made for the same model and dimension is gone on with, and no other; either way
/// nothing has to be saved yet.
pub proof fn law_caches_are_of_their_model(
    found: Option<EmbeddingCacheModel>,
    model: Seq<char>,
    dim: usize,
)
    ensures
        ({
            let c = cache::accepted_cache(found, model, dim);
            &&& c.model == model && c.dim == dim && !c.dirty
            &&& found is Some && found->0.model == model && found->0.dim == dim ==> c.entries
                == found->0.entries
            &&& found is None || found->0.model != model || found->0.dim != dim
                ==> c.entries.len() == 0
        }),
{
}

/// A reranker reads the query first and the document behind it, with a mark between them.
pub proof fn law_rerankers_read_the_query_first(query: Seq<char>, document: Seq<char>)
    ensures
        text::has_prefix(batches::rerank_text(query, document), query + "</s></s>"@),
        text::has_suffix(batches::rerank_text(query, document), "</s></s>"@ + document),
{
    let t = batches::rerank_text(query, document);
    let head = query + "</s></s>"@;
    let tail = "</s></s>"@ + document;
    assert(t.subrange(0, head.len() as int) =~= head);
    assert(t.subrange(t.len() - tail.len(), t.len() as int) =~= tail);
}

/// Each kind has a word of its own.
pub proof fn law_kinds_have_their_own_words(a: store::EmbeddingKind, b: store::EmbeddingKind)
    ensures
        store::kind_word(a) == store::kind_word(b) <==> a == b,
{
    reveal_strlit("domain");
    reveal_strlit("entity");
    reveal_strlit("property");
    assert("domain"@[0] == 'd' && "entity"@[0] == 'e');
    assert("property"@.len() == 8 && "domain"@.len() == 6 && "entity"@.len() == 6);
}

} // verus!
