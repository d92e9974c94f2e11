//! A content-addressed cache of text embeddings.
//!
//! A vector is kept under a hash of the model, its dimension and the text that
//! it was made from. A changed text has another key, so a stale vector is never
//! looked up again.

use vstd::prelude::*;
use crate::embeddings;
use crate::embeddings::EmbedError;
use crate::embeddings::EmbedErrorModel;
use crate::embeddings::recorded::Recorded;
use crate::embeddings::Embedder;
use crate::ids;
use crate::seqs;
use crate::strmap;
use crate::strmap::StrMap;
use crate::text;

verus! {

broadcast use vstd::string::group_string_axioms;

/// Namespace of the content keys.
pub const CACHE_NAMESPACE: u128 = 0x6c696e67756167726170682d656d6200;

/// The key of a text under a model and a dimension.
pub open spec fn key_of(model: Seq<char>, dim: usize, s: Seq<char>) -> Seq<char> {
    ids::simple_text(
        ids::uuid_v5_bits(
            CACHE_NAMESPACE,
            model + "|"@ + text::nat_text(dim as nat) + "|"@ + s,
        ),
    )
}

/// The key of a text under a model and a dimension.
pub fn content_key(model: &str, dim: usize, s: &str) -> (r: String)
    ensures
        r@ == key_of(model@, dim, s@),
{
    let mut payload = model.to_owned();
    payload.append("|");
    payload.append(text::usize_text(dim).as_str());
    payload.append("|");
    payload.append(s);
    let bits = ids::uuid_v5(CACHE_NAMESPACE, payload.as_str());
    ids::simple(bits)
}

/// Vectors by content key, with the model and dimension that they were made
/// with. `dirty` tells whether a vector was added since the cache was made.
#[derive(Debug, PartialEq)]
pub struct EmbeddingCache {
    pub model: String,
    pub dim: usize,
    pub entries: StrMap<Vec<u32>>,
    pub dirty: bool,
}

pub struct EmbeddingCacheModel {
    pub model: Seq<char>,
    pub dim: usize,
    pub entries: Seq<(Seq<char>, Seq<u32>)>,
    pub dirty: bool,
}

impl DeepView for EmbeddingCache {
    type V = EmbeddingCacheModel;

    open spec fn deep_view(&self) -> EmbeddingCacheModel {
        EmbeddingCacheModel {
            model: self.model@,
            dim: self.dim,
            entries: self.entries.deep_view(),
            dirty: self.dirty,
        }
    }
}

/// A cache without vectors.
pub open spec fn empty_cache(model: Seq<char>, dim: usize) -> EmbeddingCacheModel {
    EmbeddingCacheModel { model, dim, entries: Seq::empty(), dirty: false }
}

/// The cache to start with: what was read from disk where it was made for the
/// same model and dimension, else an empty one.
pub open spec fn accepted_cache(
    found: Option<EmbeddingCacheModel>,
    model: Seq<char>,
    dim: usize,
) -> EmbeddingCacheModel {
    match found {
        Some(c) => if c.model == model && c.dim == dim {
            EmbeddingCacheModel { dirty: false, ..c }
        } else {
            empty_cache(model, dim)
        },
        None => empty_cache(model, dim),
    }
}

/// The keys of texts.
pub open spec fn keys_of(model: Seq<char>, dim: usize, texts: Seq<Seq<char>>) -> Seq<Seq<char>> {
    Seq::new(texts.len(), |i: int| key_of(model, dim, texts[i]))
}

/// The texts without a vector, each once, by key: of texts with one key the
/// first stands.
pub open spec fn misses_of(
    entries: Seq<(Seq<char>, Seq<u32>)>,
    keys: Seq<Seq<char>>,
    texts: Seq<Seq<char>>,
) -> Seq<(Seq<char>, Seq<char>)>
    decreases keys.len(),
{
    if keys.len() == 0 {
        Seq::empty()
    } else {
        let before = misses_of(entries, keys.drop_last(), texts.drop_last());
        if strmap::assoc_get(entries, keys.last()) is Some || strmap::assoc_get(
            before,
            keys.last(),
        ) is Some {
            before
        } else {
            strmap::assoc_insert(before, keys.last(), texts.last())
        }
    }
}

/// The entries with the vectors put under the keys.
pub open spec fn stored_vectors(
    entries: Seq<(Seq<char>, Seq<u32>)>,
    keys: Seq<Seq<char>>,
    vectors: Seq<Seq<u32>>,
) -> Seq<(Seq<char>, Seq<u32>)>
    decreases keys.len(),
{
    if keys.len() == 0 {
        entries
    } else {
        strmap::assoc_insert(
            stored_vectors(entries, keys.drop_last(), vectors.drop_last()),
            keys.last(),
            vectors.last(),
        )
    }
}

/// The keys of an association list.
pub open spec fn assoc_keys<T>(s: Seq<(Seq<char>, T)>) -> Seq<Seq<char>> {
    Seq::new(s.len(), |i: int| s[i].0)
}

/// The values of an association list.
pub open spec fn assoc_values<T>(s: Seq<(Seq<char>, T)>) -> Seq<T> {
    Seq::new(s.len(), |i: int| s[i].1)
}

/// The cache once an embedder has answered for the misses. A failed answer, or
/// one of the wrong length, changes nothing.
pub open spec fn filled(
    c: EmbeddingCacheModel,
    misses: Seq<(Seq<char>, Seq<char>)>,
    reply: Result<Seq<Seq<u32>>, EmbedErrorModel>,
) -> Result<EmbeddingCacheModel, EmbedErrorModel> {
    match reply {
        Err(e) => Err(e),
        Ok(vectors) => if vectors.len() != misses.len() {
            Err(
                embeddings::count_mismatch(
                    "embedder"@,
                    vectors.len(),
                    " vectors for "@,
                    misses.len(),
                    " texts"@,
                ),
            )
        } else {
            Ok(
                EmbeddingCacheModel {
                    entries: stored_vectors(c.entries, assoc_keys(misses), vectors),
                    dirty: true,
                    ..c
                },
            )
        },
    }
}

/// The texts that a request asks the embedder for, by key.
pub open spec fn missing_texts(c: EmbeddingCacheModel, texts: Seq<Seq<char>>) -> Seq<
    (Seq<char>, Seq<char>),
> {
    misses_of(c.entries, keys_of(c.model, c.dim, texts), texts)
}

/// What the embedder is asked in the course of a request: once, for all the missing
/// texts, and never where nothing is missing.
pub open spec fn asks_of(c: EmbeddingCacheModel, texts: Seq<Seq<char>>) -> Seq<Seq<Seq<char>>> {
    if missing_texts(c, texts).len() == 0 {
        Seq::empty()
    } else {
        seq![assoc_values(missing_texts(c, texts))]
    }
}

/// The cache after a request, where `reply` is what the embedder answers if it is
/// asked.
pub open spec fn requested(
    c: EmbeddingCacheModel,
    texts: Seq<Seq<char>>,
    reply: Result<Seq<Seq<u32>>, EmbedErrorModel>,
) -> Result<EmbeddingCacheModel, EmbedErrorModel> {
    if missing_texts(c, texts).len() == 0 {
        Ok(c)
    } else {
        filled(c, missing_texts(c, texts), reply)
    }
}

/// Are these the vectors that the cache holds for the texts?
pub open spec fn served(
    c: EmbeddingCacheModel,
    texts: Seq<Seq<char>>,
    vectors: Seq<Seq<u32>>,
) -> bool {
    &&& vectors.len() == texts.len()
    &&& forall|i: int|
        0 <= i < texts.len() ==> Some(#[trigger] vectors[i]) == strmap::assoc_get(
            c.entries,
            key_of(c.model, c.dim, texts[i]),
        )
}

proof fn insert_finds<T>(s: Seq<(Seq<char>, T)>, k: Seq<char>, v: T, other: Seq<char>)
    requires
        strmap::assoc_get(s, other) is Some,
    ensures
        strmap::assoc_get(strmap::assoc_insert(s, k, v), other) is Some,
{
    if other == k {
        strmap::law_get_after_insert(s, k, v);
    } else {
        strmap::law_get_other_after_insert(s, k, v, other);
    }
}

/// Every key has a vector once the misses are stored.
pub proof fn law_every_key_is_cached(
    entries: Seq<(Seq<char>, Seq<u32>)>,
    keys: Seq<Seq<char>>,
    texts: Seq<Seq<char>>,
    vectors: Seq<Seq<u32>>,
    i: int,
)
    requires
        keys.len() == texts.len(),
        vectors.len() == misses_of(entries, keys, texts).len(),
        0 <= i < keys.len(),
    ensures
        strmap::assoc_get(
            stored_vectors(entries, assoc_keys(misses_of(entries, keys, texts)), vectors),
            keys[i],
        ) is Some,
{
    let misses = misses_of(entries, keys, texts);
    let mk = assoc_keys(misses);
    if strmap::assoc_get(entries, keys[i]) is Some {
        stored_keeps(entries, mk, vectors, keys[i]);
    } else {
        miss_is_listed(entries, keys, texts, i);
        let j = strmap::get_is_an_entry(misses, keys[i]);
        assert(mk[j] == keys[i]);
        stored_holds(entries, mk, vectors, j);
    }
}

proof fn stored_keeps(
    entries: Seq<(Seq<char>, Seq<u32>)>,
    keys: Seq<Seq<char>>,
    vectors: Seq<Seq<u32>>,
    k: Seq<char>,
)
    requires
        strmap::assoc_get(entries, k) is Some,
    ensures
        strmap::assoc_get(stored_vectors(entries, keys, vectors), k) is Some,
    decreases keys.len(),
{
    if keys.len() > 0 {
        stored_keeps(entries, keys.drop_last(), vectors.drop_last(), k);
        insert_finds(
            stored_vectors(entries, keys.drop_last(), vectors.drop_last()),
            keys.last(),
            vectors.last(),
            k,
        );
    }
}

proof fn stored_holds(
    entries: Seq<(Seq<char>, Seq<u32>)>,
    keys: Seq<Seq<char>>,
    vectors: Seq<Seq<u32>>,
    j: int,
)
    requires
        0 <= j < keys.len(),
    ensures
        strmap::assoc_get(stored_vectors(entries, keys, vectors), keys[j]) is Some,
    decreases keys.len(),
{
    let before = stored_vectors(entries, keys.drop_last(), vectors.drop_last());
    if j == keys.len() - 1 {
        strmap::law_get_after_insert(before, keys.last(), vectors.last());
    } else {
        stored_holds(entries, keys.drop_last(), vectors.drop_last(), j);
        insert_finds(before, keys.last(), vectors.last(), keys[j]);
    }
}

proof fn miss_is_listed(
    entries: Seq<(Seq<char>, Seq<u32>)>,
    keys: Seq<Seq<char>>,
    texts: Seq<Seq<char>>,
    i: int,
)
    requires
        keys.len() == texts.len(),
        0 <= i < keys.len(),
        strmap::assoc_get(entries, keys[i]) is None,
    ensures
        strmap::assoc_get(misses_of(entries, keys, texts), keys[i]) is Some,
    decreases keys.len(),
{
    let before = misses_of(entries, keys.drop_last(), texts.drop_last());
    if i == keys.len() - 1 {
        if strmap::assoc_get(before, keys.last()) is None {
            strmap::law_get_after_insert(before, keys.last(), texts.last());
        }
    } else {
        miss_is_listed(entries, keys.drop_last(), texts.drop_last(), i);
        insert_finds(before, keys.last(), texts.last(), keys[i]);
    }
}

/// A second request for the same texts misses nothing: what was stored is hit.
pub proof fn law_stored_texts_are_hits(
    entries: Seq<(Seq<char>, Seq<u32>)>,
    keys: Seq<Seq<char>>,
    texts: Seq<Seq<char>>,
    vectors: Seq<Seq<u32>>,
)
    requires
        keys.len() == texts.len(),
        vectors.len() == misses_of(entries, keys, texts).len(),
    ensures
        misses_of(
            stored_vectors(entries, assoc_keys(misses_of(entries, keys, texts)), vectors),
            keys,
            texts,
        ) == Seq::<(Seq<char>, Seq<char>)>::empty(),
{
    let full = stored_vectors(entries, assoc_keys(misses_of(entries, keys, texts)), vectors);
    assert forall|i: int| 0 <= i < keys.len() implies strmap::assoc_get(
        full,
        #[trigger] keys[i],
    ) is Some by {
        law_every_key_is_cached(entries, keys, texts, vectors, i);
    }
    no_misses(full, keys, texts);
}

proof fn no_misses(
    entries: Seq<(Seq<char>, Seq<u32>)>,
    keys: Seq<Seq<char>>,
    texts: Seq<Seq<char>>,
)
    requires
        forall|i: int| 0 <= i < keys.len() ==> strmap::assoc_get(entries, #[trigger] keys[i]) is Some,
    ensures
        misses_of(entries, keys, texts) == Seq::<(Seq<char>, Seq<char>)>::empty(),
    decreases keys.len(),
{
    if keys.len() > 0 {
        assert forall|i: int| 0 <= i < keys.drop_last().len() implies strmap::assoc_get(
            entries,
            #[trigger] keys.drop_last()[i],
        ) is Some by {
            assert(keys[i] == keys.drop_last()[i]);
        }
        no_misses(entries, keys.drop_last(), texts.drop_last());
        assert(strmap::assoc_get(entries, keys[keys.len() - 1]) is Some);
    }
}

proof fn misses_are_sorted(
    entries: Seq<(Seq<char>, Seq<u32>)>,
    keys: Seq<Seq<char>>,
    texts: Seq<Seq<char>>,
)
    ensures
        strmap::assoc_sorted(misses_of(entries, keys, texts)),
    decreases keys.len(),
{
    if keys.len() > 0 {
        misses_are_sorted(entries, keys.drop_last(), texts.drop_last());
        strmap::law_insert_keeps_order(
            misses_of(entries, keys.drop_last(), texts.drop_last()),
            keys.last(),
            texts.last(),
        );
    }
}

/// Is `s` the first of the texts under the key `k`?
pub open spec fn is_asked_for(
    keys: Seq<Seq<char>>,
    texts: Seq<Seq<char>>,
    k: Seq<char>,
    s: Seq<char>,
) -> bool {
    exists|i: int|
        0 <= i < keys.len() && #[trigger] keys[i] == k && texts[i] == s && forall|j: int|
            0 <= j < i ==> #[trigger] keys[j] != k
}

proof fn miss_is_of_a_text(
    entries: Seq<(Seq<char>, Seq<u32>)>,
    keys: Seq<Seq<char>>,
    texts: Seq<Seq<char>>,
    k: Seq<char>,
)
    requires
        keys.len() == texts.len(),
        strmap::assoc_get(misses_of(entries, keys, texts), k) is Some,
    ensures
        strmap::assoc_get(entries, k) is None,
        is_asked_for(keys, texts, k, strmap::assoc_get(misses_of(entries, keys, texts), k)->0),
    decreases keys.len(),
{
    if keys.len() > 0 {
        let ks = keys.drop_last();
        let ts = texts.drop_last();
        let before = misses_of(entries, ks, ts);
        let s = strmap::assoc_get(misses_of(entries, keys, texts), k)->0;
        strmap::law_get_after_insert(before, keys.last(), texts.last());
        if k != keys.last() {
            strmap::law_get_other_after_insert(before, keys.last(), texts.last(), k);
        }
        if strmap::assoc_get(before, k) is Some {
            miss_is_of_a_text(entries, ks, ts, k);
            let i = choose|i: int|
                0 <= i < ks.len() && #[trigger] ks[i] == k && ts[i] == s && forall|j: int|
                    0 <= j < i ==> #[trigger] ks[j] != k;
            assert(keys[i] == k && texts[i] == s);
            assert forall|j: int| 0 <= j < i implies #[trigger] keys[j] != k by {
                assert(ks[j] == keys[j]);
            }
        } else {
            let i = keys.len() - 1;
            assert(keys[i] == k && texts[i] == s);
            assert forall|j: int| 0 <= j < i implies #[trigger] keys[j] != k by {
                if keys[j] == k {
                    assert(ks[j] == k);
                    miss_is_listed(entries, ks, ts, j);
                }
            }
        }
    }
}

proof fn stored_leaves(
    entries: Seq<(Seq<char>, Seq<u32>)>,
    keys: Seq<Seq<char>>,
    vectors: Seq<Seq<u32>>,
    k: Seq<char>,
)
    requires
        !keys.contains(k),
    ensures
        strmap::assoc_get(stored_vectors(entries, keys, vectors), k) == strmap::assoc_get(
            entries,
            k,
        ),
    decreases keys.len(),
{
    if keys.len() > 0 {
        let ks = keys.drop_last();
        assert(!ks.contains(k)) by {
            if ks.contains(k) {
                let i = choose|i: int| 0 <= i < ks.len() && ks[i] == k;
                assert(keys[i] == k);
            }
        }
        assert(keys[keys.len() - 1] != k);
        stored_leaves(entries, ks, vectors.drop_last(), k);
        strmap::law_get_other_after_insert(
            stored_vectors(entries, ks, vectors.drop_last()),
            keys.last(),
            vectors.last(),
            k,
        );
    }
}

/// The embedder is asked at most once in the course of a request, and not at all
/// exactly when the cache holds every text. It is asked for each key without a vector
/// once, with the first text of that key, for no text twice and for no other.
pub proof fn law_requests_ask_once(c: EmbeddingCacheModel, texts: Seq<Seq<char>>)
    ensures
        asks_of(c, texts).len() <= 1,
        asks_of(c, texts).len() == 0 <==> forall|i: int|
            0 <= i < texts.len() ==> strmap::assoc_get(
                c.entries,
                key_of(c.model, c.dim, #[trigger] texts[i]),
            ) is Some,
        strmap::assoc_sorted(missing_texts(c, texts)),
        assoc_values(missing_texts(c, texts)).no_duplicates(),
        forall|j: int|
            0 <= j < missing_texts(c, texts).len() ==> strmap::assoc_get(
                c.entries,
                (#[trigger] missing_texts(c, texts)[j]).0,
            ) is None && is_asked_for(
                keys_of(c.model, c.dim, texts),
                texts,
                missing_texts(c, texts)[j].0,
                missing_texts(c, texts)[j].1,
            ),
        forall|i: int|
            0 <= i < texts.len() ==> (strmap::assoc_get(
                c.entries,
                key_of(c.model, c.dim, #[trigger] texts[i]),
            ) is None <==> strmap::assoc_get(
                missing_texts(c, texts),
                key_of(c.model, c.dim, texts[i]),
            ) is Some),
{
    let keys = keys_of(c.model, c.dim, texts);
    let misses = missing_texts(c, texts);
    misses_are_sorted(c.entries, keys, texts);
    assert forall|j: int| 0 <= j < misses.len() implies strmap::assoc_get(
        c.entries,
        (#[trigger] misses[j]).0,
    ) is None && is_asked_for(keys, texts, misses[j].0, misses[j].1) by {
        strmap::entry_is_read(misses, j);
        miss_is_of_a_text(c.entries, keys, texts, misses[j].0);
    }
    assert forall|j: int| 0 <= j < misses.len() implies (#[trigger] misses[j]).0 == key_of(
        c.model,
        c.dim,
        misses[j].1,
    ) by {
        assert(is_asked_for(keys, texts, misses[j].0, misses[j].1));
    }
    assert forall|i: int, j: int|
        0 <= i < misses.len() && 0 <= j < misses.len() && i != j implies assoc_values(misses)[i]
        != assoc_values(misses)[j] by {
        if misses[i].1 == misses[j].1 {
            assert(misses[i].0 == misses[j].0);
            assert(text::lex_lt(misses[i].0, misses[j].0) || text::lex_lt(
                misses[j].0,
                misses[i].0,
            ));
            text::lex_lt_irreflexive(misses[i].0);
        }
    }
    assert forall|i: int| 0 <= i < texts.len() implies (strmap::assoc_get(
        c.entries,
        key_of(c.model, c.dim, #[trigger] texts[i]),
    ) is None <==> strmap::assoc_get(misses, key_of(c.model, c.dim, texts[i])) is Some) by {
        assert(keys[i] == key_of(c.model, c.dim, texts[i]));
        if strmap::assoc_get(c.entries, keys[i]) is None {
            miss_is_listed(c.entries, keys, texts, i);
        } else if strmap::assoc_get(misses, keys[i]) is Some {
            miss_is_of_a_text(c.entries, keys, texts, keys[i]);
        }
    }
    if misses.len() > 0 {
        assert(is_asked_for(keys, texts, misses[0].0, misses[0].1));
        let i = choose|i: int|
            0 <= i < keys.len() && #[trigger] keys[i] == misses[0].0 && texts[i] == misses[0].1;
        assert(key_of(c.model, c.dim, texts[i]) == misses[0].0);
    }
}

/// Once a request succeeds, equal texts have equal vectors, what the cache held is
/// kept, and the same request again finds every text, asks the embedder nothing,
/// changes nothing and serves the same vectors.
pub proof fn law_requests_are_cached(
    c: EmbeddingCacheModel,
    texts: Seq<Seq<char>>,
    reply: Result<Seq<Seq<u32>>, EmbedErrorModel>,
    after: EmbeddingCacheModel,
    vectors: Seq<Seq<u32>>,
    again: Result<Seq<Seq<u32>>, EmbedErrorModel>,
    later: Seq<Seq<u32>>,
)
    requires
        requested(c, texts, reply) == Ok::<EmbeddingCacheModel, EmbedErrorModel>(after),
        served(after, texts, vectors),
        served(after, texts, later),
    ensures
        forall|i: int, j: int|
            0 <= i < texts.len() && 0 <= j < texts.len() && #[trigger] texts[i]
                == #[trigger] texts[j] ==> vectors[i] == vectors[j],
        forall|k: Seq<char>|
            strmap::assoc_get(c.entries, k) is Some ==> #[trigger] strmap::assoc_get(
                after.entries,
                k,
            ) == strmap::assoc_get(c.entries, k),
        asks_of(after, texts).len() == 0,
        requested(after, texts, again) == Ok::<EmbeddingCacheModel, EmbedErrorModel>(after),
        later == vectors,
{
    let keys = keys_of(c.model, c.dim, texts);
    let misses = missing_texts(c, texts);
    let mk = assoc_keys(misses);
    law_requests_ask_once(c, texts);
    assert forall|i: int, j: int|
        0 <= i < texts.len() && 0 <= j < texts.len() && #[trigger] texts[i]
            == #[trigger] texts[j] implies vectors[i] == vectors[j] by {
        assert(Some(vectors[i]) == Some(vectors[j]));
    }
    assert forall|k: Seq<char>| strmap::assoc_get(c.entries, k) is Some implies #[trigger]
    strmap::assoc_get(after.entries, k) == strmap::assoc_get(c.entries, k) by {
        if misses.len() > 0 {
            if mk.contains(k) {
                let j = choose|j: int| 0 <= j < mk.len() && mk[j] == k;
                assert(misses[j].0 == k);
            }
            stored_leaves(c.entries, mk, reply->Ok_0, k);
        }
    }
    assert forall|i: int| 0 <= i < keys.len() implies strmap::assoc_get(
        after.entries,
        #[trigger] keys[i],
    ) is Some by {
        assert(Some(vectors[i]) == strmap::assoc_get(after.entries, keys[i]));
    }
    no_misses(after.entries, keys, texts);
    assert forall|i: int| 0 <= i < texts.len() implies later[i] == vectors[i] by {
        assert(Some(later[i]) == Some(vectors[i]));
    }
    assert(later =~= vectors);
}

impl EmbeddingCache {
    /// A cache without vectors.
    pub fn new(model: &str, dim: usize) -> (r: Self)
        ensures
            r.deep_view() == empty_cache(model@, dim),
    {
        EmbeddingCache { model: model.to_owned(), dim, entries: StrMap::new(), dirty: false }
    }

    /// The cache to start with: `found` where it was made for the same model
    /// and dimension, else an empty one.
    pub fn accept(found: Option<EmbeddingCache>, model: &str, dim: usize) -> (r: Self)
        ensures
            r.deep_view() == accepted_cache(found.deep_view(), model@, dim),
    {
        match found {
            Some(c) => {
                if text::text_eq(c.model.as_str(), model) && c.dim == dim {
                    EmbeddingCache { model: c.model, dim: c.dim, entries: c.entries, dirty: false }
                } else {
                    EmbeddingCache::new(model, dim)
                }
            },
            None => EmbeddingCache::new(model, dim),
        }
    }

    /// How many vectors the cache holds.
    pub fn len(&self) -> (r: usize)
        ensures
            r == self.deep_view().entries.len(),
    {
        self.entries.len()
    }

    /// Does the cache hold no vector?
    pub fn is_empty(&self) -> (r: bool)
        ensures
            r == (self.deep_view().entries.len() == 0),
    {
        self.entries.len() == 0
    }

    /// The keys of the texts.
    pub fn keys(&self, texts: &[String]) -> (r: Vec<String>)
        ensures
            r.deep_view() == keys_of(self.model@, self.dim, texts.deep_view()),
    {
        let ghost all = texts.deep_view();
        let mut out: Vec<String> = seqs::no_items();
        let mut i: usize = 0;
        while i < texts.len()
            invariant
                all == texts.deep_view(),
                0 <= i <= texts@.len(),
                out.deep_view() == keys_of(self.model@, self.dim, all.take(i as int)),
            decreases texts@.len() - i,
        {
            let key = content_key(self.model.as_str(), self.dim, texts[i].as_str());
            seqs::push_item(&mut out, key);
            assert(keys_of(self.model@, self.dim, all.take(i + 1)) =~= keys_of(
                self.model@,
                self.dim,
                all.take(i as int),
            ).push(key_of(self.model@, self.dim, all[i as int])));
            i += 1;
        }
        assert(all.take(i as int) =~= all);
        out
    }

    /// The texts that the embedder has to be asked for, each once, by key.
    pub fn misses(&self, keys: &Vec<String>, texts: &[String]) -> (r: StrMap<String>)
        requires
            keys@.len() == texts@.len(),
        ensures
            r.deep_view() == misses_of(
                self.deep_view().entries,
                keys.deep_view(),
                texts.deep_view(),
            ),
    {
        let ghost ks = keys.deep_view();
        let ghost ts = texts.deep_view();
        let mut out: StrMap<String> = StrMap::new();
        let mut i: usize = 0;
        while i < keys.len()
            invariant
                ks == keys.deep_view(),
                ts == texts.deep_view(),
                keys@.len() == texts@.len(),
                0 <= i <= keys@.len(),
                out.deep_view() == misses_of(
                    self.entries.deep_view(),
                    ks.take(i as int),
                    ts.take(i as int),
                ),
            decreases keys@.len() - i,
        {
            proof {
                assert(ks.take(i + 1).drop_last() =~= ks.take(i as int));
                assert(ts.take(i + 1).drop_last() =~= ts.take(i as int));
                assert(ks.take(i + 1).last() == keys@[i as int]@);
                assert(ts.take(i + 1).last() == texts@[i as int]@);
            }
            let known = self.entries.contains_key(keys[i].as_str()) || out.contains_key(
                keys[i].as_str(),
            );
            if !known {
                out.insert(keys[i].clone(), texts[i].clone());
            }
            i += 1;
        }
        assert(ks.take(i as int) =~= ks);
        assert(ts.take(i as int) =~= ts);
        out
    }

    /// Take in what the embedder answered for the misses.
    pub fn fill(&mut self, misses: &StrMap<String>, reply: Result<Vec<Vec<u32>>, EmbedError>) -> (r:
        Result<(), EmbedError>)
        ensures
            match filled(old(self).deep_view(), misses.deep_view(), embeddings::reply_model(reply)) {
                Ok(c) => r is Ok && final(self).deep_view() == c,
                Err(e) => r is Err && r->Err_0.deep_view() == e && final(self).deep_view() == old(
                    self,
                ).deep_view(),
            },
    {
        let ghost start = self.deep_view();
        match reply {
            Err(e) => Err(e),
            Ok(vectors) => {
                if vectors.len() != misses.len() {
                    return Err(
                        embeddings::count_error(
                            "embedder",
                            vectors.len(),
                            " vectors for ",
                            misses.len(),
                            " texts",
                        ),
                    );
                }
                let ghost ks = assoc_keys(misses.deep_view());
                let ghost vs = vectors.deep_view();
                let mut rest = vectors;
                let mut i: usize = 0;
                while i < misses.entries.len()
                    invariant
                        0 <= i <= misses.entries@.len(),
                        ks == assoc_keys(misses.deep_view()),
                        vs.len() == ks.len(),
                        ks.len() == misses.entries@.len(),
                        rest.deep_view() == vs.skip(i as int),
                        self.model@ == start.model,
                        self.dim == start.dim,
                        self.dirty == start.dirty,
                        self.entries.deep_view() == stored_vectors(
                            start.entries,
                            ks.take(i as int),
                            vs.take(i as int),
                        ),
                    decreases misses.entries@.len() - i,
                {
                    let ghost left = rest.deep_view();
                    proof {
                        assert(ks.take(i + 1).drop_last() =~= ks.take(i as int));
                        assert(vs.take(i + 1).drop_last() =~= vs.take(i as int));
                        assert(ks.take(i + 1).last() == misses.entries@[i as int].0@);
                        assert(left[0] == vs[i as int]);
                        assert(vs.take(i + 1).last() == left[0]);
                    }
                    assert(rest@.len() == left.len());
                    let v = rest.remove(0);
                    assert(rest.deep_view() =~= left.remove(0));
                    assert(rest.deep_view() =~= vs.skip(i + 1));
                    self.entries.insert(misses.entries[i].0.clone(), v);
                    i += 1;
                }
                self.dirty = true;
                assert(ks.take(i as int) =~= ks);
                assert(vs.take(i as int) =~= vs);
                Ok(())
            },
        }
    }

    /// The vectors under the keys.
    pub fn lookup(&self, keys: &Vec<String>) -> (r: Vec<Vec<u32>>)
        requires
            forall|i: int|
                0 <= i < keys@.len() ==> strmap::assoc_get(
                    self.deep_view().entries,
                    #[trigger] keys.deep_view()[i],
                ) is Some,
        ensures
            r@.len() == keys@.len(),
            forall|i: int|
                0 <= i < keys@.len() ==> Some(#[trigger] r.deep_view()[i]) == strmap::assoc_get(
                    self.deep_view().entries,
                    keys.deep_view()[i],
                ),
    {
        let mut out: Vec<Vec<u32>> = seqs::no_items();
        let mut i: usize = 0;
        while i < keys.len()
            invariant
                0 <= i <= keys@.len(),
                out@.len() == i,
                forall|j: int|
                    0 <= j < keys@.len() ==> strmap::assoc_get(
                        self.entries.deep_view(),
                        #[trigger] keys.deep_view()[j],
                    ) is Some,
                forall|j: int|
                    0 <= j < i ==> Some(#[trigger] out.deep_view()[j]) == strmap::assoc_get(
                        self.entries.deep_view(),
                        keys.deep_view()[j],
                    ),
            decreases keys@.len() - i,
        {
            assert(keys.deep_view()[i as int] == keys@[i as int]@);
            match self.entries.get(keys[i].as_str()) {
                Some(v) => {
                    let ghost before = out.deep_view();
                    let w = copy_vector(v);
                    seqs::push_item(&mut out, w);
                    assert(out@.len() == out.deep_view().len());
                    assert(before.len() == i);
                    assert forall|j: int| 0 <= j < i + 1 implies Some(
                        #[trigger] out.deep_view()[j],
                    ) == strmap::assoc_get(self.entries.deep_view(), keys.deep_view()[j]) by {
                        if j < i {
                            assert(out.deep_view()[j] == before[j]);
                        }
                    }
                },
                None => {
                    assert(false);
                },
            }
            i += 1;
        }
        out
    }

    /// The vectors of the texts, in their order. The embedder is asked once, for
    /// the texts without a vector, and not at all where there are none.
    pub fn embed_cached<E: Embedder>(
        &mut self,
        texts: &[String],
        embedder: &mut Recorded<'_, E>,
    ) -> (r: Result<Vec<Vec<u32>>, EmbedError>)
        ensures
            final(embedder).backend() == old(embedder).backend(),
            final(embedder).asked() == old(embedder).asked() + asks_of(
                old(self).deep_view(),
                texts.deep_view(),
            ),
            ({
                let start = old(self).deep_view();
                let misses = missing_texts(start, texts.deep_view());
                &&& misses.len() == 0 ==> r is Ok && final(self).deep_view() == start
                &&& misses.len() > 0 ==> exists|
                    asked: Vec<String>,
                    reply: Result<Vec<Vec<u32>>, EmbedError>,
                |
                    #[trigger] call_ensures(
                        E::embed_batch,
                        (old(embedder).backend(), &asked),
                        reply,
                    )
                        && asked.deep_view() == assoc_values(misses) && match requested(
                        start,
                        texts.deep_view(),
                        embeddings::reply_model(reply),
                    ) {
                        Ok(c) => r is Ok && final(self).deep_view() == c,
                        Err(e) => r is Err && r->Err_0.deep_view() == e && final(self).deep_view()
                            == start,
                    }
                &&& r is Ok ==> served(
                    final(self).deep_view(),
                    texts.deep_view(),
                    r->Ok_0.deep_view(),
                )
            }),
    {
        let ghost start = self.deep_view();
        let keys = self.keys(texts);
        let ghost ks = keys.deep_view();
        let misses = self.misses(&keys, texts);
        let ghost ms = misses.deep_view();
        if misses.len() > 0 {
            let asked = values_of(&misses);
            let reply = embedder.embed_batch(&asked);
            let ghost answer = embeddings::reply_model(reply);
            assert(call_ensures(E::embed_batch, (old(embedder).backend(), &asked), reply));
            assert(embedder.asked() =~= old(embedder).asked() + asks_of(start, texts.deep_view()));
            let outcome = self.fill(&misses, reply);
            if let Err(e) = outcome {
                return Err(e);
            }
            proof {
                let vectors = answer->Ok_0;
                assert forall|i: int| 0 <= i < keys@.len() implies strmap::assoc_get(
                    self.deep_view().entries,
                    #[trigger] keys.deep_view()[i],
                ) is Some by {
                    law_every_key_is_cached(start.entries, ks, texts.deep_view(), vectors, i);
                }
            }
        } else {
            assert(embedder.asked() =~= old(embedder).asked() + asks_of(start, texts.deep_view()));
            proof {
                assert forall|i: int| 0 <= i < keys@.len() implies strmap::assoc_get(
                    self.deep_view().entries,
                    #[trigger] keys.deep_view()[i],
                ) is Some by {
                    let vectors = Seq::<Seq<u32>>::empty();
                    law_every_key_is_cached(start.entries, ks, texts.deep_view(), vectors, i);
                }
            }
        }
        Ok(self.lookup(&keys))
    }
}

pub fn copy_vector(v: &Vec<u32>) -> (r: Vec<u32>)
    ensures
        r@ == v@,
        r.deep_view() == v.deep_view(),
{
    let mut out: Vec<u32> = Vec::new();
    let mut i: usize = 0;
    while i < v.len()
        invariant
            0 <= i <= v@.len(),
            out@ == v@.take(i as int),
        decreases v@.len() - i,
    {
        out.push(v[i]);
        i += 1;
        assert(out@ =~= v@.take(i as int));
    }
    assert(out@ =~= v@);
    out
}

fn values_of(m: &StrMap<String>) -> (r: Vec<String>)
    ensures
        r.deep_view() == assoc_values(m.deep_view()),
{
    let ghost all = m.deep_view();
    let mut out: Vec<String> = seqs::no_items();
    let mut i: usize = 0;
    while i < m.entries.len()
        invariant
            all == m.deep_view(),
            0 <= i <= m.entries@.len(),
            out.deep_view() == assoc_values(all.take(i as int)),
        decreases m.entries@.len() - i,
    {
        seqs::push_item(&mut out, m.entries[i].1.clone());
        assert(assoc_values(all.take(i + 1)) =~= assoc_values(all.take(i as int)).push(
            all[i as int].1,
        ));
        i += 1;
    }
    assert(all.take(i as int) =~= all);
    out
}

proof fn stored_by_key(
    entries: Seq<(Seq<char>, Seq<u32>)>,
    keys: Seq<Seq<char>>,
    vectors: Seq<Seq<u32>>,
    f: spec_fn(Seq<char>) -> Seq<u32>,
    j: int,
)
    requires
        keys.len() == vectors.len(),
        0 <= j < keys.len(),
        forall|i: int| 0 <= i < keys.len() ==> #[trigger] vectors[i] == f(keys[i]),
    ensures
        strmap::assoc_get(stored_vectors(entries, keys, vectors), keys[j]) == Some(f(keys[j])),
    decreases keys.len(),
{
    let ks = keys.drop_last();
    let vs = vectors.drop_last();
    let before = stored_vectors(entries, ks, vs);
    let n = keys.len() - 1;
    assert(vectors[n] == f(keys[n]));
    if keys[j] == keys.last() {
        strmap::law_get_after_insert(before, keys.last(), vectors.last());
    } else {
        assert forall|i: int| 0 <= i < ks.len() implies #[trigger] vs[i] == f(ks[i]) by {
            assert(vectors[i] == f(keys[i]));
        }
        stored_by_key(entries, ks, vs, f, j);
        strmap::law_get_other_after_insert(before, keys.last(), vectors.last(), keys[j]);
    }
}

/// Each vector goes to the text that it was made for: where the embedder answers with the vectors
/// of the texts that it is asked for, in their order, every text without a vector has its own
/// afterwards.
pub proof fn law_vectors_go_to_their_texts(
    c: EmbeddingCacheModel,
    texts: Seq<Seq<char>>,
    vectors: Seq<Seq<u32>>,
    made_for: spec_fn(Seq<char>) -> Seq<u32>,
    i: int,
)
    requires
        0 <= i < texts.len(),
        strmap::assoc_get(c.entries, key_of(c.model, c.dim, texts[i])) is None,
        asks_of(c, texts).len() == 1,
        vectors.len() == asks_of(c, texts)[0].len(),
        forall|j: int|
            0 <= j < vectors.len() ==> #[trigger] vectors[j] == made_for(asks_of(c, texts)[0][j]),
        forall|a: int, b: int|
            0 <= a < texts.len() && 0 <= b < texts.len() && key_of(
                c.model,
                c.dim,
                #[trigger] texts[a],
            ) == key_of(c.model, c.dim, #[trigger] texts[b]) ==> texts[a] == texts[b],
    ensures
        match requested(c, texts, Ok(vectors)) {
            Ok(after) => after.model == c.model && after.dim == c.dim && after.dirty
                && strmap::assoc_get(after.entries, key_of(c.model, c.dim, texts[i])) == Some(
                made_for(texts[i]),
            ),
            Err(_) => false,
        },
{
    let keys = keys_of(c.model, c.dim, texts);
    let misses = missing_texts(c, texts);
    let mk = assoc_keys(misses);
    misses_are_sorted(c.entries, keys, texts);
    miss_is_listed(c.entries, keys, texts, i);
    let f = |k: Seq<char>| made_for(strmap::assoc_get(misses, k)->0);
    assert forall|j: int| 0 <= j < mk.len() implies #[trigger] vectors[j] == f(mk[j]) by {
        strmap::entry_is_read(misses, j);
        assert(asks_of(c, texts)[0][j] == misses[j].1);
    }
    let j = strmap::get_is_an_entry(misses, keys[i]);
    assert(mk[j] == keys[i]);
    stored_by_key(c.entries, mk, vectors, f, j);
    miss_is_of_a_text(c.entries, keys, texts, keys[i]);
    let t = strmap::assoc_get(misses, keys[i])->0;
    let m = choose|m: int|
        0 <= m < keys.len() && #[trigger] keys[m] == keys[i] && texts[m] == t && forall|n: int|
            0 <= n < m ==> #[trigger] keys[n] != keys[i];
    assert(keys[m] == key_of(c.model, c.dim, texts[m]));
    assert(keys[i] == key_of(c.model, c.dim, texts[i]));
    assert(texts[m] == texts[i]);
}

/// The key of a text is made from the model, the dimension and the text, so that different texts
/// have keys of different names.
pub proof fn law_keys_are_of_their_texts(model: Seq<char>, dim: usize, s: Seq<char>, t: Seq<char>)
    requires
        s != t,
    ensures
        exists|a: Seq<char>, b: Seq<char>|
            a != b && key_of(model, dim, s) == ids::simple_text(
                #[trigger] ids::uuid_v5_bits(CACHE_NAMESPACE, a),
            ) && key_of(model, dim, t) == ids::simple_text(
                #[trigger] ids::uuid_v5_bits(CACHE_NAMESPACE, b),
            ),
{
    let head = model + "|"@ + text::nat_text(dim as nat) + "|"@;
    let a = head + s;
    let b = head + t;
    if a == b {
        assert(s =~= a.skip(head.len() as int));
        assert(t =~= b.skip(head.len() as int));
    }
    assert(key_of(model, dim, s) == ids::simple_text(ids::uuid_v5_bits(CACHE_NAMESPACE, a)));
    assert(key_of(model, dim, t) == ids::simple_text(ids::uuid_v5_bits(CACHE_NAMESPACE, b)));
}

} // verus!
