use linguagraph::embeddings::batches::{
    batch_tokens, rerank_prompt, split_into_batches, token_pieces, BatchToken, LLamaTokenizer,
};
use linguagraph::embeddings::cache::{content_key, EmbeddingCache};
use linguagraph::embeddings::recorded::Recorded;
use linguagraph::embeddings::store::{
    indexed_points, missing_passages, passage_ids, point_id, rank_hits, EmbeddingFilter,
    EmbeddingKind, EmbeddingPayload, InMemoryEmbeddingStore, ScoredHit, StoreError,
    StoredEmbedding,
};
use linguagraph::embeddings::{
    check_rerank, double_less, float_at_least, sole_vector, EmbedError, Embedder,
};
use linguagraph::graph::ontology::{DomainOntology, OntologyCatalog};

fn strings(items: &[&str]) -> Vec<String> {
    items.iter().map(|s| s.to_string()).collect()
}

struct CountingEmbedder {
    dim: usize,
    calls: std::cell::Cell<usize>,
}

impl CountingEmbedder {
    fn new(dim: usize) -> Self {
        CountingEmbedder {
            dim,
            calls: std::cell::Cell::new(0),
        }
    }

    fn embedded(&self) -> usize {
        self.calls.get()
    }
}

impl Embedder for CountingEmbedder {
    fn dim(&self) -> usize {
        self.dim
    }

    fn embed_batch(&self, texts: &Vec<String>) -> Result<Vec<Vec<u32>>, EmbedError> {
        self.calls.set(self.calls.get() + texts.len());
        Ok(texts
            .iter()
            .map(|t| {
                (0..self.dim)
                    .map(|i| (t.len() as f32 + i as f32).to_bits())
                    .collect()
            })
            .collect())
    }
}

#[test]
fn miss_then_hit_skips_recompute() {
    let embedder = CountingEmbedder::new(16);
    let mut cache = EmbeddingCache::new("mock", 16);
    let texts = strings(&["alpha", "beta"]);

    let first = cache.embed_cached(&texts, &mut Recorded::new(&embedder)).unwrap();
    assert_eq!(embedder.embedded(), 2);
    assert_eq!(cache.len(), 2);

    let second = cache.embed_cached(&texts, &mut Recorded::new(&embedder)).unwrap();
    assert_eq!(embedder.embedded(), 2);
    assert_eq!(first, second);
}

#[test]
fn duplicate_texts_embed_once() {
    let embedder = CountingEmbedder::new(16);
    let mut cache = EmbeddingCache::new("mock", 16);
    let texts = strings(&["same", "same", "same"]);

    let out = cache.embed_cached(&texts, &mut Recorded::new(&embedder)).unwrap();
    assert_eq!(embedder.embedded(), 1, "identical passages embed once");
    assert_eq!(out.len(), 3);
    assert_eq!(out[0], out[1]);
    assert_eq!(out[1], out[2]);
}

#[test]
fn changed_text_recomputes_and_keeps_old_entry() {
    let embedder = CountingEmbedder::new(16);
    let mut cache = EmbeddingCache::new("mock", 16);

    cache
        .embed_cached(&strings(&["type: keyword"]), &mut Recorded::new(&embedder))
        .unwrap();
    assert_eq!(cache.len(), 1);

    cache
        .embed_cached(&strings(&["type: enum"]), &mut Recorded::new(&embedder))
        .unwrap();
    assert_eq!(embedder.embedded(), 2);
    assert_eq!(cache.len(), 2, "old and new entries coexist");
}

#[test]
fn a_cache_of_another_model_is_dropped() {
    let mut cache = EmbeddingCache::new("mock", 2);
    cache
        .embed_cached(
            &strings(&["a"]),
            &mut Recorded::new(&CountingEmbedder::new(2)),
        )
        .unwrap();
    assert_eq!(EmbeddingCache::accept(Some(cache), "mock", 2).len(), 1);
    let mut cache = EmbeddingCache::new("mock", 2);
    cache
        .embed_cached(
            &strings(&["a"]),
            &mut Recorded::new(&CountingEmbedder::new(2)),
        )
        .unwrap();
    assert!(EmbeddingCache::accept(Some(cache), "other", 2).is_empty());
    assert!(EmbeddingCache::accept(None, "mock", 2).is_empty());
}

#[test]
fn content_keys_are_uuids_of_their_content() {
    let namespace = uuid::Uuid::from_u128(0x6c696e67756167726170682d656d6200);
    let key = content_key("mock", 16, "alpha");
    assert_eq!(uuid::Uuid::parse_str(&key).unwrap().get_version_num(), 5);
    assert_ne!(key, content_key("mock", 16, "beta"));
    assert_ne!(key, content_key("mock", 8, "alpha"));
    assert_ne!(key, uuid::Uuid::new_v5(&namespace, b"alpha").to_string());
}

struct ShortEmbedder;

impl Embedder for ShortEmbedder {
    fn dim(&self) -> usize {
        2
    }

    fn embed_batch(&self, _: &Vec<String>) -> Result<Vec<Vec<u32>>, EmbedError> {
        Ok(Vec::new())
    }
}

/// Counts the requests that are made of it.
struct RequestCounter(std::cell::RefCell<Vec<Vec<String>>>);

impl Embedder for RequestCounter {
    fn dim(&self) -> usize {
        1
    }

    fn embed_batch(&self, texts: &Vec<String>) -> Result<Vec<Vec<u32>>, EmbedError> {
        self.0.borrow_mut().push(texts.clone());
        Ok(texts.iter().map(|t| vec![t.len() as u32]).collect())
    }
}

#[test]
fn the_embedder_is_asked_once_and_only_for_what_is_missing() {
    let counter = RequestCounter(std::cell::RefCell::new(Vec::new()));
    let mut cache = EmbeddingCache::new("mock", 1);
    let mut embedder = Recorded::new(&counter);

    cache
        .embed_cached(&strings(&["one", "three", "one"]), &mut embedder)
        .unwrap();
    assert_eq!(counter.0.borrow().len(), 1);
    let mut asked = counter.0.borrow()[0].clone();
    asked.sort();
    assert_eq!(asked, ["one", "three"]);

    let out = cache
        .embed_cached(&strings(&["three", "eleven", "one"]), &mut embedder)
        .unwrap();
    assert_eq!(out, vec![vec![5], vec![6], vec![3]]);
    assert_eq!(counter.0.borrow().len(), 2);
    assert_eq!(counter.0.borrow()[1], ["eleven"]);

    cache
        .embed_cached(&strings(&["eleven", "one", "three"]), &mut embedder)
        .unwrap();
    cache.embed_cached(&[], &mut embedder).unwrap();
    assert_eq!(counter.0.borrow().len(), 2, "hits never touch the embedder");
}

#[test]
fn a_missing_vector_is_an_error() {
    let mut cache = EmbeddingCache::new("mock", 2);
    assert!(matches!(
        cache.embed_cached(&strings(&["a"]), &mut Recorded::new(&ShortEmbedder)),
        Err(EmbedError::Backend(_))
    ));
    assert!(cache.is_empty());
}

fn vec3(a: f32, b: f32, c: f32) -> Vec<u32> {
    vec![a.to_bits(), b.to_bits(), c.to_bits()]
}

fn dot(a: &[u32], b: &[u32]) -> u32 {
    a.iter()
        .zip(b)
        .map(|(x, y)| f32::from_bits(*x) * f32::from_bits(*y))
        .sum::<f32>()
        .to_bits()
}

fn search(
    store: &InMemoryEmbeddingStore,
    query: &[u32],
    threshold: Option<f32>,
    filter: &EmbeddingFilter,
) -> Vec<ScoredHit> {
    let found = store.candidates("c", filter);
    let scores: Vec<u32> = found.iter().map(|p| dot(query, &p.vector)).collect();
    rank_hits(&found, &scores, threshold.map(f32::to_bits), 10)
}

#[test]
fn a_stored_point_is_found_again() {
    let mut store = InMemoryEmbeddingStore::new();
    store.ensure("c");
    let p = || EmbeddingPayload::entity("flippa", "Listing");
    let id = point_id("m", 3, &p(), "listing text");
    assert_eq!(store.missing("c", &[id]), vec![id], "absent before upsert");
    store.upsert(
        "c",
        vec![StoredEmbedding {
            id,
            vector: vec3(1.0, 0.0, 0.0),
            payload: p(),
        }],
    );
    assert!(store.missing("c", &[id]).is_empty());
    let hits = search(
        &store,
        &vec3(1.0, 0.0, 0.0),
        None,
        &EmbeddingFilter::default(),
    );
    assert_eq!(hits.len(), 1);
    assert!((f32::from_bits(hits[0].score) - 1.0).abs() < 1e-5);
    assert_eq!(hits[0].payload, p());
}

#[test]
fn filters_and_thresholds_narrow_a_search() {
    let mut store = InMemoryEmbeddingStore::new();
    let listing = || EmbeddingPayload::entity("flippa", "Listing");
    let patient = || EmbeddingPayload::entity("clinic", "Patient");
    store.upsert(
        "c",
        vec![
            StoredEmbedding {
                id: point_id("m", 3, &listing(), "a"),
                vector: vec3(1.0, 0.0, 0.0),
                payload: listing(),
            },
            StoredEmbedding {
                id: point_id("m", 3, &patient(), "b"),
                vector: vec3(0.0, 1.0, 0.0),
                payload: patient(),
            },
        ],
    );
    let filter = EmbeddingFilter {
        kinds: vec![EmbeddingKind::Entity],
        domains: strings(&["flippa"]),
    };
    let hits = search(&store, &vec3(1.0, 0.0, 0.0), None, &filter);
    assert_eq!(hits.len(), 1);
    assert_eq!(hits[0].payload.domain, "flippa");
    let hits = search(
        &store,
        &vec3(1.0, 0.0, 0.0),
        Some(0.5),
        &EmbeddingFilter::default(),
    );
    assert_eq!(hits.len(), 1);
    assert_eq!(hits[0].payload.domain, "flippa");
}

#[test]
fn point_id_is_content_addressed() {
    let p = EmbeddingPayload::property("flippa", "Listing", "sale_method");
    let a = point_id("m", 3, &p, "type: enum");
    let b = point_id("m", 3, &p, "type: keyword");
    let same = point_id("m", 3, &p, "type: enum");
    assert_ne!(a, b, "different text -> different id");
    assert_eq!(a, same, "same inputs -> same id");
    assert_ne!(a, point_id("m2", 3, &p, "type: enum"));
}

#[test]
fn only_missing_passages_are_indexed() {
    let passages = vec![
        (EmbeddingPayload::domain("a"), "one".to_string()),
        (EmbeddingPayload::domain("b"), "two".to_string()),
    ];
    let ids = passage_ids("m", 1, &passages);
    let jobs = missing_passages(&passages, &ids, &vec![ids[1]]);
    assert_eq!(jobs.len(), 1);
    assert_eq!(jobs[0].text, "two");
    let points = indexed_points(&jobs, vec![vec![0]]).unwrap();
    assert_eq!(points[0].id, ids[1]);
    assert!(matches!(
        indexed_points(&jobs, Vec::new()),
        Err(EmbedError::Backend(_))
    ));
}

#[test]
fn floats_are_compared_by_their_bits() {
    assert!(float_at_least(1f32.to_bits(), 0.5f32.to_bits()));
    assert!(float_at_least((-0.5f32).to_bits(), (-1f32).to_bits()));
    assert!(!float_at_least(f32::NAN.to_bits(), 0f32.to_bits()));
    assert!(double_less((-1f64).to_bits(), 0f64.to_bits()));
    assert!(!double_less(0f64.to_bits(), (-0f64).to_bits()));
}

#[test]
fn embedding_replies_are_counted() {
    assert_eq!(sole_vector(vec![vec![1]]), Ok(vec![1]));
    assert!(sole_vector(Vec::new()).is_err());
    assert!(check_rerank(&vec![vec![1]], 2, 1).is_err());
    assert!(check_rerank(&vec![vec![1], vec![2]], 2, 1).is_ok());
    assert!(StoreError::Transport("gone".to_string())
        .message()
        .contains("gone"));
    assert!(EmbedError::Unconfigured("x".to_string())
        .message()
        .contains('x'));
}

fn tokenizer(n: usize) -> LLamaTokenizer {
    LLamaTokenizer {
        tokens: (0..n as i32).collect(),
    }
}

#[test]
fn batches_fit_their_budget() {
    let batches = split_into_batches(vec![tokenizer(3), tokenizer(2), tokenizer(4)], 5);
    let sizes: Vec<Vec<usize>> = batches
        .iter()
        .map(|b| b.iter().map(|t| t.tokens.len()).collect())
        .collect();
    assert_eq!(sizes, vec![vec![3, 2], vec![4]]);
    assert_eq!(
        batch_tokens(&batches[1])[3],
        BatchToken {
            token: 3,
            position: 3,
            sequence: 0,
            last: true
        }
    );
    assert_eq!(
        token_pieces(&tokenizer(5), 2),
        vec![vec![0, 1], vec![2, 3], vec![4]]
    );
    assert!(LLamaTokenizer::new().tokens.is_empty());
    assert!(rerank_prompt("who?", "Ada").contains("who?"));
}

#[test]
fn domains_are_offered_by_passages() {
    let mut catalog = OntologyCatalog::new();
    catalog.insert("camera", DomainOntology::empty());
    catalog.insert("core", DomainOntology::empty());
    let passages = catalog.domain_passages(Some(&strings(&["camera"])));
    assert_eq!(passages.len(), 1);
    assert_eq!(passages[0].0, EmbeddingPayload::domain("camera"));
    let filter = OntologyCatalog::domain_filter(&passages);
    assert_eq!(filter.domains, strings(&["camera"]));
    let hits = vec![
        ScoredHit {
            score: 0.5f32.to_bits(),
            payload: EmbeddingPayload::domain("core"),
        },
        ScoredHit {
            score: 0.4f32.to_bits(),
            payload: EmbeddingPayload::domain("gone"),
        },
    ];
    let matches = catalog.domain_matches(&hits);
    assert_eq!(matches.len(), 1);
    assert_eq!(matches[0].domain, "core");
}
