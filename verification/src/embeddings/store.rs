//! Stored embeddings: what a vector describes, the content-addressed id of its
//! point, and a store held in memory.

use vstd::prelude::*;
use crate::embeddings;
use crate::embeddings::cache;
use crate::embeddings::EmbedError;
use crate::embeddings::EmbedErrorModel;
use crate::ids;
use crate::json::Json;
use crate::seqs;
use crate::sorting;
use crate::strmap;
use crate::strmap::StrMap;
use crate::text;

verus! {

broadcast use vstd::string::group_string_axioms;

/// Namespace of the point ids.
pub const POINT_NAMESPACE: u128 = 0x6c696e67756167726170682d76656300;

/// What an embedded passage describes.
#[derive(Debug, Clone, Copy, PartialEq, Eq, Structural)]
pub enum EmbeddingKind {
    Domain,
    Entity,
    Property,
}

impl DeepView for EmbeddingKind {
    type V = EmbeddingKind;

    open spec fn deep_view(&self) -> EmbeddingKind {
        *self
    }
}

/// The word for a kind.
pub open spec fn kind_word(kind: EmbeddingKind) -> Seq<char> {
    match kind {
        EmbeddingKind::Domain => "domain"@,
        EmbeddingKind::Entity => "entity"@,
        EmbeddingKind::Property => "property"@,
    }
}

impl EmbeddingKind {
    /// The word for the kind.
    pub fn as_str(self) -> (r: &'static str)
        ensures
            r@ == kind_word(self),
    {
        match self {
            EmbeddingKind::Domain => "domain",
            EmbeddingKind::Entity => "entity",
            EmbeddingKind::Property => "property",
        }
    }
}

/// The ontology element that a vector belongs to. The coarser kinds have no
/// entity or no property.
#[derive(Debug, PartialEq)]
pub struct EmbeddingPayload {
    pub kind: EmbeddingKind,
    pub domain: String,
    pub entity: Option<String>,
    pub property: Option<String>,
}

pub struct EmbeddingPayloadModel {
    pub kind: EmbeddingKind,
    pub domain: Seq<char>,
    pub entity: Option<Seq<char>>,
    pub property: Option<Seq<char>>,
}

impl DeepView for EmbeddingPayload {
    type V = EmbeddingPayloadModel;

    open spec fn deep_view(&self) -> EmbeddingPayloadModel {
        EmbeddingPayloadModel {
            kind: self.kind,
            domain: self.domain@,
            entity: self.entity.deep_view(),
            property: self.property.deep_view(),
        }
    }
}

impl seqs::Copied for EmbeddingPayload {
    fn copied(&self) -> (r: Self) {
        EmbeddingPayload {
            kind: self.kind,
            domain: self.domain.clone(),
            entity: self.entity.copied(),
            property: self.property.copied(),
        }
    }
}

impl EmbeddingPayload {
    /// The payload of a domain.
    pub fn domain(domain: &str) -> (r: Self)
        ensures
            r.deep_view() == (EmbeddingPayloadModel {
                kind: EmbeddingKind::Domain,
                domain: domain@,
                entity: None,
                property: None,
            }),
    {
        EmbeddingPayload {
            kind: EmbeddingKind::Domain,
            domain: domain.to_owned(),
            entity: None,
            property: None,
        }
    }

    /// The payload of an entity type.
    pub fn entity(domain: &str, entity: &str) -> (r: Self)
        ensures
            r.deep_view() == (EmbeddingPayloadModel {
                kind: EmbeddingKind::Entity,
                domain: domain@,
                entity: Some(entity@),
                property: None,
            }),
    {
        EmbeddingPayload {
            kind: EmbeddingKind::Entity,
            domain: domain.to_owned(),
            entity: Some(entity.to_owned()),
            property: None,
        }
    }

    /// The payload of a property.
    pub fn property(domain: &str, entity: &str, property: &str) -> (r: Self)
        ensures
            r.deep_view() == (EmbeddingPayloadModel {
                kind: EmbeddingKind::Property,
                domain: domain@,
                entity: Some(entity@),
                property: Some(property@),
            }),
    {
        EmbeddingPayload {
            kind: EmbeddingKind::Property,
            domain: domain.to_owned(),
            entity: Some(entity.to_owned()),
            property: Some(property.to_owned()),
        }
    }
}

/// One vector with its point id, by the bits of both.
#[derive(Debug, PartialEq)]
pub struct StoredEmbedding {
    pub id: u128,
    pub vector: Vec<u32>,
    pub payload: EmbeddingPayload,
}

pub struct StoredEmbeddingModel {
    pub id: u128,
    pub vector: Seq<u32>,
    pub payload: EmbeddingPayloadModel,
}

impl DeepView for StoredEmbedding {
    type V = StoredEmbeddingModel;

    open spec fn deep_view(&self) -> StoredEmbeddingModel {
        StoredEmbeddingModel {
            id: self.id,
            vector: self.vector@,
            payload: self.payload.deep_view(),
        }
    }
}

/// Constraints on a search. An empty list constrains nothing.
#[derive(Debug, PartialEq)]
pub struct EmbeddingFilter {
    pub kinds: Vec<EmbeddingKind>,
    pub domains: Vec<String>,
}

pub struct EmbeddingFilterModel {
    pub kinds: Seq<EmbeddingKind>,
    pub domains: Seq<Seq<char>>,
}

impl DeepView for EmbeddingFilter {
    type V = EmbeddingFilterModel;

    open spec fn deep_view(&self) -> EmbeddingFilterModel {
        EmbeddingFilterModel { kinds: self.kinds@, domains: self.domains.deep_view() }
    }
}

impl Default for EmbeddingFilter {
    fn default() -> (r: EmbeddingFilter)
        ensures
            r.deep_view() == (EmbeddingFilterModel { kinds: Seq::empty(), domains: Seq::empty() }),
    {
        let domains: Vec<String> = seqs::no_items();
        let kinds: Vec<EmbeddingKind> = Vec::new();
        EmbeddingFilter { kinds, domains }
    }
}

/// Does a payload meet the constraints?
pub open spec fn accepted(f: EmbeddingFilterModel, p: EmbeddingPayloadModel) -> bool {
    (f.kinds.len() == 0 || f.kinds.contains(p.kind)) && (f.domains.len() == 0
        || f.domains.contains(p.domain))
}

impl EmbeddingFilter {
    /// Does the payload meet the constraints?
    pub fn accepts(&self, payload: &EmbeddingPayload) -> (r: bool)
        ensures
            r == accepted(self.deep_view(), payload.deep_view()),
    {
        let mut kind_ok = self.kinds.len() == 0;
        let mut i: usize = 0;
        while i < self.kinds.len()
            invariant
                0 <= i <= self.kinds@.len(),
                kind_ok == (self.kinds@.len() == 0 || exists|j: int|
                    0 <= j < i && #[trigger] self.kinds@[j] == payload.kind),
            decreases self.kinds@.len() - i,
        {
            if self.kinds[i] == payload.kind {
                kind_ok = true;
            }
            i += 1;
        }
        assert(kind_ok == (self.kinds@.len() == 0 || self.kinds@.contains(payload.kind)));
        let domain_ok = self.domains.len() == 0 || seqs::contains_text(
            &self.domains,
            payload.domain.as_str(),
        );
        kind_ok && domain_ok
    }
}

/// A search result.
#[derive(Debug, PartialEq)]
pub struct ScoredHit {
    pub score: u32,
    pub payload: EmbeddingPayload,
}

pub struct ScoredHitModel {
    pub score: u32,
    pub payload: EmbeddingPayloadModel,
}

impl DeepView for ScoredHit {
    type V = ScoredHitModel;

    open spec fn deep_view(&self) -> ScoredHitModel {
        ScoredHitModel { score: self.score, payload: self.payload.deep_view() }
    }
}

/// A search result with the id and payload that the backend gave.
#[derive(Debug, PartialEq)]
pub struct RawScoredHit {
    pub id: String,
    pub score: u32,
    pub payload: Json,
}

/// Why a store failed.
#[derive(Debug, PartialEq)]
pub enum StoreError {
    Backend(String),
    Transport(String),
}

pub enum StoreErrorModel {
    Backend(Seq<char>),
    Transport(Seq<char>),
}

impl DeepView for StoreError {
    type V = StoreErrorModel;

    open spec fn deep_view(&self) -> StoreErrorModel {
        match self {
            StoreError::Backend(m) => StoreErrorModel::Backend(m@),
            StoreError::Transport(m) => StoreErrorModel::Transport(m@),
        }
    }
}

/// The text of a store error.
pub open spec fn store_error_text(e: StoreErrorModel) -> Seq<char> {
    match e {
        StoreErrorModel::Backend(m) => "embedding store backend error: "@ + m,
        StoreErrorModel::Transport(m) => "embedding store transport error: "@ + m,
    }
}

impl StoreError {
    /// The text of the error.
    pub fn message(&self) -> (r: String)
        ensures
            r@ == store_error_text(self.deep_view()),
    {
        match self {
            StoreError::Backend(m) => {
                let mut s = "embedding store backend error: ".to_owned();
                s.append(m.as_str());
                s
            },
            StoreError::Transport(m) => {
                let mut s = "embedding store transport error: ".to_owned();
                s.append(m.as_str());
                s
            },
        }
    }

    /// The error as one of embedding.
    pub fn into_embed_error(self) -> (r: EmbedError)
        ensures
            r.deep_view() == EmbedErrorModel::Backend(store_error_text(self.deep_view())),
    {
        EmbedError::Backend(self.message())
    }
}

/// An absent text is empty.
pub open spec fn or_empty(s: Option<Seq<char>>) -> Seq<char> {
    match s {
        Some(t) => t,
        None => Seq::empty(),
    }
}

/// What a point id is made from: model, dimension, identity and passage.
pub open spec fn point_name(
    model: Seq<char>,
    dim: usize,
    p: EmbeddingPayloadModel,
    s: Seq<char>,
) -> Seq<char> {
    model + "|"@ + text::nat_text(dim as nat) + "|"@ + kind_word(p.kind) + "|"@ + p.domain + "|"@
        + or_empty(p.entity) + "|"@ + or_empty(p.property) + "|"@ + s
}

/// The id of the point that holds a passage.
pub open spec fn point_of(
    model: Seq<char>,
    dim: usize,
    p: EmbeddingPayloadModel,
    s: Seq<char>,
) -> u128 {
    ids::uuid_v5_bits(POINT_NAMESPACE, point_name(model, dim, p, s))
}

fn append_option(out: &mut String, s: &Option<String>)
    ensures
        final(out)@ == old(out)@ + or_empty(s.deep_view()),
{
    match s {
        Some(t) => out.append(t.as_str()),
        None => {
            assert(out@ + Seq::<char>::empty() =~= out@);
        },
    }
}

/// The id of the point that holds a passage: the same for the same model,
/// dimension, identity and text.
pub fn point_id(model: &str, dim: usize, payload: &EmbeddingPayload, s: &str) -> (r: u128)
    ensures
        r == point_of(model@, dim, payload.deep_view(), s@),
{
    let mut key = model.to_owned();
    key.append("|");
    key.append(text::usize_text(dim).as_str());
    key.append("|");
    key.append(payload.kind.as_str());
    key.append("|");
    key.append(payload.domain.as_str());
    key.append("|");
    append_option(&mut key, &payload.entity);
    key.append("|");
    append_option(&mut key, &payload.property);
    key.append("|");
    key.append(s);
    ids::uuid_v5(POINT_NAMESPACE, key.as_str())
}

/// The point ids of passages.
pub open spec fn points_of(
    model: Seq<char>,
    dim: usize,
    passages: Seq<(EmbeddingPayloadModel, Seq<char>)>,
) -> Seq<u128> {
    Seq::new(passages.len(), |i: int| point_of(model, dim, passages[i].0, passages[i].1))
}

/// The point ids of the passages.
pub fn passage_ids(model: &str, dim: usize, passages: &Vec<(EmbeddingPayload, String)>) -> (r: Vec<
    u128,
>)
    ensures
        r@ == points_of(model@, dim, passages.deep_view()),
{
    let ghost all = passages.deep_view();
    let mut out: Vec<u128> = Vec::new();
    let mut i: usize = 0;
    while i < passages.len()
        invariant
            all == passages.deep_view(),
            0 <= i <= passages@.len(),
            out@ == points_of(model@, dim, all).take(i as int),
        decreases passages@.len() - i,
    {
        out.push(point_id(model, dim, &passages[i].0, passages[i].1.as_str()));
        i += 1;
        assert(out@ =~= points_of(model@, dim, all).take(i as int));
    }
    assert(out@ =~= points_of(model@, dim, all));
    out
}

/// A passage that has to be embedded, with its point id.
#[derive(Debug, PartialEq)]
pub struct IndexJob {
    pub id: u128,
    pub payload: EmbeddingPayload,
    pub text: String,
}

pub struct IndexJobModel {
    pub id: u128,
    pub payload: EmbeddingPayloadModel,
    pub text: Seq<char>,
}

impl DeepView for IndexJob {
    type V = IndexJobModel;

    open spec fn deep_view(&self) -> IndexJobModel {
        IndexJobModel { id: self.id, payload: self.payload.deep_view(), text: self.text@ }
    }
}

/// The passages that have to be embedded: those whose point is missing, each
/// point once.
pub open spec fn jobs_of(
    passages: Seq<(EmbeddingPayloadModel, Seq<char>)>,
    ids: Seq<u128>,
    missing: Seq<u128>,
) -> Seq<IndexJobModel>
    decreases passages.len(),
{
    if passages.len() == 0 {
        Seq::empty()
    } else {
        let before = jobs_of(passages.drop_last(), ids.drop_last(), missing);
        let id = ids.last();
        if missing.contains(id) && !ids.drop_last().contains(id) {
            before.push(
                IndexJobModel { id, payload: passages.last().0, text: passages.last().1 },
            )
        } else {
            before
        }
    }
}

/// Is a passage indexed under an id among jobs?
pub open spec fn has_job(jobs: Seq<IndexJobModel>, id: u128) -> bool {
    exists|j: int| 0 <= j < jobs.len() && (#[trigger] jobs[j]).id == id
}

/// Only what is missing is embedded, all of it, and nothing twice.
pub proof fn law_only_missing_are_indexed(
    passages: Seq<(EmbeddingPayloadModel, Seq<char>)>,
    ids: Seq<u128>,
    missing: Seq<u128>,
)
    requires
        passages.len() == ids.len(),
    ensures
        forall|j: int|
            0 <= j < jobs_of(passages, ids, missing).len() ==> missing.contains(
                (#[trigger] jobs_of(passages, ids, missing)[j]).id,
            ) && ids.contains(jobs_of(passages, ids, missing)[j].id),
        forall|j: int, k: int|
            0 <= j < k < jobs_of(passages, ids, missing).len() ==> (
            #[trigger] jobs_of(passages, ids, missing)[j]).id != (
            #[trigger] jobs_of(passages, ids, missing)[k]).id,
        forall|i: int|
            0 <= i < ids.len() && missing.contains(#[trigger] ids[i]) ==> has_job(
                jobs_of(passages, ids, missing),
                ids[i],
            ),
    decreases passages.len(),
{
    if passages.len() > 0 {
        let rest = ids.drop_last();
        let before = jobs_of(passages.drop_last(), rest, missing);
        let jobs = jobs_of(passages, ids, missing);
        law_only_missing_are_indexed(passages.drop_last(), rest, missing);
        assert forall|j: int| 0 <= j < jobs.len() implies missing.contains((#[trigger] jobs[j]).id)
            && ids.contains(jobs[j].id) by {
            if j < before.len() {
                assert(jobs[j] == before[j]);
                let k = choose|k: int| 0 <= k < rest.len() && rest[k] == before[j].id;
                assert(ids[k] == jobs[j].id);
            } else {
                assert(ids[ids.len() - 1] == jobs[j].id);
            }
        }
        assert forall|j: int, k: int| 0 <= j < k < jobs.len() implies (#[trigger] jobs[j]).id != (
        #[trigger] jobs[k]).id by {
            assert(jobs[j] == before[j]);
            if k < before.len() {
                assert(jobs[k] == before[k]);
            } else {
                assert(rest.contains(before[j].id));
            }
        }
        assert forall|i: int| 0 <= i < ids.len() && missing.contains(#[trigger] ids[i]) implies has_job(
            jobs,
            ids[i],
        ) by {
            if i < rest.len() || rest.contains(ids[i]) {
                if i >= rest.len() {
                    let k = choose|k: int| 0 <= k < rest.len() && rest[k] == ids[i];
                    assert(missing.contains(rest[k]));
                } else {
                    assert(rest[i] == ids[i]);
                }
                assert(has_job(before, ids[i]));
                let j = choose|j: int| 0 <= j < before.len() && (#[trigger] before[j]).id == ids[i];
                assert(jobs[j].id == ids[i]);
            } else {
                assert(jobs[before.len() as int].id == ids[i]);
            }
        }
    }
}

fn holds_id(v: &Vec<u128>, upto: usize, id: u128) -> (r: bool)
    requires
        upto <= v@.len(),
    ensures
        r == v@.take(upto as int).contains(id),
{
    let ghost part = v@.take(upto as int);
    let mut i: usize = 0;
    while i < upto
        invariant
            upto <= v@.len(),
            part == v@.take(upto as int),
            0 <= i <= upto,
            forall|j: int| 0 <= j < i ==> #[trigger] part[j] != id,
        decreases upto - i,
    {
        assert(part[i as int] == v@[i as int]);
        if v[i] == id {
            return true;
        }
        i += 1;
    }
    false
}

/// The passages that have to be embedded, of those whose ids the store misses.
pub fn missing_passages(
    passages: &Vec<(EmbeddingPayload, String)>,
    ids: &Vec<u128>,
    missing: &Vec<u128>,
) -> (r: Vec<IndexJob>)
    requires
        passages@.len() == ids@.len(),
    ensures
        r.deep_view() == jobs_of(passages.deep_view(), ids@, missing@),
{
    let ghost all = passages.deep_view();
    let mut out: Vec<IndexJob> = seqs::no_items();
    let mut i: usize = 0;
    while i < passages.len()
        invariant
            all == passages.deep_view(),
            passages@.len() == ids@.len(),
            0 <= i <= passages@.len(),
            out.deep_view() == jobs_of(all.take(i as int), ids@.take(i as int), missing@),
        decreases passages@.len() - i,
    {
        proof {
            assert(all.take(i + 1).drop_last() =~= all.take(i as int));
            assert(ids@.take(i + 1).drop_last() =~= ids@.take(i as int));
            assert(all.take(i + 1).last() == passages@[i as int].deep_view());
            assert(missing@.take(missing@.len() as int) =~= missing@);
        }
        let id = ids[i];
        if holds_id(missing, missing.len(), id) && !holds_id(ids, i, id) {
            let job = IndexJob {
                id,
                payload: seqs::Copied::copied(&passages[i].0),
                text: passages[i].1.clone(),
            };
            seqs::push_item(&mut out, job);
        }
        i += 1;
    }
    assert(all.take(i as int) =~= all);
    assert(ids@.take(i as int) =~= ids@);
    out
}

/// The points that vectors make of jobs.
pub open spec fn points_from(jobs: Seq<IndexJobModel>, vectors: Seq<Seq<u32>>) -> Result<
    Seq<StoredEmbeddingModel>,
    EmbedErrorModel,
> {
    if vectors.len() != jobs.len() {
        Err(
            embeddings::count_mismatch(
                "embedder"@,
                vectors.len(),
                " vectors for "@,
                jobs.len(),
                " passages"@,
            ),
        )
    } else {
        Ok(
            Seq::new(
                jobs.len(),
                |i: int|
                    StoredEmbeddingModel {
                        id: jobs[i].id,
                        vector: vectors[i],
                        payload: jobs[i].payload,
                    },
            ),
        )
    }
}

/// The points to store, once the embedder has answered for the jobs.
pub fn indexed_points(jobs: &Vec<IndexJob>, vectors: Vec<Vec<u32>>) -> (r: Result<
    Vec<StoredEmbedding>,
    EmbedError,
>)
    ensures
        match r {
            Ok(points) => points_from(jobs.deep_view(), vectors.deep_view()) == Ok::<
                Seq<StoredEmbeddingModel>,
                EmbedErrorModel,
            >(points.deep_view()),
            Err(e) => points_from(jobs.deep_view(), vectors.deep_view()) == Err::<
                Seq<StoredEmbeddingModel>,
                EmbedErrorModel,
            >(e.deep_view()),
        },
{
    let ghost js = jobs.deep_view();
    let ghost vs = vectors.deep_view();
    if vectors.len() != jobs.len() {
        return Err(
            embeddings::count_error(
                "embedder",
                vectors.len(),
                " vectors for ",
                jobs.len(),
                " passages",
            ),
        );
    }
    let ghost want = points_from(js, vs)->Ok_0;
    let mut rest = vectors;
    let mut out: Vec<StoredEmbedding> = seqs::no_items();
    let mut i: usize = 0;
    while i < jobs.len()
        invariant
            js == jobs.deep_view(),
            vs.len() == js.len(),
            js.len() == jobs@.len(),
            want == points_from(js, vs)->Ok_0,
            0 <= i <= jobs@.len(),
            rest.deep_view() == vs.skip(i as int),
            out.deep_view() == want.take(i as int),
        decreases jobs@.len() - i,
    {
        let ghost left = rest.deep_view();
        assert(rest@.len() == left.len());
        assert(left[0] == vs[i as int]);
        let vector = rest.remove(0);
        assert(vector.deep_view() =~= vector@);
        assert(js[i as int] == jobs@[i as int].deep_view());
        assert(rest.deep_view() =~= left.remove(0));
        assert(rest.deep_view() =~= vs.skip(i + 1));
        let point = StoredEmbedding {
            id: jobs[i].id,
            vector,
            payload: seqs::Copied::copied(&jobs[i].payload),
        };
        assert(point.deep_view() == want[i as int]);
        seqs::push_item(&mut out, point);
        i += 1;
        assert(out.deep_view() =~= want.take(i as int));
    }
    assert(out.deep_view() =~= want);
    Ok(out)
}

/// Points in the order of their ids, each id once.
pub open spec fn put_point(s: Seq<StoredEmbeddingModel>, p: StoredEmbeddingModel) -> Seq<
    StoredEmbeddingModel,
>
    decreases s.len(),
{
    if s.len() == 0 {
        seq![p]
    } else if s[0].id == p.id {
        seq![p] + s.drop_first()
    } else if s[0].id < p.id {
        seq![s[0]] + put_point(s.drop_first(), p)
    } else {
        seq![p] + s
    }
}

/// The points with all of `more` put in, one after another.
pub open spec fn put_points(s: Seq<StoredEmbeddingModel>, more: Seq<StoredEmbeddingModel>) -> Seq<
    StoredEmbeddingModel,
>
    decreases more.len(),
{
    if more.len() == 0 {
        s
    } else {
        put_point(put_points(s, more.drop_last()), more.last())
    }
}

/// Is there a point of this id?
pub open spec fn has_point(s: Seq<StoredEmbeddingModel>, id: u128) -> bool {
    exists|i: int| 0 <= i < s.len() && (#[trigger] s[i]).id == id
}

proof fn put_point_at(s: Seq<StoredEmbeddingModel>, p: StoredEmbeddingModel, k: int)
    requires
        0 <= k <= s.len(),
        forall|i: int| 0 <= i < k ==> (#[trigger] s[i]).id < p.id,
        k < s.len() ==> s[k].id >= p.id,
    ensures
        put_point(s, p) == (if k < s.len() && s[k].id == p.id {
            s.update(k, p)
        } else {
            s.insert(k, p)
        }),
    decreases k,
{
    let t = put_point(s, p);
    if k == 0 {
        if s.len() > 0 && s[0].id == p.id {
            assert(t =~= s.update(0, p));
        } else {
            assert(t =~= s.insert(0, p));
        }
    } else {
        let rest = s.drop_first();
        assert(s[0].id < p.id);
        assert forall|i: int| 0 <= i < k - 1 implies (#[trigger] rest[i]).id < p.id by {
            assert(s[i + 1].id < p.id);
        }
        put_point_at(rest, p, k - 1);
        if k < s.len() && s[k].id == p.id {
            assert(t =~= s.update(k, p));
        } else {
            assert(t =~= s.insert(k, p));
        }
    }
}

proof fn put_point_has(s: Seq<StoredEmbeddingModel>, p: StoredEmbeddingModel, id: u128)
    ensures
        has_point(put_point(s, p), id) == (id == p.id || has_point(s, id)),
    decreases s.len(),
{
    let t = put_point(s, p);
    if s.len() == 0 {
        assert(t[0] == p);
    } else {
        let rest = s.drop_first();
        if s[0].id == p.id {
            assert(t[0] == p);
            assert forall|i: int| 1 <= i < t.len() implies t[i] == #[trigger] s[i] by {}
            if has_point(s, id) && id != p.id {
                let i = choose|i: int| 0 <= i < s.len() && (#[trigger] s[i]).id == id;
                assert(t[i].id == id);
            }
            if has_point(t, id) && id != p.id {
                let i = choose|i: int| 0 <= i < t.len() && (#[trigger] t[i]).id == id;
                assert(s[i].id == id);
            }
        } else if s[0].id < p.id {
            put_point_has(rest, p, id);
            let u = put_point(rest, p);
            assert(t[0] == s[0]);
            if has_point(u, id) {
                let i = choose|i: int| 0 <= i < u.len() && (#[trigger] u[i]).id == id;
                assert(t[i + 1].id == id);
            }
            if has_point(rest, id) {
                let i = choose|i: int| 0 <= i < rest.len() && (#[trigger] rest[i]).id == id;
                assert(s[i + 1].id == id);
            }
            if has_point(t, id) {
                let i = choose|i: int| 0 <= i < t.len() && (#[trigger] t[i]).id == id;
                if i > 0 {
                    assert(u[i - 1].id == id);
                } else {
                    assert(s[0].id == id);
                }
            }
            if has_point(s, id) {
                let i = choose|i: int| 0 <= i < s.len() && (#[trigger] s[i]).id == id;
                if i > 0 {
                    assert(rest[i - 1].id == id);
                } else {
                    assert(t[0].id == id);
                }
            }
        } else {
            assert(t[0] == p);
            if has_point(s, id) {
                let i = choose|i: int| 0 <= i < s.len() && (#[trigger] s[i]).id == id;
                assert(t[i + 1].id == id);
            }
            if has_point(t, id) && id != p.id {
                let i = choose|i: int| 0 <= i < t.len() && (#[trigger] t[i]).id == id;
                assert(s[i - 1].id == id);
            }
        }
    }
}

/// After points are put in, exactly the old and the new ids are there: a point
/// that was missing is missing no more.
pub proof fn law_stored_points_are_present(
    s: Seq<StoredEmbeddingModel>,
    more: Seq<StoredEmbeddingModel>,
    id: u128,
)
    ensures
        has_point(put_points(s, more), id) == (has_point(s, id) || has_point(more, id)),
    decreases more.len(),
{
    if more.len() > 0 {
        let rest = more.drop_last();
        law_stored_points_are_present(s, rest, id);
        put_point_has(put_points(s, rest), more.last(), id);
        if has_point(rest, id) {
            let i = choose|i: int| 0 <= i < rest.len() && (#[trigger] rest[i]).id == id;
            assert(more[i].id == id);
        }
        if has_point(more, id) {
            let i = choose|i: int| 0 <= i < more.len() && (#[trigger] more[i]).id == id;
            if i < more.len() - 1 {
                assert(rest[i].id == id);
            }
        }
        assert(more[more.len() - 1] == more.last());
    }
}

/// The ids without a point.
pub open spec fn absent_ids(s: Seq<StoredEmbeddingModel>, ids: Seq<u128>) -> Seq<u128>
    decreases ids.len(),
{
    if ids.len() == 0 {
        Seq::empty()
    } else if has_point(s, ids.last()) {
        absent_ids(s, ids.drop_last())
    } else {
        absent_ids(s, ids.drop_last()).push(ids.last())
    }
}

/// The points that a filter lets through.
pub open spec fn candidates_of(s: Seq<StoredEmbeddingModel>, f: EmbeddingFilterModel) -> Seq<
    StoredEmbeddingModel,
>
    decreases s.len(),
{
    if s.len() == 0 {
        Seq::empty()
    } else {
        let before = candidates_of(s.drop_last(), f);
        if accepted(f, s.last().payload) {
            before.push(s.last())
        } else {
            before
        }
    }
}

/// The hits at or above the threshold, where there is one.
pub open spec fn hits_above(
    found: Seq<StoredEmbeddingModel>,
    scores: Seq<u32>,
    threshold: Option<u32>,
) -> Seq<ScoredHitModel>
    decreases found.len(),
{
    if found.len() == 0 {
        Seq::empty()
    } else {
        let before = hits_above(found.drop_last(), scores.drop_last(), threshold);
        if threshold is Some && !embeddings::at_least(scores.last(), threshold->0) {
            before
        } else {
            before.push(ScoredHitModel { score: scores.last(), payload: found.last().payload })
        }
    }
}

/// Higher scores first.
pub open spec fn hit_order() -> spec_fn(ScoredHitModel, ScoredHitModel) -> bool {
    |a: ScoredHitModel, b: ScoredHitModel|
        embeddings::total_rank(b.score) <= embeddings::total_rank(a.score)
}

fn hit_before(a: &ScoredHit, b: &ScoredHit) -> (r: bool)
    ensures
        r == hit_order()(a.deep_view(), b.deep_view()),
{
    embeddings::float_place(b.score) <= embeddings::float_place(a.score)
}

/// The first `limit` items.
pub open spec fn first_items<T>(s: Seq<T>, limit: nat) -> Seq<T> {
    if s.len() <= limit {
        s
    } else {
        s.take(limit as int)
    }
}

/// The hits at or above the threshold, highest score first, `limit` at most.
pub open spec fn ranked_hits(
    found: Seq<StoredEmbeddingModel>,
    scores: Seq<u32>,
    threshold: Option<u32>,
    limit: nat,
) -> Seq<ScoredHitModel> {
    first_items(sorting::sorted_by(hits_above(found, scores, threshold), hit_order()), limit)
}

/// The order of hits is total, so that ranking is sorting.
pub proof fn law_hit_order_is_total()
    ensures
        sorting::is_total_preorder(hit_order()),
{
}

/// Is a hit a found point with its score, at or above the threshold?
pub open spec fn is_hit_of(
    h: ScoredHitModel,
    found: Seq<StoredEmbeddingModel>,
    scores: Seq<u32>,
    threshold: Option<u32>,
) -> bool {
    exists|i: int|
        0 <= i < found.len() && (#[trigger] found[i]).payload == h.payload && scores[i] == h.score
            && (threshold is Some ==> embeddings::at_least(h.score, threshold->0))
}

proof fn hits_are_found(
    found: Seq<StoredEmbeddingModel>,
    scores: Seq<u32>,
    threshold: Option<u32>,
    h: ScoredHitModel,
)
    requires
        found.len() == scores.len(),
        hits_above(found, scores, threshold).contains(h),
    ensures
        is_hit_of(h, found, scores, threshold),
    decreases found.len(),
{
    let hits = hits_above(found, scores, threshold);
    let k = choose|k: int| 0 <= k < hits.len() && hits[k] == h;
    let before = hits_above(found.drop_last(), scores.drop_last(), threshold);
    if k < before.len() {
        assert(before[k] == h);
        hits_are_found(found.drop_last(), scores.drop_last(), threshold, h);
        let i = choose|i: int|
            0 <= i < found.drop_last().len() && (#[trigger] found.drop_last()[i]).payload
                == h.payload && scores.drop_last()[i] == h.score && (threshold is Some
                ==> embeddings::at_least(h.score, threshold->0));
        assert(found[i].payload == h.payload);
    } else {
        assert(found[found.len() - 1].payload == h.payload);
    }
}

/// Hits come highest score first, no more of them than asked for, and each is a
/// found point at or above the threshold.
pub proof fn law_hits_are_ranked(
    found: Seq<StoredEmbeddingModel>,
    scores: Seq<u32>,
    threshold: Option<u32>,
    limit: nat,
)
    requires
        found.len() == scores.len(),
    ensures
        ranked_hits(found, scores, threshold, limit).len() <= limit,
        sorting::in_order(ranked_hits(found, scores, threshold, limit), hit_order()),
        forall|j: int|
            0 <= j < ranked_hits(found, scores, threshold, limit).len() ==> is_hit_of(
                #[trigger] ranked_hits(found, scores, threshold, limit)[j],
                found,
                scores,
                threshold,
            ),
{
    let above = hits_above(found, scores, threshold);
    let sorted = sorting::sorted_by(above, hit_order());
    let ranked = ranked_hits(found, scores, threshold, limit);
    law_hit_order_is_total();
    sorting::law_sorted_by(above, hit_order());
    assert forall|i: int, j: int| 0 <= i < j < ranked.len() implies #[trigger] hit_order()(
        ranked[i],
        ranked[j],
    ) by {
        assert(hit_order()(sorted[i], sorted[j]));
    }
    assert forall|j: int| 0 <= j < ranked.len() implies is_hit_of(
        #[trigger] ranked[j],
        found,
        scores,
        threshold,
    ) by {
        assert(sorted[j] == ranked[j]);
        sorting::sorting_adds_none(above, hit_order(), ranked[j]);
        hits_are_found(found, scores, threshold, ranked[j]);
    }
}

/// Rank points by the scores that were computed for them.
pub fn rank_hits(
    found: &Vec<StoredEmbedding>,
    scores: &Vec<u32>,
    threshold: Option<u32>,
    limit: usize,
) -> (r: Vec<ScoredHit>)
    requires
        found@.len() == scores@.len(),
    ensures
        r.deep_view() == ranked_hits(found.deep_view(), scores@, threshold, limit as nat),
{
    let ghost all = found.deep_view();
    let mut out: Vec<ScoredHit> = seqs::no_items();
    let mut i: usize = 0;
    while i < found.len()
        invariant
            all == found.deep_view(),
            found@.len() == scores@.len(),
            0 <= i <= found@.len(),
            out.deep_view() == hits_above(all.take(i as int), scores@.take(i as int), threshold),
        decreases found@.len() - i,
    {
        proof {
            assert(all.take(i + 1).drop_last() =~= all.take(i as int));
            assert(scores@.take(i + 1).drop_last() =~= scores@.take(i as int));
            assert(all.take(i + 1).last() == found@[i as int].deep_view());
        }
        let keep = match threshold {
            Some(t) => embeddings::float_at_least(scores[i], t),
            None => true,
        };
        if keep {
            let hit = ScoredHit {
                score: scores[i],
                payload: seqs::Copied::copied(&found[i].payload),
            };
            seqs::push_item(&mut out, hit);
        }
        i += 1;
    }
    proof {
        assert(all.take(i as int) =~= all);
        assert(scores@.take(i as int) =~= scores@);
    }
    sorting::sort_items(&mut out, hit_before, Ghost(hit_order()));
    let ghost sorted = out.deep_view();
    if out.len() > limit {
        out.truncate(limit);
        assert(out.deep_view() =~= sorted.take(limit as int));
    }
    out
}

/// A store held in memory: the points of each collection.
#[derive(Debug, PartialEq)]
pub struct InMemoryEmbeddingStore {
    pub collections: StrMap<Vec<StoredEmbedding>>,
}

impl DeepView for InMemoryEmbeddingStore {
    type V = Seq<(Seq<char>, Seq<StoredEmbeddingModel>)>;

    open spec fn deep_view(&self) -> Seq<(Seq<char>, Seq<StoredEmbeddingModel>)> {
        self.collections.deep_view()
    }
}

/// The points of a collection; one that is not there has none.
pub open spec fn collection_points(
    store: Seq<(Seq<char>, Seq<StoredEmbeddingModel>)>,
    collection: Seq<char>,
) -> Seq<StoredEmbeddingModel> {
    strmap::assoc_group(store, collection)
}

fn put(points: &mut Vec<StoredEmbedding>, p: StoredEmbedding)
    ensures
        final(points).deep_view() == put_point(old(points).deep_view(), p.deep_view()),
{
    let ghost s = points.deep_view();
    let ghost pm = p.deep_view();
    let mut k: usize = 0;
    while k < points.len() && points[k].id < p.id
        invariant
            s == points.deep_view(),
            pm == p.deep_view(),
            0 <= k <= points@.len(),
            forall|i: int| 0 <= i < k ==> (#[trigger] s[i]).id < pm.id,
        decreases points@.len() - k,
    {
        assert(s[k as int] == points@[k as int].deep_view());
        k += 1;
    }
    proof {
        if k < s.len() {
            assert(s[k as int] == points@[k as int].deep_view());
        }
        put_point_at(s, pm, k as int);
    }
    if k < points.len() && points[k].id == p.id {
        points.set(k, p);
        assert(points.deep_view() =~= s.update(k as int, pm));
    } else {
        points.insert(k, p);
        assert(points.deep_view() =~= s.insert(k as int, pm));
    }
}

impl InMemoryEmbeddingStore {
    /// A store without collections.
    pub fn new() -> (r: Self)
        ensures
            r.deep_view() == Seq::<(Seq<char>, Seq<StoredEmbeddingModel>)>::empty(),
    {
        InMemoryEmbeddingStore { collections: StrMap::new() }
    }

    /// Have the collection exist; one that does is left alone.
    pub fn ensure(&mut self, collection: &str)
        ensures
            final(self).deep_view() == (if strmap::assoc_get(
                old(self).deep_view(),
                collection@,
            ) is Some {
                old(self).deep_view()
            } else {
                strmap::assoc_insert(old(self).deep_view(), collection@, Seq::empty())
            }),
    {
        if !self.collections.contains_key(collection) {
            let empty: Vec<StoredEmbedding> = seqs::no_items();
            self.collections.insert(collection.to_owned(), empty);
        }
    }

    /// Those of the ids that the collection does not hold.
    pub fn missing(&self, collection: &str, ids: &[u128]) -> (r: Vec<u128>)
        ensures
            r@ == absent_ids(collection_points(self.deep_view(), collection@), ids@),
    {
        let ghost points = collection_points(self.deep_view(), collection@);
        let found = self.collections.position(collection);
        let mut out: Vec<u128> = Vec::new();
        let mut i: usize = 0;
        while i < ids.len()
            invariant
                0 <= i <= ids@.len(),
                match found {
                    Some(p) => p < self.collections.entries@.len()
                        && self.collections.entries@[p as int].1.deep_view() == points,
                    None => points == Seq::<StoredEmbeddingModel>::empty(),
                },
                out@ == absent_ids(points, ids@.take(i as int)),
            decreases ids@.len() - i,
        {
            assert(ids@.take(i + 1).drop_last() =~= ids@.take(i as int));
            let present = match found {
                Some(p) => holds_point(&self.collections.entries[p].1, ids[i]),
                None => false,
            };
            if !present {
                out.push(ids[i]);
            }
            i += 1;
        }
        assert(ids@.take(i as int) =~= ids@);
        out
    }

    /// Put the points into the collection, which exists from then on.
    pub fn upsert(&mut self, collection: &str, points: Vec<StoredEmbedding>)
        ensures
            final(self).deep_view() == strmap::assoc_insert(
                old(self).deep_view(),
                collection@,
                put_points(
                    collection_points(old(self).deep_view(), collection@),
                    points.deep_view(),
                ),
            ),
    {
        let ghost before = collection_points(self.deep_view(), collection@);
        let mut held: Vec<StoredEmbedding> = match self.collections.position(collection) {
            Some(p) => copy_points(&self.collections.entries[p].1),
            None => seqs::no_items(),
        };
        let ghost all = points.deep_view();
        let mut rest = points;
        let ghost mut k: int = 0;
        while rest.len() > 0
            invariant
                0 <= k <= all.len(),
                rest.deep_view() == all.skip(k),
                held.deep_view() == put_points(before, all.take(k)),
            decreases rest@.len(),
        {
            let ghost left = rest.deep_view();
            proof {
                assert(left.len() == rest@.len());
                assert(left[0] == all[k]);
                assert(all.take(k + 1).drop_last() =~= all.take(k));
                assert(all.take(k + 1).last() == all[k]);
            }
            let p = rest.remove(0);
            assert(rest.deep_view() =~= left.remove(0));
            put(&mut held, p);
            proof {
                k = k + 1;
                assert(rest.deep_view() =~= all.skip(k));
            }
        }
        proof {
            assert(rest.deep_view().len() == rest@.len());
            assert(all.take(k) =~= all);
        }
        self.collections.insert(collection.to_owned(), held);
    }

    /// The points of the collection that the filter lets through, in the order
    /// of their ids. They are what a search scores.
    pub fn candidates(&self, collection: &str, filter: &EmbeddingFilter) -> (r: Vec<
        StoredEmbedding,
    >)
        ensures
            r.deep_view() == candidates_of(
                collection_points(self.deep_view(), collection@),
                filter.deep_view(),
            ),
    {
        match self.collections.position(collection) {
            None => seqs::no_items(),
            Some(p) => {
                let points = &self.collections.entries[p].1;
                let ghost all = points.deep_view();
                let mut out: Vec<StoredEmbedding> = seqs::no_items();
                let mut i: usize = 0;
                while i < points.len()
                    invariant
                        all == points.deep_view(),
                        0 <= i <= points@.len(),
                        out.deep_view() == candidates_of(all.take(i as int), filter.deep_view()),
                    decreases points@.len() - i,
                {
                    proof {
                        assert(all.take(i + 1).drop_last() =~= all.take(i as int));
                        assert(all.take(i + 1).last() == points@[i as int].deep_view());
                    }
                    if filter.accepts(&points[i].payload) {
                        seqs::push_item(&mut out, copy_point(&points[i]));
                    }
                    i += 1;
                }
                assert(all.take(i as int) =~= all);
                out
            },
        }
    }
}

fn copy_point(p: &StoredEmbedding) -> (r: StoredEmbedding)
    ensures
        r.deep_view() == p.deep_view(),
{
    StoredEmbedding {
        id: p.id,
        vector: cache::copy_vector(&p.vector),
        payload: seqs::Copied::copied(&p.payload),
    }
}

fn copy_points(v: &Vec<StoredEmbedding>) -> (r: Vec<StoredEmbedding>)
    ensures
        r.deep_view() == v.deep_view(),
{
    let ghost all = v.deep_view();
    let mut out: Vec<StoredEmbedding> = seqs::no_items();
    let mut i: usize = 0;
    while i < v.len()
        invariant
            all == v.deep_view(),
            0 <= i <= v@.len(),
            out.deep_view() == all.take(i as int),
        decreases v@.len() - i,
    {
        seqs::push_item(&mut out, copy_point(&v[i]));
        i += 1;
        assert(out.deep_view() =~= all.take(i as int));
    }
    assert(out.deep_view() =~= all);
    out
}

fn holds_point(points: &Vec<StoredEmbedding>, id: u128) -> (r: bool)
    ensures
        r == has_point(points.deep_view(), id),
{
    let ghost all = points.deep_view();
    let mut i: usize = 0;
    while i < points.len()
        invariant
            all == points.deep_view(),
            0 <= i <= points@.len(),
            forall|j: int| 0 <= j < i ==> (#[trigger] all[j]).id != id,
        decreases points@.len() - i,
    {
        assert(all[i as int] == points@[i as int].deep_view());
        if points[i].id == id {
            return true;
        }
        i += 1;
    }
    false
}

} // verus!
