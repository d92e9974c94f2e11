//! Choosing the domains that a question is about.

use vstd::prelude::*;
use crate::embeddings::store::EmbeddingFilter;
use crate::embeddings::store::EmbeddingFilterModel;
use crate::embeddings::store::EmbeddingKind;
use crate::embeddings::store::EmbeddingPayload;
use crate::embeddings::store::EmbeddingPayloadModel;
use crate::embeddings::store::ScoredHit;
use crate::embeddings::store::ScoredHitModel;
use crate::graph::ontology::CatalogModel;
use crate::graph::ontology::DomainModel;
use crate::graph::ontology::DomainOntology;
use crate::graph::ontology::EntityTypeSpec;
use crate::graph::ontology::OntologyCatalog;
use crate::graph::projection;
use crate::seqs;
use crate::strmap;

verus! {

broadcast use vstd::string::group_string_axioms;

/// An entity type that a search found, with the bits of its score.
#[derive(Debug, Clone, Copy, PartialEq)]
pub struct EntityTypeMatch<'a> {
    pub domain: &'a str,
    pub entity_type: &'a EntityTypeSpec,
    pub score: u32,
}

/// A domain that a search found, with the bits of its score.
#[derive(Debug, Clone, Copy, PartialEq)]
pub struct DomainOntologyMatch<'a> {
    pub domain: &'a str,
    pub ontology: &'a DomainOntology,
    pub score: u32,
}

pub struct DomainOntologyMatchModel {
    pub domain: Seq<char>,
    pub ontology: DomainModel,
    pub score: u32,
}

impl<'a> DeepView for DomainOntologyMatch<'a> {
    type V = DomainOntologyMatchModel;

    open spec fn deep_view(&self) -> DomainOntologyMatchModel {
        DomainOntologyMatchModel {
            domain: self.domain@,
            ontology: self.ontology.deep_view(),
            score: self.score,
        }
    }
}

/// The payload of a domain.
pub open spec fn domain_payload(domain: Seq<char>) -> EmbeddingPayloadModel {
    EmbeddingPayloadModel { kind: EmbeddingKind::Domain, domain, entity: None, property: None }
}

/// The passages of the domains that are candidates; without candidates all are.
pub open spec fn passages_of(c: CatalogModel, candidates: Option<Seq<Seq<char>>>) -> Seq<
    (EmbeddingPayloadModel, Seq<char>),
>
    decreases c.len(),
{
    if c.len() == 0 {
        Seq::empty()
    } else {
        let before = passages_of(c.drop_last(), candidates);
        let (domain, ontology) = c.last();
        if candidates is None || candidates->0.contains(domain) {
            before.push((domain_payload(domain), projection::domain_text(domain, ontology)))
        } else {
            before
        }
    }
}

/// Only the passages of candidates are searched.
pub proof fn law_passages_are_of_candidates(
    c: CatalogModel,
    candidates: Option<Seq<Seq<char>>>,
    i: int,
)
    requires
        0 <= i < passages_of(c, candidates).len(),
    ensures
        candidates is Some ==> candidates->0.contains(passages_of(c, candidates)[i].0.domain),
        passages_of(c, candidates)[i].0.kind == EmbeddingKind::Domain,
    decreases c.len(),
{
    let before = passages_of(c.drop_last(), candidates);
    if i < before.len() {
        law_passages_are_of_candidates(c.drop_last(), candidates, i);
    }
}

/// The domains of passages.
pub open spec fn passage_domains(passages: Seq<(EmbeddingPayloadModel, Seq<char>)>) -> Seq<
    Seq<char>,
> {
    Seq::new(passages.len(), |i: int| passages[i].0.domain)
}

/// The domains of the catalog among hits, in the order of the hits.
pub open spec fn matches_of(c: CatalogModel, hits: Seq<ScoredHitModel>) -> Seq<
    DomainOntologyMatchModel,
>
    decreases hits.len(),
{
    if hits.len() == 0 {
        Seq::empty()
    } else {
        let before = matches_of(c, hits.drop_last());
        let hit = hits.last();
        match strmap::assoc_get(c, hit.payload.domain) {
            Some(ontology) => before.push(
                DomainOntologyMatchModel {
                    domain: hit.payload.domain,
                    ontology,
                    score: hit.score,
                },
            ),
            None => before,
        }
    }
}

impl OntologyCatalog {
    /// The passages that are embedded for a choice among the candidates.
    pub fn domain_passages(&self, candidates: Option<&Vec<String>>) -> (r: Vec<
        (EmbeddingPayload, String),
    >)
        ensures
            r.deep_view() == passages_of(self.deep_view(), candidates.deep_view()),
    {
        let ghost all = self.deep_view();
        let ghost set = candidates.deep_view();
        let mut out: Vec<(EmbeddingPayload, String)> = seqs::no_items();
        let mut i: usize = 0;
        while i < self.domains.entries.len()
            invariant
                all == self.deep_view(),
                set == candidates.deep_view(),
                0 <= i <= self.domains.entries@.len(),
                out.deep_view() == passages_of(all.take(i as int), set),
            decreases self.domains.entries@.len() - i,
        {
            proof {
                assert(all.take(i + 1).drop_last() =~= all.take(i as int));
                assert(all.take(i + 1).last() == self.domains.entries@[i as int].deep_view());
            }
            let domain = self.domains.entries[i].0.as_str();
            let wanted = match candidates {
                Some(v) => seqs::contains_text(v, domain),
                None => true,
            };
            if wanted {
                let passage = projection::domain_embedding_text(
                    domain,
                    &self.domains.entries[i].1,
                );
                seqs::push_item(&mut out, (EmbeddingPayload::domain(domain), passage));
            }
            i += 1;
        }
        assert(all.take(i as int) =~= all);
        out
    }

    /// The filter of a search among the domains of passages.
    pub fn domain_filter(passages: &Vec<(EmbeddingPayload, String)>) -> (r: EmbeddingFilter)
        ensures
            r.deep_view() == (EmbeddingFilterModel {
                kinds: seq![EmbeddingKind::Domain],
                domains: passage_domains(passages.deep_view()),
            }),
    {
        let ghost want = passage_domains(passages.deep_view());
        let mut domains: Vec<String> = seqs::no_items();
        let mut i: usize = 0;
        while i < passages.len()
            invariant
                want == passage_domains(passages.deep_view()),
                0 <= i <= passages@.len(),
                domains.deep_view() == want.take(i as int),
            decreases passages@.len() - i,
        {
            seqs::push_item(&mut domains, passages[i].0.domain.clone());
            i += 1;
            assert(domains.deep_view() =~= want.take(i as int));
        }
        assert(domains.deep_view() =~= want);
        let mut kinds: Vec<EmbeddingKind> = Vec::new();
        kinds.push(EmbeddingKind::Domain);
        assert(kinds@ =~= seq![EmbeddingKind::Domain]);
        EmbeddingFilter { kinds, domains }
    }

    /// The domains that a search found. A hit of an unknown domain is passed
    /// over.
    pub fn domain_matches(&self, hits: &Vec<ScoredHit>) -> (r: Vec<DomainOntologyMatch<'_>>)
        ensures
            r.deep_view() == matches_of(self.deep_view(), hits.deep_view()),
    {
        let ghost all = hits.deep_view();
        let mut out: Vec<DomainOntologyMatch<'_>> = seqs::no_items();
        let mut i: usize = 0;
        while i < hits.len()
            invariant
                all == hits.deep_view(),
                0 <= i <= hits@.len(),
                out.deep_view() == matches_of(self.deep_view(), all.take(i as int)),
            decreases hits@.len() - i,
        {
            proof {
                assert(all.take(i + 1).drop_last() =~= all.take(i as int));
                assert(all.take(i + 1).last() == hits@[i as int].deep_view());
            }
            if let Some(k) = self.domains.position(hits[i].payload.domain.as_str()) {
                let m = DomainOntologyMatch {
                    domain: self.domains.entries[k].0.as_str(),
                    ontology: &self.domains.entries[k].1,
                    score: hits[i].score,
                };
                seqs::push_item(&mut out, m);
            }
            i += 1;
        }
        assert(all.take(i as int) =~= all);
        out
    }
}

} // verus!
