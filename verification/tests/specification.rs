use linguagraph::embeddings::recorded::Recorded;
use linguagraph::embeddings::{EmbedError, Embedder};
use linguagraph::graph::schema::PropertyType;
use linguagraph::graph::spec::{
    find_query_text, matches_above, rank_matches, reranked, EntitySpecMatch, GraphSpecification,
    RerankScore,
};

struct Recorder<F> {
    embed: F,
    seen: std::cell::RefCell<Vec<String>>,
}

impl<F: Fn(&str) -> Vec<f32>> Embedder for Recorder<F> {
    fn dim(&self) -> usize {
        2
    }

    fn embed_batch(&self, texts: &Vec<String>) -> Result<Vec<Vec<u32>>, EmbedError> {
        self.seen.borrow_mut().extend(texts.iter().cloned());
        Ok(texts
            .iter()
            .map(|t| (self.embed)(t).iter().map(|x| x.to_bits()).collect())
            .collect())
    }
}

/// Embed what is pending, and give the passages that were embedded.
fn compute(
    spec: &mut GraphSpecification,
    embed: impl Fn(&str) -> Vec<f32>,
) -> Result<Vec<String>, EmbedError> {
    let recorder = Recorder {
        embed,
        seen: std::cell::RefCell::new(Vec::new()),
    };
    spec.compute(&mut Recorded::new(&recorder))?;
    Ok(recorder.seen.into_inner())
}

fn cosine(a: &[f32], b: &[f32]) -> f32 {
    let dot: f32 = a.iter().zip(b).map(|(x, y)| x * y).sum();
    let norm = |v: &[f32]| v.iter().map(|x| x * x).sum::<f32>().sqrt();
    dot / (norm(a) * norm(b))
}

fn find<'a>(
    spec: &'a GraphSpecification,
    query: &str,
    threshold: f32,
    embed: impl Fn(&str) -> Vec<f32>,
    reranking: Option<(f64, fn(&str) -> f64)>,
) -> Result<Vec<EntitySpecMatch<'a>>, EmbedError> {
    let vector = embed(&find_query_text(query));
    let candidates = spec.find_candidates(vector.len())?;
    let scores: Vec<u32> = candidates
        .iter()
        .map(|c| {
            let known: Vec<f32> = c
                .embedding()
                .unwrap()
                .iter()
                .map(|b| f32::from_bits(*b))
                .collect();
            cosine(&vector, &known).to_bits()
        })
        .collect();
    let mut matches = matches_above(&candidates, &scores, threshold.to_bits());
    if let Some((floor, rerank)) = reranking {
        if !matches.is_empty() {
            let scores: Vec<RerankScore> = spec
                .rerank_documents(&matches)
                .iter()
                .map(|d| rerank(d))
                .map(|s| RerankScore {
                    wide: s.to_bits(),
                    narrow: (s as f32).to_bits(),
                })
                .collect();
            matches = reranked(matches, &scores, floor.to_bits())?;
        }
    }
    Ok(rank_matches(matches))
}

#[test]
fn adds_records_with_expected_keys() {
    let spec = GraphSpecification::new()
        .with_entity("Company", "A legal organization.")
        .with_property(
            "Company",
            "name",
            PropertyType::Text,
            "Human-readable company name.",
        );

    assert_eq!(spec.len(), 2);
    assert!(spec.contains_key("Company"));
    assert!(spec.contains_key("Company.name"));
}

#[test]
fn retrieves_by_raw_key_and_typed_accessors() {
    let mut spec = GraphSpecification::new();
    spec.add_entity("Person", "A human.");
    spec.add_property("Person", "age", PropertyType::Number, "Age in years.");

    let raw = spec.get("Person.age").unwrap();
    assert_eq!(raw.as_property().unwrap().kind, PropertyType::Number);

    let entity = spec.get_entity("Person").unwrap();
    assert_eq!(entity.description, "A human.");

    let property = spec.get_property("Person", "age").unwrap();
    assert_eq!(property.description, "Age in years.");
}

#[test]
fn retrieves_all_records_for_entity() {
    let spec = GraphSpecification::new()
        .with_entity("Person", "A human.")
        .with_property("Person", "name", PropertyType::Text, "Display name.")
        .with_property("Person", "age", PropertyType::Number, "Age in years.")
        .with_entity("Company", "A legal organization.");

    let person_records = spec.records_for_entity("Person");
    assert_eq!(person_records.len(), 3);

    let person_properties = spec.properties_for_entity("Person");
    assert_eq!(person_properties.len(), 2);
    assert!(person_properties.iter().any(|record| record.name == "name"));
    assert!(person_properties.iter().any(|record| record.name == "age"));

    let via_owned_entity_name = spec.get_properties("Person".to_string());
    assert_eq!(via_owned_entity_name.len(), 2);
}

#[test]
fn inserting_same_key_replaces_record() {
    let mut spec = GraphSpecification::new();
    assert!(spec.add_entity("Person", "Old description.").is_none());

    let old = spec.add_entity("Person", "New description.").unwrap();
    assert_eq!(old.as_entity().unwrap().description, "Old description.");
    assert_eq!(
        spec.get_entity("Person").unwrap().description,
        "New description."
    );
}

#[test]
fn merge_adds_new_records_and_replaces_existing_keys() {
    let mut base = GraphSpecification::new()
        .with_entity("Person", "Old person.")
        .with_property("Person", "name", PropertyType::Text, "Old name.")
        .with_entity("Company", "Company.");
    let incoming = GraphSpecification::new()
        .with_entity("Person", "New person.")
        .with_property("Person", "age", PropertyType::Number, "Age.")
        .with_property("Company", "name", PropertyType::Text, "Company name.");

    base.merge(&incoming);

    assert_eq!(base.len(), 5);
    assert_eq!(
        base.get_entity("Person").unwrap().description,
        "New person."
    );
    assert_eq!(
        base.get_property("Person", "name").unwrap().description,
        "Old name."
    );
    assert_eq!(
        base.get_property("Person", "age").unwrap().description,
        "Age."
    );
    assert_eq!(
        base.get_property("Company", "name").unwrap().description,
        "Company name."
    );
}

#[test]
fn merged_returns_combined_spec_without_mutating_inputs() {
    let base = || GraphSpecification::new().with_entity("Person", "Base.");
    let incoming = GraphSpecification::new().with_entity("Company", "Incoming.");

    let combined = base().merged(&incoming);

    assert!(base().get_entity("Company").is_none());
    assert!(incoming.get_entity("Person").is_none());
    assert!(combined.get_entity("Person").is_some());
    assert!(combined.get_entity("Company").is_some());
}

#[test]
fn compute_embeds_entity_specs() {
    let mut spec = GraphSpecification::new()
        .with_entity("Person", "A human being.")
        .with_property("Person", "name", PropertyType::Text, "Display name.")
        .with_entity("Company", "A legal organization.");

    compute(&mut spec, |_| vec![0.5; 8]).unwrap();

    let dim = |name: &str| spec.get_entity(name).unwrap().embedding().unwrap().len();
    assert_eq!(dim("Person"), 8);
    assert_eq!(dim("Company"), 8);
    assert!(spec.pending_embeddings().is_empty());
}

#[test]
fn compute_uses_entity_and_property_text() {
    let mut spec = GraphSpecification::new()
        .with_entity("Person", "A human being.")
        .with_property("Person", "name", PropertyType::Text, "Display name.")
        .with_property("Person", "age", PropertyType::Number, "Age in years.");

    let texts = compute(&mut spec, |_| vec![0.0, 1.0]).unwrap();

    assert_eq!(texts.len(), 1);
    assert!(texts[0].contains("Person - A human being."));
    assert!(texts[0].contains("age (Number): Age in years."));
    assert!(texts[0].contains("name (Text): Display name."));
}

#[test]
fn every_entity_gets_a_vector() {
    let mut spec = GraphSpecification::new().with_entity("Person", "A human being.");
    let jobs = spec.pending_embeddings();
    assert!(matches!(
        spec.store_embeddings(&jobs, Vec::new()),
        Err(EmbedError::Backend(_))
    ));
}

#[test]
fn a_second_pass_has_nothing_to_embed() {
    let mut spec = GraphSpecification::new()
        .with_entity("Person", "A human being.")
        .with_entity("Movie", "A film.");
    assert_eq!(compute(&mut spec, |_| vec![1.0, 0.0]).unwrap().len(), 2);
    assert!(spec.pending_embeddings().is_empty());
    assert!(compute(&mut spec, |_| vec![0.0, 1.0]).unwrap().is_empty());
}

#[test]
fn find_returns_entities_above_threshold_by_cosine_similarity() {
    let embed = |text: &str| -> Vec<f32> {
        let lower = text.to_ascii_lowercase();
        if lower.contains("company")
            || lower.contains("organization")
            || lower.contains("business")
        {
            vec![1.0, 0.0]
        } else {
            vec![0.0, 1.0]
        }
    };
    let mut spec = GraphSpecification::new()
        .with_entity("Person", "A human being.")
        .with_property("Person", "name", PropertyType::Text, "Display name.")
        .with_entity("Company", "A legal organization.")
        .with_property("Company", "name", PropertyType::Text, "Company name.");
    compute(&mut spec, embed).unwrap();

    let matches = find(&spec, "business organization", 0.75, embed, None).unwrap();

    assert_eq!(matches.len(), 1);
    assert_eq!(matches[0].record.name, "Company");
    assert_eq!(f32::from_bits(matches[0].score), 1.0);
}

#[test]
fn find_filters_embedding_matches_by_reranker_threshold() {
    let embed = |text: &str| -> Vec<f32> {
        if text.to_ascii_lowercase().contains("camera") {
            vec![1.0, 0.0]
        } else {
            vec![0.0, 1.0]
        }
    };
    fn prefer_camera(document: &str) -> f64 {
        if document.contains("Camera -") {
            0.9
        } else {
            0.2
        }
    }
    let mut spec = GraphSpecification::new()
        .with_entity("Camera", "A camera")
        .with_entity("CameraArchive", "Old camera records");
    compute(&mut spec, embed).unwrap();

    let matches = find(&spec, "camera", 0.0, embed, Some((0.8, prefer_camera))).unwrap();

    assert_eq!(matches.len(), 1);
    assert_eq!(matches[0].record.name, "Camera");
    assert_eq!(f32::from_bits(matches[0].score), 0.9);
}

#[test]
fn find_ignores_entities_without_computed_embeddings() {
    let spec = GraphSpecification::new()
        .with_entity("Person", "A human being.")
        .with_entity("Company", "A legal organization.");

    let matches = find(&spec, "human", 0.0, |_| vec![0.5; 8], None).unwrap();

    assert!(matches.is_empty());
}

#[test]
fn vectors_of_another_length_are_refused() {
    let mut spec = GraphSpecification::new().with_entity("Person", "A human being.");
    compute(&mut spec, |_| vec![0.5; 8]).unwrap();
    assert!(matches!(
        spec.find_candidates(4),
        Err(EmbedError::Backend(_))
    ));
}

#[test]
fn properties_have_the_handlers_of_their_types() {
    let spec = GraphSpecification::new()
        .with_property("Person", "code", PropertyType::Keyword, "Code.")
        .with_property("Person", "bio", PropertyType::Text, "Biography.")
        .with_property("Person", "age", PropertyType::Number, "Age.");
    assert_eq!(spec.get_type("Person", "code"), Some("Keyword"));
    assert_eq!(spec.get_type("Person", "bio"), Some("SemanticText"));
    assert_eq!(spec.get_type("Person", "age"), Some("Number"));
    assert_eq!(spec.get_type("Person", "name"), None);
    assert_eq!(spec.get_query_type("Person", "bio"), Some("SemanticText"));
    assert_eq!(spec.get_query_type("Person", "age"), None);
}
