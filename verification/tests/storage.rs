use linguagraph::graph::ontology::{DomainOntology, OntologyCatalog};
use linguagraph::graph::ontology_storage::{
    InMemoryOntologyCatalogStorage, JsonFileOntologyCatalogStorage, OntologyError,
};
use linguagraph::graph::postgres_spec_storage::PostgresGraphSpecificationStorage;
use linguagraph::graph::spec::GraphSpecification;
use linguagraph::graph::spec_storage::{
    loaded_or_empty, updated, FileGraphSpecificationStorage, GraphSpecificationStorageError,
    DEFAULT_GRAPH_SPECIFICATION_CACHE_PATH,
};

#[test]
fn default_uses_linguagraph_cache_dir() {
    let storage = FileGraphSpecificationStorage::default();
    assert_eq!(storage.path(), DEFAULT_GRAPH_SPECIFICATION_CACHE_PATH);
    assert_eq!(
        FileGraphSpecificationStorage::default_path(),
        ".linguagraph/graph_specification.json"
    );
}

#[test]
fn nothing_found_is_an_empty_specification() {
    assert!(loaded_or_empty(None).is_empty());
    let incoming = GraphSpecification::new().with_entity("Person", "a human");
    let merged = updated(Some(GraphSpecification::new().with_entity("Movie", "")), &incoming);
    assert_eq!(merged.len(), 2);
}

#[test]
fn storage_statements_name_the_table() {
    let storage = PostgresGraphSpecificationStorage::new("tenant").with_table("specs");
    assert_eq!(storage.table(), "specs");
    assert_eq!(storage.scope(), "tenant");
    assert_eq!(
        storage.select_sql(),
        "SELECT specification FROM specs WHERE scope = $1"
    );
}

#[test]
fn catalog_storages_answer_as_files_do() {
    let file = JsonFileOntologyCatalogStorage::new("/nowhere.json");
    assert_eq!(
        file.loaded(false, None),
        Err(OntologyError::NotFound("/nowhere.json".to_string()))
    );
    assert_eq!(file.loaded(true, None), Ok(OntologyCatalog::default()));
    let mut unnamed = OntologyCatalog::default();
    unnamed
        .domains
        .insert("demo".to_string(), DomainOntology::empty());
    let named = file.loaded(true, Some(unnamed)).unwrap();
    assert_eq!(named.get("demo").unwrap().name(), Some("demo"));
    assert_eq!(
        JsonFileOntologyCatalogStorage::default().path(),
        ".linguagraph/ontology_catalog.json"
    );
    let memory = InMemoryOntologyCatalogStorage::new(OntologyCatalog::default());
    assert!(memory.load().is_empty());
    assert_eq!(
        memory.save(&OntologyCatalog::default()),
        Err(OntologyError::Unsupported("save".to_string()))
    );
}

#[test]
fn storage_errors_have_texts() {
    assert_eq!(
        OntologyError::UnknownDomain("x".to_string()).message(),
        "unknown domain: x"
    );
    assert_eq!(
        GraphSpecificationStorageError::Decode("bad".to_string()).message(),
        "invalid graph specification cache contents: bad"
    );
}
