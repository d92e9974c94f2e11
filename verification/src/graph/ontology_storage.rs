//! Where an ontology catalog is kept, and a catalog kept in memory.

use vstd::prelude::*;
use crate::graph::ontology;
use crate::graph::ontology::OntologyCatalog;
use crate::seqs::Copied;

verus! {

broadcast use vstd::string::group_string_axioms;

/// Where the catalog is kept unless told otherwise.
pub const DEFAULT_ONTOLOGY_CATALOG_CACHE_PATH: &'static str = ".linguagraph/ontology_catalog.json";

/// Why a catalog could not be read or written.
#[derive(Debug, PartialEq)]
pub enum OntologyError {
    NotFound(String),
    Parse(String),
    Io(String),
    UnknownDomain(String),
    Unsupported(String),
    Backend(String),
}

pub enum OntologyErrorModel {
    NotFound(Seq<char>),
    Parse(Seq<char>),
    Io(Seq<char>),
    UnknownDomain(Seq<char>),
    Unsupported(Seq<char>),
    Backend(Seq<char>),
}

impl DeepView for OntologyError {
    type V = OntologyErrorModel;

    open spec fn deep_view(&self) -> OntologyErrorModel {
        match self {
            OntologyError::NotFound(x) => OntologyErrorModel::NotFound(x@),
            OntologyError::Parse(x) => OntologyErrorModel::Parse(x@),
            OntologyError::Io(x) => OntologyErrorModel::Io(x@),
            OntologyError::UnknownDomain(x) => OntologyErrorModel::UnknownDomain(x@),
            OntologyError::Unsupported(x) => OntologyErrorModel::Unsupported(x@),
            OntologyError::Backend(x) => OntologyErrorModel::Backend(x@),
        }
    }
}

/// The text of a catalog error.
pub open spec fn ontology_error_text(e: OntologyErrorModel) -> Seq<char> {
    match e {
        OntologyErrorModel::NotFound(m) => "ontology file not found: "@ + m,
        OntologyErrorModel::Parse(m) => "ontology parse error: "@ + m,
        OntologyErrorModel::Io(m) => "io: "@ + m,
        OntologyErrorModel::UnknownDomain(m) => "unknown domain: "@ + m,
        OntologyErrorModel::Unsupported(m) => "unsupported storage operation: "@ + m,
        OntologyErrorModel::Backend(m) => "ontology storage backend error: "@ + m,
    }
}

impl OntologyError {
    /// The text of the error.
    pub fn message(&self) -> (r: String)
        ensures
            r@ == ontology_error_text(self.deep_view()),
    {
        let (head, m) = match self {
            OntologyError::NotFound(m) => ("ontology file not found: ", m),
            OntologyError::Parse(m) => ("ontology parse error: ", m),
            OntologyError::Io(m) => ("io: ", m),
            OntologyError::UnknownDomain(m) => ("unknown domain: ", m),
            OntologyError::Unsupported(m) => ("unsupported storage operation: ", m),
            OntologyError::Backend(m) => ("ontology storage backend error: ", m),
        };
        let mut s = head.to_owned();
        s.append(m.as_str());
        s
    }
}

/// A catalog in a file.
#[derive(Debug, PartialEq)]
pub struct JsonFileOntologyCatalogStorage {
    pub path: String,
}

impl JsonFileOntologyCatalogStorage {
    /// The storage at a path.
    pub fn new(path: &str) -> (r: Self)
        ensures
            r.path@ == path@,
    {
        JsonFileOntologyCatalogStorage { path: path.to_owned() }
    }

    /// Where the file is.
    pub fn path(&self) -> (r: &str)
        ensures
            r@ == self.path@,
    {
        self.path.as_str()
    }

    /// The path unless told otherwise.
    pub fn default_path() -> (r: String)
        ensures
            r@ == DEFAULT_ONTOLOGY_CATALOG_CACHE_PATH@,
    {
        DEFAULT_ONTOLOGY_CATALOG_CACHE_PATH.to_owned()
    }

    /// What a load gives: what was found, each domain named by its key. An empty
    /// file is an empty catalog, a missing file an error.
    pub fn loaded(&self, present: bool, found: Option<OntologyCatalog>) -> (r: Result<
        OntologyCatalog,
        OntologyError,
    >)
        ensures
            match r {
                Ok(c) => present && c.deep_view() == ontology::hydrated(
                    match found {
                        Some(f) => f.deep_view(),
                        None => Seq::empty(),
                    },
                ),
                Err(e) => !present && e.deep_view() == OntologyErrorModel::NotFound(self.path@),
            },
    {
        if !present {
            return Err(OntologyError::NotFound(self.path.clone()));
        }
        let mut catalog = match found {
            Some(c) => c,
            None => OntologyCatalog::new(),
        };
        catalog.hydrate_domain_names();
        Ok(catalog)
    }
}

impl Default for JsonFileOntologyCatalogStorage {
    fn default() -> (r: JsonFileOntologyCatalogStorage)
        ensures
            r.path@ == DEFAULT_ONTOLOGY_CATALOG_CACHE_PATH@,
    {
        JsonFileOntologyCatalogStorage { path: JsonFileOntologyCatalogStorage::default_path() }
    }
}

/// A catalog kept in memory, which can be read and not written.
#[derive(Debug)]
pub struct InMemoryOntologyCatalogStorage {
    pub catalog: OntologyCatalog,
}

impl InMemoryOntologyCatalogStorage {
    /// The storage of a catalog.
    pub fn new(catalog: OntologyCatalog) -> (r: Self)
        ensures
            r.catalog.deep_view() == catalog.deep_view(),
    {
        InMemoryOntologyCatalogStorage { catalog }
    }

    /// A copy of the catalog.
    pub fn load(&self) -> (r: OntologyCatalog)
        ensures
            r.deep_view() == self.catalog.deep_view(),
    {
        OntologyCatalog { domains: self.catalog.domains.copied() }
    }

    /// Writing is not supported.
    pub fn save(&self, catalog: &OntologyCatalog) -> (r: Result<(), OntologyError>)
        ensures
            r is Err,
            r->Err_0.deep_view() == OntologyErrorModel::Unsupported("save"@),
    {
        Err(OntologyError::Unsupported("save".to_owned()))
    }
}

} // verus!
