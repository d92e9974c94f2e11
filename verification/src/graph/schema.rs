//! Entities and relations as they are put into a graph.

use vstd::prelude::*;
use crate::graph::scope::Scope;
use crate::graph::scope::ScopeSet;
use crate::graph::types::EntityRef;
use crate::json::Json;
use crate::json::JsonModel;
use crate::strmap;
use crate::strmap::StrMap;
use crate::text;
use crate::types::SEMANTIC_TEXT;

verus! {

broadcast use vstd::string::group_string_axioms;

/// The type of a property.
#[derive(Debug, Clone, Copy, PartialEq, Eq, Hash, Structural)]
pub enum OntologyPropertyType {
    /// Plain string, compared as it stands.
    Keyword,
    /// Free-form text, embedded for semantic search.
    Text,
    /// Integer or float.
    Number,
    /// Boolean.
    Bool,
    /// Calendar date or instant.
    Datetime,
    /// JSON array.
    List,
}

/// The type tag that a stored property carries.
pub type PropertyType = OntologyPropertyType;

impl DeepView for OntologyPropertyType {
    type V = OntologyPropertyType;

    open spec fn deep_view(&self) -> OntologyPropertyType {
        *self
    }
}

/// The handler that stores values of a type.
pub open spec fn handler_of(t: OntologyPropertyType) -> Seq<char> {
    match t {
        OntologyPropertyType::Keyword => "Keyword"@,
        OntologyPropertyType::List => "Keyword"@,
        OntologyPropertyType::Text => SEMANTIC_TEXT@,
        OntologyPropertyType::Number => "Number"@,
        OntologyPropertyType::Bool => "Boolean"@,
        OntologyPropertyType::Datetime => "Timestamp"@,
    }
}

/// The handler that filters on a type, where comparison alone does not do.
pub open spec fn query_handler_of(t: OntologyPropertyType) -> Option<Seq<char>> {
    match t {
        OntologyPropertyType::Text => Some(SEMANTIC_TEXT@),
        OntologyPropertyType::Keyword => Some("Keyword"@),
        OntologyPropertyType::Datetime => Some("Timestamp"@),
        OntologyPropertyType::List => Some("List"@),
        OntologyPropertyType::Number => None,
        OntologyPropertyType::Bool => None,
    }
}

/// The type that a spelling names, legacy spellings among them.
pub open spec fn type_of_spelling(raw: Seq<char>) -> Option<OntologyPropertyType> {
    if raw == "Keyword"@ || raw == "String"@ {
        Some(OntologyPropertyType::Keyword)
    } else if raw == "Text"@ || raw == "SemanticText"@ {
        Some(OntologyPropertyType::Text)
    } else if raw == "Number"@ || raw == "Int"@ || raw == "Float"@ {
        Some(OntologyPropertyType::Number)
    } else if raw == "Bool"@ || raw == "Boolean"@ {
        Some(OntologyPropertyType::Bool)
    } else if raw == "Datetime"@ || raw == "DateTime"@ || raw == "Date"@ || raw == "Timestamp"@ {
        Some(OntologyPropertyType::Datetime)
    } else if raw == "List"@ {
        Some(OntologyPropertyType::List)
    } else {
        None
    }
}

impl OntologyPropertyType {
    /// The handler that stores values of this type. Lists are stored plainly.
    pub fn handler_id(self) -> (r: &'static str)
        ensures
            r@ == handler_of(self),
    {
        match self {
            OntologyPropertyType::Keyword => "Keyword",
            OntologyPropertyType::List => "Keyword",
            OntologyPropertyType::Text => SEMANTIC_TEXT,
            OntologyPropertyType::Number => "Number",
            OntologyPropertyType::Bool => "Boolean",
            OntologyPropertyType::Datetime => "Timestamp",
        }
    }

    /// The handler that filters on this type; none for plain comparisons.
    pub fn query_type_id(self) -> (r: Option<&'static str>)
        ensures
            r.deep_view() == query_handler_of(self),
    {
        match self {
            OntologyPropertyType::Text => Some(SEMANTIC_TEXT),
            OntologyPropertyType::Keyword => Some("Keyword"),
            OntologyPropertyType::Datetime => Some("Timestamp"),
            OntologyPropertyType::List => Some("List"),
            OntologyPropertyType::Number => None,
            OntologyPropertyType::Bool => None,
        }
    }

    /// The type that a spelling names.
    pub fn from_spelling(raw: &str) -> (r: Option<OntologyPropertyType>)
        ensures
            r == type_of_spelling(raw@),
    {
        if text::text_eq(raw, "Keyword") || text::text_eq(raw, "String") {
            Some(OntologyPropertyType::Keyword)
        } else if text::text_eq(raw, "Text") || text::text_eq(raw, "SemanticText") {
            Some(OntologyPropertyType::Text)
        } else if text::text_eq(raw, "Number") || text::text_eq(raw, "Int") || text::text_eq(
            raw,
            "Float",
        ) {
            Some(OntologyPropertyType::Number)
        } else if text::text_eq(raw, "Bool") || text::text_eq(raw, "Boolean") {
            Some(OntologyPropertyType::Bool)
        } else if text::text_eq(raw, "Datetime") || text::text_eq(raw, "DateTime")
            || text::text_eq(raw, "Date") || text::text_eq(raw, "Timestamp") {
            Some(OntologyPropertyType::Datetime)
        } else if text::text_eq(raw, "List") {
            Some(OntologyPropertyType::List)
        } else {
            None
        }
    }
}

/// The handler id of a spelling; one that names no type stands for itself.
pub open spec fn canonical_handler(raw: Seq<char>) -> Seq<char> {
    match type_of_spelling(raw) {
        Some(t) => handler_of(t),
        None => raw,
    }
}

/// The handler id of a type spelling.
pub fn canonical_handler_id(raw: &str) -> (r: String)
    ensures
        r@ == canonical_handler(raw@),
{
    match OntologyPropertyType::from_spelling(raw) {
        Some(t) => t.handler_id().to_owned(),
        None => raw.to_owned(),
    }
}

/// A handler id is a fixed point of canonical spelling.
pub proof fn law_canonical_handler_is_stable(raw: Seq<char>)
    ensures
        canonical_handler(canonical_handler(raw)) == canonical_handler(raw),
{
    reveal_strlit("Keyword");
    reveal_strlit("String");
    reveal_strlit("Text");
    reveal_strlit("SemanticText");
    reveal_strlit("Number");
    reveal_strlit("Int");
    reveal_strlit("Float");
    reveal_strlit("Bool");
    reveal_strlit("Boolean");
    reveal_strlit("Datetime");
    reveal_strlit("DateTime");
    reveal_strlit("Date");
    reveal_strlit("Timestamp");
    reveal_strlit("List");
    assert("Number"@[0] == 'N' && "Boolean"@[0] == 'B' && "Timestamp"@[0] == 'T' && "Text"@.len()
        == 4 && "Keyword"@[0] == 'K' && "String"@[0] == 'S' && "SemanticText"@.len() == 12);
    assert("Int"@[0] == 'I' && "Float"@[0] == 'F' && "Bool"@.len() == 4 && "Boolean"@.len() == 7);
    assert("Datetime"@[0] == 'D' && "DateTime"@[0] == 'D' && "Date"@[0] == 'D' && "List"@[0] == 'L');
    assert("Timestamp"@.len() == 9 && "String"@.len() == 6);
}

/// How an entity is recognised as the same node.
#[derive(Debug, PartialEq)]
pub enum PrimaryKey {
    /// By the exact value of a property.
    Strict(String),
    /// By similarity of its canonical text.
    Soft,
}

pub enum PrimaryKeyModel {
    Strict(Seq<char>),
    Soft,
}

impl DeepView for PrimaryKey {
    type V = PrimaryKeyModel;

    open spec fn deep_view(&self) -> PrimaryKeyModel {
        match self {
            PrimaryKey::Strict(f) => PrimaryKeyModel::Strict(f@),
            PrimaryKey::Soft => PrimaryKeyModel::Soft,
        }
    }
}

/// A typed value on an entity or a relation.
#[derive(Debug, PartialEq)]
pub struct Property {
    pub name: String,
    pub property_type: PropertyType,
    pub value: Json,
}

pub struct PropertyModel {
    pub name: Seq<char>,
    pub property_type: PropertyType,
    pub value: JsonModel,
}

impl DeepView for Property {
    type V = PropertyModel;

    open spec fn deep_view(&self) -> PropertyModel {
        PropertyModel {
            name: self.name@,
            property_type: self.property_type,
            value: self.value.deep_view(),
        }
    }
}

impl Property {
    pub fn new(name: &str, property_type: PropertyType, value: Json) -> (r: Property)
        ensures
            r.deep_view() == (PropertyModel { name: name@, property_type, value: value.deep_view() }),
    {
        Property { name: name.to_owned(), property_type, value }
    }
}

/// An entity of a graph.
#[derive(Debug, PartialEq)]
pub struct EntityGraph {
    pub kind: String,
    pub labels: Vec<String>,
    /// Ontology domain, if the entity belongs to one.
    pub domain: Option<String>,
    /// The kinds of source it was extracted from.
    pub scopes: ScopeSet,
    pub primary_key: Option<PrimaryKey>,
    pub properties: StrMap<Property>,
}

pub struct EntityGraphModel {
    pub kind: Seq<char>,
    pub labels: Seq<Seq<char>>,
    pub domain: Option<Seq<char>>,
    pub scopes: ScopeSet,
    pub primary_key: Option<PrimaryKeyModel>,
    pub properties: Seq<(Seq<char>, PropertyModel)>,
}

impl DeepView for EntityGraph {
    type V = EntityGraphModel;

    open spec fn deep_view(&self) -> EntityGraphModel {
        EntityGraphModel {
            kind: self.kind@,
            labels: self.labels.deep_view(),
            domain: self.domain.deep_view(),
            scopes: self.scopes,
            primary_key: self.primary_key.deep_view(),
            properties: self.properties.deep_view(),
        }
    }
}

/// An entity of which only the type is known.
pub open spec fn bare_entity(kind: Seq<char>) -> EntityGraphModel {
    EntityGraphModel {
        kind,
        labels: Seq::empty(),
        domain: None,
        scopes: ScopeSet { text: false, table: false, structured: false },
        primary_key: None,
        properties: Seq::empty(),
    }
}

/// An entity with a property set.
pub open spec fn with_property(
    e: EntityGraphModel,
    name: Seq<char>,
    property_type: PropertyType,
    value: JsonModel,
) -> EntityGraphModel {
    EntityGraphModel {
        properties: strmap::assoc_insert(
            e.properties,
            name,
            PropertyModel { name, property_type, value },
        ),
        ..e
    }
}

impl EntityGraph {
    pub fn new(kind: &str) -> (r: EntityGraph)
        ensures
            r.deep_view() == bare_entity(kind@),
    {
        let r = EntityGraph {
            kind: kind.to_owned(),
            labels: Vec::new(),
            domain: None,
            scopes: ScopeSet::empty(),
            primary_key: None,
            properties: StrMap::new(),
        };
        assert(r.labels.deep_view() =~= Seq::<Seq<char>>::empty());
        r
    }

    pub fn label(self, label: &str) -> (r: EntityGraph)
        ensures
            r.deep_view() == (EntityGraphModel {
                labels: self.deep_view().labels.push(label@),
                ..self.deep_view()
            }),
    {
        let ghost before = self.labels.deep_view();
        let mut e = self;
        e.labels.push(label.to_owned());
        assert(e.labels.deep_view() =~= before.push(label@));
        e
    }

    pub fn labels(self, labels: Vec<String>) -> (r: EntityGraph)
        ensures
            r.deep_view() == (EntityGraphModel {
                labels: self.deep_view().labels + labels.deep_view(),
                ..self.deep_view()
            }),
    {
        let ghost before = self.labels.deep_view();
        let ghost added = labels.deep_view();
        let mut e = self;
        let mut labels = labels;
        e.labels.append(&mut labels);
        assert(e.labels.deep_view() =~= before + added);
        e
    }

    pub fn domain(self, domain: &str) -> (r: EntityGraph)
        ensures
            r.deep_view() == (EntityGraphModel { domain: Some(domain@), ..self.deep_view() }),
    {
        let mut e = self;
        e.domain = Some(domain.to_owned());
        e
    }

    /// Tag the entity with one origin; tags accumulate.
    pub fn scope(self, scope: Scope) -> (r: EntityGraph)
        ensures
            r.deep_view() == (EntityGraphModel {
                scopes: self.scopes.with(scope),
                ..self.deep_view()
            }),
    {
        let mut e = self;
        e.scopes.insert(scope);
        e
    }

    /// Tag the entity with several origins.
    pub fn scopes(self, scopes: Vec<Scope>) -> (r: EntityGraph)
        ensures
            r.deep_view() == (EntityGraphModel { scopes: r.scopes, ..self.deep_view() }),
            forall|s: Scope| #[trigger]
                r.scopes.holds(s) == (self.scopes.holds(s) || scopes@.contains(s)),
    {
        let ghost start = self.scopes;
        let ghost model = self.deep_view();
        let mut e = self;
        let mut i: usize = 0;
        while i < scopes.len()
            invariant
                0 <= i <= scopes@.len(),
                e.deep_view() == (EntityGraphModel { scopes: e.scopes, ..model }),
                forall|s: Scope| #[trigger]
                    e.scopes.holds(s) == (start.holds(s) || scopes@.take(i as int).contains(s)),
            decreases scopes@.len() - i,
        {
            let ghost before = e.scopes;
            e.scopes.insert(scopes[i]);
            proof {
                let next = scopes@.take(i + 1);
                let this = scopes@.take(i as int);
                assert(next =~= this.push(scopes@[i as int]));
                assert forall|s: Scope| #[trigger] e.scopes.holds(s) == (start.holds(s)
                    || next.contains(s)) by {
                    if this.contains(s) {
                        let k = choose|k: int| 0 <= k < this.len() && this[k] == s;
                        assert(next[k] == s);
                    }
                    if next.contains(s) && !this.contains(s) {
                        let k = choose|k: int| 0 <= k < next.len() && next[k] == s;
                        if k < this.len() {
                            assert(this[k] == s);
                        }
                    }
                    if s == scopes@[i as int] {
                        assert(next[i as int] == s);
                    }
                    assert(before.holds(s) == (start.holds(s) || this.contains(s)));
                }
            }
            i += 1;
        }
        assert(scopes@.take(i as int) =~= scopes@);
        e
    }

    /// Does the entity carry this origin?
    pub fn has_scope(&self, scope: Scope) -> (r: bool)
        ensures
            r == self.scopes.holds(scope),
    {
        self.scopes.contains(scope)
    }

    pub fn primary_key(self, primary_key: PrimaryKey) -> (r: EntityGraph)
        ensures
            r.deep_view() == (EntityGraphModel {
                primary_key: Some(primary_key.deep_view()),
                ..self.deep_view()
            }),
    {
        let mut e = self;
        e.primary_key = Some(primary_key);
        e
    }

    pub fn strict_primary_key(self, field: &str) -> (r: EntityGraph)
        ensures
            r.deep_view() == (EntityGraphModel {
                primary_key: Some(PrimaryKeyModel::Strict(field@)),
                ..self.deep_view()
            }),
    {
        self.primary_key(PrimaryKey::Strict(field.to_owned()))
    }

    pub fn soft_primary_key(self) -> (r: EntityGraph)
        ensures
            r.deep_view() == (EntityGraphModel {
                primary_key: Some(PrimaryKeyModel::Soft),
                ..self.deep_view()
            }),
    {
        self.primary_key(PrimaryKey::Soft)
    }

    pub fn property(self, name: &str, property_type: PropertyType, value: Json) -> (r: EntityGraph)
        ensures
            r.deep_view() == with_property(
                self.deep_view(),
                name@,
                property_type,
                value.deep_view(),
            ),
    {
        let mut e = self;
        e.properties.insert(name.to_owned(), Property::new(name, property_type, value));
        e
    }
}

/// A relation between two entities of a graph.
#[derive(Debug, PartialEq)]
pub struct RelationGraph {
    pub kind: String,
    pub from: EntityRef,
    pub to: EntityRef,
    pub properties: StrMap<Property>,
}

pub struct RelationGraphModel {
    pub kind: Seq<char>,
    pub from: EntityRef,
    pub to: EntityRef,
    pub properties: Seq<(Seq<char>, PropertyModel)>,
}

impl DeepView for RelationGraph {
    type V = RelationGraphModel;

    open spec fn deep_view(&self) -> RelationGraphModel {
        RelationGraphModel {
            kind: self.kind@,
            from: self.from,
            to: self.to,
            properties: self.properties.deep_view(),
        }
    }
}

impl RelationGraph {
    pub fn new(from: EntityRef, kind: &str, to: EntityRef) -> (r: RelationGraph)
        ensures
            r.deep_view() == (RelationGraphModel { kind: kind@, from, to, properties: Seq::empty() }),
    {
        RelationGraph { kind: kind.to_owned(), from, to, properties: StrMap::new() }
    }

    pub fn property(self, name: &str, property_type: PropertyType, value: Json) -> (r:
        RelationGraph)
        ensures
            r.deep_view() == (RelationGraphModel {
                properties: strmap::assoc_insert(
                    self.deep_view().properties,
                    name@,
                    PropertyModel { name: name@, property_type, value: value.deep_view() },
                ),
                ..self.deep_view()
            }),
    {
        let mut e = self;
        e.properties.insert(name.to_owned(), Property::new(name, property_type, value));
        e
    }
}

} // verus!
