//! Domain ontologies: which entity types, properties and relation types a graph
//! may hold, and the projection of a live schema onto them.

use vstd::prelude::*;
use crate::graph::schema;
use crate::graph::schema::OntologyPropertyType;
use crate::seqs;
use crate::seqs::Copied;
use crate::strmap;
use crate::strmap::StrMap;
use crate::text;

verus! {

broadcast use vstd::string::group_string_axioms;

/// A property that a type declares.
#[derive(Debug, PartialEq)]
pub struct PropertySpec {
    pub name: String,
    pub description: Option<String>,
    pub property_type: OntologyPropertyType,
    pub required: bool,
    /// The values that the property may take, where they are declared.
    pub allowed_values: Vec<String>,
}

pub struct PropertySpecModel {
    pub name: Seq<char>,
    pub description: Option<Seq<char>>,
    pub property_type: OntologyPropertyType,
    pub required: bool,
    pub allowed_values: Seq<Seq<char>>,
}

impl DeepView for PropertySpec {
    type V = PropertySpecModel;

    open spec fn deep_view(&self) -> PropertySpecModel {
        PropertySpecModel {
            name: self.name@,
            description: self.description.deep_view(),
            property_type: self.property_type,
            required: self.required,
            allowed_values: self.allowed_values.deep_view(),
        }
    }
}

impl Copied for PropertySpec {
    fn copied(&self) -> (r: Self) {
        PropertySpec {
            name: self.name.clone(),
            description: self.description.copied(),
            property_type: self.property_type,
            required: self.required,
            allowed_values: self.allowed_values.copied(),
        }
    }
}

/// What an entity or relation type declares.
pub struct TypeModel {
    pub name: Seq<char>,
    pub description: Option<Seq<char>>,
    pub properties: Seq<PropertySpecModel>,
}

/// An entity type.
#[derive(Debug, PartialEq)]
pub struct EntityTypeSpec {
    pub name: String,
    pub description: Option<String>,
    pub properties: Vec<PropertySpec>,
}

impl DeepView for EntityTypeSpec {
    type V = TypeModel;

    open spec fn deep_view(&self) -> TypeModel {
        TypeModel {
            name: self.name@,
            description: self.description.deep_view(),
            properties: self.properties.deep_view(),
        }
    }
}

impl Copied for EntityTypeSpec {
    fn copied(&self) -> (r: Self) {
        EntityTypeSpec {
            name: self.name.clone(),
            description: self.description.copied(),
            properties: self.properties.copied(),
        }
    }
}

/// A relation type.
#[derive(Debug, PartialEq)]
pub struct RelationTypeSpec {
    pub name: String,
    pub description: Option<String>,
    pub properties: Vec<PropertySpec>,
}

impl DeepView for RelationTypeSpec {
    type V = TypeModel;

    open spec fn deep_view(&self) -> TypeModel {
        TypeModel {
            name: self.name@,
            description: self.description.deep_view(),
            properties: self.properties.deep_view(),
        }
    }
}

impl Copied for RelationTypeSpec {
    fn copied(&self) -> (r: Self) {
        RelationTypeSpec {
            name: self.name.clone(),
            description: self.description.copied(),
            properties: self.properties.copied(),
        }
    }
}

/// The first property of a name.
pub open spec fn property_named(props: Seq<PropertySpecModel>, name: Seq<char>) -> Option<
    PropertySpecModel,
> {
    seqs::first_where(props, |p: PropertySpecModel| p.name == name)
}

/// The first type of a name.
pub open spec fn type_named(types: Seq<TypeModel>, name: Seq<char>) -> Option<TypeModel> {
    seqs::first_where(types, |t: TypeModel| t.name == name)
}

fn find_property<'a>(props: &'a Vec<PropertySpec>, name: &str) -> (r: Option<&'a PropertySpec>)
    ensures
        r.deep_view() == property_named(props.deep_view(), name@),
{
    let ghost all = props.deep_view();
    let ghost p = |p: PropertySpecModel| p.name == name@;
    let mut i: usize = 0;
    while i < props.len()
        invariant
            all == props.deep_view(),
            p == (|p: PropertySpecModel| p.name == name@),
            0 <= i <= props@.len(),
            forall|j: int| 0 <= j < i ==> !p(#[trigger] all[j]),
        decreases props@.len() - i,
    {
        assert(all[i as int] == props@[i as int].deep_view());
        if text::text_eq(props[i].name.as_str(), name) {
            proof {
                seqs::first_where_at(all, p, i as int);
            }
            return Some(&props[i]);
        }
        i += 1;
    }
    proof {
        seqs::first_where_none(all, p);
    }
    None
}

fn find_entity_type<'a>(types: &'a Vec<EntityTypeSpec>, name: &str) -> (r: Option<
    &'a EntityTypeSpec,
>)
    ensures
        r.deep_view() == type_named(types.deep_view(), name@),
{
    let ghost all = types.deep_view();
    let ghost p = |t: TypeModel| t.name == name@;
    let mut i: usize = 0;
    while i < types.len()
        invariant
            all == types.deep_view(),
            p == (|t: TypeModel| t.name == name@),
            0 <= i <= types@.len(),
            forall|j: int| 0 <= j < i ==> !p(#[trigger] all[j]),
        decreases types@.len() - i,
    {
        assert(all[i as int] == types@[i as int].deep_view());
        if text::text_eq(types[i].name.as_str(), name) {
            proof {
                seqs::first_where_at(all, p, i as int);
            }
            return Some(&types[i]);
        }
        i += 1;
    }
    proof {
        seqs::first_where_none(all, p);
    }
    None
}

fn find_relation_type<'a>(types: &'a Vec<RelationTypeSpec>, name: &str) -> (r: Option<
    &'a RelationTypeSpec,
>)
    ensures
        r.deep_view() == type_named(types.deep_view(), name@),
{
    let ghost all = types.deep_view();
    let ghost p = |t: TypeModel| t.name == name@;
    let mut i: usize = 0;
    while i < types.len()
        invariant
            all == types.deep_view(),
            p == (|t: TypeModel| t.name == name@),
            0 <= i <= types@.len(),
            forall|j: int| 0 <= j < i ==> !p(#[trigger] all[j]),
        decreases types@.len() - i,
    {
        assert(all[i as int] == types@[i as int].deep_view());
        if text::text_eq(types[i].name.as_str(), name) {
            proof {
                seqs::first_where_at(all, p, i as int);
            }
            return Some(&types[i]);
        }
        i += 1;
    }
    proof {
        seqs::first_where_none(all, p);
    }
    None
}

impl EntityTypeSpec {
    pub fn new(name: &str) -> (r: EntityTypeSpec)
        ensures
            r.deep_view() == (TypeModel { name: name@, description: None, properties: Seq::empty() }),
    {
        EntityTypeSpec { name: name.to_owned(), description: None, properties: seqs::no_items() }
    }

    pub fn with_description(name: &str, desc: &str) -> (r: EntityTypeSpec)
        ensures
            r.deep_view() == (TypeModel {
                name: name@,
                description: Some(desc@),
                properties: Seq::empty(),
            }),
    {
        EntityTypeSpec {
            name: name.to_owned(),
            description: Some(desc.to_owned()),
            properties: seqs::no_items(),
        }
    }

    /// The property of this name.
    pub fn property(&self, name: &str) -> (r: Option<&PropertySpec>)
        ensures
            r.deep_view() == property_named(self.deep_view().properties, name@),
    {
        find_property(&self.properties, name)
    }
}

impl RelationTypeSpec {
    pub fn new(name: &str) -> (r: RelationTypeSpec)
        ensures
            r.deep_view() == (TypeModel { name: name@, description: None, properties: Seq::empty() }),
    {
        RelationTypeSpec { name: name.to_owned(), description: None, properties: seqs::no_items() }
    }

    pub fn with_description(name: &str, desc: &str) -> (r: RelationTypeSpec)
        ensures
            r.deep_view() == (TypeModel {
                name: name@,
                description: Some(desc@),
                properties: Seq::empty(),
            }),
    {
        RelationTypeSpec {
            name: name.to_owned(),
            description: Some(desc.to_owned()),
            properties: seqs::no_items(),
        }
    }

    /// The property of this name.
    pub fn property(&self, name: &str) -> (r: Option<&PropertySpec>)
        ensures
            r.deep_view() == property_named(self.deep_view().properties, name@),
    {
        find_property(&self.properties, name)
    }
}

/// The types of one domain.
#[derive(Debug, PartialEq)]
pub struct DomainOntology {
    /// The key under which the catalog holds the domain.
    pub name: Option<String>,
    pub description: Option<String>,
    pub entity_types: Vec<EntityTypeSpec>,
    pub relation_types: Vec<RelationTypeSpec>,
}

pub struct DomainModel {
    pub name: Option<Seq<char>>,
    pub description: Option<Seq<char>>,
    pub entity_types: Seq<TypeModel>,
    pub relation_types: Seq<TypeModel>,
}

impl DeepView for DomainOntology {
    type V = DomainModel;

    open spec fn deep_view(&self) -> DomainModel {
        DomainModel {
            name: self.name.deep_view(),
            description: self.description.deep_view(),
            entity_types: self.entity_types.deep_view(),
            relation_types: self.relation_types.deep_view(),
        }
    }
}

impl Copied for DomainOntology {
    fn copied(&self) -> (r: Self) {
        DomainOntology {
            name: self.name.copied(),
            description: self.description.copied(),
            entity_types: self.entity_types.copied(),
            relation_types: self.relation_types.copied(),
        }
    }
}

/// The domain that declares nothing.
pub open spec fn empty_domain() -> DomainModel {
    DomainModel {
        name: None,
        description: None,
        entity_types: Seq::empty(),
        relation_types: Seq::empty(),
    }
}

/// The property of a type in a domain: entity types are asked first, then
/// relation types.
pub open spec fn domain_property(d: DomainModel, kind: Seq<char>, property: Seq<char>) -> Option<
    PropertySpecModel,
> {
    let of_entity = match type_named(d.entity_types, kind) {
        Some(t) => property_named(t.properties, property),
        None => None,
    };
    match of_entity {
        Some(p) => Some(p),
        None => match type_named(d.relation_types, kind) {
            Some(t) => property_named(t.properties, property),
            None => None,
        },
    }
}

/// The handler that filters on a property, where it needs one.
pub open spec fn query_type_of(p: Option<PropertySpecModel>) -> Option<Seq<char>> {
    match p {
        Some(p) => schema::query_handler_of(p.property_type),
        None => None,
    }
}

impl DomainOntology {
    /// The domain that declares nothing.
    pub fn empty() -> (r: DomainOntology)
        ensures
            r.deep_view() == empty_domain(),
    {
        DomainOntology {
            name: None,
            description: None,
            entity_types: seqs::no_items(),
            relation_types: seqs::no_items(),
        }
    }

    /// The key under which the catalog holds the domain.
    pub fn name(&self) -> (r: Option<&str>)
        ensures
            r.deep_view() == self.deep_view().name,
    {
        seqs::as_deref(&self.name)
    }

    pub fn get_entity(&self, name: &str) -> (r: Option<&EntityTypeSpec>)
        ensures
            r.deep_view() == type_named(self.deep_view().entity_types, name@),
    {
        find_entity_type(&self.entity_types, name)
    }

    /// The property of an entity type, else of a relation type.
    pub fn get_property(&self, entity: &str, property: &str) -> (r: Option<&PropertySpec>)
        ensures
            r.deep_view() == domain_property(self.deep_view(), entity@, property@),
    {
        if let Some(e) = self.get_entity(entity) {
            if let Some(p) = e.property(property) {
                return Some(p);
            }
        }
        match self.get_relation(entity) {
            Some(t) => t.property(property),
            None => None,
        }
    }

    pub fn get_relation(&self, name: &str) -> (r: Option<&RelationTypeSpec>)
        ensures
            r.deep_view() == type_named(self.deep_view().relation_types, name@),
    {
        find_relation_type(&self.relation_types, name)
    }

    /// The handler that filters on a property of the domain.
    pub fn get_query_type(&self, entity: &str, property: &str) -> (r: Option<&'static str>)
        ensures
            r.deep_view() == query_type_of(
                domain_property(self.deep_view(), entity@, property@),
            ),
    {
        match self.get_property(entity, property) {
            Some(p) => p.property_type.query_type_id(),
            None => None,
        }
    }
}

/// Domains by key.
#[derive(Debug, PartialEq)]
pub struct OntologyCatalog {
    pub domains: StrMap<DomainOntology>,
}

pub type CatalogModel = Seq<(Seq<char>, DomainModel)>;

impl DeepView for OntologyCatalog {
    type V = CatalogModel;

    open spec fn deep_view(&self) -> CatalogModel {
        self.domains.deep_view()
    }
}

impl Default for OntologyCatalog {
    fn default() -> (r: OntologyCatalog)
        ensures
            r.deep_view() == Seq::<(Seq<char>, DomainModel)>::empty(),
    {
        OntologyCatalog { domains: StrMap::new() }
    }
}

/// How many domains a selection returns unless told otherwise.
pub const DEFAULT_DOMAIN_SELECTION_TOP_K: usize = 3;

/// The first domain, in key order, that declares the entity type.
pub open spec fn catalog_entity(c: CatalogModel, name: Seq<char>) -> Option<(Seq<char>, TypeModel)>
    decreases c.len(),
{
    if c.len() == 0 {
        None
    } else {
        match type_named(c[0].1.entity_types, name) {
            Some(t) => Some((c[0].0, t)),
            None => catalog_entity(c.drop_first(), name),
        }
    }
}

/// The first domain, in key order, that declares the relation type.
pub open spec fn catalog_relation(c: CatalogModel, name: Seq<char>) -> Option<
    (Seq<char>, TypeModel),
>
    decreases c.len(),
{
    if c.len() == 0 {
        None
    } else {
        match type_named(c[0].1.relation_types, name) {
            Some(t) => Some((c[0].0, t)),
            None => catalog_relation(c.drop_first(), name),
        }
    }
}

/// The property of a type over all domains: the first entity type of the name
/// is asked, then the first relation type of the name.
pub open spec fn catalog_property(c: CatalogModel, kind: Seq<char>, property: Seq<char>) -> Option<
    PropertySpecModel,
> {
    let of_entity = match catalog_entity(c, kind) {
        Some((_, t)) => property_named(t.properties, property),
        None => None,
    };
    match of_entity {
        Some(p) => Some(p),
        None => match catalog_relation(c, kind) {
            Some((_, t)) => property_named(t.properties, property),
            None => None,
        },
    }
}

/// The domain under a key, or the empty one.
pub open spec fn domain_or_empty(c: CatalogModel, domain: Seq<char>) -> DomainModel {
    match strmap::assoc_get(c, domain) {
        Some(d) => d,
        None => empty_domain(),
    }
}

/// The domain under a key, or an empty one that the key names.
pub open spec fn domain_or_named(c: CatalogModel, domain: Seq<char>) -> DomainModel {
    match strmap::assoc_get(c, domain) {
        Some(d) => d,
        None => DomainModel { name: Some(domain), ..empty_domain() },
    }
}

/// Entity types with a description filled in where the type has none; a new
/// type where the name is unknown.
pub open spec fn described(types: Seq<TypeModel>, name: Seq<char>, description: Seq<char>) -> Seq<
    TypeModel,
>
    decreases types.len(),
{
    if types.len() == 0 {
        seq![TypeModel { name, description: Some(description), properties: Seq::empty() }]
    } else if types[0].name == name {
        let known = match types[0].description {
            Some(d) => d.len() > 0,
            None => false,
        };
        if known {
            types
        } else {
            seq![TypeModel { description: Some(description), ..types[0] }] + types.drop_first()
        }
    } else {
        seq![types[0]] + described(types.drop_first(), name, description)
    }
}

/// The types of other names.
pub open spec fn others(types: Seq<TypeModel>, name: Seq<char>) -> Seq<TypeModel>
    decreases types.len(),
{
    if types.len() == 0 {
        Seq::empty()
    } else if types.last().name == name {
        others(types.drop_last(), name)
    } else {
        others(types.drop_last(), name).push(types.last())
    }
}

/// Types with all of `incoming` put in, each in place of what had its name.
pub open spec fn types_merged(types: Seq<TypeModel>, incoming: Seq<TypeModel>) -> Seq<TypeModel>
    decreases incoming.len(),
{
    if incoming.len() == 0 {
        types
    } else {
        others(types_merged(types, incoming.drop_last()), incoming.last().name).push(
            incoming.last(),
        )
    }
}

/// A domain with another merged in: what comes in wins.
pub open spec fn domain_merged(target: DomainModel, key: Seq<char>, incoming: DomainModel) ->
    DomainModel {
    DomainModel {
        name: Some(key),
        description: incoming.description,
        entity_types: types_merged(target.entity_types, incoming.entity_types),
        relation_types: types_merged(target.relation_types, incoming.relation_types),
    }
}

/// A catalog with another merged in.
pub open spec fn catalog_merged(c: CatalogModel, other: CatalogModel) -> CatalogModel
    decreases other.len(),
{
    if other.len() == 0 {
        c
    } else {
        let before = catalog_merged(c, other.drop_last());
        let (key, incoming) = other.last();
        strmap::assoc_insert(
            before,
            key,
            domain_merged(domain_or_empty(before, key), key, incoming),
        )
    }
}

proof fn others_lacks(types: Seq<TypeModel>, name: Seq<char>)
    ensures
        forall|i: int|
            0 <= i < others(types, name).len() ==> (#[trigger] others(types, name)[i]).name != name,
        forall|i: int|
            0 <= i < others(types, name).len() ==> types.contains(
                #[trigger] others(types, name)[i],
            ),
    decreases types.len(),
{
    if types.len() > 0 {
        let rest = types.drop_last();
        others_lacks(rest, name);
        let o = others(types, name);
        let r = others(rest, name);
        assert forall|i: int| 0 <= i < o.len() implies (#[trigger] o[i]).name != name
            && types.contains(o[i]) by {
            if i < r.len() {
                assert(o[i] == r[i]);
                assert(rest.contains(r[i]));
                let k = choose|k: int| 0 <= k < rest.len() && rest[k] == r[i];
                assert(types[k] == o[i]);
            } else {
                assert(types[types.len() - 1] == o[i]);
            }
        }
    }
}

/// After a merge every incoming type is declared as it came in, where no later
/// incoming type has its name.
pub proof fn law_merged_types_win(types: Seq<TypeModel>, incoming: Seq<TypeModel>)
    requires
        incoming.len() > 0,
    ensures
        type_named(types_merged(types, incoming), incoming.last().name) == Some(incoming.last()),
{
    let name = incoming.last().name;
    let o = others(types_merged(types, incoming.drop_last()), name);
    let m = types_merged(types, incoming);
    let p = |t: TypeModel| t.name == name;
    others_lacks(types_merged(types, incoming.drop_last()), name);
    assert forall|j: int| 0 <= j < o.len() implies !p(#[trigger] m[j]) by {
        assert(m[j] == o[j]);
    }
    seqs::first_where_at(m, p, o.len() as int);
}

fn other_entity_types(types: Vec<EntityTypeSpec>, name: &str) -> (r: Vec<EntityTypeSpec>)
    ensures
        r.deep_view() == others(types.deep_view(), name@),
{
    let ghost all = types.deep_view();
    let mut types = types;
    let mut out: Vec<EntityTypeSpec> = seqs::no_items();
    let ghost mut k: int = 0;
    while types.len() > 0
        invariant
            0 <= k <= all.len(),
            types@.len() == all.len() - k,
            types.deep_view() == all.skip(k),
            out.deep_view() == others(all.take(k), name@),
        decreases types@.len(),
    {
        let ghost rest = types.deep_view();
        assert(rest[0] == all[k]);
        let t = types.remove(0);
        proof {
            assert(types.deep_view() =~= rest.remove(0));
            assert(types.deep_view() =~= all.skip(k + 1));
            assert(all.take(k + 1).drop_last() =~= all.take(k));
            assert(all.take(k + 1).last() == t.deep_view());
            k = k + 1;
        }
        if !text::text_eq(t.name.as_str(), name) {
            seqs::push_item(&mut out, t);
        }
    }
    assert(all.take(k) =~= all);
    out
}

fn other_relation_types(types: Vec<RelationTypeSpec>, name: &str) -> (r: Vec<RelationTypeSpec>)
    ensures
        r.deep_view() == others(types.deep_view(), name@),
{
    let ghost all = types.deep_view();
    let mut types = types;
    let mut out: Vec<RelationTypeSpec> = seqs::no_items();
    let ghost mut k: int = 0;
    while types.len() > 0
        invariant
            0 <= k <= all.len(),
            types@.len() == all.len() - k,
            types.deep_view() == all.skip(k),
            out.deep_view() == others(all.take(k), name@),
        decreases types@.len(),
    {
        let ghost rest = types.deep_view();
        assert(rest[0] == all[k]);
        let t = types.remove(0);
        proof {
            assert(types.deep_view() =~= rest.remove(0));
            assert(types.deep_view() =~= all.skip(k + 1));
            assert(all.take(k + 1).drop_last() =~= all.take(k));
            assert(all.take(k + 1).last() == t.deep_view());
            k = k + 1;
        }
        if !text::text_eq(t.name.as_str(), name) {
            seqs::push_item(&mut out, t);
        }
    }
    assert(all.take(k) =~= all);
    out
}

fn merge_domain(target: DomainOntology, key: &str, incoming: &DomainOntology) -> (r:
    DomainOntology)
    ensures
        r.deep_view() == domain_merged(target.deep_view(), key@, incoming.deep_view()),
{
    let ghost (tm, im) = (target.deep_view(), incoming.deep_view());
    let mut entity_types = target.entity_types;
    let mut i: usize = 0;
    assert(im.entity_types.take(0) =~= Seq::<TypeModel>::empty());
    while i < incoming.entity_types.len()
        invariant
            im == incoming.deep_view(),
            0 <= i <= incoming.entity_types@.len(),
            entity_types.deep_view() == types_merged(
                tm.entity_types,
                im.entity_types.take(i as int),
            ),
        decreases incoming.entity_types@.len() - i,
    {
        proof {
            assert(im.entity_types.take(i + 1).drop_last() =~= im.entity_types.take(i as int));
            assert(im.entity_types.take(i + 1).last()
                == incoming.entity_types@[i as int].deep_view());
        }
        let t = &incoming.entity_types[i];
        entity_types = other_entity_types(entity_types, t.name.as_str());
        seqs::push_item(&mut entity_types, t.copied());
        i += 1;
    }
    assert(im.entity_types.take(i as int) =~= im.entity_types);
    let mut relation_types = target.relation_types;
    let mut j: usize = 0;
    assert(im.relation_types.take(0) =~= Seq::<TypeModel>::empty());
    while j < incoming.relation_types.len()
        invariant
            im == incoming.deep_view(),
            0 <= j <= incoming.relation_types@.len(),
            relation_types.deep_view() == types_merged(
                tm.relation_types,
                im.relation_types.take(j as int),
            ),
        decreases incoming.relation_types@.len() - j,
    {
        proof {
            assert(im.relation_types.take(j + 1).drop_last() =~= im.relation_types.take(j as int));
            assert(im.relation_types.take(j + 1).last()
                == incoming.relation_types@[j as int].deep_view());
        }
        let t = &incoming.relation_types[j];
        relation_types = other_relation_types(relation_types, t.name.as_str());
        seqs::push_item(&mut relation_types, t.copied());
        j += 1;
    }
    assert(im.relation_types.take(j as int) =~= im.relation_types);
    DomainOntology {
        name: Some(key.to_owned()),
        description: incoming.description.copied(),
        entity_types,
        relation_types,
    }
}

fn describe(types: Vec<EntityTypeSpec>, name: &str, description: &str) -> (r: Vec<EntityTypeSpec>)
    ensures
        r.deep_view() == described(types.deep_view(), name@, description@),
{
    let ghost all = types.deep_view();
    let mut out = types;
    let mut i: usize = 0;
    assert(all.skip(0) =~= all);
    assert(all.take(0) + described(all.skip(0), name@, description@) =~= described(
        all,
        name@,
        description@,
    ));
    while i < out.len()
        invariant
            all == types.deep_view(),
            all == out.deep_view(),
            0 <= i <= out@.len(),
            described(all, name@, description@) == all.take(i as int) + described(
                all.skip(i as int),
                name@,
                description@,
            ),
        decreases out@.len() - i,
    {
        let ghost rest = all.skip(i as int);
        assert(rest[0] == out@[i as int].deep_view());
        if text::text_eq(out[i].name.as_str(), name) {
            let known = match &out[i].description {
                Some(d) => !d.as_str().is_empty(),
                None => false,
            };
            if known {
                assert(out.deep_view() =~= all.take(i as int) + rest);
                return out;
            }
            let t = out.remove(i);
            assert(out.deep_view() =~= all.remove(i as int));
            let filled = EntityTypeSpec {
                name: t.name,
                description: Some(description.to_owned()),
                properties: t.properties,
            };
            out.insert(i, filled);
            assert(out.deep_view() =~= all.take(i as int) + described(rest, name@, description@));
            return out;
        }
        proof {
            assert(rest.drop_first() =~= all.skip(i + 1));
            assert(all.take(i as int) + (seq![rest[0]] + described(
                rest.drop_first(),
                name@,
                description@,
            )) =~= all.take(i + 1) + described(all.skip(i + 1), name@, description@));
        }
        i += 1;
    }
    assert(all.take(i as int) =~= all);
    seqs::push_item(&mut out, EntityTypeSpec::with_description(name, description));
    assert(out.deep_view() =~= all + described(all.skip(i as int), name@, description@));
    out
}

/// The legal domain that every workspace starts from.
pub open spec fn legal_domain() -> DomainModel {
    DomainModel {
        name: Some("legal"@),
        description: None,
        entity_types: seq![
            TypeModel { name: "LegalNorm"@, description: None, properties: Seq::empty() },
            TypeModel { name: "StateBody"@, description: None, properties: Seq::empty() },
        ],
        relation_types: seq![
            TypeModel { name: "GRANTS"@, description: None, properties: Seq::empty() },
            TypeModel { name: "APPLIES_TO"@, description: None, properties: Seq::empty() },
        ],
    }
}

/// The catalog with every domain named by its key.
pub open spec fn hydrated(c: CatalogModel) -> CatalogModel {
    c.map_values(
        |e: (Seq<char>, DomainModel)| (e.0, DomainModel { name: Some(e.0), ..e.1 }),
    )
}

/// A hydrated catalog holds what the catalog held, each domain under its name.
pub proof fn law_hydrated_domains_are_named(c: CatalogModel, domain: Seq<char>)
    ensures
        strmap::assoc_get(hydrated(c), domain) == (match strmap::assoc_get(c, domain) {
            Some(d) => Some(DomainModel { name: Some(domain), ..d }),
            None => None,
        }),
        hydrated(hydrated(c)) == hydrated(c),
    decreases c.len(),
{
    if c.len() > 0 {
        law_hydrated_domains_are_named(c.drop_first(), domain);
        assert(hydrated(c).drop_first() =~= hydrated(c.drop_first()));
    }
    assert(hydrated(hydrated(c)) =~= hydrated(c));
}

impl OntologyCatalog {
    /// The catalog without domains.
    pub fn new() -> (r: OntologyCatalog)
        ensures
            r.deep_view() == Seq::<(Seq<char>, DomainModel)>::empty(),
    {
        OntologyCatalog { domains: StrMap::new() }
    }

    /// The catalog that every workspace starts from. This is the least of it: the
    /// legal domain with two entity types and two relation types, none of them
    /// described. A fuller catalog is loaded from storage.
    pub fn builtin() -> (r: OntologyCatalog)
        ensures
            r.deep_view() == seq![("legal"@, legal_domain())],
    {
        let mut c = OntologyCatalog::new();
        let mut entity_types: Vec<EntityTypeSpec> = seqs::no_items();
        seqs::push_item(&mut entity_types, EntityTypeSpec::new("LegalNorm"));
        seqs::push_item(&mut entity_types, EntityTypeSpec::new("StateBody"));
        let mut relation_types: Vec<RelationTypeSpec> = seqs::no_items();
        seqs::push_item(&mut relation_types, RelationTypeSpec::new("GRANTS"));
        seqs::push_item(&mut relation_types, RelationTypeSpec::new("APPLIES_TO"));
        assert(entity_types.deep_view() =~= legal_domain().entity_types);
        assert(relation_types.deep_view() =~= legal_domain().relation_types);
        c.insert(
            "legal",
            DomainOntology {
                name: None,
                description: None,
                entity_types,
                relation_types,
            },
        );
        c
    }

    pub fn get(&self, domain: &str) -> (r: Option<&DomainOntology>)
        ensures
            r.deep_view() == strmap::assoc_get(self.deep_view(), domain@),
    {
        self.domains.get(domain)
    }

    /// The keys of the domains, in order.
    pub fn domains(&self) -> (r: Vec<&str>)
        ensures
            r.deep_view() == self.deep_view().map_values(|e: (Seq<char>, DomainModel)| e.0),
    {
        let ghost keys = self.deep_view().map_values(|e: (Seq<char>, DomainModel)| e.0);
        let mut out: Vec<&str> = Vec::new();
        let mut i: usize = 0;
        while i < self.domains.entries.len()
            invariant
                keys == self.deep_view().map_values(|e: (Seq<char>, DomainModel)| e.0),
                0 <= i <= self.domains.entries@.len(),
                out.deep_view() == keys.take(i as int),
            decreases self.domains.entries@.len() - i,
        {
            let ghost before = out.deep_view();
            out.push(self.domains.entries[i].0.as_str());
            assert(out.deep_view() =~= before.push(keys[i as int]));
            i += 1;
            assert(out.deep_view() =~= keys.take(i as int));
        }
        assert(out.deep_view() =~= keys);
        out
    }

    /// Put a domain under a key, which becomes its name.
    pub fn insert(&mut self, domain: &str, ontology: DomainOntology)
        ensures
            final(self).deep_view() == strmap::assoc_insert(
                old(self).deep_view(),
                domain@,
                DomainModel { name: Some(domain@), ..ontology.deep_view() },
            ),
    {
        let mut ontology = ontology;
        ontology.name = Some(domain.to_owned());
        self.domains.insert(domain.to_owned(), ontology);
    }

    pub fn is_empty(&self) -> (r: bool)
        ensures
            r == (self.deep_view().len() == 0),
    {
        self.domains.len() == 0
    }

    /// The domains by key.
    pub fn domains_view(&self) -> (r: &StrMap<DomainOntology>)
        ensures
            r.deep_view() == self.deep_view(),
    {
        &self.domains
    }

    /// All domains, in key order.
    pub fn all_domains(&self) -> (r: Vec<&DomainOntology>)
        ensures
            r.deep_view() == self.deep_view().map_values(|e: (Seq<char>, DomainModel)| e.1),
    {
        let ghost all = self.deep_view().map_values(|e: (Seq<char>, DomainModel)| e.1);
        let mut out: Vec<&DomainOntology> = Vec::new();
        let mut i: usize = 0;
        while i < self.domains.entries.len()
            invariant
                all == self.deep_view().map_values(|e: (Seq<char>, DomainModel)| e.1),
                0 <= i <= self.domains.entries@.len(),
                out.deep_view() == all.take(i as int),
            decreases self.domains.entries@.len() - i,
        {
            let ghost before = out.deep_view();
            out.push(&self.domains.entries[i].1);
            assert(out.deep_view() =~= before.push(all[i as int]));
            i += 1;
            assert(out.deep_view() =~= all.take(i as int));
        }
        assert(out.deep_view() =~= all);
        out
    }

    /// Name every domain by its key.
    pub fn hydrate_domain_names(&mut self)
        ensures
            final(self).deep_view() == hydrated(old(self).deep_view()),
    {
        let ghost all = self.deep_view();
        let ghost goal = hydrated(all);
        let mut out: Vec<(String, DomainOntology)> = Vec::new();
        let mut i: usize = 0;
        while i < self.domains.entries.len()
            invariant
                all == self.deep_view(),
                goal == hydrated(all),
                0 <= i <= self.domains.entries@.len(),
                out.deep_view() == goal.take(i as int),
            decreases self.domains.entries@.len() - i,
        {
            let (key, d) = &self.domains.entries[i];
            assert(all[i as int] == self.domains.entries@[i as int].deep_view());
            let named = DomainOntology {
                name: Some(key.clone()),
                description: d.description.copied(),
                entity_types: d.entity_types.copied(),
                relation_types: d.relation_types.copied(),
            };
            let ghost before = out.deep_view();
            out.push((key.clone(), named));
            assert(out.deep_view() =~= before.push(goal[i as int]));
            i += 1;
            assert(out.deep_view() =~= goal.take(i as int));
        }
        assert(out.deep_view() =~= goal);
        self.domains = StrMap { entries: out };
    }

    /// The entity type of a name in one domain.
    pub fn get_entity_in(&self, domain: &str, name: &str) -> (r: Option<&EntityTypeSpec>)
        ensures
            r.deep_view() == (match strmap::assoc_get(self.deep_view(), domain@) {
                Some(d) => type_named(d.entity_types, name@),
                None => None,
            }),
    {
        match self.domains.get(domain) {
            Some(d) => d.get_entity(name),
            None => None,
        }
    }

    /// The first entity type of a name over all domains, with its domain.
    pub fn get_entity(&self, name: &str) -> (r: Option<(&str, &EntityTypeSpec)>)
        ensures
            r.deep_view() == catalog_entity(self.deep_view(), name@),
    {
        let ghost all = self.deep_view();
        let mut i: usize = 0;
        assert(all.skip(0) =~= all);
        while i < self.domains.entries.len()
            invariant
                all == self.deep_view(),
                0 <= i <= self.domains.entries@.len(),
                catalog_entity(all, name@) == catalog_entity(all.skip(i as int), name@),
            decreases self.domains.entries@.len() - i,
        {
            proof {
                assert(all.skip(i as int)[0] == self.domains.entries@[i as int].deep_view());
                assert(all.skip(i as int).drop_first() =~= all.skip(i + 1));
            }
            if let Some(t) = self.domains.entries[i].1.get_entity(name) {
                return Some((self.domains.entries[i].0.as_str(), t));
            }
            i += 1;
        }
        None
    }

    /// The property of a type in one domain.
    pub fn get_property_in(&self, domain: &str, entity: &str, property: &str) -> (r: Option<
        &PropertySpec,
    >)
        ensures
            r.deep_view() == (match strmap::assoc_get(self.deep_view(), domain@) {
                Some(d) => domain_property(d, entity@, property@),
                None => None,
            }),
    {
        match self.domains.get(domain) {
            Some(d) => d.get_property(entity, property),
            None => None,
        }
    }

    /// The property of a type over all domains.
    pub fn get_property(&self, entity: &str, property: &str) -> (r: Option<&PropertySpec>)
        ensures
            r.deep_view() == catalog_property(self.deep_view(), entity@, property@),
    {
        if let Some((_, t)) = self.get_entity(entity) {
            if let Some(p) = t.property(property) {
                return Some(p);
            }
        }
        match self.get_relation(entity) {
            Some((_, t)) => t.property(property),
            None => None,
        }
    }

    /// The relation type of a name in one domain.
    pub fn get_relation_in(&self, domain: &str, name: &str) -> (r: Option<&RelationTypeSpec>)
        ensures
            r.deep_view() == (match strmap::assoc_get(self.deep_view(), domain@) {
                Some(d) => type_named(d.relation_types, name@),
                None => None,
            }),
    {
        match self.domains.get(domain) {
            Some(d) => d.get_relation(name),
            None => None,
        }
    }

    /// The first relation type of a name over all domains, with its domain.
    pub fn get_relation(&self, name: &str) -> (r: Option<(&str, &RelationTypeSpec)>)
        ensures
            r.deep_view() == catalog_relation(self.deep_view(), name@),
    {
        let ghost all = self.deep_view();
        let mut i: usize = 0;
        assert(all.skip(0) =~= all);
        while i < self.domains.entries.len()
            invariant
                all == self.deep_view(),
                0 <= i <= self.domains.entries@.len(),
                catalog_relation(all, name@) == catalog_relation(all.skip(i as int), name@),
            decreases self.domains.entries@.len() - i,
        {
            proof {
                assert(all.skip(i as int)[0] == self.domains.entries@[i as int].deep_view());
                assert(all.skip(i as int).drop_first() =~= all.skip(i + 1));
            }
            if let Some(t) = self.domains.entries[i].1.get_relation(name) {
                return Some((self.domains.entries[i].0.as_str(), t));
            }
            i += 1;
        }
        None
    }

    /// The handler that filters on a property.
    pub fn get_query_type(&self, entity: &str, property: &str) -> (r: Option<&'static str>)
        ensures
            r.deep_view() == query_type_of(
                catalog_property(self.deep_view(), entity@, property@),
            ),
    {
        match self.get_property(entity, property) {
            Some(p) => p.property_type.query_type_id(),
            None => None,
        }
    }

    /// Describe an entity type, unless it is described already; the domain, under
    /// its name, and the type are made where they are missing.
    pub fn insert_entity_description(&mut self, domain: &str, name: &str, description: &str)
        ensures
            ({
                let d = domain_or_named(old(self).deep_view(), domain@);
                final(self).deep_view() == strmap::assoc_insert(
                    old(self).deep_view(),
                    domain@,
                    DomainModel {
                        entity_types: described(d.entity_types, name@, description@),
                        ..d
                    },
                )
            }),
    {
        let d = match self.domains.get(domain) {
            Some(d) => d.copied(),
            None => DomainOntology {
                name: Some(domain.to_owned()),
                description: None,
                entity_types: seqs::no_items(),
                relation_types: seqs::no_items(),
            },
        };
        let filled = DomainOntology {
            name: d.name,
            description: d.description,
            entity_types: describe(d.entity_types, name, description),
            relation_types: d.relation_types,
        };
        self.domains.insert(domain.to_owned(), filled);
    }

    /// Merge another catalog in: for each type of a domain, what comes in wins.
    pub fn merge(&mut self, other: &OntologyCatalog)
        ensures
            final(self).deep_view() == catalog_merged(old(self).deep_view(), other.deep_view()),
    {
        let ghost start = self.deep_view();
        let ghost all = other.deep_view();
        let mut i: usize = 0;
        assert(all.take(0) =~= Seq::<(Seq<char>, DomainModel)>::empty());
        while i < other.domains.entries.len()
            invariant
                all == other.deep_view(),
                start == old(self).deep_view(),
                0 <= i <= other.domains.entries@.len(),
                self.deep_view() == catalog_merged(start, all.take(i as int)),
            decreases other.domains.entries@.len() - i,
        {
            proof {
                assert(all.take(i + 1).drop_last() =~= all.take(i as int));
                assert(all.take(i + 1).last() == other.domains.entries@[i as int].deep_view());
            }
            let (key, incoming) = &other.domains.entries[i];
            let target = match self.domains.get(key.as_str()) {
                Some(d) => d.copied(),
                None => DomainOntology::empty(),
            };
            self.domains.insert(key.clone(), merge_domain(target, key.as_str(), incoming));
            i += 1;
        }
        assert(all.take(i as int) =~= all);
    }
}

} // verus!
