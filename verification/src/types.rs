//! Type handlers: how a property value is stored on a node, and what else its
//! ingestion sets off.

use vstd::prelude::*;
use crate::json::Json;
use crate::json::JsonModel;
use crate::literal::copy_literal;
use crate::literal::Literal;
use crate::literal::LiteralModel;
use crate::text;

verus! {

broadcast use vstd::string::group_string_axioms;

/// One property value on its way into the graph.
pub struct IngestInput<'a> {
    pub label: &'a str,
    pub key_field: &'a str,
    pub key_value: &'a Literal,
    pub field: &'a str,
    pub value: &'a Json,
    pub prefix_index: Option<&'a str>,
}

pub struct IngestInputModel {
    pub label: Seq<char>,
    pub key_field: Seq<char>,
    pub key_value: LiteralModel,
    pub field: Seq<char>,
    pub value: JsonModel,
    pub prefix_index: Option<Seq<char>>,
}

impl<'a> DeepView for IngestInput<'a> {
    type V = IngestInputModel;

    open spec fn deep_view(&self) -> IngestInputModel {
        IngestInputModel {
            label: self.label@,
            key_field: self.key_field@,
            key_value: self.key_value.deep_view(),
            field: self.field@,
            value: self.value.deep_view(),
            prefix_index: self.prefix_index.deep_view(),
        }
    }
}

/// Work left to do once the rows are stored.
#[derive(Debug, PartialEq)]
pub enum SideEffect {
    /// Embed `text` and store the vector in `collection` for the node that
    /// `key_field` identifies by `key_value`.
    EmbedAndStore {
        collection: String,
        label: String,
        key_field: String,
        key_value: Literal,
        text: String,
    },
}

pub enum SideEffectModel {
    EmbedAndStore {
        collection: Seq<char>,
        label: Seq<char>,
        key_field: Seq<char>,
        key_value: LiteralModel,
        text: Seq<char>,
    },
}

impl DeepView for SideEffect {
    type V = SideEffectModel;

    open spec fn deep_view(&self) -> SideEffectModel {
        match self {
            SideEffect::EmbedAndStore { collection, label, key_field, key_value, text } =>
                SideEffectModel::EmbedAndStore {
                collection: collection@,
                label: label@,
                key_field: key_field@,
                key_value: key_value.deep_view(),
                text: text@,
            },
        }
    }
}

/// What a handler decides about the stored value.
#[derive(Debug, PartialEq)]
pub enum Stored {
    /// The value is stored as its declared type says.
    Untouched,
    /// This literal is stored instead.
    Replaced(Literal),
    /// Nothing is stored.
    Skipped,
}

pub enum StoredModel {
    Untouched,
    Replaced(LiteralModel),
    Skipped,
}

impl DeepView for Stored {
    type V = StoredModel;

    open spec fn deep_view(&self) -> StoredModel {
        match self {
            Stored::Untouched => StoredModel::Untouched,
            Stored::Replaced(x) => StoredModel::Replaced(x.deep_view()),
            Stored::Skipped => StoredModel::Skipped,
        }
    }
}

/// What a handler makes of a value.
#[derive(Debug, PartialEq)]
pub struct Lowered {
    pub stored: Stored,
    pub effects: Vec<SideEffect>,
}

pub struct LoweredModel {
    pub stored: StoredModel,
    pub effects: Seq<SideEffectModel>,
}

impl DeepView for Lowered {
    type V = LoweredModel;

    open spec fn deep_view(&self) -> LoweredModel {
        LoweredModel { stored: self.stored.deep_view(), effects: self.effects.deep_view() }
    }
}

/// A handler's answer by its model.
pub open spec fn answer_model(r: Result<Lowered, String>) -> Result<LoweredModel, Seq<char>> {
    match r {
        Ok(x) => Ok(x.deep_view()),
        Err(e) => Err(e@),
    }
}

/// The type handlers that ingestion consults, by type id.
pub trait TypeRegistry {
    /// Is a handler registered under `type_id`?
    spec fn registered(&self, type_id: Seq<char>) -> bool;

    /// What the handler under `type_id` answers.
    spec fn answer(&self, type_id: Seq<char>, input: IngestInputModel) -> Result<
        LoweredModel,
        Seq<char>,
    >;

    fn contains(&self, type_id: &str) -> (r: bool)
        ensures
            r == self.registered(type_id@),
    ;

    fn on_ingest(&self, type_id: &str, input: &IngestInput) -> (r: Result<Lowered, String>)
        requires
            self.registered(type_id@),
        ensures
            answer_model(r) == self.answer(type_id@, input.deep_view()),
    ;
}

/// The type id of texts that are embedded for semantic search.
pub const SEMANTIC_TEXT: &'static str = "SemanticText";

/// The collection that holds the vectors of one field, under an index prefix if
/// there is one. An empty prefix is none.
pub open spec fn field_collection(
    prefix: Option<Seq<char>>,
    base: Seq<char>,
    field: Seq<char>,
) -> Seq<char> {
    match prefix {
        Some(p) => if p.len() > 0 {
            p + "__"@ + base + "__"@ + field
        } else {
            base + "__"@ + field
        },
        None => base + "__"@ + field,
    }
}

/// The name of the collection that holds the vectors of `field`.
pub fn collection_for(prefix: Option<&str>, base: &str, field: &str) -> (r: String)
    ensures
        r@ == field_collection(prefix.deep_view(), base@, field@),
{
    if let Some(p) = prefix {
        if !text::is_empty_text(p) {
            let mut s = p.to_owned();
            s.append("__");
            s.append(base);
            s.append("__");
            s.append(field);
            return s;
        }
    }
    let mut s = base.to_owned();
    s.append("__");
    s.append(field);
    s
}

/// The handlers of the built-in types. The scalar types store a value as it is
/// declared; `SemanticText`, where it is configured, also has string values
/// embedded.
#[derive(Debug, PartialEq)]
pub struct BuiltinRegistry {
    /// Base name of the vector collections, where `SemanticText` is registered.
    pub semantic_collection: Option<String>,
}

/// The ids of the scalar types.
pub open spec fn is_scalar_type(id: Seq<char>) -> bool {
    id == "Keyword"@ || id == "Number"@ || id == "Boolean"@ || id == "Timestamp"@ || id == "List"@
}

impl TypeRegistry for BuiltinRegistry {
    open spec fn registered(&self, type_id: Seq<char>) -> bool {
        is_scalar_type(type_id) || (type_id == SEMANTIC_TEXT@ && self.semantic_collection is Some)
    }

    open spec fn answer(&self, type_id: Seq<char>, input: IngestInputModel) -> Result<
        LoweredModel,
        Seq<char>,
    > {
        let effects = if type_id == SEMANTIC_TEXT@ && self.semantic_collection is Some {
            match input.value {
                JsonModel::Str(s) => seq![
                    SideEffectModel::EmbedAndStore {
                        collection: field_collection(
                            input.prefix_index,
                            self.semantic_collection->0@,
                            input.field,
                        ),
                        label: input.label,
                        key_field: input.key_field,
                        key_value: input.key_value,
                        text: s,
                    },
                ],
                _ => Seq::empty(),
            }
        } else {
            Seq::empty()
        };
        Ok(LoweredModel { stored: StoredModel::Untouched, effects })
    }

    fn contains(&self, type_id: &str) -> (r: bool) {
        text::text_eq(type_id, "Keyword") || text::text_eq(type_id, "Number") || text::text_eq(
            type_id,
            "Boolean",
        ) || text::text_eq(type_id, "Timestamp") || text::text_eq(type_id, "List") || (
        text::text_eq(type_id, SEMANTIC_TEXT) && self.semantic_collection.is_some())
    }

    fn on_ingest(&self, type_id: &str, input: &IngestInput) -> (r: Result<Lowered, String>) {
        let mut effects: Vec<SideEffect> = Vec::new();
        assert(effects.deep_view() =~= Seq::<SideEffectModel>::empty());
        if text::text_eq(type_id, SEMANTIC_TEXT) {
            if let Some(base) = &self.semantic_collection {
                if let Json::Str(s) = input.value {
                    let effect = SideEffect::EmbedAndStore {
                        collection: collection_for(input.prefix_index, base.as_str(), input.field),
                        label: input.label.to_owned(),
                        key_field: input.key_field.to_owned(),
                        key_value: copy_literal(input.key_value),
                        text: s.clone(),
                    };
                    let ghost model = effect.deep_view();
                    effects.push(effect);
                    assert(effects.deep_view() =~= seq![model]);
                }
            }
        }
        Ok(Lowered { stored: Stored::Untouched, effects })
    }
}

/// The built-in handlers leave every value as its type reads it. A text of the semantic type,
/// and nothing else, is embedded: once, for its own node, in the collection of its field.
pub proof fn law_builtin_handlers_embed_texts(
    registry: BuiltinRegistry,
    type_id: Seq<char>,
    input: IngestInputModel,
)
    ensures
        ({
            let r = registry.answer(type_id, input);
            let embeds = type_id == "SemanticText"@ && registry.semantic_collection is Some
                && input.value is Str;
            &&& r is Ok && r->Ok_0.stored is Untouched
            &&& embeds <==> r->Ok_0.effects.len() > 0
            &&& embeds ==> r->Ok_0.effects.len() == 1 && match r->Ok_0.effects[0] {
                SideEffectModel::EmbedAndStore { collection, label, key_field, key_value, text } =>
                    label == input.label && key_field == input.key_field && key_value
                    == input.key_value && text == input.value->Str_0 && collection == (
                match input.prefix_index {
                    Some(p) => if p.len() > 0 {
                        p + "__"@
                    } else {
                        Seq::empty()
                    },
                    None => Seq::empty(),
                }) + registry.semantic_collection->0@ + "__"@ + input.field,
            }
        }),
        registry.registered("Keyword"@) && registry.registered("Number"@) && registry.registered(
            "Boolean"@,
        ) && registry.registered("Timestamp"@) && registry.registered("List"@),
        registry.registered("SemanticText"@) <==> registry.semantic_collection is Some,
{
    reveal_strlit("SemanticText");
    reveal_strlit("Keyword");
    reveal_strlit("Number");
    reveal_strlit("Boolean");
    reveal_strlit("Timestamp");
    reveal_strlit("List");
    assert("SemanticText"@.len() == 12 && "Keyword"@.len() == 7 && "Number"@.len() == 6
        && "Boolean"@.len() == 7 && "Timestamp"@.len() == 9 && "List"@.len() == 4);
    if registry.semantic_collection is Some {
        let base = registry.semantic_collection->0@;
        assert(Seq::<char>::empty() + base + "__"@ + input.field =~= base + "__"@ + input.field);
    }
}

/// Under one prefix and one name, each field has a collection of its own. A prefix that is empty
/// is as good as none.
pub proof fn law_fields_have_their_own_collections(
    prefix: Option<Seq<char>>,
    base: Seq<char>,
    a: Seq<char>,
    b: Seq<char>,
)
    ensures
        field_collection(prefix, base, a) == field_collection(prefix, base, b) <==> a == b,
        text::has_suffix(field_collection(prefix, base, a), base + "__"@ + a),
        prefix is Some ==> text::has_prefix(field_collection(prefix, base, a), prefix->0),
        field_collection(Some(Seq::empty()), base, a) == field_collection(None, base, a),
{
    let x = field_collection(prefix, base, a);
    let y = field_collection(prefix, base, b);
    if x == y {
        assert(x.len() == y.len());
        assert(a =~= x.skip(x.len() - a.len()));
        assert(b =~= y.skip(y.len() - b.len()));
    }
    let tail = base + "__"@ + a;
    assert(x.subrange(x.len() - tail.len(), x.len() as int) =~= tail);
    if prefix is Some {
        assert(x.subrange(0, prefix->0.len() as int) =~= prefix->0);
    }
}

} // verus!
