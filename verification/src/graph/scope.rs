//! Origin of an entity: the kind of source it was extracted from.

use vstd::prelude::*;
use crate::seqs;
use crate::text;

verus! {

broadcast use vstd::string::group_string_axioms;

/// The kind of source an entity comes from.
#[derive(Debug, Clone, Copy, PartialEq, Eq, Hash, PartialOrd, Ord, Structural)]
pub enum Scope {
    /// Free-form text.
    Text,
    /// Tables.
    Table,
    /// JSON, databases or other structured input.
    Structured,
}

/// The label that stands for a scope on a node.
pub open spec fn scope_label(s: Scope) -> Seq<char> {
    match s {
        Scope::Text => "scope_text"@,
        Scope::Table => "scope_table"@,
        Scope::Structured => "scope_structured"@,
    }
}

/// The scope that a label stands for.
pub open spec fn scope_of(label: Seq<char>) -> Option<Scope> {
    if label == "scope_text"@ {
        Some(Scope::Text)
    } else if label == "scope_table"@ {
        Some(Scope::Table)
    } else if label == "scope_structured"@ {
        Some(Scope::Structured)
    } else {
        None
    }
}

impl Scope {
    /// The label that stands for this scope on a node.
    pub fn cypher_label(self) -> (r: &'static str)
        ensures
            r@ == scope_label(self),
    {
        match self {
            Scope::Text => "scope_text",
            Scope::Table => "scope_table",
            Scope::Structured => "scope_structured",
        }
    }

    /// The scope that a label stands for, if it is one of the scope labels.
    pub fn from_cypher_label(label: &str) -> (r: Option<Scope>)
        ensures
            r == scope_of(label@),
    {
        if text::text_eq(label, "scope_text") {
            Some(Scope::Text)
        } else if text::text_eq(label, "scope_table") {
            Some(Scope::Table)
        } else if text::text_eq(label, "scope_structured") {
            Some(Scope::Structured)
        } else {
            None
        }
    }
}

/// Reading a scope's label gives the scope back.
pub proof fn law_label_names_its_scope(s: Scope)
    ensures
        scope_of(scope_label(s)) == Some(s),
{
    reveal_strlit("scope_text");
    reveal_strlit("scope_table");
    reveal_strlit("scope_structured");
    assert("scope_table"@.len() == 11);
    assert("scope_text"@.len() == 10);
    assert("scope_structured"@.len() == 16);
}

/// A label that names a scope is that scope's label.
pub proof fn law_scope_has_one_label(label: Seq<char>)
    ensures
        match scope_of(label) {
            Some(s) => scope_label(s) == label,
            None => forall|s: Scope| #[trigger] scope_label(s) != label,
        },
{
}

/// Every scope label, in the order of the scopes.
pub fn scope_labels() -> (r: Vec<&'static str>)
    ensures
        r.deep_view() == seq!["scope_text"@, "scope_table"@, "scope_structured"@],
{
    let mut v: Vec<&'static str> = Vec::new();
    v.push(Scope::Text.cypher_label());
    v.push(Scope::Table.cypher_label());
    v.push(Scope::Structured.cypher_label());
    assert(v.deep_view() =~= seq!["scope_text"@, "scope_table"@, "scope_structured"@]);
    v
}

/// A set of scopes.
#[derive(Debug, Clone, Copy, PartialEq, Eq, Structural)]
pub struct ScopeSet {
    pub text: bool,
    pub table: bool,
    pub structured: bool,
}

impl ScopeSet {
    /// Is the scope in the set?
    pub open spec fn holds(self, s: Scope) -> bool {
        match s {
            Scope::Text => self.text,
            Scope::Table => self.table,
            Scope::Structured => self.structured,
        }
    }

    pub open spec fn with(self, s: Scope) -> ScopeSet {
        match s {
            Scope::Text => ScopeSet { text: true, ..self },
            Scope::Table => ScopeSet { table: true, ..self },
            Scope::Structured => ScopeSet { structured: true, ..self },
        }
    }

    pub fn empty() -> (r: ScopeSet)
        ensures
            forall|s: Scope| !#[trigger] r.holds(s),
            r == (ScopeSet { text: false, table: false, structured: false }),
    {
        ScopeSet { text: false, table: false, structured: false }
    }

    pub fn insert(&mut self, s: Scope)
        ensures
            *final(self) == old(self).with(s),
            forall|t: Scope| #[trigger] final(self).holds(t) == (old(self).holds(t) || t == s),
    {
        match s {
            Scope::Text => {
                self.text = true;
            },
            Scope::Table => {
                self.table = true;
            },
            Scope::Structured => {
                self.structured = true;
            },
        }
    }

    pub fn contains(&self, s: Scope) -> (r: bool)
        ensures
            r == self.holds(s),
    {
        match s {
            Scope::Text => self.text,
            Scope::Table => self.table,
            Scope::Structured => self.structured,
        }
    }

    /// The labels that stand for the scopes of the set on a node, in the order of
    /// the scopes.
    pub fn cypher_labels(&self) -> (r: Vec<String>)
        ensures
            r.deep_view() == labels_of(*self),
    {
        let mut v: Vec<String> = seqs::no_items();
        if self.text {
            seqs::push_item(&mut v, Scope::Text.cypher_label().to_string());
        }
        if self.table {
            seqs::push_item(&mut v, Scope::Table.cypher_label().to_string());
        }
        if self.structured {
            seqs::push_item(&mut v, Scope::Structured.cypher_label().to_string());
        }
        assert(v.deep_view() =~= labels_of(*self));
        v
    }
}

/// The label of a scope where a set holds it, and none where it does not.
pub open spec fn label_if_held(set: ScopeSet, s: Scope) -> Seq<Seq<char>> {
    if set.holds(s) {
        seq![scope_label(s)]
    } else {
        Seq::empty()
    }
}

/// The labels that stand for the scopes of a set, in the order of the scopes.
pub open spec fn labels_of(set: ScopeSet) -> Seq<Seq<char>> {
    label_if_held(set, Scope::Text) + label_if_held(set, Scope::Table) + label_if_held(
        set,
        Scope::Structured,
    )
}

/// A set's labels are those of the scopes that it holds, each once.
pub proof fn law_labels_are_of_the_held(set: ScopeSet)
    ensures
        forall|s: Scope| #[trigger] labels_of(set).contains(scope_label(s)) <==> set.holds(s),
        forall|l: Seq<char>| #[trigger] labels_of(set).contains(l) ==> scope_of(l) is Some,
        labels_of(set).no_duplicates(),
{
    let all = labels_of(set);
    law_label_names_its_scope(Scope::Text);
    law_label_names_its_scope(Scope::Table);
    law_label_names_its_scope(Scope::Structured);
    assert forall|i: int| 0 <= i < all.len() implies (#[trigger] scope_of(all[i])) is Some
        && set.holds(scope_of(all[i])->0) by {
    }
    assert forall|s: Scope| #[trigger] all.contains(scope_label(s)) <==> set.holds(s) by {
        law_label_names_its_scope(s);
        let (a, b) = (set.holds(Scope::Text), set.holds(Scope::Table));
        if set.holds(s) {
            let at: int = match s {
                Scope::Text => 0,
                Scope::Table => if a {
                    1
                } else {
                    0
                },
                Scope::Structured => if a && b {
                    2
                } else if a || b {
                    1
                } else {
                    0
                },
            };
            assert(all[at] == scope_label(s));
        }
        if all.contains(scope_label(s)) {
            let i = choose|i: int| 0 <= i < all.len() && all[i] == scope_label(s);
            assert(scope_of(all[i]) is Some && set.holds(scope_of(all[i])->0));
        }
    }
}

} // verus!
