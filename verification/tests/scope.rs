use linguagraph::graph::schema::EntityGraph;
use linguagraph::graph::scope::{scope_labels, Scope, ScopeSet};

#[test]
fn cypher_label_inverse() {
    for scope in [Scope::Text, Scope::Table, Scope::Structured] {
        assert_eq!(Scope::from_cypher_label(scope.cypher_label()), Some(scope));
    }
    assert_eq!(Scope::from_cypher_label("scope_unknown"), None);
    assert_eq!(Scope::from_cypher_label("Person"), None);
}

#[test]
fn scope_labels_covers_every_variant() {
    for label in scope_labels() {
        assert!(Scope::from_cypher_label(label).is_some(), "{label}");
    }
    assert_eq!(scope_labels().len(), 3);
}

#[test]
fn scope_sets_hold_what_was_put_in() {
    let mut set = ScopeSet::empty();
    assert!(!set.contains(Scope::Table));
    set.insert(Scope::Table);
    assert!(set.contains(Scope::Table));
    assert!(!set.contains(Scope::Text));
}

#[test]
fn entities_carry_the_scopes_they_are_given() {
    let entity = EntityGraph::new("Person").scope(Scope::Text);
    assert!(entity.has_scope(Scope::Text));
    assert!(!entity.has_scope(Scope::Table));
    let both = EntityGraph::new("Person").scopes(vec![Scope::Table, Scope::Structured]);
    assert!(both.has_scope(Scope::Table) && both.has_scope(Scope::Structured));
    assert!(!both.has_scope(Scope::Text));
}

#[test]
fn a_set_gives_the_labels_of_its_scopes_in_order() {
    let mut set = ScopeSet::empty();
    assert!(set.cypher_labels().is_empty());
    set.insert(Scope::Structured);
    set.insert(Scope::Text);
    assert_eq!(set.cypher_labels(), ["scope_text", "scope_structured"]);
    set.insert(Scope::Table);
    assert_eq!(set.cypher_labels(), ["scope_text", "scope_table", "scope_structured"]);
}
