//! Marker allocation: one marker per (scope, variant name), stable across
//! repeated assignments, shared across sum types naming one shared scope,
//! and declared exactly once per run.

use dtype_variant::marker::{declare_tokens, marker_type_name, MarkerAllocator};
use dtype_variant::schema::TokenScope;

fn s(x: &str) -> String {
    x.to_string()
}

#[test]
fn marker_assignment_is_stable() {
    let mut alloc = MarkerAllocator::new();
    let scope = TokenScope::Local(s("MyEnum"));
    let a = alloc.assign(&scope, &s("U16"));
    let b = alloc.assign(&scope, &s("U32"));
    let a_again = alloc.assign(&scope, &s("U16"));
    assert_eq!(a, a_again);
    assert_ne!(a, b);
    assert_eq!(alloc.entries.len(), 2);
}

#[test]
fn marker_shared_scope_agrees_across_types() {
    let mut alloc = MarkerAllocator::new();
    // the two sum types spell the same shared path independently
    let scope_of_first = TokenScope::Shared(s("self"));
    let scope_of_second = TokenScope::Shared(s("self"));
    let from_first = alloc.assign(&scope_of_first, &s("Shared"));
    let from_second = alloc.assign(&scope_of_second, &s("Shared"));
    assert_eq!(from_first, from_second);
    assert_eq!(alloc.entries.len(), 1);
}

#[test]
fn marker_local_scopes_stay_apart() {
    let mut alloc = MarkerAllocator::new();
    let a = alloc.assign(&TokenScope::Local(s("A")), &s("X"));
    let b = alloc.assign(&TokenScope::Local(s("B")), &s("X"));
    assert_ne!(a, b);
}

#[test]
fn marker_shared_and_local_of_same_spelling_stay_apart() {
    let mut alloc = MarkerAllocator::new();
    let a = alloc.assign(&TokenScope::Local(s("p")), &s("X"));
    let b = alloc.assign(&TokenScope::Shared(s("p")), &s("X"));
    assert_ne!(a, b);
}

#[test]
fn marker_type_names_carry_the_variant_suffix() {
    assert_eq!(marker_type_name(&s("U16")), "U16Variant");
    assert_eq!(marker_type_name(&s("Person")), "PersonVariant");
}

#[test]
fn marker_declarations_one_per_unique_marker() {
    let mut alloc = MarkerAllocator::new();
    let scope = TokenScope::Shared(s("self"));
    let names = vec![s("U16"), s("U32"), s("U64")];
    let decls = declare_tokens(&mut alloc, &scope, &names);
    assert_eq!(decls.len(), 3);
    assert_eq!(decls[0].ty_name, "U16Variant");
    assert_eq!(decls[1].ty_name, "U32Variant");
    assert_eq!(decls[2].ty_name, "U64Variant");
    // a second sum type re-declaring the same names allocates nothing new
    let again = declare_tokens(&mut alloc, &scope, &names);
    assert_eq!(again.len(), 3);
    assert_eq!(alloc.entries.len(), 3);
    assert_eq!(alloc.marker_decls().len(), 3);
    assert_eq!(decls[0].id, again[0].id);
}

#[test]
fn marker_lookup_sees_only_allocated_keys() {
    let mut alloc = MarkerAllocator::new();
    let scope = TokenScope::Local(s("E"));
    assert!(alloc.lookup(&scope, &s("A")).is_none());
    let id = alloc.assign(&scope, &s("A"));
    assert_eq!(alloc.lookup(&scope, &s("A")), Some(id));
    assert!(alloc.lookup(&scope, &s("B")).is_none());
}
