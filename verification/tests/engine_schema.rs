//! Schema extraction and validation: which declarations become models, which
//! fail, and what the model carries.

use dtype_variant::schema::{
    build_schema, SchemaConfig, SchemaError, TokenScope, VariantDescriptor, VariantShape,
};

fn s(x: &str) -> String {
    x.to_string()
}

fn unit_variant(name: &str) -> VariantDescriptor {
    VariantDescriptor { name: s(name), shape: VariantShape::Unit, is_default: false }
}

fn tuple_variant(name: &str, ty: &str) -> VariantDescriptor {
    VariantDescriptor { name: s(name), shape: VariantShape::Tuple(s(ty)), is_default: false }
}

fn plain_config() -> SchemaConfig {
    SchemaConfig {
        dispatch_name: None,
        token_scope: None,
        constraint_trait: None,
        container_wrapper: None,
        suppress_conversions: false,
    }
}

#[test]
fn schema_accepts_distinct_variants() {
    let model = build_schema(
        s("MyEnum"),
        vec![tuple_variant("U16", "Vec<u16>"), tuple_variant("U32", "Vec<u32>")],
        plain_config(),
        vec![],
    )
    .unwrap();
    assert_eq!(model.ty_name, "MyEnum");
    assert_eq!(model.variants.len(), 2);
    assert!(!model.suppress_conversions);
    match &model.token_scope {
        TokenScope::Local(t) => assert_eq!(t, "MyEnum"),
        TokenScope::Shared(_) => panic!("expected a local scope by default"),
    }
}

#[test]
fn schema_derives_snake_case_dispatch_name() {
    let model = build_schema(s("MyEnum"), vec![unit_variant("A")], plain_config(), vec![])
        .unwrap();
    assert_eq!(model.dispatch_name, "match_my_enum");
}

#[test]
fn schema_keeps_explicit_dispatch_name() {
    let mut config = plain_config();
    config.dispatch_name = Some(s("match_custom"));
    let model = build_schema(s("MyEnum"), vec![unit_variant("A")], config, vec![]).unwrap();
    assert_eq!(model.dispatch_name, "match_custom");
}

#[test]
fn schema_rejects_duplicate_variant() {
    let r = build_schema(
        s("E"),
        vec![unit_variant("A"), unit_variant("B"), unit_variant("A")],
        plain_config(),
        vec![],
    );
    assert_eq!(r.unwrap_err(), SchemaError::DuplicateVariant(s("A")));
}

#[test]
fn schema_rejects_multiple_defaults() {
    let mut a = unit_variant("A");
    a.is_default = true;
    let mut b = unit_variant("B");
    b.is_default = true;
    let r = build_schema(s("E"), vec![a, b], plain_config(), vec![]);
    assert_eq!(r.unwrap_err(), SchemaError::MultipleDefaults);
}

#[test]
fn schema_accepts_single_default() {
    let mut a = unit_variant("A");
    a.is_default = true;
    let r = build_schema(s("E"), vec![a, unit_variant("B")], plain_config(), vec![]);
    assert!(r.is_ok());
}

#[test]
fn schema_rejects_malformed_matcher_name() {
    let mut config = plain_config();
    config.dispatch_name = Some(s("1bad name"));
    let r = build_schema(s("E"), vec![unit_variant("A")], config, vec![]);
    match r.unwrap_err() {
        SchemaError::BadConfig(field, _) => assert_eq!(field, "matcher"),
        other => panic!("expected a configuration failure, got {:?}", other),
    }
}

#[test]
fn schema_rejects_malformed_token_scope() {
    let mut config = plain_config();
    config.token_scope = Some(s("not a::path!"));
    let r = build_schema(s("E"), vec![unit_variant("A")], config, vec![]);
    match r.unwrap_err() {
        SchemaError::BadConfig(field, _) => assert_eq!(field, "shared_variant_zst_path"),
        other => panic!("expected a configuration failure, got {:?}", other),
    }
}

#[test]
fn schema_accepts_shared_scope_path() {
    let mut config = plain_config();
    config.token_scope = Some(s("crate::tokens"));
    let model = build_schema(s("E"), vec![unit_variant("A")], config, vec![]).unwrap();
    match &model.token_scope {
        TokenScope::Shared(p) => assert_eq!(p, "crate::tokens"),
        TokenScope::Local(_) => panic!("expected a shared scope"),
    }
}

#[test]
fn schema_scope_keyword_local_stays_private() {
    let mut config = plain_config();
    config.token_scope = Some(s("local"));
    let model = build_schema(s("E"), vec![unit_variant("A")], config, vec![]).unwrap();
    match &model.token_scope {
        TokenScope::Local(t) => assert_eq!(t, "E"),
        TokenScope::Shared(_) => panic!("expected a local scope"),
    }
}

#[test]
fn schema_duplicate_reported_before_default_conflict() {
    let mut a = unit_variant("A");
    a.is_default = true;
    let mut a2 = unit_variant("A");
    a2.is_default = true;
    let r = build_schema(s("E"), vec![a, a2], plain_config(), vec![]);
    assert_eq!(r.unwrap_err(), SchemaError::DuplicateVariant(s("A")));
}
