//! The artifact bundle of a whole generation run, and the name utilities the
//! generators build on.

use dtype_variant::artifacts::generate_artifacts;
use dtype_variant::grouping::GroupingError;
use dtype_variant::ident::{check_identifier, check_module_path, to_snake_case};
use dtype_variant::marker::MarkerAllocator;
use dtype_variant::schema::{
    build_schema, Group, GroupingSpec, SchemaConfig, VariantDescriptor, VariantShape,
};

fn s(x: &str) -> String {
    x.to_string()
}

fn tuple_variant(name: &str, ty: &str) -> VariantDescriptor {
    VariantDescriptor { name: s(name), shape: VariantShape::Tuple(s(ty)), is_default: false }
}

#[test]
fn artifacts_bundle_for_one_sum_type() {
    let good = GroupingSpec {
        dispatch_name: s("by_category"),
        groups: vec![
            Group { name: s("Numeric"), members: vec![s("Int"), s("Float")] },
            Group { name: s("Text"), members: vec![s("Str")] },
        ],
    };
    let bad = GroupingSpec {
        dispatch_name: s("by_half"),
        groups: vec![Group { name: s("Some"), members: vec![s("Int")] }],
    };
    let model = build_schema(
        s("MyData"),
        vec![
            tuple_variant("Int", "i32"),
            tuple_variant("Float", "f64"),
            tuple_variant("Str", "String"),
        ],
        SchemaConfig {
            dispatch_name: None,
            token_scope: None,
            constraint_trait: None,
            container_wrapper: None,
            suppress_conversions: false,
        },
        vec![good, bad],
    )
    .unwrap();
    let mut alloc = MarkerAllocator::new();
    let bundle = generate_artifacts(&model, &mut alloc);

    assert_eq!(bundle.accessors.len(), 3);
    assert_eq!(bundle.markers.len(), 3);
    assert_eq!(bundle.markers[0].ty_name, "IntVariant");
    assert_eq!(bundle.dispatch.name, "match_my_data");
    assert_eq!(bundle.dispatch.rules.len(), 42);

    // a failing grouping is fatal to itself alone: the first partition stands
    assert_eq!(bundle.grouped.len(), 2);
    let p = bundle.grouped[0].as_ref().unwrap();
    assert_eq!(p.dispatch_name, "by_category");
    let es = bundle.grouped[1].as_ref().unwrap_err();
    assert_eq!(es, &vec![GroupingError::MissingVariants(vec![s("Float"), s("Str")])]);
}

#[test]
fn shared_scope_markers_are_not_redeclared() {
    let config = || SchemaConfig {
        dispatch_name: None,
        token_scope: Some(s("tokens::shared")),
        constraint_trait: None,
        container_wrapper: None,
        suppress_conversions: false,
    };
    let first = build_schema(
        s("Readings"),
        vec![tuple_variant("Shared", "i64"), tuple_variant("Label", "String")],
        config(),
        vec![],
    )
    .unwrap();
    let second = build_schema(
        s("Totals"),
        vec![tuple_variant("Shared", "i64")],
        config(),
        vec![],
    )
    .unwrap();
    let mut alloc = MarkerAllocator::new();
    let b1 = generate_artifacts(&first, &mut alloc);
    let b2 = generate_artifacts(&second, &mut alloc);
    // the second run reuses the shared marker instead of declaring it again
    assert_eq!(b1.markers.len(), 2);
    assert_eq!(b2.markers.len(), 2);
    assert_eq!(b1.accessors[0].marker, b2.accessors[0].marker);
}

#[test]
fn identifier_spellings() {
    assert!(check_identifier("match_my_enum"));
    assert!(check_identifier("_hidden1"));
    assert!(!check_identifier(""));
    assert!(!check_identifier("1bad"));
    assert!(!check_identifier("has space"));
}

#[test]
fn module_path_spellings() {
    assert!(check_module_path("self"));
    assert!(check_module_path("crate::tokens"));
    assert!(check_module_path("a::b::c"));
    assert!(!check_module_path(""));
    assert!(!check_module_path("a::"));
    assert!(!check_module_path("::a"));
    assert!(!check_module_path("a:b"));
    assert!(!check_module_path("a::b!"));
}

#[test]
fn snake_case_derivation() {
    assert_eq!(to_snake_case("MyEnum"), "my_enum");
    assert_eq!(to_snake_case("Data"), "data");
    assert_eq!(to_snake_case("already_snake"), "already_snake");
    assert_eq!(to_snake_case(""), "");
}
