//! Partition validation: exact partitions are accepted with their
//! assignment; under-coverage, overlap, unknown members, empty groups and
//! colliding group names are rejected, all failures reported together.

use dtype_variant::grouping::{validate_grouping, GroupingError};
use dtype_variant::schema::{Group, GroupingSpec, VariantDescriptor, VariantShape};

fn s(x: &str) -> String {
    x.to_string()
}

fn tuple_variant(name: &str, ty: &str) -> VariantDescriptor {
    VariantDescriptor { name: s(name), shape: VariantShape::Tuple(s(ty)), is_default: false }
}

fn my_data_variants() -> Vec<VariantDescriptor> {
    vec![
        tuple_variant("Int", "i32"),
        tuple_variant("Float", "f64"),
        tuple_variant("Str", "String"),
    ]
}

fn group(name: &str, members: &[&str]) -> Group {
    Group { name: s(name), members: members.iter().map(|m| s(m)).collect() }
}

#[test]
fn grouping_accepts_exact_partition() {
    let spec = GroupingSpec {
        dispatch_name: s("by_category"),
        groups: vec![group("Numeric", &["Int", "Float"]), group("Text", &["Str"])],
    };
    let p = validate_grouping(&my_data_variants(), &spec).unwrap();
    assert_eq!(p.dispatch_name, "by_category");
    assert_eq!(p.group_names, vec![s("Numeric"), s("Text")]);
    assert_eq!(p.assignment, vec![s("Numeric"), s("Numeric"), s("Text")]);
}

#[test]
fn grouping_rejects_partial_cover() {
    let spec = GroupingSpec {
        dispatch_name: s("by_category"),
        groups: vec![group("Numeric", &["Int"])],
    };
    let es = validate_grouping(&my_data_variants(), &spec).unwrap_err();
    assert_eq!(es, vec![GroupingError::MissingVariants(vec![s("Float"), s("Str")])]);
}

#[test]
fn grouping_rejects_overlap() {
    let spec = GroupingSpec {
        dispatch_name: s("by_category"),
        groups: vec![group("Numeric", &["Int", "Float"]), group("Text", &["Str", "Int"])],
    };
    let es = validate_grouping(&my_data_variants(), &spec).unwrap_err();
    assert_eq!(es, vec![GroupingError::DuplicateVariant(s("Int"))]);
}

#[test]
fn grouping_rejects_unknown_variant() {
    let spec = GroupingSpec {
        dispatch_name: s("by_category"),
        groups: vec![group("Numeric", &["Int", "Float", "Bool"]), group("Text", &["Str"])],
    };
    let es = validate_grouping(&my_data_variants(), &spec).unwrap_err();
    assert_eq!(es, vec![GroupingError::UnknownVariant(s("Bool"))]);
}

#[test]
fn grouping_rejects_empty_group() {
    let spec = GroupingSpec {
        dispatch_name: s("by_category"),
        groups: vec![group("Numeric", &["Int", "Float", "Str"]), group("Empty", &[])],
    };
    let es = validate_grouping(&my_data_variants(), &spec).unwrap_err();
    assert_eq!(es, vec![GroupingError::EmptyGroup(s("Empty"))]);
}

#[test]
fn grouping_rejects_colliding_group_names() {
    let spec = GroupingSpec {
        dispatch_name: s("by_category"),
        groups: vec![group("Numeric", &["Int", "Float"]), group("Numeric", &["Str"])],
    };
    let es = validate_grouping(&my_data_variants(), &spec).unwrap_err();
    assert_eq!(es, vec![GroupingError::DuplicateGroup(s("Numeric"))]);
}

#[test]
fn grouping_reports_all_failures_together() {
    let spec = GroupingSpec {
        dispatch_name: s("broken"),
        groups: vec![group("A", &[]), group("B", &["Int", "Bool", "Int"])],
    };
    let es = validate_grouping(&my_data_variants(), &spec).unwrap_err();
    assert!(es.contains(&GroupingError::EmptyGroup(s("A"))));
    assert!(es.contains(&GroupingError::UnknownVariant(s("Bool"))));
    assert!(es.contains(&GroupingError::DuplicateVariant(s("Int"))));
    assert!(es.contains(&GroupingError::MissingVariants(vec![s("Float"), s("Str")])));
    assert_eq!(es.len(), 4);
}

#[test]
fn grouping_second_partition_of_same_schema() {
    let spec = GroupingSpec {
        dispatch_name: s("by_size"),
        groups: vec![group("Small", &["Int"]), group("Large", &["Float", "Str"])],
    };
    let p = validate_grouping(&my_data_variants(), &spec).unwrap();
    assert_eq!(p.assignment, vec![s("Small"), s("Large"), s("Large")]);
}
