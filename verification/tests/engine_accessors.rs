//! Accessor generation: the owned / by-reference / by-mutable-reference
//! triple per variant, synthesized records for struct shapes, conversions
//! and their suppression, and constraint targets under a container wrapper.

use dtype_variant::accessor::{
    generate_accessors, strip_wrapper, AccessTarget, BorrowMode, ConversionFrom,
};
use dtype_variant::marker::MarkerAllocator;
use dtype_variant::schema::{
    build_schema, FieldDecl, SchemaConfig, SchemaModel, VariantDescriptor, VariantShape,
};

fn s(x: &str) -> String {
    x.to_string()
}

fn person_variants() -> Vec<VariantDescriptor> {
    vec![
        VariantDescriptor {
            name: s("Person"),
            shape: VariantShape::Struct(vec![
                FieldDecl { name: s("name"), ty: s("String") },
                FieldDecl { name: s("age"), ty: s("u32") },
            ]),
            is_default: false,
        },
        VariantDescriptor { name: s("Score"), shape: VariantShape::Tuple(s("i32")), is_default: false },
        VariantDescriptor { name: s("Nothing"), shape: VariantShape::Unit, is_default: false },
    ]
}

fn person_model(suppress: bool) -> SchemaModel {
    build_schema(
        s("StructVariantData"),
        person_variants(),
        SchemaConfig {
            dispatch_name: None,
            token_scope: None,
            constraint_trait: None,
            container_wrapper: None,
            suppress_conversions: suppress,
        },
        vec![],
    )
    .unwrap()
}

#[test]
fn accessors_struct_variant_records() {
    let model = person_model(false);
    let mut alloc = MarkerAllocator::new();
    let accessors = generate_accessors(&model, &mut alloc);
    assert_eq!(accessors.len(), 3);

    let person = &accessors[0];
    assert_eq!(person.variant, "Person");
    match &person.owned {
        AccessTarget::Record(rd) => {
            assert_eq!(rd.name, "PersonFields");
            assert_eq!(rd.mode, BorrowMode::Owned);
            assert_eq!(rd.fields.len(), 2);
            assert_eq!(rd.fields[0].name, "name");
            assert_eq!(rd.fields[0].ty, "String");
            assert_eq!(rd.fields[1].name, "age");
            assert_eq!(rd.fields[1].ty, "u32");
        }
        other => panic!("expected an owned record, got {:?}", other),
    }
    match &person.by_ref {
        AccessTarget::Record(rd) => {
            assert_eq!(rd.name, "PersonRef");
            assert_eq!(rd.mode, BorrowMode::ByRef);
        }
        other => panic!("expected a reference record, got {:?}", other),
    }
    match &person.by_mut {
        AccessTarget::Record(rd) => {
            assert_eq!(rd.name, "PersonMut");
            assert_eq!(rd.mode, BorrowMode::ByMut);
        }
        other => panic!("expected a mutable record, got {:?}", other),
    }
    match &person.conversion {
        Some(ConversionFrom::FromRecord(n)) => assert_eq!(n, "PersonFields"),
        other => panic!("expected a record conversion, got {:?}", other),
    }
}

#[test]
fn accessors_tuple_and_unit_variants() {
    let model = person_model(false);
    let mut alloc = MarkerAllocator::new();
    let accessors = generate_accessors(&model, &mut alloc);

    let score = &accessors[1];
    match &score.owned {
        AccessTarget::Payload(t) => assert_eq!(t, "i32"),
        other => panic!("expected the bare payload, got {:?}", other),
    }
    match &score.conversion {
        Some(ConversionFrom::FromPayload(t)) => assert_eq!(t, "i32"),
        other => panic!("expected a payload conversion, got {:?}", other),
    }

    let nothing = &accessors[2];
    assert!(matches!(nothing.owned, AccessTarget::UnitTarget));
    assert!(matches!(nothing.by_ref, AccessTarget::UnitTarget));
    assert!(matches!(nothing.by_mut, AccessTarget::UnitTarget));
    assert!(nothing.conversion.is_none());
}

#[test]
fn accessors_conversions_can_be_suppressed() {
    let model = person_model(true);
    let mut alloc = MarkerAllocator::new();
    let accessors = generate_accessors(&model, &mut alloc);
    assert!(accessors.iter().all(|a| a.conversion.is_none()));
}

#[test]
fn accessors_markers_follow_the_scope() {
    let model = person_model(false);
    let mut alloc = MarkerAllocator::new();
    let accessors = generate_accessors(&model, &mut alloc);
    assert_eq!(accessors[0].marker, 0);
    assert_eq!(accessors[1].marker, 1);
    assert_eq!(accessors[2].marker, 2);
    let decls = alloc.marker_decls();
    assert_eq!(decls[0].ty_name, "PersonVariant");
    assert_eq!(decls[1].ty_name, "ScoreVariant");
    assert_eq!(decls[2].ty_name, "NothingVariant");
}

#[test]
fn accessors_constraint_strips_the_container() {
    let model = build_schema(
        s("MyEnum"),
        vec![
            VariantDescriptor {
                name: s("U16"),
                shape: VariantShape::Tuple(s("Vec<u16>")),
                is_default: false,
            },
            VariantDescriptor {
                name: s("U32"),
                shape: VariantShape::Tuple(s("Vec<u32>")),
                is_default: false,
            },
        ],
        SchemaConfig {
            dispatch_name: Some(s("match_my_enum")),
            token_scope: Some(s("self")),
            constraint_trait: Some(s("Constraint")),
            container_wrapper: Some(s("Vec")),
            suppress_conversions: false,
        },
        vec![],
    )
    .unwrap();
    let mut alloc = MarkerAllocator::new();
    let accessors = generate_accessors(&model, &mut alloc);
    assert_eq!(accessors[0].constraint.as_deref(), Some("u16"));
    assert_eq!(accessors[1].constraint.as_deref(), Some("u32"));
    // the accessor itself still hands out the whole payload
    match &accessors[0].owned {
        AccessTarget::Payload(t) => assert_eq!(t, "Vec<u16>"),
        other => panic!("expected the declared payload type, got {:?}", other),
    }
}

#[test]
fn wrapper_stripping_is_exact() {
    assert_eq!(strip_wrapper(&s("Vec<u16>"), &s("Vec")), Some(s("u16")));
    assert_eq!(strip_wrapper(&s("Vec<Vec<u8>>"), &s("Vec")), Some(s("Vec<u8>")));
    assert_eq!(strip_wrapper(&s("u16"), &s("Vec")), None);
    assert_eq!(strip_wrapper(&s("Box<u16>"), &s("Vec")), None);
    assert_eq!(strip_wrapper(&s("Vec<u16"), &s("Vec")), None);
}
