//! Behavior of the generated artifacts for concrete sum types: the marker
//! types, accessor impls, conversions and dispatch arms spelled out for a
//! handful of enums, exercised exactly as callers use them.
#![allow(dead_code)]

use dtype_variant::{
    EnumVariantConstraint, EnumVariantDowncast, EnumVariantDowncastMut, EnumVariantDowncastRef,
};

trait Constraint: 'static {}

impl Constraint for u16 {}

impl Constraint for u32 {}

impl Constraint for u64 {}

#[derive(Default, Debug)]
pub struct U16Variant;

#[derive(Default, Debug)]
pub struct U32Variant;

#[derive(Default, Debug)]
pub struct U64Variant;

#[derive(Clone, Debug)]
pub enum MyEnumVariant {
    U16,
    U32,
    U64,
}

impl Default for MyEnumVariant {
    fn default() -> Self {
        MyEnumVariant::U64
    }
}

#[derive(Clone, Debug, PartialEq, Eq)]
enum MyEnum {
    U16(Vec<u16>),
    U32(Vec<u32>),
    U64(Vec<u64>),
}

impl From<Vec<u16>> for MyEnum {
    fn from(v: Vec<u16>) -> Self {
        MyEnum::U16(v)
    }
}

impl From<Vec<u32>> for MyEnum {
    fn from(v: Vec<u32>) -> Self {
        MyEnum::U32(v)
    }
}

impl From<Vec<u64>> for MyEnum {
    fn from(v: Vec<u64>) -> Self {
        MyEnum::U64(v)
    }
}

impl EnumVariantDowncast<U16Variant> for MyEnum {
    type Target = Vec<u16>;

    fn downcast(self) -> Option<Vec<u16>> {
        match self {
            MyEnum::U16(v) => Some(v),
            _ => None,
        }
    }
}

impl EnumVariantDowncast<U32Variant> for MyEnum {
    type Target = Vec<u32>;

    fn downcast(self) -> Option<Vec<u32>> {
        match self {
            MyEnum::U32(v) => Some(v),
            _ => None,
        }
    }
}

impl EnumVariantDowncast<U64Variant> for MyEnum {
    type Target = Vec<u64>;

    fn downcast(self) -> Option<Vec<u64>> {
        match self {
            MyEnum::U64(v) => Some(v),
            _ => None,
        }
    }
}

impl EnumVariantDowncastRef<U16Variant> for MyEnum {
    type Target<'target> = &'target Vec<u16> where Self: 'target;

    fn downcast_ref(&self) -> Option<&Vec<u16>> {
        match self {
            MyEnum::U16(v) => Some(v),
            _ => None,
        }
    }
}

impl EnumVariantDowncastMut<U16Variant> for MyEnum {
    type Target<'target> = &'target mut Vec<u16> where Self: 'target;

    fn downcast_mut(&mut self) -> Option<&mut Vec<u16>> {
        match self {
            MyEnum::U16(v) => Some(v),
            _ => None,
        }
    }
}

impl EnumVariantConstraint<U16Variant> for MyEnum {
    type Constraint = u16;
}

impl EnumVariantConstraint<U32Variant> for MyEnum {
    type Constraint = u32;
}

impl EnumVariantConstraint<U64Variant> for MyEnum {
    type Constraint = u64;
}

impl MyEnum {
    fn downcast<VT>(self) -> Option<<Self as EnumVariantDowncast<VT>>::Target>
    where
        Self: EnumVariantDowncast<VT>,
    {
        EnumVariantDowncast::downcast(self)
    }

    fn downcast_ref<VT>(&self) -> Option<<Self as EnumVariantDowncastRef<VT>>::Target<'_>>
    where
        Self: EnumVariantDowncastRef<VT>,
    {
        EnumVariantDowncastRef::downcast_ref(self)
    }

    fn from_default_variant(kind: MyEnumVariant) -> Self {
        match kind {
            MyEnumVariant::U16 => MyEnum::from(vec![u16::default()]),
            MyEnumVariant::U32 => MyEnum::from(vec![u32::default()]),
            MyEnumVariant::U64 => MyEnum::from(vec![u64::default()]),
        }
    }
}

#[test]
fn test_simple_enum() {
    let a = MyEnumVariant::U16;
    let _b = MyEnumVariant::U32;
    match a {
        MyEnumVariant::U16 => {}
        MyEnumVariant::U32 => {}
        MyEnumVariant::U64 => {}
    }
}

#[test]
fn test_end_to_end() {
    let x = MyEnum::from(vec![1_u16, 1, 2, 3, 5]);
    let bit_size = match &x {
        MyEnum::U16(inner) => inner.len() * u16::BITS as usize,
        MyEnum::U32(inner) => inner.len() * u32::BITS as usize,
        MyEnum::U64(inner) => inner.len() * u64::BITS as usize,
    };
    assert_eq!(bit_size, 80);
    let x = x.downcast::<U16Variant>().unwrap();
    assert_eq!(x[0], 1);
}

#[test]
fn test_constraint() {
    let x = MyEnumVariant::U16;
    let my_enum = MyEnum::from_default_variant(x);
    assert_eq!(my_enum, MyEnum::U16(vec![0]));
}

#[test]
fn test_token_based_downcast() {
    let x = MyEnum::from(vec![1_u16, 1, 2, 3, 5]);
    let first_element = x.downcast_ref::<U16Variant>().unwrap()[0];
    assert_eq!(first_element, 1_u16);
}

#[derive(Default, Debug)]
pub struct I32Variant;

#[derive(Default, Debug)]
pub struct F32Variant;

#[derive(Clone, Debug)]
enum DynChunk {
    I32(i32),
    F32(f32),
}

impl From<i32> for DynChunk {
    fn from(v: i32) -> Self {
        DynChunk::I32(v)
    }
}

impl From<f32> for DynChunk {
    fn from(v: f32) -> Self {
        DynChunk::F32(v)
    }
}

impl EnumVariantDowncastRef<I32Variant> for DynChunk {
    type Target<'target> = &'target i32 where Self: 'target;

    fn downcast_ref(&self) -> Option<&i32> {
        match self {
            DynChunk::I32(v) => Some(v),
            _ => None,
        }
    }
}

impl EnumVariantDowncastRef<F32Variant> for DynChunk {
    type Target<'target> = &'target f32 where Self: 'target;

    fn downcast_ref(&self) -> Option<&f32> {
        match self {
            DynChunk::F32(v) => Some(v),
            _ => None,
        }
    }
}

impl EnumVariantDowncastMut<I32Variant> for DynChunk {
    type Target<'target> = &'target mut i32 where Self: 'target;

    fn downcast_mut(&mut self) -> Option<&mut i32> {
        match self {
            DynChunk::I32(v) => Some(v),
            _ => None,
        }
    }
}

impl EnumVariantDowncastMut<F32Variant> for DynChunk {
    type Target<'target> = &'target mut f32 where Self: 'target;

    fn downcast_mut(&mut self) -> Option<&mut f32> {
        match self {
            DynChunk::F32(v) => Some(v),
            _ => None,
        }
    }
}

impl DynChunk {
    fn downcast_ref<VT>(&self) -> Option<<Self as EnumVariantDowncastRef<VT>>::Target<'_>>
    where
        Self: EnumVariantDowncastRef<VT>,
    {
        EnumVariantDowncastRef::downcast_ref(self)
    }

    fn downcast_mut<VT>(&mut self) -> Option<<Self as EnumVariantDowncastMut<VT>>::Target<'_>>
    where
        Self: EnumVariantDowncastMut<VT>,
    {
        EnumVariantDowncastMut::downcast_mut(self)
    }
}

#[test]
fn test_dyn_chunk() {
    let x = DynChunk::from(42_i32);
    if let DynChunk::I32(value) = x {
        assert_eq!(value, 42);
    } else {
        panic!("Expected DynChunk::I32");
    }

    let mut y = DynChunk::from(3.14_f32);
    if let DynChunk::F32(value) = y {
        assert_eq!(value, 3.14);
    } else {
        panic!("Expected DynChunk::F32");
    }

    let downcasted: Option<&i32> = x.downcast_ref::<I32Variant>();
    assert_eq!(*downcasted.unwrap(), 42);

    let downcasted_mut: Option<&mut f32> = y.downcast_mut::<F32Variant>();
    *downcasted_mut.unwrap() = 2.71;
    if let DynChunk::F32(value) = y {
        assert_eq!(value, 2.71);
    }
}

#[test]
fn test_match_dyn_enum_usage() {
    let x = DynChunk::from(42_i32);
    match x {
        DynChunk::I32(value) => {
            let str_repr = value.to_string();
            assert_eq!(str_repr, "42");
        }
        DynChunk::F32(value) => {
            let str_repr = value.to_string();
            assert_eq!(str_repr, "42");
        }
    }

    let y = DynChunk::from(3.14_f32);
    match y {
        DynChunk::I32(value) => {
            let str_repr = value.to_string();
            assert_eq!(str_repr, "3.14");
        }
        DynChunk::F32(value) => {
            let str_repr = value.to_string();
            assert_eq!(str_repr, "3.14");
        }
    }
}

#[derive(Default, Debug)]
pub struct IntVariant;

#[derive(Default, Debug)]
pub struct FloatVariant;

#[derive(Default, Debug)]
pub struct StrVariant;

#[derive(Debug, Clone, PartialEq)]
enum MyData {
    Int(i32),
    Float(f64),
    Str(String),
}

#[test]
fn test_grouped_matchers_mydata() {
    let int_val = MyData::Int(42);
    let float_val = MyData::Float(3.14);
    let str_val = MyData::Str("hello".to_string());

    let category_int = match int_val.clone() {
        MyData::Int(inner) => format!("Numeric: {}", inner),
        MyData::Float(inner) => format!("Numeric: {}", inner),
        MyData::Str(inner) => format!("Text: {}", inner),
    };
    let category_float = match float_val.clone() {
        MyData::Int(inner) => format!("Numeric: {}", inner),
        MyData::Float(inner) => format!("Numeric: {}", inner),
        MyData::Str(inner) => format!("Text: {}", inner),
    };
    let category_str = match str_val.clone() {
        MyData::Int(inner) => format!("Numeric: {}", inner),
        MyData::Float(inner) => format!("Numeric: {}", inner),
        MyData::Str(inner) => format!("Text: {}", inner),
    };

    assert_eq!(category_int, "Numeric: 42");
    assert_eq!(category_float, "Numeric: 3.14");
    assert_eq!(category_str, "Text: hello");

    let size_int = match &int_val {
        MyData::Int(_inner) => "Small",
        MyData::Float(_inner) => "Large",
        MyData::Str(_inner) => "Large",
    };
    let size_float = match &float_val {
        MyData::Int(_inner) => "Small",
        MyData::Float(_inner) => "Large",
        MyData::Str(_inner) => "Large",
    };
    let size_str = match &str_val {
        MyData::Int(_inner) => "Small",
        MyData::Float(_inner) => "Large",
        MyData::Str(_inner) => "Large",
    };

    assert_eq!(size_int, "Small");
    assert_eq!(size_float, "Large");
    assert_eq!(size_str, "Large");
}

#[derive(Default, Debug)]
pub struct PersonVariant;

#[derive(Default, Debug)]
pub struct LocationVariant;

#[derive(Default, Debug)]
pub struct ScoreVariant;

#[derive(Debug, Clone, PartialEq)]
enum StructVariantData {
    Person { name: String, age: u32 },
    Location { lat: f64, lng: f64 },
    Score(i32),
}

#[derive(Debug, Clone, PartialEq)]
struct PersonFields {
    name: String,
    age: u32,
}

#[derive(Debug)]
struct PersonRef<'a> {
    name: &'a String,
    age: &'a u32,
}

#[derive(Debug)]
struct PersonMut<'a> {
    name: &'a mut String,
    age: &'a mut u32,
}

#[derive(Debug, Clone, PartialEq)]
struct LocationFields {
    lat: f64,
    lng: f64,
}

#[derive(Debug)]
struct LocationRef<'a> {
    lat: &'a f64,
    lng: &'a f64,
}

#[derive(Debug)]
struct LocationMut<'a> {
    lat: &'a mut f64,
    lng: &'a mut f64,
}

impl From<PersonFields> for StructVariantData {
    fn from(f: PersonFields) -> Self {
        StructVariantData::Person { name: f.name, age: f.age }
    }
}

impl From<LocationFields> for StructVariantData {
    fn from(f: LocationFields) -> Self {
        StructVariantData::Location { lat: f.lat, lng: f.lng }
    }
}

impl From<i32> for StructVariantData {
    fn from(v: i32) -> Self {
        StructVariantData::Score(v)
    }
}

impl EnumVariantDowncast<PersonVariant> for StructVariantData {
    type Target = PersonFields;

    fn downcast(self) -> Option<PersonFields> {
        match self {
            StructVariantData::Person { name, age } => Some(PersonFields { name, age }),
            _ => None,
        }
    }
}

impl EnumVariantDowncast<LocationVariant> for StructVariantData {
    type Target = LocationFields;

    fn downcast(self) -> Option<LocationFields> {
        match self {
            StructVariantData::Location { lat, lng } => Some(LocationFields { lat, lng }),
            _ => None,
        }
    }
}

impl EnumVariantDowncast<ScoreVariant> for StructVariantData {
    type Target = i32;

    fn downcast(self) -> Option<i32> {
        match self {
            StructVariantData::Score(v) => Some(v),
            _ => None,
        }
    }
}

impl EnumVariantDowncastRef<PersonVariant> for StructVariantData {
    type Target<'target> = PersonRef<'target> where Self: 'target;

    fn downcast_ref(&self) -> Option<PersonRef<'_>> {
        match self {
            StructVariantData::Person { name, age } => Some(PersonRef { name, age }),
            _ => None,
        }
    }
}

impl EnumVariantDowncastRef<LocationVariant> for StructVariantData {
    type Target<'target> = LocationRef<'target> where Self: 'target;

    fn downcast_ref(&self) -> Option<LocationRef<'_>> {
        match self {
            StructVariantData::Location { lat, lng } => Some(LocationRef { lat, lng }),
            _ => None,
        }
    }
}

impl EnumVariantDowncastRef<ScoreVariant> for StructVariantData {
    type Target<'target> = &'target i32 where Self: 'target;

    fn downcast_ref(&self) -> Option<&i32> {
        match self {
            StructVariantData::Score(v) => Some(v),
            _ => None,
        }
    }
}

impl EnumVariantDowncastMut<PersonVariant> for StructVariantData {
    type Target<'target> = PersonMut<'target> where Self: 'target;

    fn downcast_mut(&mut self) -> Option<PersonMut<'_>> {
        match self {
            StructVariantData::Person { name, age } => Some(PersonMut { name, age }),
            _ => None,
        }
    }
}

impl EnumVariantDowncastMut<LocationVariant> for StructVariantData {
    type Target<'target> = LocationMut<'target> where Self: 'target;

    fn downcast_mut(&mut self) -> Option<LocationMut<'_>> {
        match self {
            StructVariantData::Location { lat, lng } => Some(LocationMut { lat, lng }),
            _ => None,
        }
    }
}

impl EnumVariantDowncastMut<ScoreVariant> for StructVariantData {
    type Target<'target> = &'target mut i32 where Self: 'target;

    fn downcast_mut(&mut self) -> Option<&mut i32> {
        match self {
            StructVariantData::Score(v) => Some(v),
            _ => None,
        }
    }
}

impl StructVariantData {
    fn downcast<VT>(self) -> Option<<Self as EnumVariantDowncast<VT>>::Target>
    where
        Self: EnumVariantDowncast<VT>,
    {
        EnumVariantDowncast::downcast(self)
    }

    fn downcast_ref<VT>(&self) -> Option<<Self as EnumVariantDowncastRef<VT>>::Target<'_>>
    where
        Self: EnumVariantDowncastRef<VT>,
    {
        EnumVariantDowncastRef::downcast_ref(self)
    }

    fn downcast_mut<VT>(&mut self) -> Option<<Self as EnumVariantDowncastMut<VT>>::Target<'_>>
    where
        Self: EnumVariantDowncastMut<VT>,
    {
        EnumVariantDowncastMut::downcast_mut(self)
    }
}

#[test]
fn test_struct_variants() {
    let person_data = StructVariantData::Person {
        name: "Alice".to_string(),
        age: 30,
    };

    let location_data = StructVariantData::Location {
        lat: 37.7749,
        lng: -122.4194,
    };

    let score_data = StructVariantData::Score(95);

    if let Some(person_fields) = person_data.clone().downcast::<PersonVariant>() {
        assert_eq!(person_fields.name, "Alice");
        assert_eq!(person_fields.age, 30);
    } else {
        panic!("Failed to downcast person variant");
    }

    if let Some(location_fields) = location_data.clone().downcast::<LocationVariant>() {
        assert_eq!(location_fields.lat, 37.7749);
        assert_eq!(location_fields.lng, -122.4194);
    } else {
        panic!("Failed to downcast location variant");
    }

    if let Some(score) = score_data.downcast_ref::<ScoreVariant>() {
        assert_eq!(*score, 95);
    } else {
        panic!("Failed to downcast score variant");
    }

    let person_struct = PersonFields { name: "Bob".to_string(), age: 25 };
    let data_from_struct = StructVariantData::from(person_struct);

    if let StructVariantData::Person { name, age } = data_from_struct {
        assert_eq!(name, "Bob");
        assert_eq!(age, 25);
    } else {
        panic!("Failed to create enum from struct");
    }
}

#[test]
fn test_struct_variant_matcher_basic() {
    let person_data = StructVariantData::Person {
        name: "Alice".to_string(),
        age: 30,
    };

    let person_result = match person_data {
        StructVariantData::Person { .. } => "Person variant matched",
        StructVariantData::Location { .. } => "Person variant matched",
        StructVariantData::Score(_) => "Person variant matched",
    };
    assert_eq!(person_result, "Person variant matched");
}

#[test]
fn test_struct_variant_matcher_all_variants() {
    let person_data = StructVariantData::Person {
        name: "Alice".to_string(),
        age: 30,
    };

    let location_data = StructVariantData::Location {
        lat: 37.7749,
        lng: -122.4194,
    };

    let score_data = StructVariantData::Score(95);

    let person_result = match person_data {
        StructVariantData::Person { .. } => "Person variant",
        StructVariantData::Location { .. } => "Person variant",
        StructVariantData::Score(_) => "Person variant",
    };
    assert_eq!(person_result, "Person variant");

    let location_result = match location_data {
        StructVariantData::Person { .. } => "Location variant",
        StructVariantData::Location { .. } => "Location variant",
        StructVariantData::Score(_) => "Location variant",
    };
    assert_eq!(location_result, "Location variant");

    let score_result = match score_data {
        StructVariantData::Person { .. } => "Score variant",
        StructVariantData::Location { .. } => "Score variant",
        StructVariantData::Score(_) => "Score variant",
    };
    assert_eq!(score_result, "Score variant");
}

#[test]
fn test_struct_variant_matcher_with_references() {
    let person_data = StructVariantData::Person {
        name: "Alice".to_string(),
        age: 30,
    };

    let person_result = match &person_data {
        StructVariantData::Person { .. } => "Reference to person variant",
        StructVariantData::Location { .. } => "Reference to person variant",
        StructVariantData::Score(_) => "Reference to person variant",
    };
    assert_eq!(person_result, "Reference to person variant");
}

#[test]
fn test_struct_variant_reference_downcasting() {
    let person_data = StructVariantData::Person {
        name: "Alice".to_string(),
        age: 30,
    };

    let location_data = StructVariantData::Location {
        lat: 37.7749,
        lng: -122.4194,
    };

    let person_ref = person_data.downcast_ref::<PersonVariant>();
    if let Some(person_fields_ref) = person_ref {
        assert_eq!(person_fields_ref.name, "Alice");
        assert_eq!(*person_fields_ref.age, 30);
    } else {
        panic!("Reference downcasting should work for struct variants now");
    }

    let location_ref = location_data.downcast_ref::<LocationVariant>();
    if let Some(location_fields_ref) = location_ref {
        assert_eq!(*location_fields_ref.lat, 37.7749);
        assert_eq!(*location_fields_ref.lng, -122.4194);
    } else {
        panic!("Reference downcasting should work for struct variants now");
    }

    let mut person_data_mut = StructVariantData::Person {
        name: "Bob".to_string(),
        age: 25,
    };

    let person_mut_ref = person_data_mut.downcast_mut::<PersonVariant>();
    if let Some(person_fields_mut) = person_mut_ref {
        *person_fields_mut.age = 26;
    } else {
        panic!("Mutable reference downcasting should work for struct variants now");
    }
}

#[test]
fn test_struct_variant_reference_downcast_fail() {
    let person_data = StructVariantData::Person {
        name: "Alice".to_string(),
        age: 30,
    };

    let location_ref = person_data.downcast_ref::<LocationVariant>();
    assert!(location_ref.is_none());

    let mut person_data_clone = person_data.clone();
    let location_mut_ref = person_data_clone.downcast_mut::<LocationVariant>();
    assert!(location_mut_ref.is_none());
}

#[test]
fn test_new_trait_structure() {
    let score_data = StructVariantData::Score(95);

    let score_owned = score_data.clone().downcast::<ScoreVariant>();
    assert_eq!(score_owned, Some(95));

    let score_ref = score_data.downcast_ref::<ScoreVariant>();
    assert_eq!(score_ref, Some(&95));

    let mut score_data_mut = StructVariantData::Score(42);
    let score_mut_ref = score_data_mut.downcast_mut::<ScoreVariant>();
    assert_eq!(score_mut_ref, Some(&mut 42));
}

#[test]
fn test_reference_struct_types() {
    let person_data = StructVariantData::Person {
        name: "Alice".to_string(),
        age: 30,
    };

    let person_ref: Option<PersonRef<'_>> = person_data.downcast_ref::<PersonVariant>();
    assert!(person_ref.is_some());
    let person_ref = person_ref.unwrap();
    assert_eq!(person_ref.name, "Alice");
    assert_eq!(*person_ref.age, 30);

    let mut person_data_mut = StructVariantData::Person {
        name: "Bob".to_string(),
        age: 25,
    };
    let person_mut: Option<PersonMut<'_>> = person_data_mut.downcast_mut::<PersonVariant>();
    assert!(person_mut.is_some());
    let person_mut = person_mut.unwrap();
    assert_eq!(person_mut.name, "Bob");
    *person_mut.age = 26;
    assert_eq!(*person_mut.age, 26);
}

#[test]
fn test_complete_reference_downcasting_functionality() {
    let person = StructVariantData::Person {
        name: "Alice".to_string(),
        age: 30,
    };

    let person_owned = person.clone().downcast::<PersonVariant>().unwrap();
    assert_eq!(person_owned.name, "Alice");
    assert_eq!(person_owned.age, 30);

    let person_ref = person.downcast_ref::<PersonVariant>().unwrap();
    assert_eq!(person_ref.name, "Alice");
    assert_eq!(*person_ref.age, 30);

    let mut person_mut = StructVariantData::Person {
        name: "Bob".to_string(),
        age: 25,
    };
    let person_mut_ref = person_mut.downcast_mut::<PersonVariant>().unwrap();
    assert_eq!(person_mut_ref.name, "Bob");
    *person_mut_ref.age = 26;
    assert_eq!(*person_mut_ref.age, 26);

    let score = StructVariantData::Score(95);
    assert_eq!(score.clone().downcast::<ScoreVariant>(), Some(95));
    assert_eq!(score.downcast_ref::<ScoreVariant>(), Some(&95));

    let mut score_mut = StructVariantData::Score(42);
    assert_eq!(score_mut.downcast_mut::<ScoreVariant>(), Some(&mut 42));

    assert!(person.downcast_ref::<LocationVariant>().is_none());
    assert!(person.downcast_ref::<ScoreVariant>().is_none());
}
