//! The meaning of the generated operations, over modeled sum-type values: a
//! value is a tag plus a payload, an accessor returns the payload exactly
//! when the tag matches its variant, a mutable accessor writes through to the
//! original storage, and a dispatch construct selects the matching arm.

use vstd::prelude::*;

use crate::dispatch::{DispatchArm, MatcherRule};
use crate::grouped::GroupedDispatchConstruct;
use crate::schema::{names_unique, variant_names, FieldDecl, SchemaModel, VariantShape};

verus! {

/// A field's value inside a modeled struct-shaped payload.
#[derive(Debug, Clone, PartialEq, Eq)]
pub enum ScalarValue {
    IntScalar(i64),
    StrScalar(String),
}

/// One named field of a modeled record payload.
#[derive(Debug, Clone, PartialEq, Eq)]
pub struct FieldValue {
    pub name: String,
    pub value: ScalarValue,
}

/// A modeled payload: nothing, one value, or named fields in order.
#[derive(Debug, Clone, PartialEq, Eq)]
pub enum PayloadValue {
    UnitPayload,
    IntPayload(i64),
    StrPayload(String),
    RecordPayload(Vec<FieldValue>),
}

/// A modeled sum-type value: which type it belongs to, which variant is
/// active, and that variant's payload.
#[derive(Debug, Clone, PartialEq, Eq)]
pub struct SumValue {
    pub ty_name: String,
    pub tag: String,
    pub payload: PayloadValue,
}

/// The names of a record payload's fields, in order.
pub open spec fn record_field_names(fvs: Seq<FieldValue>) -> Seq<Seq<char>> {
    fvs.map_values(|f: FieldValue| f.name@)
}

/// The payload fits the variant's declared shape.
pub open spec fn shape_admits(shape: VariantShape, p: PayloadValue) -> bool {
    match shape {
        VariantShape::Unit => p is UnitPayload,
        VariantShape::Tuple(_) => p is IntPayload || p is StrPayload,
        VariantShape::Struct(fs) => p matches PayloadValue::RecordPayload(fvs)
            && record_field_names(fvs@) == crate::dispatch::field_names(fs@),
    }
}

/// What the owned accessor of `tag` returns on `v`: the payload exactly when
/// the runtime tag matches, an absent result otherwise — absence is a normal
/// outcome, never an error.
pub open spec fn spec_downcast(v: SumValue, tag: Seq<char>) -> Option<PayloadValue> {
    if v.tag@ == tag {
        Some(v.payload)
    } else {
        None
    }
}

/// What writing `p` through the mutable accessor of `tag` leaves behind:
/// the payload replaced when the tag matches, the value untouched otherwise.
pub open spec fn spec_write(v: SumValue, tag: Seq<char>, p: PayloadValue) -> SumValue {
    if v.tag@ == tag {
        SumValue { ty_name: v.ty_name, tag: v.tag, payload: p }
    } else {
        v
    }
}

/// What the cross-type combining routine returns: both values extracted
/// through the shared variant's accessor and added, when both tags match and
/// both payloads are numeric and the sum fits.
pub open spec fn spec_combine(a: SumValue, b: SumValue, tag: Seq<char>) -> Option<i64> {
    if a.tag@ == tag && b.tag@ == tag {
        match (a.payload, b.payload) {
            (PayloadValue::IntPayload(x), PayloadValue::IntPayload(y)) => if i64::MIN <= x + y
                <= i64::MAX {
                Some((x + y) as i64)
            } else {
                None
            },
            _ => None,
        }
    } else {
        None
    }
}

/// The index of the first arm matching `tag`; the arm count if none does.
pub open spec fn arm_index_from(arms: Seq<DispatchArm>, tag: Seq<char>, i: int) -> int
    decreases arms.len() - i
        when 0 <= i <= arms.len()
{
    if i >= arms.len() {
        arms.len() as int
    } else if arms[i].variant@ == tag {
        i
    } else {
        arm_index_from(arms, tag, i + 1)
    }
}

pub open spec fn arm_index_of(arms: Seq<DispatchArm>, tag: Seq<char>) -> int {
    arm_index_from(arms, tag, 0)
}

/// Constructs the sum type's value for one variant: the modeled form of
/// writing `Enum::V(payload)`. Absent when the variant is unknown or the
/// payload does not fit its shape.
pub fn make_value(model: &SchemaModel, variant: &String, payload: PayloadValue) -> (r: Option<
    SumValue,
>)
    requires
        names_unique(variant_names(model.variants@)),
    ensures
        r is Some <==> variant_names(model.variants@).contains(variant@) && (exists|i: int|
            0 <= i < model.variants@.len() && (#[trigger] model.variants@[i]).name@ == variant@
                && shape_admits(model.variants@[i].shape, payload)),
        r matches Some(v) ==> v.ty_name == model.ty_name && v.tag == *variant && v.payload
            == payload,
{
    let n = model.variants.len();
    let mut i: usize = 0;
    while i < n
        invariant
            0 <= i <= n,
            n == model.variants@.len(),
            names_unique(variant_names(model.variants@)),
            forall|j: int| 0 <= j < i ==> (#[trigger] model.variants@[j]).name@ != variant@,
        decreases n - i,
    {
        if model.variants[i].name == *variant {
            if check_shape_admits(&model.variants[i].shape, &payload) {
                proof {
                    assert(variant_names(model.variants@)[i as int] == variant@);
                }
                return Some(
                    SumValue { ty_name: model.ty_name.clone(), tag: variant.clone(), payload },
                );
            } else {
                proof {
                    let ghost ns = variant_names(model.variants@);
                    if exists|j: int|
                        0 <= j < model.variants@.len() && (#[trigger] model.variants@[j]).name@
                            == variant@ && shape_admits(model.variants@[j].shape, payload) {
                        let j = choose|j: int|
                            0 <= j < model.variants@.len() && (#[trigger] model.variants@[j]).name@
                                == variant@ && shape_admits(model.variants@[j].shape, payload);
                        assert(ns[j] == variant@);
                        assert(ns[i as int] == variant@);
                        // the name is unique, so j is this very variant
                        assert(j == i);
                        assert(false);
                    }
                }
                return None;
            }
        }
        i += 1;
    }
    proof {
        if variant_names(model.variants@).contains(variant@) {
            let j = choose|j: int|
                0 <= j < variant_names(model.variants@).len() && variant_names(model.variants@)[j]
                    == variant@;
            assert(model.variants@[j].name@ == variant@);
            assert(false);
        }
    }
    None
}

/// Decides whether a payload fits a shape.
pub fn check_shape_admits(shape: &VariantShape, p: &PayloadValue) -> (r: bool)
    ensures
        r == shape_admits(*shape, *p),
{
    match (shape, p) {
        (VariantShape::Unit, PayloadValue::UnitPayload) => true,
        (VariantShape::Tuple(_), PayloadValue::IntPayload(_)) => true,
        (VariantShape::Tuple(_), PayloadValue::StrPayload(_)) => true,
        (VariantShape::Struct(fs), PayloadValue::RecordPayload(fvs)) => field_names_match(
            fs,
            fvs,
        ),
        _ => false,
    }
}

/// Decides whether a record payload carries exactly the declared field names,
/// in order.
pub fn field_names_match(fs: &Vec<FieldDecl>, fvs: &Vec<FieldValue>) -> (r: bool)
    ensures
        r == (record_field_names(fvs@) == crate::dispatch::field_names(fs@)),
{
    let fcount = fs.len();
    if fvs.len() != fcount {
        proof {
            assert(record_field_names(fvs@).len() != crate::dispatch::field_names(fs@).len());
        }
        return false;
    }
    let mut i: usize = 0;
    while i < fcount
        invariant
            0 <= i <= fcount,
            fcount == fs@.len(),
            fcount == fvs@.len(),
            forall|j: int| 0 <= j < i ==> (#[trigger] fvs@[j]).name@ == fs@[j].name@,
        decreases fcount - i,
    {
        if !(fvs[i].name == fs[i].name) {
            proof {
                assert(record_field_names(fvs@)[i as int] != crate::dispatch::field_names(
                    fs@,
                )[i as int]);
            }
            return false;
        }
        i += 1;
    }
    proof {
        assert(record_field_names(fvs@) =~= crate::dispatch::field_names(fs@));
    }
    true
}

/// The owned accessor: consumes the value; the payload when the tag matches,
/// absent otherwise.
pub fn downcast_owned(v: SumValue, variant: &String) -> (r: Option<PayloadValue>)
    ensures
        r == spec_downcast(v, variant@),
{
    if v.tag == *variant {
        Some(v.payload)
    } else {
        None
    }
}

/// The by-reference accessor: a read-only borrow of the payload when the tag
/// matches, absent otherwise; the value itself is untouched.
pub fn downcast_ref<'a>(v: &'a SumValue, variant: &String) -> (r: Option<&'a PayloadValue>)
    ensures
        r is Some <==> v.tag@ == variant@,
        r matches Some(p) ==> *p == v.payload,
{
    if v.tag == *variant {
        Some(&v.payload)
    } else {
        None
    }
}

/// The by-mutable-reference accessor, write side: replaces the payload when
/// the tag matches — the write lands in the original value's storage — and
/// leaves the value untouched otherwise. Returns whether the tag matched.
pub fn write_payload(v: &mut SumValue, variant: &String, p: PayloadValue) -> (matched: bool)
    ensures
        matched == (old(v).tag@ == variant@),
        *final(v) == spec_write(*old(v), variant@, p),
{
    if v.tag == *variant {
        v.payload = p;
        true
    } else {
        false
    }
}

/// The index of the first field named `f`; the field count if none is.
pub open spec fn field_index_of(fvs: Seq<FieldValue>, f: Seq<char>) -> int
    decreases fvs.len(),
{
    if fvs.len() == 0 {
        0
    } else if fvs[0].name@ == f {
        0
    } else {
        1 + field_index_of(fvs.skip(1), f)
    }
}

/// The first field named `f` is at `field_index_of`, and fields before it
/// have other names; past-the-end means no field is named `f`.
proof fn lemma_field_index(fvs: Seq<FieldValue>, f: Seq<char>)
    ensures
        0 <= field_index_of(fvs, f) <= fvs.len(),
        forall|j: int| 0 <= j < field_index_of(fvs, f) ==> (#[trigger] fvs[j]).name@ != f,
        field_index_of(fvs, f) < fvs.len() ==> fvs[field_index_of(fvs, f)].name@ == f,
    decreases fvs.len(),
{
    if fvs.len() > 0 && fvs[0].name@ != f {
        lemma_field_index(fvs.skip(1), f);
        assert forall|j: int| 0 <= j < field_index_of(fvs, f) implies (#[trigger] fvs[j]).name@
            != f by {
            if j > 0 {
                assert(fvs.skip(1)[j - 1].name@ != f);
            }
        }
        if field_index_of(fvs, f) < fvs.len() {
            assert(fvs.skip(1)[field_index_of(fvs, f) - 1].name@ == f);
        }
    }
}

/// Finds the position of the first field of this name.
pub fn find_field(fvs: &Vec<FieldValue>, field: &String) -> (r: Option<usize>)
    ensures
        r matches Some(i) ==> i == field_index_of(fvs@, field@) && i < fvs@.len(),
        r is None ==> field_index_of(fvs@, field@) == fvs@.len(),
{
    let n = fvs.len();
    let mut i: usize = 0;
    while i < n
        invariant
            0 <= i <= n,
            n == fvs@.len(),
            forall|j: int| 0 <= j < i ==> (#[trigger] fvs@[j]).name@ != field@,
        decreases n - i,
    {
        if fvs[i].name == *field {
            proof {
                lemma_field_index_unique(fvs@, field@, i as int);
            }
            return Some(i);
        }
        i += 1;
    }
    proof {
        lemma_field_index(fvs@, field@);
    }
    None
}

/// The by-mutable-reference accessor for a struct-shaped variant, one field:
/// writes the scalar through the field's mutable reference, so the write is
/// observed by the original value. Returns whether tag and field matched.
pub fn write_field(
    v: &mut SumValue,
    variant: &String,
    field: &String,
    s: ScalarValue,
) -> (matched: bool)
    ensures
        matched == (old(v).tag@ == variant@ && (old(v).payload matches
            PayloadValue::RecordPayload(fvs) && field_index_of(fvs@, field@) < fvs@.len())),
        !matched ==> *final(v) == *old(v),
        matched ==> {
            &&& final(v).ty_name == old(v).ty_name
            &&& final(v).tag == old(v).tag
            &&& old(v).payload matches PayloadValue::RecordPayload(fvs1)
            &&& final(v).payload matches PayloadValue::RecordPayload(fvs2)
            &&& (old(v).payload matches PayloadValue::RecordPayload(fvs1)
                && final(v).payload matches PayloadValue::RecordPayload(fvs2) ==> {
                let fi = field_index_of(fvs1@, field@);
                &&& fvs2@.len() == fvs1@.len()
                &&& (forall|j: int| 0 <= j < fvs1@.len() && j != fi ==> fvs2@[j] == fvs1@[j])
                &&& fvs2@[fi].name == fvs1@[fi].name
                &&& fvs2@[fi].value == s
            })
        },
{
    if !(v.tag == *variant) {
        return false;
    }
    let hit: Option<usize> = match &v.payload {
        PayloadValue::RecordPayload(fvs) => find_field(fvs, field),
        _ => None,
    };
    match hit {
        Some(i) => {
            match &mut v.payload {
                PayloadValue::RecordPayload(fvs) => {
                    let kept = fvs[i].name.clone();
                    fvs.set(i, FieldValue { name: kept, value: s });
                },
                _ => {
                    proof {
                        assert(false);
                    }
                },
            }
            true
        },
        None => false,
    }
}

/// A scan that stops at the first field of the name pins `field_index_of`.
proof fn lemma_field_index_unique(fvs: Seq<FieldValue>, f: Seq<char>, i: int)
    requires
        0 <= i < fvs.len(),
        fvs[i].name@ == f,
        forall|j: int| 0 <= j < i ==> (#[trigger] fvs[j]).name@ != f,
    ensures
        field_index_of(fvs, f) == i,
    decreases fvs.len(),
{
    if i > 0 {
        assert forall|j: int| 0 <= j < i - 1 implies (#[trigger] fvs.skip(1)[j]).name@ != f by {
            assert(fvs[j + 1].name@ != f);
        }
        assert(fvs.skip(1)[i - 1].name@ == f);
        lemma_field_index_unique(fvs.skip(1), f, i - 1);
    }
}

/// Reads one field of a struct-shaped payload through the by-reference
/// accessor's record.
pub fn read_field<'a>(v: &'a SumValue, variant: &String, field: &String) -> (r: Option<
    &'a ScalarValue,
>)
    ensures
        r is Some <==> v.tag@ == variant@ && (v.payload matches PayloadValue::RecordPayload(fvs)
            && field_index_of(fvs@, field@) < fvs@.len()),
        r matches Some(s) ==> v.payload matches PayloadValue::RecordPayload(fvs) && *s
            == fvs@[field_index_of(fvs@, field@)].value,
{
    if !(v.tag == *variant) {
        return None;
    }
    match &v.payload {
        PayloadValue::RecordPayload(fvs) => match find_field(fvs, field) {
            Some(i) => Some(&fvs[i].value),
            None => None,
        },
        _ => None,
    }
}

/// Selects the arm of the rule whose variant equals the value's tag: the one
/// the generated match would run. Exactly one arm matches when the rule was
/// generated from the value's own sum type.
pub fn eval_dispatch(rule: &MatcherRule, v: &SumValue) -> (r: Option<usize>)
    ensures
        r matches Some(k) ==> 0 <= k < rule.arms@.len() && rule.arms@[k as int].variant@ == v.tag@
            && k == arm_index_of(rule.arms@, v.tag@),
        r is None ==> forall|j: int|
            0 <= j < rule.arms@.len() ==> (#[trigger] rule.arms@[j]).variant@ != v.tag@,
{
    let n = rule.arms.len();
    let mut i: usize = 0;
    while i < n
        invariant
            0 <= i <= n,
            n == rule.arms@.len(),
            forall|j: int| 0 <= j < i ==> (#[trigger] rule.arms@[j]).variant@ != v.tag@,
        decreases n - i,
    {
        if rule.arms[i].variant == v.tag {
            proof {
                lemma_arm_index_unique(rule.arms@, v.tag@, i as int);
            }
            return Some(i);
        }
        i += 1;
    }
    None
}

pub proof fn lemma_arm_index_unique(arms: Seq<DispatchArm>, tag: Seq<char>, i: int)
    requires
        0 <= i < arms.len(),
        arms[i].variant@ == tag,
        forall|j: int| 0 <= j < i ==> (#[trigger] arms[j]).variant@ != tag,
    ensures
        arm_index_of(arms, tag) == i,
{
    lemma_arm_index_step(arms, tag, 0, i);
}

proof fn lemma_arm_index_step(arms: Seq<DispatchArm>, tag: Seq<char>, s: int, i: int)
    requires
        0 <= s <= i < arms.len(),
        arms[i].variant@ == tag,
        forall|j: int| s <= j < i ==> (#[trigger] arms[j]).variant@ != tag,
    ensures
        arm_index_from(arms, tag, s) == i,
    decreases i - s,
{
    if s < i {
        lemma_arm_index_step(arms, tag, s + 1, i);
    }
}

/// Selects the grouped construct's arm for the value's tag and hands back
/// that arm's index: its fragment is the one of the group owning the variant.
pub fn eval_grouped(c: &GroupedDispatchConstruct, v: &SumValue) -> (r: Option<usize>)
    ensures
        r matches Some(k) ==> 0 <= k < c.arms@.len() && c.arms@[k as int].arm.variant@ == v.tag@
            && (forall|j: int| 0 <= j < k ==> (#[trigger] c.arms@[j]).arm.variant@ != v.tag@),
        r is None ==> forall|j: int|
            0 <= j < c.arms@.len() ==> (#[trigger] c.arms@[j]).arm.variant@ != v.tag@,
{
    let n = c.arms.len();
    let mut i: usize = 0;
    while i < n
        invariant
            0 <= i <= n,
            n == c.arms@.len(),
            forall|j: int| 0 <= j < i ==> (#[trigger] c.arms@[j]).arm.variant@ != v.tag@,
        decreases n - i,
    {
        if c.arms[i].arm.variant == v.tag {
            return Some(i);
        }
        i += 1;
    }
    None
}

/// Extracts both payloads through the shared variant's owned accessor and
/// adds them: the cross-type correlation routine. Defined exactly when both
/// tags name the shared variant, both payloads are numeric, and the sum fits.
pub fn combine_shared(a: &SumValue, b: &SumValue, variant: &String) -> (r: Option<i64>)
    ensures
        r == spec_combine(*a, *b, variant@),
{
    if !(a.tag == *variant) || !(b.tag == *variant) {
        return None;
    }
    match (&a.payload, &b.payload) {
        (PayloadValue::IntPayload(x), PayloadValue::IntPayload(y)) => x.checked_add(*y),
        _ => None,
    }
}

} // verus!
