//! The laws the generated operations obey, stated once and proved for every
//! input: round trips through construction and owned access, discrimination
//! between distinct tags, visibility of writes through mutable accessors,
//! exhaustiveness of dispatch, routing of grouped dispatch, and marker
//! agreement across sum types sharing a token scope.

use vstd::prelude::*;

use crate::dispatch::{arm_matches, MatcherRule};
use crate::grouped::{frag_index_of, grouped_arm_ok, Fragment, GroupedDispatchConstruct};
use crate::grouping::GroupPartition;
use crate::marker::{alloc_wf, key_at, same_scope, MarkerEntry};
use crate::schema::{names_unique, variant_names, TokenScope, VariantDescriptor};
use crate::semantics::{
    arm_index_of, field_index_of, lemma_arm_index_unique, spec_combine, spec_downcast, spec_write,
    FieldValue, PayloadValue, ScalarValue, SumValue,
};

verus! {

/// Round trip: a value constructed via a variant with payload `p`, handed to
/// that same variant's owned accessor, gives back `p` unchanged.
pub proof fn lemma_round_trip(v: SumValue, variant: String, p: PayloadValue)
    requires
        v.tag == variant,
        v.payload == p,
    ensures
        spec_downcast(v, variant@) == Some(p),
{
}

/// Tag discrimination: a value whose tag differs from `w` gives an absent
/// result from `w`'s owned accessor, and `w`'s mutable accessor leaves the
/// value untouched whatever is written through it.
pub proof fn lemma_tag_discrimination(v: SumValue, w: Seq<char>, p: PayloadValue)
    requires
        v.tag@ != w,
    ensures
        spec_downcast(v, w) is None,
        spec_write(v, w, p) == v,
{
}

/// Mutation visibility: writing a payload through the active variant's
/// mutable accessor and then reading through the same variant's accessor
/// observes the write.
pub proof fn lemma_mutation_visibility(v: SumValue, variant: Seq<char>, p: PayloadValue)
    requires
        v.tag@ == variant,
    ensures
        spec_downcast(spec_write(v, variant, p), variant) == Some(p),
{
}

/// Mutation visibility for one field of a struct-shaped variant: after a
/// write that replaces field `field`'s value with `s` and touches nothing
/// else — the shape `write_field` leaves behind — looking the field up again
/// lands on the same position and reads `s`.
pub proof fn lemma_field_mutation_visible(
    f1: Seq<FieldValue>,
    f2: Seq<FieldValue>,
    field: Seq<char>,
    s: ScalarValue,
)
    requires
        0 <= field_index_of(f1, field) < f1.len(),
        f2.len() == f1.len(),
        forall|j: int| 0 <= j < f1.len() && j != field_index_of(f1, field) ==> f2[j] == f1[j],
        f2[field_index_of(f1, field)].name == f1[field_index_of(f1, field)].name,
        f2[field_index_of(f1, field)].value == s,
    ensures
        field_index_of(f2, field) == field_index_of(f1, field),
        f2[field_index_of(f2, field)].value == s,
{
    assert forall|j: int| 0 <= j < f1.len() implies (#[trigger] f2[j]).name@ == f1[j].name@ by {
        if j != field_index_of(f1, field) {
            assert(f2[j] == f1[j]);
        }
    }
    lemma_field_index_same_names(f1, f2, field);
}

/// Two field lists that agree on every field name agree on where any name
/// first occurs.
pub proof fn lemma_field_index_same_names(f1: Seq<FieldValue>, f2: Seq<FieldValue>, field: Seq<
    char,
>)
    requires
        f2.len() == f1.len(),
        forall|j: int| 0 <= j < f1.len() ==> (#[trigger] f2[j]).name@ == f1[j].name@,
    ensures
        field_index_of(f2, field) == field_index_of(f1, field),
    decreases f1.len(),
{
    if f1.len() > 0 {
        assert(f2[0].name@ == f1[0].name@);
        if f1[0].name@ != field {
            assert forall|j: int| 0 <= j < f1.skip(1).len() implies (#[trigger] f2.skip(1)[
            j]).name@ == f1.skip(1)[j].name@ by {
                assert(f2[j + 1].name@ == f1[j + 1].name@);
            }
            lemma_field_index_same_names(f1.skip(1), f2.skip(1), field);
        }
    }
}

/// Exhaustiveness: a dispatch rule generated for a sum type with distinct
/// variant names selects, for a value of variant `i`, exactly arm `i` — one
/// arm per variant, no catch-all anywhere.
pub proof fn lemma_dispatch_exhaustive(
    rule: MatcherRule,
    vs: Seq<VariantDescriptor>,
    wrapper: Option<String>,
    i: int,
)
    requires
        crate::dispatch::rule_matches(rule, vs, wrapper),
        names_unique(variant_names(vs)),
        0 <= i < vs.len(),
    ensures
        rule.arms@[i].variant@ == vs[i].name@,
        arm_index_of(rule.arms@, vs[i].name@) == i,
{
    assert(arm_matches(rule.arms@[i], vs[i], rule.facets, wrapper, crate::dispatch::all_unit(vs),
        rule.suffix));
    assert forall|j: int| 0 <= j < i implies (#[trigger] rule.arms@[j]).variant@ != vs[
    i].name@ by {
        assert(arm_matches(rule.arms@[j], vs[j], rule.facets, wrapper, crate::dispatch::all_unit(
            vs,
        ), rule.suffix));
        assert(variant_names(vs)[j] == vs[j].name@);
        assert(variant_names(vs)[i] == vs[i].name@);
    }
    lemma_arm_index_unique(rule.arms@, vs[i].name@, i);
}

/// Grouped routing: in a grouped construct built over a validated partition,
/// a value of variant `i` selects arm `i`, whose fragment is the one supplied
/// for the group that owns variant `i`.
pub proof fn lemma_grouped_routing(
    c: GroupedDispatchConstruct,
    p: GroupPartition,
    fs: Seq<Fragment>,
    vs: Seq<VariantDescriptor>,
    wrapper: Option<String>,
    i: int,
)
    requires
        c.arms@.len() == vs.len(),
        forall|k: int|
            0 <= k < vs.len() ==> arm_matches(
                (#[trigger] c.arms@[k]).arm,
                vs[k],
                c.facets,
                wrapper,
                crate::dispatch::all_unit(vs),
                None,
            ),
        forall|k: int| 0 <= k < vs.len() ==> grouped_arm_ok(c, p, fs, k),
        names_unique(variant_names(vs)),
        0 <= i < vs.len(),
    ensures
        c.arms@[i].arm.variant@ == vs[i].name@,
        forall|j: int| 0 <= j < i ==> (#[trigger] c.arms@[j]).arm.variant@ != vs[i].name@,
        c.arms@[i].group@ == p.assignment@[i]@,
        0 <= frag_index_of(fs, p.assignment@[i]@) < fs.len(),
        c.arms@[i].fragment@ == fs[frag_index_of(fs, p.assignment@[i]@)].text@,
{
    assert(arm_matches(c.arms@[i].arm, vs[i], c.facets, wrapper, crate::dispatch::all_unit(vs),
        None));
    assert forall|j: int| 0 <= j < i implies (#[trigger] c.arms@[j]).arm.variant@ != vs[
    i].name@ by {
        assert(arm_matches(c.arms@[j].arm, vs[j], c.facets, wrapper, crate::dispatch::all_unit(vs),
            None));
        assert(variant_names(vs)[j] == vs[j].name@);
        assert(variant_names(vs)[i] == vs[i].name@);
    }
    assert(grouped_arm_ok(c, p, fs, i));
}

/// Marker agreement: within one well-formed scope map, two markers allocated
/// under the same scope spelling for the same variant name are one marker —
/// two sum types naming one shared scope correlate through it.
pub proof fn lemma_marker_agreement(
    entries: Seq<MarkerEntry>,
    s1: TokenScope,
    s2: TokenScope,
    v: Seq<char>,
    i: int,
    j: int,
)
    requires
        alloc_wf(entries),
        same_scope(s1, s2),
        key_at(entries, i, s1, v),
        key_at(entries, j, s2, v),
    ensures
        i == j,
{
    assert(same_scope(entries[i].scope, entries[j].scope));
    if i < j {
        assert(false);
    }
    if j < i {
        assert(same_scope(entries[j].scope, entries[i].scope));
        assert(false);
    }
}

/// Cross-type correlation: two values of unrelated sum types, each carrying
/// the shared variant with a numeric payload, are combined by extracting both
/// payloads through the shared marker's accessor and adding them.
pub proof fn lemma_cross_correlation(a: SumValue, b: SumValue, shared: Seq<char>, x: i64, y: i64)
    requires
        a.tag@ == shared,
        b.tag@ == shared,
        a.payload == PayloadValue::IntPayload(x),
        b.payload == PayloadValue::IntPayload(y),
        i64::MIN <= x + y <= i64::MAX,
    ensures
        spec_downcast(a, shared) == Some(PayloadValue::IntPayload(x)),
        spec_downcast(b, shared) == Some(PayloadValue::IntPayload(y)),
        spec_combine(a, b, shared) == Some((x + y) as i64),
{
}

} // verus!
