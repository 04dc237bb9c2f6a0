//! The accessor generator: for each variant, the owned / by-reference /
//! by-mutable-reference conversion between the sum type and that variant's
//! payload, keyed by the variant's marker; synthesized record types for
//! struct-shaped variants; and the payload-to-sum-type conversions.

use vstd::prelude::*;
use vstd::string::*;

use crate::ident::concat_names;
use crate::marker::{alloc_wf, key_at, same_scope, MarkerAllocator};
use crate::schema::{variant_names, FieldDecl, SchemaModel, VariantDescriptor, VariantShape};

verus! {

/// Which borrow a synthesized record takes of the original storage.
#[derive(Debug, Clone, Copy, PartialEq, Eq, Structural)]
pub enum BorrowMode {
    /// Fields by value.
    Owned,
    /// One read-only reference per field.
    ByRef,
    /// One mutable reference per field, aliasing the original storage.
    ByMut,
}

/// A record type synthesized for a struct-shaped variant, one per borrow mode;
/// the borrowed modes never reuse the owned record type.
#[derive(Debug, Clone)]
pub struct RecordDecl {
    pub name: String,
    pub mode: BorrowMode,
    pub fields: Vec<FieldDecl>,
}

/// What one accessor hands back when the tag matches.
#[derive(Debug, Clone)]
pub enum AccessTarget {
    /// The unit value: the variant has no payload.
    UnitTarget,
    /// The variant's payload type itself (borrowed or not per accessor form).
    Payload(String),
    /// A synthesized record over the variant's named fields.
    Record(RecordDecl),
}

/// Where a conversion into the sum type starts.
#[derive(Debug, Clone)]
pub enum ConversionFrom {
    /// The bare payload of a tuple-shaped variant.
    FromPayload(String),
    /// The owned record of a struct-shaped variant.
    FromRecord(String),
}

/// The generated operations of one variant, keyed by its marker.
#[derive(Debug, Clone)]
pub struct AccessorDecl {
    pub variant: String,
    pub marker: usize,
    pub owned: AccessTarget,
    pub by_ref: AccessTarget,
    pub by_mut: AccessTarget,
    /// Absent for unit shapes and under `suppress_conversions`.
    pub conversion: Option<ConversionFrom>,
    /// The type bound by the constraint trait; present iff one is configured.
    pub constraint: Option<String>,
}

/// The name of the owned record of a struct-shaped variant.
pub open spec fn owned_record_name(v: Seq<char>) -> Seq<char> {
    v + "Fields"@
}

/// The name of the read-only reference record.
pub open spec fn ref_record_name(v: Seq<char>) -> Seq<char> {
    v + "Ref"@
}

/// The name of the mutable reference record.
pub open spec fn mut_record_name(v: Seq<char>) -> Seq<char> {
    v + "Mut"@
}

/// `ty` is the wrapper `w` applied to one inner type.
pub open spec fn spec_strip(ty: Seq<char>, w: Seq<char>) -> Option<Seq<char>> {
    if ty.len() >= w.len() + 2 && ty.take(w.len() as int + 1) == w + "<"@ && ty.last() == '>' {
        Some(ty.subrange(w.len() as int + 1, ty.len() - 1))
    } else {
        None
    }
}

/// The type the constraint trait is checked on: under a container wrapper,
/// the wrapped inner type; otherwise the payload type as declared.
pub open spec fn constraint_target_of(ty: Seq<char>, w: Option<String>) -> Seq<char> {
    match w {
        Some(wr) => match spec_strip(ty, wr@) {
            Some(inner) => inner,
            None => ty,
        },
        None => ty,
    }
}

/// The record an accessor of the given mode returns for a struct variant.
pub open spec fn record_target_ok(
    t: AccessTarget,
    name: Seq<char>,
    mode: BorrowMode,
    fs: Seq<FieldDecl>,
) -> bool {
    &&& t matches AccessTarget::Record(rd)
    &&& (t->Record_0).name@ == name
    &&& (t->Record_0).mode == mode
    &&& (t->Record_0).fields@ == fs
}

/// The accessor triple, conversion and constraint entry of one variant, as
/// its shape and the type's configuration demand.
pub open spec fn accessor_matches(
    a: AccessorDecl,
    v: VariantDescriptor,
    suppress: bool,
    wrapper: Option<String>,
    constrained: bool,
) -> bool {
    &&& a.variant@ == v.name@
    &&& match v.shape {
        VariantShape::Unit => {
            &&& a.owned is UnitTarget
            &&& a.by_ref is UnitTarget
            &&& a.by_mut is UnitTarget
            &&& a.conversion is None
            &&& a.constraint is Some <==> constrained
            &&& constrained ==> (a.constraint matches Some(c) && c@ == "()"@)
        },
        VariantShape::Tuple(t) => {
            &&& a.owned matches AccessTarget::Payload(x) && x@ == t@
            &&& a.by_ref matches AccessTarget::Payload(x) && x@ == t@
            &&& a.by_mut matches AccessTarget::Payload(x) && x@ == t@
            &&& if suppress {
                a.conversion is None
            } else {
                a.conversion matches Some(ConversionFrom::FromPayload(x)) && x@ == t@
            }
            &&& a.constraint is Some <==> constrained
            &&& constrained ==> (a.constraint matches Some(c) && c@ == constraint_target_of(
                t@,
                wrapper,
            ))
        },
        VariantShape::Struct(fs) => {
            &&& record_target_ok(a.owned, owned_record_name(v.name@), BorrowMode::Owned, fs@)
            &&& record_target_ok(a.by_ref, ref_record_name(v.name@), BorrowMode::ByRef, fs@)
            &&& record_target_ok(a.by_mut, mut_record_name(v.name@), BorrowMode::ByMut, fs@)
            &&& if suppress {
                a.conversion is None
            } else {
                a.conversion matches Some(ConversionFrom::FromRecord(x)) && x@ == owned_record_name(
                    v.name@,
                )
            }
            &&& a.constraint is Some <==> constrained
            &&& constrained ==> (a.constraint matches Some(c) && c@ == owned_record_name(
                v.name@,
            ))
        },
    }
}

/// Splits `Wrapper<Inner>` spellings: `strip_wrapper("Vec<u16>", "Vec")` is
/// `Some("u16")`; anything not of that exact shape is `None`.
pub fn strip_wrapper(ty: &String, w: &String) -> (r: Option<String>)
    ensures
        match r {
            Some(inner) => spec_strip(ty@, w@) matches Some(x) && inner@ == x,
            None => spec_strip(ty@, w@) is None,
        },
{
    let tl = ty.as_str().unicode_len();
    let wl = w.as_str().unicode_len();
    if tl < 2 || tl - 2 < wl {
        return None;
    }
    let prefix = ty.as_str().substring_char(0, wl + 1).to_owned();
    let expected = concat_names(w.as_str(), "<");
    if !(prefix == expected) {
        return None;
    }
    if ty.as_str().get_char(tl - 1) != '>' {
        return None;
    }
    let inner = ty.as_str().substring_char(wl + 1, tl - 1).to_owned();
    proof {
        assert(ty@.take(wl as int + 1) == w@ + "<"@);
        assert(ty@.last() == '>');
        assert(inner@ == ty@.subrange(wl as int + 1, tl as int - 1));
    }
    Some(inner)
}

/// Copies a field list, spelling for spelling.
pub fn clone_fields(fs: &Vec<FieldDecl>) -> (r: Vec<FieldDecl>)
    ensures
        r@ == fs@,
{
    let n = fs.len();
    let mut out: Vec<FieldDecl> = Vec::new();
    let mut i: usize = 0;
    while i < n
        invariant
            0 <= i <= n,
            n == fs@.len(),
            out@ == fs@.take(i as int),
        decreases n - i,
    {
        let f = FieldDecl { name: fs[i].name.clone(), ty: fs[i].ty.clone() };
        proof {
            assert(f == fs@[i as int]);
        }
        out.push(f);
        proof {
            assert(out@ =~= fs@.take(i as int + 1));
        }
        i += 1;
    }
    proof {
        assert(fs@.take(n as int) =~= fs@);
    }
    out
}

/// Generates the accessor triple of every variant, in declaration order, each
/// keyed by the marker the allocator hands out for `(token scope, name)`;
/// conversions unless suppressed; constraint entries iff a constraint trait is
/// configured.
pub fn generate_accessors(model: &SchemaModel, alloc: &mut MarkerAllocator) -> (r: Vec<
    AccessorDecl,
>)
    requires
        alloc_wf(old(alloc).entries@),
    ensures
        alloc_wf(final(alloc).entries@),
        r@.len() == model.variants@.len(),
        forall|i: int|
            0 <= i < r@.len() ==> accessor_matches(
                #[trigger] r@[i],
                model.variants@[i],
                model.suppress_conversions,
                model.container_wrapper,
                model.constraint_trait is Some,
            ),
        forall|i: int|
            0 <= i < r@.len() ==> key_at(
                final(alloc).entries@,
                (#[trigger] r@[i]).marker as int,
                model.token_scope,
                model.variants@[i].name@,
            ),
        final(alloc).entries@.len() <= old(alloc).entries@.len() + model.variants@.len(),
        forall|k: int|
            0 <= k < old(alloc).entries@.len() ==> final(alloc).entries@[k] == old(
                alloc,
            ).entries@[k],
        forall|k: int|
            old(alloc).entries@.len() <= k < final(alloc).entries@.len() ==> same_scope(
                (#[trigger] final(alloc).entries@[k]).scope,
                model.token_scope,
            ) && variant_names(model.variants@).contains(final(alloc).entries@[k].variant@),
{
    let ghost entries0 = old(alloc).entries@;
    let n = model.variants.len();
    let mut out: Vec<AccessorDecl> = Vec::new();
    let mut i: usize = 0;
    while i < n
        invariant
            0 <= i <= n,
            n == model.variants@.len(),
            alloc_wf(alloc.entries@),
            out@.len() == i,
            forall|j: int|
                0 <= j < i ==> accessor_matches(
                    #[trigger] out@[j],
                    model.variants@[j],
                    model.suppress_conversions,
                    model.container_wrapper,
                    model.constraint_trait is Some,
                ),
            forall|j: int|
                0 <= j < i ==> key_at(
                    alloc.entries@,
                    (#[trigger] out@[j]).marker as int,
                    model.token_scope,
                    model.variants@[j].name@,
                ),
            entries0.len() <= alloc.entries@.len() <= entries0.len() + i,
            forall|k: int| 0 <= k < entries0.len() ==> alloc.entries@[k] == entries0[k],
            forall|k: int|
                entries0.len() <= k < alloc.entries@.len() ==> same_scope(
                    (#[trigger] alloc.entries@[k]).scope,
                    model.token_scope,
                ) && variant_names(model.variants@).contains(alloc.entries@[k].variant@),
        decreases n - i,
    {
        let v = &model.variants[i];
        let ghost entries_before = alloc.entries@;
        let marker = alloc.assign(&model.token_scope, &v.name);
        proof {
            assert forall|k: int|
                entries0.len() <= k < alloc.entries@.len() implies same_scope(
                (#[trigger] alloc.entries@[k]).scope,
                model.token_scope,
            ) && variant_names(model.variants@).contains(alloc.entries@[k].variant@) by {
                if k < entries_before.len() {
                    assert(alloc.entries@[k] == entries_before[k]);
                } else {
                    // a single fresh entry, carrying the key just assigned
                    assert(k == entries_before.len() && marker as int == k);
                    assert(key_at(alloc.entries@, k, model.token_scope, v.name@));
                    assert(variant_names(model.variants@)[i as int] == v.name@);
                }
            }
        }
        let constrained = model.constraint_trait.is_some();
        let decl = match &v.shape {
            VariantShape::Unit => AccessorDecl {
                variant: v.name.clone(),
                marker,
                owned: AccessTarget::UnitTarget,
                by_ref: AccessTarget::UnitTarget,
                by_mut: AccessTarget::UnitTarget,
                conversion: None,
                constraint: if constrained {
                    Some("()".to_owned())
                } else {
                    None
                },
            },
            VariantShape::Tuple(t) => AccessorDecl {
                variant: v.name.clone(),
                marker,
                owned: AccessTarget::Payload(t.clone()),
                by_ref: AccessTarget::Payload(t.clone()),
                by_mut: AccessTarget::Payload(t.clone()),
                conversion: if model.suppress_conversions {
                    None
                } else {
                    Some(ConversionFrom::FromPayload(t.clone()))
                },
                constraint: if constrained {
                    match &model.container_wrapper {
                        Some(w) => match strip_wrapper(t, w) {
                            Some(inner) => Some(inner),
                            None => Some(t.clone()),
                        },
                        None => Some(t.clone()),
                    }
                } else {
                    None
                },
            },
            VariantShape::Struct(fs) => AccessorDecl {
                variant: v.name.clone(),
                marker,
                owned: AccessTarget::Record(
                    RecordDecl {
                        name: concat_names(v.name.as_str(), "Fields"),
                        mode: BorrowMode::Owned,
                        fields: clone_fields(fs),
                    },
                ),
                by_ref: AccessTarget::Record(
                    RecordDecl {
                        name: concat_names(v.name.as_str(), "Ref"),
                        mode: BorrowMode::ByRef,
                        fields: clone_fields(fs),
                    },
                ),
                by_mut: AccessTarget::Record(
                    RecordDecl {
                        name: concat_names(v.name.as_str(), "Mut"),
                        mode: BorrowMode::ByMut,
                        fields: clone_fields(fs),
                    },
                ),
                conversion: if model.suppress_conversions {
                    None
                } else {
                    Some(ConversionFrom::FromRecord(concat_names(v.name.as_str(), "Fields")))
                },
                constraint: if constrained {
                    Some(concat_names(v.name.as_str(), "Fields"))
                } else {
                    None
                },
            },
        };
        proof {
            assert(accessor_matches(
                decl,
                model.variants@[i as int],
                model.suppress_conversions,
                model.container_wrapper,
                model.constraint_trait is Some,
            ));
        }
        out.push(decl);
        proof {
            assert forall|j: int| 0 <= j < i + 1 implies key_at(
                alloc.entries@,
                (#[trigger] out@[j]).marker as int,
                model.token_scope,
                model.variants@[j].name@,
            ) by {
                if j < i {
                    assert(key_at(
                        entries_before,
                        out@[j].marker as int,
                        model.token_scope,
                        model.variants@[j].name@,
                    ));
                    assert(alloc.entries@[out@[j].marker as int] == entries_before[out@[
                    j].marker as int]);
                }
            }
        }
        i += 1;
    }
    out
}

} // verus!
