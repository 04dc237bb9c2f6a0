//! The dispatch generator: the plain per-variant dispatch construct. One arm
//! per variant in declaration order — exhaustiveness is inherited from the sum
//! type, never a catch-all — with the requested local type aliases and payload
//! binding generated into every arm.

use vstd::prelude::*;

use crate::accessor::{constraint_target_of, owned_record_name, strip_wrapper};
use crate::marker::marker_name_of;
use crate::schema::{FieldDecl, SchemaModel, VariantDescriptor, VariantShape};

verus! {

/// The independent boolean facets a dispatch call site may combine: name the
/// payload, expose the source payload type, expose the marker type, project a
/// destination type or a constraint type through a second sum type.
#[derive(Debug, Clone, Copy, PartialEq, Eq, Structural)]
pub struct DispatchFacets {
    /// Bind the payload under the inner name.
    pub include_inner: bool,
    /// Declare a local alias for the arm's source payload type.
    pub include_src_ty: bool,
    /// The source payload alias takes a generic parameter.
    pub src_type_generic: bool,
    /// Declare a local alias projecting the destination payload type.
    pub include_dest: bool,
    /// The destination aliases take generic parameters.
    pub dest_type_generic: bool,
    /// Declare a local alias projecting the constraint-associated type.
    pub dest_constraint: bool,
}

/// The capture names a matcher rule binds.
#[derive(Debug, Clone, Copy, PartialEq, Eq)]
pub enum BindingBase {
    /// The payload binding.
    Inner,
    /// The marker type alias.
    TokenTy,
    /// The source payload type alias.
    SrcTy,
    /// The generic parameter of the source payload alias.
    SrcGen,
    /// The destination sum type.
    DestEnum,
    /// The destination payload type alias.
    DestTy,
    /// The generic parameter of the destination alias.
    DestGen,
    /// The constraint type alias.
    ConstraintTy,
    /// The generic parameter of the constraint alias.
    ConstraintGen,
    /// The caller's code fragment.
    Body,
    /// The sum type under dispatch.
    EnumName,
}

/// A capture name with an optional numeric suffix, so that rules nested into
/// one another keep their bindings apart.
#[derive(Debug, Clone, Copy, PartialEq, Eq)]
pub struct BindingName {
    pub base: BindingBase,
    pub suffix: Option<u8>,
}

/// How one arm's pattern matches its variant.
#[derive(Debug, Clone, PartialEq, Eq)]
pub enum ArmPattern {
    /// A unit variant, no payload to mention.
    UnitPattern,
    /// A tuple variant with the payload left unnamed.
    IgnorePayload,
    /// A tuple variant with the payload bound under the inner name.
    BindPayload(BindingName),
    /// A struct variant with every field bound, in declared order.
    BindFields(Vec<String>),
    /// A struct variant with the fields left unnamed.
    IgnoreFields,
}

/// A statement the arm runs before the caller's fragment.
#[derive(Debug, Clone, PartialEq, Eq)]
pub enum PreBinding {
    /// Binds the unit value under the inner name, for a unit variant whose
    /// call site asked for a payload binding.
    UnitInner(BindingName),
    /// Assembles the owned record from the bound fields under the inner name.
    AssembleRecord { binding: BindingName, record: String, fields: Vec<String> },
}

/// What a local type alias resolves to.
#[derive(Debug, Clone, PartialEq, Eq)]
pub enum AliasTarget {
    /// The arm's marker type, by name, at the token scope.
    TokenType(String),
    /// The arm's source payload type (the unit type for unit variants).
    SrcPayload(String),
    /// The destination payload type reachable through the owned-accessor
    /// contract of the destination sum type, via the named marker.
    DestProjection(String),
    /// The constraint-associated type of the destination sum type, via the
    /// named marker.
    ConstraintProjection(String),
}

/// One local type alias declared inside an arm.
#[derive(Debug, Clone, PartialEq, Eq)]
pub struct TypeAliasDecl {
    pub alias: BindingName,
    pub generic: Option<BindingName>,
    pub target: AliasTarget,
}

/// One arm of the dispatch construct.
#[derive(Debug, Clone, PartialEq, Eq)]
pub struct DispatchArm {
    pub variant: String,
    pub pattern: ArmPattern,
    pub pre: Option<PreBinding>,
    pub aliases: Vec<TypeAliasDecl>,
}

/// One rule of the matcher: a facet combination and its per-variant arms.
#[derive(Debug, Clone, PartialEq, Eq)]
pub struct MatcherRule {
    pub facets: DispatchFacets,
    pub suffix: Option<u8>,
    pub arms: Vec<DispatchArm>,
}

/// The plain dispatch construct of one sum type.
#[derive(Debug, Clone, PartialEq, Eq)]
pub struct DispatchConstruct {
    pub name: String,
    pub rules: Vec<MatcherRule>,
}

/// Every variant of the sequence is unit-shaped.
pub open spec fn all_unit(vs: Seq<VariantDescriptor>) -> bool {
    forall|i: int| 0 <= i < vs.len() ==> (#[trigger] vs[i]).shape is Unit
}

/// The field names of a struct shape, in declared order.
pub open spec fn field_names(fs: Seq<FieldDecl>) -> Seq<Seq<char>> {
    fs.map_values(|f: FieldDecl| f.name@)
}

/// The source payload type an arm exposes: the payload type for tuple shapes
/// — under a container wrapper, the wrapped element type, so that arm code
/// can speak of the element — the unit type for unit shapes, the owned
/// record for struct shapes.
pub open spec fn src_type_of(v: VariantDescriptor, wrapper: Option<String>) -> Seq<char> {
    match v.shape {
        VariantShape::Unit => "()"@,
        VariantShape::Tuple(t) => constraint_target_of(t@, wrapper),
        VariantShape::Struct(_) => owned_record_name(v.name@),
    }
}

pub open spec fn alias_is_token(a: TypeAliasDecl, vname: Seq<char>, sfx: Option<u8>) -> bool {
    &&& a.alias == BindingName { base: BindingBase::TokenTy, suffix: sfx }
    &&& a.generic is None
    &&& a.target matches AliasTarget::TokenType(m) && m@ == marker_name_of(vname)
}

pub open spec fn alias_is_src(
    a: TypeAliasDecl,
    v: VariantDescriptor,
    f: DispatchFacets,
    wrapper: Option<String>,
    sfx: Option<u8>,
) -> bool {
    &&& a.alias == BindingName { base: BindingBase::SrcTy, suffix: sfx }
    &&& a.generic == if f.src_type_generic {
        Some(BindingName { base: BindingBase::SrcGen, suffix: sfx })
    } else {
        None::<BindingName>
    }
    &&& a.target matches AliasTarget::SrcPayload(t) && t@ == src_type_of(v, wrapper)
}

pub open spec fn alias_is_dest(
    a: TypeAliasDecl,
    vname: Seq<char>,
    f: DispatchFacets,
    sfx: Option<u8>,
) -> bool {
    &&& a.alias == BindingName { base: BindingBase::DestTy, suffix: sfx }
    &&& a.generic == if f.dest_type_generic {
        Some(BindingName { base: BindingBase::DestGen, suffix: sfx })
    } else {
        None::<BindingName>
    }
    &&& a.target matches AliasTarget::DestProjection(m) && m@ == marker_name_of(vname)
}

pub open spec fn alias_is_constraint(
    a: TypeAliasDecl,
    vname: Seq<char>,
    f: DispatchFacets,
    sfx: Option<u8>,
) -> bool {
    &&& a.alias == BindingName { base: BindingBase::ConstraintTy, suffix: sfx }
    &&& a.generic == if f.dest_type_generic {
        Some(BindingName { base: BindingBase::ConstraintGen, suffix: sfx })
    } else {
        None::<BindingName>
    }
    &&& a.target matches AliasTarget::ConstraintProjection(m) && m@ == marker_name_of(vname)
}

/// The type aliases an arm declares, in order: the source payload alias when
/// asked for — dropped when every variant is unit-shaped, where no payload
/// exists to name — the marker alias always, then the destination and
/// constraint projections whenever their facets ask for them, all-unit or
/// not: the projections go through the destination sum type, not through
/// this type's payloads.
pub open spec fn arm_aliases_ok(
    arm: DispatchArm,
    v: VariantDescriptor,
    f: DispatchFacets,
    wrapper: Option<String>,
    vs_all_unit: bool,
    sfx: Option<u8>,
) -> bool {
    let si: int = if f.include_src_ty && !vs_all_unit {
        1
    } else {
        0
    };
    let di: int = if f.include_dest {
        1
    } else {
        0
    };
    &&& arm.aliases@.len() == 1 + si + di + if f.dest_constraint {
        1int
    } else {
        0int
    }
    &&& f.include_src_ty && !vs_all_unit ==> alias_is_src(arm.aliases@[0], v, f, wrapper, sfx)
    &&& alias_is_token(arm.aliases@[si], v.name@, sfx)
    &&& f.include_dest ==> alias_is_dest(arm.aliases@[si + 1], v.name@, f, sfx)
    &&& f.dest_constraint ==> alias_is_constraint(arm.aliases@[si + 1 + di], v.name@, f, sfx)
}

/// The pattern an arm matches its variant with.
pub open spec fn arm_pattern_ok(
    arm: DispatchArm,
    v: VariantDescriptor,
    f: DispatchFacets,
    sfx: Option<u8>,
) -> bool {
    match v.shape {
        VariantShape::Unit => arm.pattern is UnitPattern,
        VariantShape::Tuple(_) => if f.include_inner {
            arm.pattern == ArmPattern::BindPayload(
                BindingName { base: BindingBase::Inner, suffix: sfx },
            )
        } else {
            arm.pattern is IgnorePayload
        },
        VariantShape::Struct(fs) => if f.include_inner {
            arm.pattern matches ArmPattern::BindFields(bs) && views_of_names(bs@) == field_names(
                fs@,
            )
        } else {
            arm.pattern is IgnoreFields
        },
    }
}

/// The views of a string list (local alias to keep triggers simple).
pub open spec fn views_of_names(ss: Seq<String>) -> Seq<Seq<char>> {
    ss.map_values(|s: String| s@)
}

/// The statement an arm runs before the caller's fragment: a unit binding for
/// unit variants when a payload name is requested (unless every variant is
/// unit-shaped), the owned-record assembly for struct variants.
pub open spec fn arm_pre_ok(
    arm: DispatchArm,
    v: VariantDescriptor,
    f: DispatchFacets,
    vs_all_unit: bool,
    sfx: Option<u8>,
) -> bool {
    match v.shape {
        VariantShape::Unit => if f.include_inner && !vs_all_unit {
            arm.pre == Some(
                PreBinding::UnitInner(BindingName { base: BindingBase::Inner, suffix: sfx }),
            )
        } else {
            arm.pre is None
        },
        VariantShape::Tuple(_) => arm.pre is None,
        VariantShape::Struct(fs) => if f.include_inner {
            &&& arm.pre matches Some(PreBinding::AssembleRecord { binding, record, fields })
            &&& binding == BindingName { base: BindingBase::Inner, suffix: sfx }
            &&& record@ == owned_record_name(v.name@)
            &&& views_of_names(fields@) == field_names(fs@)
        } else {
            arm.pre is None
        },
    }
}

/// Everything `arm` must hold for its variant under the given facets.
pub open spec fn arm_matches(
    arm: DispatchArm,
    v: VariantDescriptor,
    f: DispatchFacets,
    wrapper: Option<String>,
    vs_all_unit: bool,
    sfx: Option<u8>,
) -> bool {
    &&& arm.variant@ == v.name@
    &&& arm_pattern_ok(arm, v, f, sfx)
    &&& arm_pre_ok(arm, v, f, vs_all_unit, sfx)
    &&& arm_aliases_ok(arm, v, f, wrapper, vs_all_unit, sfx)
}

/// One arm per variant, in declaration order, each matching its variant: the
/// exhaustiveness of the construct, with no catch-all arm anywhere.
pub open spec fn rule_matches(rule: MatcherRule, vs: Seq<VariantDescriptor>, wrapper: Option<
    String,
>) -> bool {
    &&& rule.arms@.len() == vs.len()
    &&& forall|i: int|
        0 <= i < vs.len() ==> arm_matches(
            #[trigger] rule.arms@[i],
            vs[i],
            rule.facets,
            wrapper,
            all_unit(vs),
            rule.suffix,
        )
}

/// Copies the field names of a struct shape, in declared order.
fn field_name_list(fs: &Vec<FieldDecl>) -> (r: Vec<String>)
    ensures
        views_of_names(r@) == field_names(fs@),
{
    let n = fs.len();
    let mut out: Vec<String> = Vec::new();
    let mut i: usize = 0;
    while i < n
        invariant
            0 <= i <= n,
            n == fs@.len(),
            views_of_names(out@) == field_names(fs@.take(i as int)),
        decreases n - i,
    {
        out.push(fs[i].name.clone());
        proof {
            assert(views_of_names(out@) =~= field_names(fs@.take(i as int)).push(
                fs@[i as int].name@,
            ));
            assert(field_names(fs@.take(i as int + 1)) =~= field_names(fs@.take(i as int)).push(
                fs@[i as int].name@,
            ));
        }
        i += 1;
    }
    proof {
        assert(fs@.take(n as int) =~= fs@);
        assert(views_of_names(out@) == field_names(fs@));
    }
    out
}

/// Generates the body of one match arm: pattern, pre-binding and type alias
/// declarations, as the facets request for this variant's shape.
pub fn generate_arm(
    v: &VariantDescriptor,
    facets: DispatchFacets,
    wrapper: &Option<String>,
    vs_all_unit: bool,
    suffix: Option<u8>,
) -> (arm: DispatchArm)
    ensures
        arm_matches(arm, *v, facets, *wrapper, vs_all_unit, suffix),
{
    let inner = BindingName { base: BindingBase::Inner, suffix };
    // Pattern and pre-binding by shape.
    let (pattern, pre): (ArmPattern, Option<PreBinding>) = match &v.shape {
        VariantShape::Unit => (
            ArmPattern::UnitPattern,
            if facets.include_inner && !vs_all_unit {
                Some(PreBinding::UnitInner(inner))
            } else {
                None
            },
        ),
        VariantShape::Tuple(_) => (
            if facets.include_inner {
                ArmPattern::BindPayload(inner)
            } else {
                ArmPattern::IgnorePayload
            },
            None,
        ),
        VariantShape::Struct(fs) => if facets.include_inner {
            (
                ArmPattern::BindFields(field_name_list(fs)),
                Some(
                    PreBinding::AssembleRecord {
                        binding: inner,
                        record: crate::ident::concat_names(v.name.as_str(), "Fields"),
                        fields: field_name_list(fs),
                    },
                ),
            )
        } else {
            (ArmPattern::IgnoreFields, None)
        },
    };
    // Alias declarations, in emission order.
    let marker = crate::marker::marker_type_name(&v.name);
    let mut aliases: Vec<TypeAliasDecl> = Vec::new();
    if !vs_all_unit && facets.include_src_ty {
        let src_name = match &v.shape {
            VariantShape::Unit => "()".to_owned(),
            VariantShape::Tuple(t) => match wrapper {
                Some(w) => match strip_wrapper(t, w) {
                    Some(inner) => inner,
                    None => t.clone(),
                },
                None => t.clone(),
            },
            VariantShape::Struct(_) => crate::ident::concat_names(v.name.as_str(), "Fields"),
        };
        aliases.push(
            TypeAliasDecl {
                alias: BindingName { base: BindingBase::SrcTy, suffix },
                generic: if facets.src_type_generic {
                    Some(BindingName { base: BindingBase::SrcGen, suffix })
                } else {
                    None
                },
                target: AliasTarget::SrcPayload(src_name),
            },
        );
    }
    aliases.push(
        TypeAliasDecl {
            alias: BindingName { base: BindingBase::TokenTy, suffix },
            generic: None,
            target: AliasTarget::TokenType(marker),
        },
    );
    if facets.include_dest {
        aliases.push(
            TypeAliasDecl {
                alias: BindingName { base: BindingBase::DestTy, suffix },
                generic: if facets.dest_type_generic {
                    Some(BindingName { base: BindingBase::DestGen, suffix })
                } else {
                    None
                },
                target: AliasTarget::DestProjection(crate::marker::marker_type_name(&v.name)),
            },
        );
    }
    if facets.dest_constraint {
        aliases.push(
            TypeAliasDecl {
                alias: BindingName { base: BindingBase::ConstraintTy, suffix },
                generic: if facets.dest_type_generic {
                    Some(BindingName { base: BindingBase::ConstraintGen, suffix })
                } else {
                    None
                },
                target: AliasTarget::ConstraintProjection(
                    crate::marker::marker_type_name(&v.name),
                ),
            },
        );
    }
    DispatchArm { variant: v.name.clone(), pattern, pre, aliases }
}

/// Decides whether every variant is unit-shaped.
pub fn check_all_unit(vs: &Vec<VariantDescriptor>) -> (r: bool)
    ensures
        r == all_unit(vs@),
{
    let n = vs.len();
    let mut i: usize = 0;
    while i < n
        invariant
            0 <= i <= n,
            n == vs@.len(),
            forall|j: int| 0 <= j < i ==> (#[trigger] vs@[j]).shape is Unit,
        decreases n - i,
    {
        match &vs[i].shape {
            VariantShape::Unit => {},
            _ => {
                return false;
            },
        }
        i += 1;
    }
    true
}

/// Generates one matcher rule: the arms of every variant in declaration
/// order, under one facet combination and binding suffix.
pub fn generate_rule(model: &SchemaModel, facets: DispatchFacets, suffix: Option<u8>) -> (rule:
    MatcherRule)
    ensures
        rule.facets == facets,
        rule.suffix == suffix,
        rule_matches(rule, model.variants@, model.container_wrapper),
{
    let vs_all_unit = check_all_unit(&model.variants);
    let n = model.variants.len();
    let mut arms: Vec<DispatchArm> = Vec::new();
    let mut i: usize = 0;
    while i < n
        invariant
            0 <= i <= n,
            n == model.variants@.len(),
            vs_all_unit == all_unit(model.variants@),
            arms@.len() == i,
            forall|j: int|
                0 <= j < i ==> arm_matches(
                    #[trigger] arms@[j],
                    model.variants@[j],
                    facets,
                    model.container_wrapper,
                    all_unit(model.variants@),
                    suffix,
                ),
        decreases n - i,
    {
        let arm = generate_arm(
            &model.variants[i],
            facets,
            &model.container_wrapper,
            vs_all_unit,
            suffix,
        );
        arms.push(arm);
        i += 1;
    }
    MatcherRule { facets, suffix, arms }
}

/// The facet combination rule `k` of the full matcher carries: three source
/// states (absent, plain, generic), the payload binding on or off, and seven
/// destination states (absent; destination, constraint, or both, each plain
/// or generic). A generic flag without the alias it parameterizes would
/// repeat another rule's pattern, so those forms are not emitted.
pub open spec fn facet_combo(k: int) -> DispatchFacets {
    let s = k % 3;
    let inner = (k / 3) % 2;
    let d = (k / 6) % 7;
    DispatchFacets {
        include_src_ty: s >= 1,
        src_type_generic: s == 2,
        include_inner: inner == 1,
        include_dest: d == 1 || d == 2 || d == 5 || d == 6,
        dest_constraint: d == 3 || d == 4 || d == 5 || d == 6,
        dest_type_generic: d == 2 || d == 4 || d == 6,
    }
}

/// Generates the plain dispatch construct under the model's dispatch name:
/// one rule per meaningful combination of the independent facets — all
/// combinable, the generic forms included — so any call-site form finds a
/// rule, each rule exhaustive over the variants.
pub fn generate_dispatch(model: &SchemaModel) -> (d: DispatchConstruct)
    ensures
        d.name@ == model.dispatch_name@,
        d.rules@.len() == 42,
        forall|k: int|
            0 <= k < 42 ==> {
                &&& (#[trigger] d.rules@[k]).facets == facet_combo(k)
                &&& d.rules@[k].suffix is None
                &&& rule_matches(d.rules@[k], model.variants@, model.container_wrapper)
            },
{
    let mut rules: Vec<MatcherRule> = Vec::new();
    let mut k: usize = 0;
    while k < 42
        invariant
            0 <= k <= 42,
            rules@.len() == k,
            forall|k2: int|
                0 <= k2 < k ==> {
                    &&& (#[trigger] rules@[k2]).facets == facet_combo(k2)
                    &&& rules@[k2].suffix is None
                    &&& rule_matches(rules@[k2], model.variants@, model.container_wrapper)
                },
        decreases 42 - k,
    {
        let s = k % 3;
        let inner = (k / 3) % 2;
        let d = (k / 6) % 7;
        let facets = DispatchFacets {
            include_src_ty: s >= 1,
            src_type_generic: s == 2,
            include_inner: inner == 1,
            include_dest: d == 1 || d == 2 || d == 5 || d == 6,
            dest_constraint: d == 3 || d == 4 || d == 5 || d == 6,
            dest_type_generic: d == 2 || d == 4 || d == 6,
        };
        proof {
            assert(facets == facet_combo(k as int));
        }
        let rule = generate_rule(model, facets, None);
        rules.push(rule);
        k += 1;
    }
    DispatchConstruct { name: model.dispatch_name.clone(), rules }
}

} // verus!
