//! The schema data model: one sum type's variants and per-type configuration,
//! and the validation that turns a raw declaration into a `SchemaModel`.

use vstd::prelude::*;
use vstd::string::*;

use crate::ident::{
    check_identifier, check_module_path, concat_names, is_identifier, is_module_path, snake_of,
    to_snake_case,
};

verus! {

/// One named field of a struct-shaped variant: its name and its payload type.
#[derive(Debug, Clone, PartialEq, Eq)]
pub struct FieldDecl {
    pub name: String,
    pub ty: String,
}

/// The payload shape of one variant.
#[derive(Debug, Clone, PartialEq, Eq)]
pub enum VariantShape {
    /// No payload.
    Unit,
    /// Exactly one unnamed field of the named type.
    Tuple(String),
    /// Named fields, order preserved.
    Struct(Vec<FieldDecl>),
}

/// One variant of a sum type.
#[derive(Debug, Clone, PartialEq, Eq)]
pub struct VariantDescriptor {
    pub name: String,
    pub shape: VariantShape,
    pub is_default: bool,
}

/// The namespace in which a variant's marker type lives.
#[derive(Debug, Clone, PartialEq, Eq)]
pub enum TokenScope {
    /// Private to the sum type of the given name.
    Local(String),
    /// Keyed by an external module path; shared across sum types.
    Shared(String),
}

/// One named group of variants inside a grouping.
#[derive(Debug, Clone, PartialEq, Eq)]
pub struct Group {
    pub name: String,
    pub members: Vec<String>,
}

/// A requested grouped dispatch construct: its name and its groups.
#[derive(Debug, Clone, PartialEq, Eq)]
pub struct GroupingSpec {
    pub dispatch_name: String,
    pub groups: Vec<Group>,
}

/// The raw per-type configuration, as spelled in the declaration.
#[derive(Debug, Clone, PartialEq, Eq)]
pub struct SchemaConfig {
    /// Name for the plain dispatch construct; derived from the type name if absent.
    pub dispatch_name: Option<String>,
    /// `"local"` or an external module path for a shared scope; local if absent.
    pub token_scope: Option<String>,
    /// Name of the constraint trait, if one was configured.
    pub constraint_trait: Option<String>,
    /// Name of a generic wrapper applied to every variant's payload type.
    pub container_wrapper: Option<String>,
    /// Suppresses the payload-to-sum-type conversion operations.
    pub suppress_conversions: bool,
}

/// Why a declaration could not become a `SchemaModel`.
#[derive(Debug, Clone, PartialEq, Eq)]
pub enum SchemaError {
    /// Two variants share the named spelling.
    DuplicateVariant(String),
    /// More than one variant is marked as the default.
    MultipleDefaults,
    /// A configuration value is malformed: the field's name and a reason.
    BadConfig(String, String),
}

/// A validated sum-type schema: the sole authority for variant identity and shape.
#[derive(Debug, Clone)]
pub struct SchemaModel {
    pub ty_name: String,
    pub variants: Vec<VariantDescriptor>,
    pub dispatch_name: String,
    pub token_scope: TokenScope,
    pub constraint_trait: Option<String>,
    pub container_wrapper: Option<String>,
    pub suppress_conversions: bool,
    pub groupings: Vec<GroupingSpec>,
}

/// The variant names of a descriptor sequence, as character sequences.
pub open spec fn variant_names(vs: Seq<VariantDescriptor>) -> Seq<Seq<char>> {
    vs.map_values(|v: VariantDescriptor| v.name@)
}

/// No two entries of `ns` are spelled alike.
pub open spec fn names_unique(ns: Seq<Seq<char>>) -> bool {
    forall|i: int, j: int| 0 <= i < j < ns.len() ==> ns[i] != ns[j]
}

/// Entry `j` repeats some earlier entry.
pub open spec fn dup_at(ns: Seq<Seq<char>>, j: int) -> bool {
    exists|i: int| 0 <= i < j && ns[i] == ns[j]
}

/// How many variants are marked default.
pub open spec fn default_count(vs: Seq<VariantDescriptor>) -> int
    decreases vs.len(),
{
    if vs.len() == 0 {
        0
    } else {
        default_count(vs.drop_last()) + if vs.last().is_default {
            1int
        } else {
            0int
        }
    }
}

pub open spec fn dispatch_name_ok(c: SchemaConfig) -> bool {
    match c.dispatch_name {
        Some(d) => is_identifier(d@),
        None => true,
    }
}

pub open spec fn token_scope_ok(c: SchemaConfig) -> bool {
    match c.token_scope {
        Some(t) => t@ == "local"@ || is_module_path(t@),
        None => true,
    }
}

pub open spec fn constraint_ok(c: SchemaConfig) -> bool {
    match c.constraint_trait {
        Some(t) => is_module_path(t@),
        None => true,
    }
}

pub open spec fn container_ok(c: SchemaConfig) -> bool {
    match c.container_wrapper {
        Some(t) => is_identifier(t@),
        None => true,
    }
}

/// Every configuration value is well formed.
pub open spec fn config_ok(c: SchemaConfig) -> bool {
    dispatch_name_ok(c) && token_scope_ok(c) && constraint_ok(c) && container_ok(c)
}

/// The token scope a model receives for a given declaration.
pub open spec fn scope_matches(scope: TokenScope, ty_name: Seq<char>, c: SchemaConfig) -> bool {
    match c.token_scope {
        None => scope matches TokenScope::Local(t) && t@ == ty_name,
        Some(ts) => if ts@ == "local"@ {
            scope matches TokenScope::Local(t) && t@ == ty_name
        } else {
            scope matches TokenScope::Shared(p) && p == ts
        },
    }
}

/// Builds a `SchemaModel` from a declaration: the variant list with shapes and
/// default markings, the textual configuration, and the requested groupings.
///
/// Fails with `DuplicateVariant` if two variants share a name, with
/// `MultipleDefaults` if more than one variant is marked default, and with
/// `BadConfig` for a malformed configuration value, in that order of checks.
/// Groupings are carried along unvalidated; the grouping validator judges each
/// one separately, so a bad grouping never poisons the schema itself.
pub fn build_schema(
    ty_name: String,
    variants: Vec<VariantDescriptor>,
    config: SchemaConfig,
    groupings: Vec<GroupingSpec>,
) -> (r: Result<SchemaModel, SchemaError>)
    ensures
        r is Ok <==> names_unique(variant_names(variants@)) && default_count(variants@) <= 1
            && config_ok(config),
        (r matches Err(e) && e is DuplicateVariant) <==> !names_unique(variant_names(variants@)),
        (r matches Err(e) && e is MultipleDefaults) <==> names_unique(variant_names(variants@))
            && default_count(variants@) > 1,
        r matches Err(SchemaError::DuplicateVariant(n)) ==> exists|j: int|
            0 <= j < variants@.len() && dup_at(variant_names(variants@), j) && variant_names(
                variants@,
            )[j] == n@ && (forall|j2: int| 0 <= j2 < j ==> !dup_at(variant_names(variants@), j2)),
        r matches Err(SchemaError::BadConfig(f, _)) ==> !dispatch_name_ok(config) && f@
            == "matcher"@ || dispatch_name_ok(config) && !token_scope_ok(config) && f@
            == "shared_variant_zst_path"@ || dispatch_name_ok(config) && token_scope_ok(config)
            && !constraint_ok(config) && f@ == "constraint"@ || dispatch_name_ok(config)
            && token_scope_ok(config) && constraint_ok(config) && !container_ok(config) && f@
            == "container"@,
        r matches Ok(m) ==> {
            &&& m.ty_name == ty_name
            &&& m.variants == variants
            &&& m.groupings == groupings
            &&& m.suppress_conversions == config.suppress_conversions
            &&& m.constraint_trait == config.constraint_trait
            &&& m.container_wrapper == config.container_wrapper
            &&& match config.dispatch_name {
                Some(d) => m.dispatch_name == d,
                None => m.dispatch_name@ == "match_"@ + snake_of(ty_name@),
            }
            &&& scope_matches(m.token_scope, ty_name@, config)
        },
{
    let ghost ns = variant_names(variants@);
    let n = variants.len();
    // Reject a variant name that repeats an earlier one.
    let mut j: usize = 0;
    while j < n
        invariant
            0 <= j <= n,
            n == variants@.len(),
            ns == variant_names(variants@),
            forall|j2: int| 0 <= j2 < j ==> !dup_at(ns, j2),
        decreases n - j,
    {
        let mut i: usize = 0;
        while i < j
            invariant
                0 <= i <= j < n,
                n == variants@.len(),
                ns == variant_names(variants@),
                forall|i2: int| 0 <= i2 < i ==> ns[i2] != ns[j as int],
                forall|j2: int| 0 <= j2 < j ==> !dup_at(ns, j2),
            decreases j - i,
        {
            if variants[i].name == variants[j].name {
                let dup_name = variants[j].name.clone();
                proof {
                    assert(ns[i as int] == variants@[i as int].name@);
                    assert(ns[j as int] == variants@[j as int].name@);
                    assert(ns[i as int] == ns[j as int]);
                    assert(dup_at(ns, j as int));
                    assert(!names_unique(ns));
                    assert(0 <= j < variants@.len());
                    assert(dup_at(variant_names(variants@), j as int));
                    assert(variant_names(variants@)[j as int] == dup_name@);
                    assert(forall|j2: int| 0 <= j2 < j ==> !dup_at(variant_names(variants@), j2));
                }
                return Err(SchemaError::DuplicateVariant(dup_name));
            }
            i += 1;
        }
        j += 1;
    }
    proof {
        assert forall|a: int, b: int| 0 <= a < b < ns.len() implies ns[a] != ns[b] by {
            assert(!dup_at(ns, b));
        }
    }
    // Reject more than one default variant.
    let mut defaults: usize = 0;
    let mut k: usize = 0;
    while k < n
        invariant
            0 <= k <= n,
            n == variants@.len(),
            defaults == default_count(variants@.take(k as int)),
            defaults <= k,
        decreases n - k,
    {
        let ghost prefix = variants@.take(k as int);
        if variants[k].is_default {
            defaults += 1;
        }
        proof {
            assert(variants@.take(k as int + 1).drop_last() =~= prefix);
            assert(variants@.take(k as int + 1).last() == variants@[k as int]);
        }
        k += 1;
    }
    proof {
        assert(variants@.take(n as int) =~= variants@);
    }
    if defaults > 1 {
        return Err(SchemaError::MultipleDefaults);
    }
    // Reject malformed configuration values, field by field.
    if let Some(d) = &config.dispatch_name {
        if !check_identifier(d.as_str()) {
            return Err(
                SchemaError::BadConfig("matcher".to_owned(), "not an identifier".to_owned()),
            );
        }
    }
    if let Some(t) = &config.token_scope {
        if !string_is(t, "local") && !check_module_path(t.as_str()) {
            return Err(
                SchemaError::BadConfig(
                    "shared_variant_zst_path".to_owned(),
                    "neither the word local nor a module path".to_owned(),
                ),
            );
        }
    }
    if let Some(t) = &config.constraint_trait {
        if !check_module_path(t.as_str()) {
            return Err(
                SchemaError::BadConfig("constraint".to_owned(), "not a trait path".to_owned()),
            );
        }
    }
    if let Some(t) = &config.container_wrapper {
        if !check_identifier(t.as_str()) {
            return Err(
                SchemaError::BadConfig("container".to_owned(), "not an identifier".to_owned()),
            );
        }
    }
    // Assemble the model.
    let dispatch_name = match config.dispatch_name {
        Some(d) => d,
        None => {
            let snake = to_snake_case(ty_name.as_str());
            concat_names("match_", snake.as_str())
        },
    };
    let token_scope = match config.token_scope {
        None => TokenScope::Local(ty_name.clone()),
        Some(ts) => if string_is(&ts, "local") {
            TokenScope::Local(ty_name.clone())
        } else {
            TokenScope::Shared(ts)
        },
    };
    Ok(
        SchemaModel {
            ty_name,
            variants,
            dispatch_name,
            token_scope,
            constraint_trait: config.constraint_trait,
            container_wrapper: config.container_wrapper,
            suppress_conversions: config.suppress_conversions,
            groupings,
        },
    )
}

/// Compares a string against a literal spelling.
pub fn string_is(s: &String, lit: &str) -> (r: bool)
    ensures
        r == (s@ == lit@),
{
    let o: String = lit.to_owned();
    *s == o
}

} // verus!
