//! The generation driver: one schema in, one artifact bundle out. Schema and
//! grouping failures never leave a partially generated construct behind: each
//! grouping either validates into a partition or reports its failures, and
//! the other constructs of the same sum type stand regardless.

use vstd::prelude::*;

use crate::accessor::{accessor_matches, generate_accessors, AccessorDecl};
use crate::dispatch::{facet_combo, generate_dispatch, rule_matches, DispatchConstruct};
use crate::grouping::{
    assigned_ok, error_justified, group_names, partition_for, partition_ok, validate_grouping,
    views_of, GroupPartition, GroupingError,
};
use crate::marker::{alloc_wf, key_at, marker_name_of, same_scope, MarkerAllocator, MarkerDecl};
use crate::schema::{variant_names, SchemaModel};

verus! {

/// The output bundle of one generation run over one sum type.
pub struct GeneratedArtifacts {
    /// One declaration per marker the run allocated, in allocation order.
    pub markers: Vec<MarkerDecl>,
    /// The accessor triple, conversion and constraint entry of each variant.
    pub accessors: Vec<AccessorDecl>,
    /// The plain dispatch construct under the model's dispatch name.
    pub dispatch: DispatchConstruct,
    /// One outcome per requested grouping, in declaration order: the
    /// validated partition, or every failure that grouping shows.
    pub grouped: Vec<Result<GroupPartition, Vec<GroupingError>>>,
}

/// Runs the generators over one schema, allocating markers from the given
/// scope map: several runs over one map agree on marker identity, and the
/// emitted marker list never declares one marker twice.
pub fn generate_artifacts(model: &SchemaModel, alloc: &mut MarkerAllocator) -> (r:
    GeneratedArtifacts)
    requires
        alloc_wf(old(alloc).entries@),
    ensures
        alloc_wf(final(alloc).entries@),
        r.accessors@.len() == model.variants@.len(),
        forall|i: int|
            0 <= i < r.accessors@.len() ==> accessor_matches(
                #[trigger] r.accessors@[i],
                model.variants@[i],
                model.suppress_conversions,
                model.container_wrapper,
                model.constraint_trait is Some,
            ),
        forall|i: int|
            0 <= i < r.accessors@.len() ==> key_at(
                final(alloc).entries@,
                (#[trigger] r.accessors@[i]).marker as int,
                model.token_scope,
                model.variants@[i].name@,
            ),
        final(alloc).entries@.len() <= old(alloc).entries@.len() + model.variants@.len(),
        forall|k: int|
            0 <= k < old(alloc).entries@.len() ==> final(alloc).entries@[k] == old(
                alloc,
            ).entries@[k],
        forall|k: int|
            old(alloc).entries@.len() <= k < final(alloc).entries@.len() ==> same_scope(
                (#[trigger] final(alloc).entries@[k]).scope,
                model.token_scope,
            ) && variant_names(model.variants@).contains(final(alloc).entries@[k].variant@),
        r.markers@.len() == final(alloc).entries@.len(),
        forall|i: int|
            0 <= i < r.markers@.len() ==> (#[trigger] r.markers@[i]).id == i
                && r.markers@[i].ty_name@ == marker_name_of(final(alloc).entries@[i].variant@),
        r.dispatch.name@ == model.dispatch_name@,
        r.dispatch.rules@.len() == 42,
        forall|k: int|
            0 <= k < 42 ==> (#[trigger] r.dispatch.rules@[k]).facets == facet_combo(k)
                && rule_matches(r.dispatch.rules@[k], model.variants@, model.container_wrapper),
        r.grouped@.len() == model.groupings@.len(),
        forall|k: int|
            0 <= k < model.groupings@.len() ==> {
                &&& ((#[trigger] r.grouped@[k]) is Ok <==> partition_ok(
                    variant_names(model.variants@),
                    model.groupings@[k].groups@,
                ))
                &&& (r.grouped@[k] matches Ok(p) ==> p.dispatch_name@
                    == model.groupings@[k].dispatch_name@ && views_of(p.group_names@)
                    == group_names(model.groupings@[k].groups@) && partition_for(
                    p,
                    model.variants@,
                ) && (forall|i: int|
                    0 <= i < model.variants@.len() ==> #[trigger] assigned_ok(
                        model.groupings@[k].groups@,
                        variant_names(model.variants@),
                        p.assignment@,
                        i,
                    )))
                &&& (r.grouped@[k] matches Err(es) ==> es@.len() > 0 && (forall|e: int|
                    0 <= e < es@.len() ==> error_justified(
                        #[trigger] es@[e],
                        variant_names(model.variants@),
                        model.groupings@[k].groups@,
                    )))
            },
{
    let accessors = generate_accessors(model, alloc);
    let markers = alloc.marker_decls();
    let dispatch = generate_dispatch(model);
    let gcount = model.groupings.len();
    let mut grouped: Vec<Result<GroupPartition, Vec<GroupingError>>> = Vec::new();
    let mut k: usize = 0;
    while k < gcount
        invariant
            0 <= k <= gcount,
            gcount == model.groupings@.len(),
            grouped@.len() == k,
            forall|k2: int|
                0 <= k2 < k ==> {
                    &&& ((#[trigger] grouped@[k2]) is Ok <==> partition_ok(
                        variant_names(model.variants@),
                        model.groupings@[k2].groups@,
                    ))
                    &&& (grouped@[k2] matches Ok(p) ==> p.dispatch_name@
                        == model.groupings@[k2].dispatch_name@ && views_of(p.group_names@)
                        == group_names(model.groupings@[k2].groups@) && partition_for(
                        p,
                        model.variants@,
                    ) && (forall|i: int|
                        0 <= i < model.variants@.len() ==> #[trigger] assigned_ok(
                            model.groupings@[k2].groups@,
                            variant_names(model.variants@),
                            p.assignment@,
                            i,
                        )))
                    &&& (grouped@[k2] matches Err(es) ==> es@.len() > 0 && (forall|e: int|
                        0 <= e < es@.len() ==> error_justified(
                            #[trigger] es@[e],
                            variant_names(model.variants@),
                            model.groupings@[k2].groups@,
                        )))
                },
        decreases gcount - k,
    {
        let outcome = validate_grouping(&model.variants, &model.groupings[k]);
        grouped.push(outcome);
        k += 1;
    }
    GeneratedArtifacts { markers, accessors, dispatch, grouped }
}

} // verus!
