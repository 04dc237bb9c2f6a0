//! The grouped dispatch generator: the caller supplies one code fragment per
//! group of a validated partition; the construct still carries one arm per
//! variant — exhaustiveness and per-variant type aliases are kept — and
//! routes each variant's arm to its group's shared fragment, instantiated
//! freshly for that variant.

use vstd::prelude::*;

use crate::dispatch::{all_unit, arm_matches, generate_arm, DispatchArm, DispatchFacets};
use crate::grouping::{partition_for, views_of, GroupPartition};
use crate::schema::SchemaModel;

verus! {

/// A caller-supplied code fragment for one named group.
#[derive(Debug, Clone, PartialEq, Eq)]
pub struct Fragment {
    pub group: String,
    pub text: String,
}

/// Why a fragment set does not fit the validated partition.
#[derive(Debug, Clone, PartialEq, Eq)]
pub enum GroupedDispatchError {
    /// A fragment names a group the partition does not have.
    UnknownGroup(String),
    /// Two fragments name this group.
    DuplicateFragment(String),
    /// No fragment covers this group of the partition.
    MissingGroup(String),
}

/// One arm of the grouped construct: the variant's own arm body, the group
/// that owns the variant, and that group's fragment text.
#[derive(Debug, Clone, PartialEq, Eq)]
pub struct GroupedArm {
    pub arm: DispatchArm,
    pub group: String,
    pub fragment: String,
}

/// A grouped dispatch construct under its grouping's dispatch name.
#[derive(Debug, Clone, PartialEq, Eq)]
pub struct GroupedDispatchConstruct {
    pub name: String,
    pub facets: DispatchFacets,
    pub arms: Vec<GroupedArm>,
}

/// The group names the fragments cover, in order.
pub open spec fn frag_names(fs: Seq<Fragment>) -> Seq<Seq<char>> {
    fs.map_values(|f: Fragment| f.group@)
}

/// Some fragment names a group outside the partition.
pub open spec fn has_unknown_fragment(fs: Seq<Fragment>, groups: Seq<String>) -> bool {
    exists|j: int| 0 <= j < fs.len() && !views_of(groups).contains(#[trigger] frag_names(fs)[j])
}

/// Two fragments share a group name.
pub open spec fn has_duplicate_fragment(fs: Seq<Fragment>) -> bool {
    exists|i: int, j: int| 0 <= i < j < fs.len() && frag_names(fs)[i] == frag_names(fs)[j]
}

/// Some partition group has no fragment.
pub open spec fn has_missing_fragment(fs: Seq<Fragment>, groups: Seq<String>) -> bool {
    exists|i: int| 0 <= i < groups.len() && !frag_names(fs).contains((#[trigger] groups[i])@)
}

/// The fragment set names exactly the partition's groups, each once.
pub open spec fn fragments_fit(fs: Seq<Fragment>, groups: Seq<String>) -> bool {
    &&& !has_unknown_fragment(fs, groups)
    &&& !has_duplicate_fragment(fs)
    &&& !has_missing_fragment(fs, groups)
}

/// The index of the first fragment naming group `g`; the fragment count if
/// none does.
pub open spec fn frag_index_from(fs: Seq<Fragment>, g: Seq<char>, i: int) -> int
    decreases fs.len() - i
        when 0 <= i <= fs.len()
{
    if i >= fs.len() {
        fs.len() as int
    } else if fs[i].group@ == g {
        i
    } else {
        frag_index_from(fs, g, i + 1)
    }
}

pub open spec fn frag_index_of(fs: Seq<Fragment>, g: Seq<char>) -> int {
    frag_index_from(fs, g, 0)
}

/// Arm `i` of the construct routes variant `i` to its group's fragment.
pub open spec fn grouped_arm_ok(
    c: GroupedDispatchConstruct,
    p: GroupPartition,
    fs: Seq<Fragment>,
    i: int,
) -> bool {
    let fi = frag_index_of(fs, p.assignment@[i]@);
    &&& (#[trigger] c.arms@[i]).group@ == p.assignment@[i]@
    &&& 0 <= fi < fs.len()
    &&& c.arms@[i].fragment@ == fs[fi].text@
}

/// A first-match fragment scan lands on `frag_index_of`.
proof fn lemma_frag_index_found(fs: Seq<Fragment>, g: Seq<char>, j: int)
    requires
        0 <= j < fs.len(),
        fs[j].group@ == g,
        forall|j2: int| 0 <= j2 < j ==> (#[trigger] fs[j2]).group@ != g,
    ensures
        frag_index_of(fs, g) == j,
{
    lemma_frag_index_step(fs, g, 0, j);
}

proof fn lemma_frag_index_step(fs: Seq<Fragment>, g: Seq<char>, i: int, j: int)
    requires
        0 <= i <= j < fs.len(),
        fs[j].group@ == g,
        forall|j2: int| i <= j2 < j ==> (#[trigger] fs[j2]).group@ != g,
    ensures
        frag_index_from(fs, g, i) == j,
    decreases j - i,
{
    if i < j {
        lemma_frag_index_step(fs, g, i + 1, j);
    }
}

/// Builds the grouped dispatch construct from a validated partition and one
/// fragment per group. Fails — extra, repeated or missing group — when the
/// fragment set's group names do not exactly match the partition's. On
/// success the construct has one arm per variant, in declaration order, each
/// carrying its own type aliases and its group's shared fragment.
pub fn generate_grouped_dispatch(
    model: &SchemaModel,
    partition: &GroupPartition,
    fragments: &Vec<Fragment>,
    facets: DispatchFacets,
) -> (r: Result<GroupedDispatchConstruct, GroupedDispatchError>)
    requires
        partition_for(*partition, model.variants@),
    ensures
        r is Ok <==> fragments_fit(fragments@, partition.group_names@),
        (r matches Err(e) && e is UnknownGroup) <==> has_unknown_fragment(
            fragments@,
            partition.group_names@,
        ),
        (r matches Err(e) && e is DuplicateFragment) <==> !has_unknown_fragment(
            fragments@,
            partition.group_names@,
        ) && has_duplicate_fragment(fragments@),
        (r matches Err(e) && e is MissingGroup) <==> !has_unknown_fragment(
            fragments@,
            partition.group_names@,
        ) && !has_duplicate_fragment(fragments@) && has_missing_fragment(
            fragments@,
            partition.group_names@,
        ),
        r matches Err(GroupedDispatchError::UnknownGroup(u)) ==> frag_names(fragments@).contains(
            u@,
        ) && !views_of(partition.group_names@).contains(u@),
        r matches Err(GroupedDispatchError::DuplicateFragment(d)) ==> exists|i: int, j: int|
            0 <= i < j < fragments@.len() && frag_names(fragments@)[i] == frag_names(fragments@)[j]
                && frag_names(fragments@)[j] == d@,
        r matches Err(GroupedDispatchError::MissingGroup(m)) ==> views_of(
            partition.group_names@,
        ).contains(m@) && !frag_names(fragments@).contains(m@),
        r matches Ok(c) ==> {
            &&& c.name@ == partition.dispatch_name@
            &&& c.facets == facets
            &&& c.arms@.len() == model.variants@.len()
            &&& forall|i: int|
                0 <= i < model.variants@.len() ==> arm_matches(
                    (#[trigger] c.arms@[i]).arm,
                    model.variants@[i],
                    facets,
                    model.container_wrapper,
                    all_unit(model.variants@),
                    None,
                )
            &&& forall|i: int|
                0 <= i < model.variants@.len() ==> grouped_arm_ok(c, *partition, fragments@, i)
        },
{
    let fn_count = fragments.len();
    // Reject a fragment whose group the partition does not know.
    let mut j: usize = 0;
    while j < fn_count
        invariant
            0 <= j <= fn_count,
            fn_count == fragments@.len(),
            forall|j2: int|
                0 <= j2 < j ==> views_of(partition.group_names@).contains(
                    #[trigger] frag_names(fragments@)[j2],
                ),
        decreases fn_count - j,
    {
        if !crate::grouping::strings_contain(&partition.group_names, &fragments[j].group) {
            let u = fragments[j].group.clone();
            proof {
                assert(frag_names(fragments@)[j as int] == u@);
            }
            return Err(GroupedDispatchError::UnknownGroup(u));
        }
        j += 1;
    }
    // Reject a group named by two fragments.
    let mut j2: usize = 0;
    while j2 < fn_count
        invariant
            0 <= j2 <= fn_count,
            fn_count == fragments@.len(),
            forall|a: int, b: int|
                #![trigger frag_names(fragments@)[a], frag_names(fragments@)[b]]
                0 <= a < b < j2 ==> frag_names(fragments@)[a] != frag_names(fragments@)[b],
            forall|jj: int|
                0 <= jj < fn_count ==> views_of(partition.group_names@).contains(
                    #[trigger] frag_names(fragments@)[jj],
                ),
        decreases fn_count - j2,
    {
        let mut i2: usize = 0;
        while i2 < j2
            invariant
                0 <= i2 <= j2 < fn_count,
                fn_count == fragments@.len(),
                forall|a: int|
                    0 <= a < i2 ==> frag_names(fragments@)[a] != frag_names(fragments@)[j2 as int],
                forall|jj: int|
                    0 <= jj < fn_count ==> views_of(partition.group_names@).contains(
                        #[trigger] frag_names(fragments@)[jj],
                    ),
            decreases j2 - i2,
        {
            if fragments[i2].group == fragments[j2].group {
                let d = fragments[j2].group.clone();
                proof {
                    assert(frag_names(fragments@)[i2 as int] == frag_names(fragments@)[j2 as int]);
                    assert(frag_names(fragments@)[j2 as int] == d@);
                }
                return Err(GroupedDispatchError::DuplicateFragment(d));
            }
            i2 += 1;
        }
        j2 += 1;
    }
    // Reject a partition group with no fragment. The scan needs the fragment
    // group names as strings.
    let mut fname_list: Vec<String> = Vec::new();
    let mut fi: usize = 0;
    proof {
        assert(views_of(fname_list@) =~= frag_names(fragments@).take(0));
    }
    while fi < fn_count
        invariant
            0 <= fi <= fn_count,
            fn_count == fragments@.len(),
            views_of(fname_list@) == frag_names(fragments@).take(fi as int),
        decreases fn_count - fi,
    {
        fname_list.push(fragments[fi].group.clone());
        proof {
            assert(views_of(fname_list@) =~= frag_names(fragments@).take(fi as int).push(
                fragments@[fi as int].group@,
            ));
            assert(frag_names(fragments@).take(fi as int + 1) =~= frag_names(fragments@).take(
                fi as int,
            ).push(fragments@[fi as int].group@));
        }
        fi += 1;
    }
    proof {
        assert(frag_names(fragments@).take(fn_count as int) =~= frag_names(fragments@));
    }
    let gcount = partition.group_names.len();
    let mut gi: usize = 0;
    while gi < gcount
        invariant
            0 <= gi <= gcount,
            gcount == partition.group_names@.len(),
            views_of(fname_list@) == frag_names(fragments@),
            fn_count == fragments@.len(),
            forall|g2: int|
                0 <= g2 < gi ==> frag_names(fragments@).contains(
                    (#[trigger] partition.group_names@[g2])@,
                ),
            forall|a: int, b: int|
                #![trigger frag_names(fragments@)[a], frag_names(fragments@)[b]]
                0 <= a < b < fn_count ==> frag_names(fragments@)[a] != frag_names(fragments@)[b],
            forall|jj: int|
                0 <= jj < fn_count ==> views_of(partition.group_names@).contains(
                    #[trigger] frag_names(fragments@)[jj],
                ),
        decreases gcount - gi,
    {
        if !crate::grouping::strings_contain(&fname_list, &partition.group_names[gi]) {
            let m = partition.group_names[gi].clone();
            proof {
                assert(views_of(partition.group_names@)[gi as int] == m@);
            }
            return Err(GroupedDispatchError::MissingGroup(m));
        }
        gi += 1;
    }

    // The fragment set fits: one arm per variant, each routed to its group.
    let vs_all_unit = crate::dispatch::check_all_unit(&model.variants);
    let n = model.variants.len();
    let mut arms: Vec<GroupedArm> = Vec::new();
    let mut i: usize = 0;
    while i < n
        invariant
            0 <= i <= n,
            n == model.variants@.len(),
            partition_for(*partition, model.variants@),
            vs_all_unit == all_unit(model.variants@),
            fn_count == fragments@.len(),
            arms@.len() == i,
            forall|k: int|
                0 <= k < i ==> arm_matches(
                    (#[trigger] arms@[k]).arm,
                    model.variants@[k],
                    facets,
                    model.container_wrapper,
                    all_unit(model.variants@),
                    None,
                ),
            forall|k: int|
                0 <= k < i ==> {
                    let fidx = frag_index_of(fragments@, partition.assignment@[k]@);
                    &&& (#[trigger] arms@[k]).group@ == partition.assignment@[k]@
                    &&& 0 <= fidx < fragments@.len()
                    &&& arms@[k].fragment@ == fragments@[fidx].text@
                },
            forall|jj: int|
                0 <= jj < fn_count ==> views_of(partition.group_names@).contains(
                    #[trigger] frag_names(fragments@)[jj],
                ),
            forall|g2: int|
                0 <= g2 < gcount ==> frag_names(fragments@).contains(
                    (#[trigger] partition.group_names@[g2])@,
                ),
            gcount == partition.group_names@.len(),
        decreases n - i,
    {
        let arm = generate_arm(&model.variants[i], facets, &model.container_wrapper, vs_all_unit, None);
        let gname = &partition.assignment[i];
        proof {
            // the group name is one of the partition's, so a fragment covers it
            assert(views_of(partition.group_names@).contains(gname@));
            let gpos = choose|gpos: int|
                0 <= gpos < views_of(partition.group_names@).len() && views_of(
                    partition.group_names@,
                )[gpos] == gname@;
            assert(frag_names(fragments@).contains((partition.group_names@[gpos])@));
        }
        let mut fj: usize = 0;
        let mut hit: Option<usize> = None;
        while fj < fn_count
            invariant
                0 <= fj <= fn_count,
                fn_count == fragments@.len(),
                gname == &partition.assignment[i as int],
                0 <= i < n,
                n == model.variants@.len(),
                partition_for(*partition, model.variants@),
                match hit {
                    Some(h) => 0 <= h < fj && fragments@[h as int].group@ == gname@ && (forall|
                        j2: int,
                    |
                        0 <= j2 < h ==> (#[trigger] fragments@[j2]).group@ != gname@),
                    None => forall|j2: int|
                        0 <= j2 < fj ==> (#[trigger] fragments@[j2]).group@ != gname@,
                },
            decreases fn_count - fj,
        {
            if hit.is_none() {
                if fragments[fj].group == *gname {
                    hit = Some(fj);
                }
            }
            fj += 1;
        }
        match hit {
            Some(h) => {
                proof {
                    lemma_frag_index_found(fragments@, gname@, h as int);
                }
                arms.push(
                    GroupedArm {
                        arm,
                        group: gname.clone(),
                        fragment: fragments[h].text.clone(),
                    },
                );
            },
            None => {
                proof {
                    assert(frag_names(fragments@).contains(gname@));
                    let w = choose|w: int|
                        0 <= w < frag_names(fragments@).len() && frag_names(fragments@)[w]
                            == gname@;
                    assert(fragments@[w].group@ == gname@);
                    assert(false);
                }
                // unreachable: the coverage scan above matched every group
                arms.push(GroupedArm { arm, group: gname.clone(), fragment: String::new() });
            },
        }
        i += 1;
    }
    let c = GroupedDispatchConstruct {
        name: partition.dispatch_name.clone(),
        facets,
        arms,
    };
    proof {
        assert forall|i2: int| 0 <= i2 < model.variants@.len() implies grouped_arm_ok(
            c,
            *partition,
            fragments@,
            i2,
        ) by {
            assert(c.arms@[i2].group@ == partition.assignment@[i2]@);
        }
    }
    Ok(c)
}

} // verus!
