//! The grouping validator: checks a requested `GroupingSpec` against a
//! schema's variant set and, on success, yields the partition that the grouped
//! dispatch generator builds on.

use vstd::prelude::*;

use crate::schema::{dup_at, names_unique, variant_names, Group, GroupingSpec, VariantDescriptor};

verus! {

/// Why a `GroupingSpec` is no partition of the schema's variant set.
#[derive(Debug, Clone, PartialEq, Eq)]
pub enum GroupingError {
    /// These schema variants appear in no group, in declaration order.
    MissingVariants(Vec<String>),
    /// This variant name appears in more than one place across the groups.
    DuplicateVariant(String),
    /// This group has no members.
    EmptyGroup(String),
    /// A group lists this name, but the schema has no such variant.
    UnknownVariant(String),
    /// Two groups of the same grouping share this name.
    DuplicateGroup(String),
}

/// A validated partition: every schema variant belongs to exactly one group.
///
/// `assignment` runs parallel to the schema's variant list: entry `i` is the
/// name of the group that owns variant `i`. `group_names` keeps the groups'
/// insertion order for deterministic downstream code.
#[derive(Debug, Clone)]
pub struct GroupPartition {
    pub dispatch_name: String,
    pub group_names: Vec<String>,
    pub assignment: Vec<String>,
}

/// The views of a sequence of strings.
pub open spec fn views_of(ss: Seq<String>) -> Seq<Seq<char>> {
    ss.map_values(|s: String| s@)
}

/// The group names of a grouping, in insertion order.
pub open spec fn group_names(gs: Seq<Group>) -> Seq<Seq<char>> {
    gs.map_values(|g: Group| g.name@)
}

/// The member names of one group.
pub open spec fn member_names(g: Group) -> Seq<Seq<char>> {
    views_of(g.members@)
}

/// All member names across the groups, flattened in order.
pub open spec fn all_members(gs: Seq<Group>) -> Seq<Seq<char>>
    decreases gs.len(),
{
    if gs.len() == 0 {
        Seq::<Seq<char>>::empty()
    } else {
        all_members(gs.drop_last()) + member_names(gs.last())
    }
}

/// The partition invariant: no empty group, group names unique, every member
/// a schema variant, no member listed twice, every schema variant covered.
pub open spec fn partition_ok(ns: Seq<Seq<char>>, gs: Seq<Group>) -> bool {
    &&& forall|i: int| 0 <= i < gs.len() ==> member_names(#[trigger] gs[i]).len() > 0
    &&& names_unique(group_names(gs))
    &&& forall|j: int| 0 <= j < all_members(gs).len() ==> ns.contains(#[trigger] all_members(gs)[j])
    &&& names_unique(all_members(gs))
    &&& forall|i: int| 0 <= i < ns.len() ==> all_members(gs).contains(#[trigger] ns[i])
}

/// The schema variants that no group mentions, in declaration order.
pub open spec fn uncovered(ns: Seq<Seq<char>>, gs: Seq<Group>) -> Seq<Seq<char>>
    decreases ns.len(),
{
    if ns.len() == 0 {
        Seq::<Seq<char>>::empty()
    } else {
        uncovered(ns.drop_last(), gs) + if all_members(gs).contains(ns.last()) {
            Seq::<Seq<char>>::empty()
        } else {
            seq![ns.last()]
        }
    }
}

/// The index of the first group whose members mention `v`, starting at `i`;
/// the group count if none does.
pub open spec fn group_index_from(gs: Seq<Group>, v: Seq<char>, i: int) -> int
    decreases gs.len() - i
        when 0 <= i <= gs.len()
{
    if i >= gs.len() {
        gs.len() as int
    } else if member_names(gs[i]).contains(v) {
        i
    } else {
        group_index_from(gs, v, i + 1)
    }
}

/// The index of the group owning variant `v` (unique under `partition_ok`).
pub open spec fn group_index_of(gs: Seq<Group>, v: Seq<char>) -> int {
    group_index_from(gs, v, 0)
}

/// Entry `i` of an assignment names the group that owns variant `i`.
pub open spec fn assigned_ok(gs: Seq<Group>, ns: Seq<Seq<char>>, a: Seq<String>, i: int) -> bool {
    let gidx = group_index_of(gs, ns[i]);
    &&& 0 <= gidx < gs.len()
    &&& member_names(gs[gidx]).contains(ns[i])
    &&& a[i]@ == gs[gidx].name@
}

/// Every assignment entry names one of the partition's groups.
pub open spec fn partition_consistent(p: GroupPartition) -> bool {
    forall|i: int|
        0 <= i < p.assignment@.len() ==> views_of(p.group_names@).contains(
            (#[trigger] p.assignment@[i])@,
        )
}

/// The partition fits the given variant list: one group name per variant,
/// each drawn from the partition's own group list.
pub open spec fn partition_for(p: GroupPartition, vs: Seq<VariantDescriptor>) -> bool {
    &&& p.assignment@.len() == vs.len()
    &&& partition_consistent(p)
}

/// Each reported failure states a fact about the grouping under scrutiny.
pub open spec fn error_justified(e: GroupingError, ns: Seq<Seq<char>>, gs: Seq<Group>) -> bool {
    match e {
        GroupingError::EmptyGroup(g) => exists|i: int|
            0 <= i < gs.len() && (#[trigger] gs[i]).name@ == g@ && member_names(gs[i]).len() == 0,
        GroupingError::DuplicateGroup(g) => exists|j: int|
            0 <= j < gs.len() && #[trigger] dup_at(group_names(gs), j) && group_names(gs)[j] == g@,
        GroupingError::UnknownVariant(u) => !ns.contains(u@) && all_members(gs).contains(u@),
        GroupingError::DuplicateVariant(m) => exists|j: int|
            0 <= j < all_members(gs).len() && #[trigger] dup_at(all_members(gs), j) && all_members(
                gs,
            )[j] == m@,
        GroupingError::MissingVariants(vs) => views_of(vs@) == uncovered(ns, gs) && uncovered(
            ns,
            gs,
        ).len() > 0,
    }
}

pub open spec fn has_empty_group_err(es: Seq<GroupingError>) -> bool {
    exists|k: int| 0 <= k < es.len() && (#[trigger] es[k]) is EmptyGroup
}

pub open spec fn has_dup_group_err(es: Seq<GroupingError>) -> bool {
    exists|k: int| 0 <= k < es.len() && (#[trigger] es[k]) is DuplicateGroup
}

pub open spec fn has_unknown_err(es: Seq<GroupingError>) -> bool {
    exists|k: int| 0 <= k < es.len() && (#[trigger] es[k]) is UnknownVariant
}

pub open spec fn has_dup_member_err(es: Seq<GroupingError>) -> bool {
    exists|k: int| 0 <= k < es.len() && (#[trigger] es[k]) is DuplicateVariant
}

pub open spec fn has_missing_err(es: Seq<GroupingError>) -> bool {
    exists|k: int| 0 <= k < es.len() && (#[trigger] es[k]) is MissingVariants
}

/// Flattening one more group appends its member names.
proof fn lemma_all_members_take(gs: Seq<Group>, i: int)
    requires
        0 <= i < gs.len(),
    ensures
        all_members(gs.take(i + 1)) == all_members(gs.take(i)) + member_names(gs[i]),
{
    assert(gs.take(i + 1).drop_last() =~= gs.take(i));
    assert(gs.take(i + 1).last() == gs[i]);
}

/// The flattened member list splits at any group boundary.
proof fn lemma_all_members_split(gs: Seq<Group>, j: int)
    requires
        0 <= j <= gs.len(),
    ensures
        all_members(gs) == all_members(gs.take(j)) + all_members(gs.skip(j)),
    decreases gs.len(),
{
    if j == gs.len() {
        assert(gs.take(j) =~= gs);
        assert(gs.skip(j) =~= Seq::<Group>::empty());
        assert(all_members(gs) =~= all_members(gs.take(j)) + all_members(gs.skip(j)));
    } else {
        lemma_all_members_split(gs.drop_last(), j);
        assert(gs.drop_last().take(j) =~= gs.take(j));
        assert(gs.skip(j).drop_last() =~= gs.drop_last().skip(j));
        assert(gs.skip(j).last() == gs.last());
        assert(gs.skip(j).len() > 0);
        assert(all_members(gs.skip(j)) == all_members(gs.drop_last().skip(j)) + member_names(
            gs.last(),
        ));
        assert(all_members(gs) =~= all_members(gs.take(j)) + all_members(gs.skip(j)));
    }
}

/// A flattened prefix (whole groups plus part of the next) sits at the start
/// of the full flattened member list, index for index.
proof fn lemma_flat_prefix(gs: Seq<Group>, gi: int, k: int)
    requires
        0 <= gi < gs.len(),
        0 <= k <= member_names(gs[gi]).len(),
    ensures
        (all_members(gs.take(gi)) + member_names(gs[gi]).take(k)).len() <= all_members(gs).len(),
        forall|j: int|
            0 <= j < (all_members(gs.take(gi)) + member_names(gs[gi]).take(k)).len()
                ==> #[trigger] all_members(gs)[j] == (all_members(gs.take(gi)) + member_names(
                gs[gi],
            ).take(k))[j],
{
    lemma_all_members_split(gs, gi);
    let rest = gs.skip(gi);
    assert(rest.len() > 0);
    lemma_all_members_split(rest, 1);
    assert(rest.take(1).drop_last() =~= Seq::<Group>::empty());
    assert(rest.take(1).last() == gs[gi]);
    assert(all_members(Seq::<Group>::empty()) =~= Seq::<Seq<char>>::empty());
    assert(all_members(rest.take(1)) == all_members(rest.take(1).drop_last()) + member_names(
        rest.take(1).last(),
    ));
    assert(all_members(rest.take(1)) =~= member_names(gs[gi]));
    let a = all_members(gs.take(gi));
    let b = member_names(gs[gi]);
    let c = all_members(rest.skip(1));
    assert(all_members(gs) =~= a + b + c);
    assert forall|j: int| 0 <= j < (a + b.take(k)).len() implies #[trigger] all_members(gs)[j] == (a
        + b.take(k))[j] by {
        if j < a.len() {
            assert((a + b + c)[j] == a[j]);
            assert((a + b.take(k))[j] == a[j]);
        } else {
            assert((a + b + c)[j] == b[j - a.len()]);
            assert((a + b.take(k))[j] == b.take(k)[j - a.len()]);
        }
    }
}

/// Some entry repeats an earlier one exactly when the list is not duplicate-free.
proof fn lemma_dup_iff_not_unique(ns: Seq<Seq<char>>)
    ensures
        (exists|j: int| 0 <= j < ns.len() && #[trigger] dup_at(ns, j)) <==> !names_unique(ns),
{
    if exists|j: int| 0 <= j < ns.len() && #[trigger] dup_at(ns, j) {
        let j = choose|j: int| 0 <= j < ns.len() && #[trigger] dup_at(ns, j);
        let i = choose|i: int| 0 <= i < j && ns[i] == ns[j];
        assert(!names_unique(ns));
    }
    if !names_unique(ns) {
        let (i, j) = choose|i: int, j: int| 0 <= i < j < ns.len() && ns[i] == ns[j];
        assert(dup_at(ns, j));
        assert(0 <= j < ns.len() && dup_at(ns, j));
    }
}

/// A name in the flattened member list lies in some group, and conversely.
proof fn lemma_all_members_source(gs: Seq<Group>, v: Seq<char>)
    ensures
        all_members(gs).contains(v) <==> exists|g: int|
            0 <= g < gs.len() && member_names(#[trigger] gs[g]).contains(v),
    decreases gs.len(),
{
    if gs.len() > 0 {
        lemma_all_members_source(gs.drop_last(), v);
        if all_members(gs).contains(v) {
            let j = choose|j: int| 0 <= j < all_members(gs).len() && all_members(gs)[j] == v;
            if j < all_members(gs.drop_last()).len() {
                assert(all_members(gs.drop_last())[j] == v);
                assert(all_members(gs.drop_last()).contains(v));
                let g = choose|g: int|
                    0 <= g < gs.drop_last().len() && member_names(
                        #[trigger] gs.drop_last()[g],
                    ).contains(v);
                assert(gs[g] == gs.drop_last()[g]);
                assert(member_names(#[trigger] gs[g]).contains(v));
            } else {
                assert(member_names(gs.last())[j - all_members(gs.drop_last()).len()] == v);
                assert(member_names(gs.last()).contains(v));
                assert(gs[gs.len() - 1] == gs.last());
                assert(member_names(#[trigger] gs[gs.len() - 1]).contains(v));
            }
        }
        if exists|g: int| 0 <= g < gs.len() && member_names(#[trigger] gs[g]).contains(v) {
            let g = choose|g: int| 0 <= g < gs.len() && member_names(#[trigger] gs[g]).contains(v);
            let j = choose|j: int|
                0 <= j < member_names(gs[g]).len() && member_names(gs[g])[j] == v;
            if g < gs.len() - 1 {
                assert(gs.drop_last()[g] == gs[g]);
                assert(member_names(#[trigger] gs.drop_last()[g]).contains(v));
                assert(all_members(gs.drop_last()).contains(v));
                let j2 = choose|j2: int|
                    0 <= j2 < all_members(gs.drop_last()).len() && all_members(gs.drop_last())[j2]
                        == v;
                assert(all_members(gs)[j2] == v);
                assert(all_members(gs).contains(v));
            } else {
                assert(member_names(gs.last())[j] == v);
                assert(all_members(gs)[all_members(gs.drop_last()).len() + j] == v);
                assert(all_members(gs).contains(v));
            }
        }
    }
}

/// A fresh error joins the list; every other kind's presence is unchanged.
proof fn lemma_err_push(es: Seq<GroupingError>, e: GroupingError)
    ensures
        has_empty_group_err(es.push(e)) == (has_empty_group_err(es) || e is EmptyGroup),
        has_dup_group_err(es.push(e)) == (has_dup_group_err(es) || e is DuplicateGroup),
        has_unknown_err(es.push(e)) == (has_unknown_err(es) || e is UnknownVariant),
        has_dup_member_err(es.push(e)) == (has_dup_member_err(es) || e is DuplicateVariant),
        has_missing_err(es.push(e)) == (has_missing_err(es) || e is MissingVariants),
        forall|k: int| 0 <= k < es.len() ==> es.push(e)[k] == es[k],
        es.push(e)[es.len() as int] == e,
{
    assert(es.push(e)[es.len() as int] == e);
    if has_empty_group_err(es) {
        let k = choose|k: int| 0 <= k < es.len() && (#[trigger] es[k]) is EmptyGroup;
        assert((es.push(e)[k]) is EmptyGroup);
    }
    if has_dup_group_err(es) {
        let k = choose|k: int| 0 <= k < es.len() && (#[trigger] es[k]) is DuplicateGroup;
        assert((es.push(e)[k]) is DuplicateGroup);
    }
    if has_unknown_err(es) {
        let k = choose|k: int| 0 <= k < es.len() && (#[trigger] es[k]) is UnknownVariant;
        assert((es.push(e)[k]) is UnknownVariant);
    }
    if has_dup_member_err(es) {
        let k = choose|k: int| 0 <= k < es.len() && (#[trigger] es[k]) is DuplicateVariant;
        assert((es.push(e)[k]) is DuplicateVariant);
    }
    if has_missing_err(es) {
        let k = choose|k: int| 0 <= k < es.len() && (#[trigger] es[k]) is MissingVariants;
        assert((es.push(e)[k]) is MissingVariants);
    }
    if has_empty_group_err(es.push(e)) && !(e is EmptyGroup) {
        let k = choose|k: int|
            0 <= k < es.push(e).len() && (#[trigger] es.push(e)[k]) is EmptyGroup;
        assert(k < es.len() && (es[k]) is EmptyGroup);
    }
    if has_dup_group_err(es.push(e)) && !(e is DuplicateGroup) {
        let k = choose|k: int|
            0 <= k < es.push(e).len() && (#[trigger] es.push(e)[k]) is DuplicateGroup;
        assert(k < es.len() && (es[k]) is DuplicateGroup);
    }
    if has_unknown_err(es.push(e)) && !(e is UnknownVariant) {
        let k = choose|k: int|
            0 <= k < es.push(e).len() && (#[trigger] es.push(e)[k]) is UnknownVariant;
        assert(k < es.len() && (es[k]) is UnknownVariant);
    }
    if has_dup_member_err(es.push(e)) && !(e is DuplicateVariant) {
        let k = choose|k: int|
            0 <= k < es.push(e).len() && (#[trigger] es.push(e)[k]) is DuplicateVariant;
        assert(k < es.len() && (es[k]) is DuplicateVariant);
    }
    if has_missing_err(es.push(e)) && !(e is MissingVariants) {
        let k = choose|k: int|
            0 <= k < es.push(e).len() && (#[trigger] es.push(e)[k]) is MissingVariants;
        assert(k < es.len() && (es[k]) is MissingVariants);
    }
}

/// Does some schema variant carry this name?
pub fn variants_contain(variants: &Vec<VariantDescriptor>, x: &String) -> (r: bool)
    ensures
        r == variant_names(variants@).contains(x@),
{
    let ghost ns = variant_names(variants@);
    let n = variants.len();
    let mut i: usize = 0;
    while i < n
        invariant
            0 <= i <= n,
            n == variants@.len(),
            ns == variant_names(variants@),
            forall|j: int| 0 <= j < i ==> ns[j] != x@,
        decreases n - i,
    {
        if variants[i].name == *x {
            proof {
                assert(ns[i as int] == x@);
            }
            return true;
        }
        i += 1;
    }
    proof {
        if ns.contains(x@) {
            let j = choose|j: int| 0 <= j < ns.len() && ns[j] == x@;
            assert(false);
        }
    }
    false
}

/// Does the list hold a string of this spelling?
pub fn strings_contain(ss: &Vec<String>, x: &String) -> (r: bool)
    ensures
        r == views_of(ss@).contains(x@),
{
    let ghost vs = views_of(ss@);
    let n = ss.len();
    let mut i: usize = 0;
    while i < n
        invariant
            0 <= i <= n,
            n == ss@.len(),
            vs == views_of(ss@),
            forall|j: int| 0 <= j < i ==> vs[j] != x@,
        decreases n - i,
    {
        if ss[i] == *x {
            proof {
                assert(vs[i as int] == x@);
            }
            return true;
        }
        i += 1;
    }
    proof {
        if vs.contains(x@) {
            let j = choose|j: int| 0 <= j < vs.len() && vs[j] == x@;
            assert(false);
        }
    }
    false
}

/// Verifies the partition invariant of a grouping against the schema's
/// variants. On success, returns the partition: each variant assigned to
/// exactly one group, group insertion order preserved. On failure, returns
/// every failure found, never a silent partial grouping.
pub fn validate_grouping(variants: &Vec<VariantDescriptor>, gspec: &GroupingSpec) -> (r: Result<
    GroupPartition,
    Vec<GroupingError>,
>)
    ensures
        r is Ok <==> partition_ok(variant_names(variants@), gspec.groups@),
        r matches Err(es) ==> es@.len() > 0 && (forall|k: int|
            0 <= k < es@.len() ==> error_justified(
                #[trigger] es@[k],
                variant_names(variants@),
                gspec.groups@,
            )),
        r matches Err(es) ==> {
            &&& has_empty_group_err(es@) <==> exists|i: int|
                0 <= i < gspec.groups@.len() && member_names(#[trigger] gspec.groups@[i]).len()
                    == 0
            &&& has_dup_group_err(es@) <==> !names_unique(group_names(gspec.groups@))
            &&& has_unknown_err(es@) <==> exists|j: int|
                0 <= j < all_members(gspec.groups@).len() && !variant_names(variants@).contains(
                    #[trigger] all_members(gspec.groups@)[j],
                )
            &&& has_dup_member_err(es@) <==> !names_unique(all_members(gspec.groups@))
            &&& has_missing_err(es@) <==> uncovered(variant_names(variants@), gspec.groups@).len()
                > 0
        },
        r matches Ok(p) ==> {
            &&& p.dispatch_name@ == gspec.dispatch_name@
            &&& views_of(p.group_names@) == group_names(gspec.groups@)
            &&& p.assignment@.len() == variants@.len()
            &&& forall|i: int|
                0 <= i < variants@.len() ==> #[trigger] assigned_ok(
                    gspec.groups@,
                    variant_names(variants@),
                    p.assignment@,
                    i,
                )
            &&& partition_for(p, variants@)
        },
{
    let ghost ns = variant_names(variants@);
    let ghost gs = gspec.groups@;
    let groups = &gspec.groups;
    let gn = groups.len();
    let mut errors: Vec<GroupingError> = Vec::new();

    // Empty groups and duplicated group names.
    let mut gi: usize = 0;
    while gi < gn
        invariant
            0 <= gi <= gn,
            gn == gs.len(),
            gs == gspec.groups@,
            ns == variant_names(variants@),
            groups == &gspec.groups,
            forall|k: int| 0 <= k < errors@.len() ==> error_justified(#[trigger] errors@[k], ns, gs),
            has_empty_group_err(errors@) <==> exists|i: int|
                0 <= i < gi && member_names(#[trigger] gs[i]).len() == 0,
            has_dup_group_err(errors@) <==> exists|j: int| 0 <= j < gi && #[trigger] dup_at(
                group_names(gs),
                j,
            ),
            !has_unknown_err(errors@),
            !has_dup_member_err(errors@),
            !has_missing_err(errors@),
        decreases gn - gi,
    {
        if groups[gi].members.len() == 0 {
            let e = GroupingError::EmptyGroup(groups[gi].name.clone());
            proof {
                lemma_err_push(errors@, e);
                assert(gs[gi as int].name@ == e->EmptyGroup_0@);
                assert(member_names(gs[gi as int]).len() == 0);
                assert(error_justified(e, ns, gs));
            }
            errors.push(e);
        }
        let mut gj: usize = 0;
        let mut dup_found = false;
        while gj < gi
            invariant
                0 <= gj <= gi < gn,
                gn == gs.len(),
                gs == gspec.groups@,
                groups == &gspec.groups,
                dup_found == exists|i2: int|
                    0 <= i2 < gj && group_names(gs)[i2] == group_names(gs)[gi as int],
            decreases gi - gj,
    {
            if !dup_found && groups[gj].name == groups[gi].name {
                proof {
                    assert(group_names(gs)[gj as int] == gs[gj as int].name@);
                    assert(group_names(gs)[gi as int] == gs[gi as int].name@);
                    assert(group_names(gs)[gj as int] == group_names(gs)[gi as int]);
                }
                dup_found = true;
            }
            gj += 1;
        }
        if dup_found {
            let e = GroupingError::DuplicateGroup(groups[gi].name.clone());
            proof {
                lemma_err_push(errors@, e);
                assert(dup_at(group_names(gs), gi as int));
                assert(group_names(gs)[gi as int] == e->DuplicateGroup_0@);
                assert(error_justified(e, ns, gs));
            }
            errors.push(e);
        } else {
            proof {
                assert(!dup_at(group_names(gs), gi as int));
            }
        }
        gi += 1;
    }

    // Unknown and duplicated member names, walking the flattened member list.
    let mut seen: Vec<String> = Vec::new();
    let mut gi2: usize = 0;
    proof {
        assert(gs.take(0) =~= Seq::<Group>::empty());
        assert(views_of(seen@) =~= all_members(gs.take(0)));
    }
    while gi2 < gn
        invariant
            0 <= gi2 <= gn,
            gn == gs.len(),
            gs == gspec.groups@,
            ns == variant_names(variants@),
            groups == &gspec.groups,
            views_of(seen@) == all_members(gs.take(gi2 as int)),
            forall|k: int| 0 <= k < errors@.len() ==> error_justified(#[trigger] errors@[k], ns, gs),
            has_empty_group_err(errors@) <==> exists|i: int|
                0 <= i < gs.len() && member_names(#[trigger] gs[i]).len() == 0,
            has_dup_group_err(errors@) <==> exists|j: int| 0 <= j < gs.len() && #[trigger] dup_at(
                group_names(gs),
                j,
            ),
            has_unknown_err(errors@) <==> exists|j: int|
                0 <= j < views_of(seen@).len() && !ns.contains(#[trigger] views_of(seen@)[j]),
            has_dup_member_err(errors@) <==> exists|j: int|
                0 <= j < views_of(seen@).len() && #[trigger] dup_at(views_of(seen@), j),
            !has_missing_err(errors@),
        decreases gn - gi2,
    {
        let mn = groups[gi2].members.len();
        let ghost flat_before_group = all_members(gs.take(gi2 as int));
        let mut mi: usize = 0;
        proof {
            assert(member_names(gs[gi2 as int]).take(0) =~= Seq::<Seq<char>>::empty());
            assert(views_of(seen@) =~= flat_before_group + member_names(gs[gi2 as int]).take(0));
        }
        while mi < mn
            invariant
                0 <= mi <= mn,
                gn == gs.len(),
                0 <= gi2 < gn,
                gs == gspec.groups@,
                ns == variant_names(variants@),
                groups == &gspec.groups,
                mn == gs[gi2 as int].members@.len(),
                flat_before_group == all_members(gs.take(gi2 as int)),
                views_of(seen@) == flat_before_group + member_names(gs[gi2 as int]).take(mi as int),
                forall|k: int|
                    0 <= k < errors@.len() ==> error_justified(#[trigger] errors@[k], ns, gs),
                has_empty_group_err(errors@) <==> exists|i: int|
                    0 <= i < gs.len() && member_names(#[trigger] gs[i]).len() == 0,
                has_dup_group_err(errors@) <==> exists|j: int| 0 <= j < gs.len()
                    && #[trigger] dup_at(group_names(gs), j),
                has_unknown_err(errors@) <==> exists|j: int|
                    0 <= j < views_of(seen@).len() && !ns.contains(#[trigger] views_of(seen@)[j]),
                has_dup_member_err(errors@) <==> exists|j: int|
                    0 <= j < views_of(seen@).len() && #[trigger] dup_at(views_of(seen@), j),
                !has_missing_err(errors@),
            decreases mn - mi,
        {
            let m = &groups[gi2].members[mi];
            let ghost flat = views_of(seen@);
            proof {
                assert(member_names(gs[gi2 as int])[mi as int] == m@);
                lemma_flat_prefix(gs, gi2 as int, mi as int + 1);
            }
            let known = variants_contain(variants, m);
            let repeated = strings_contain(&seen, m);
            if !known {
                let e = GroupingError::UnknownVariant(m.clone());
                proof {
                    lemma_err_push(errors@, e);
                    lemma_all_members_source(gs, m@);
                    assert(member_names(gs[gi2 as int]).contains(m@)) by {
                        assert(member_names(gs[gi2 as int])[mi as int] == m@);
                    }
                    assert(all_members(gs).contains(m@));
                    assert(error_justified(e, ns, gs));
                }
                errors.push(e);
            }
            if repeated {
                let e = GroupingError::DuplicateVariant(m.clone());
                proof {
                    lemma_err_push(errors@, e);
                    // the repeated spelling shows up as a duplicate in the
                    // full flattened list, at the index this occurrence holds
                    let j0 = choose|j0: int| 0 <= j0 < flat.len() && flat[j0] == m@;
                    let jdup = flat.len() as int;
                    assert(member_names(gs[gi2 as int]).take(mi as int + 1) =~= member_names(
                        gs[gi2 as int],
                    ).take(mi as int).push(m@));
                    assert((flat_before_group + member_names(gs[gi2 as int]).take(mi as int + 1))[
                        jdup] == m@);
                    assert(all_members(gs)[jdup] == m@);
                    assert((flat_before_group + member_names(gs[gi2 as int]).take(mi as int + 1))[
                        j0] == flat[j0]);
                    assert(all_members(gs)[j0] == m@);
                    assert(dup_at(all_members(gs), jdup));
                    assert(jdup < all_members(gs).len());
                    assert(error_justified(e, ns, gs));
                }
                errors.push(e);
            }
            seen.push(m.clone());
            proof {
                let flat2 = flat.push(m@);
                assert(views_of(seen@) =~= flat2);
                assert(member_names(gs[gi2 as int]).take(mi as int + 1) =~= member_names(
                    gs[gi2 as int],
                ).take(mi as int).push(m@));
                assert(views_of(seen@) =~= flat_before_group + member_names(gs[gi2 as int]).take(
                    mi as int + 1,
                ));
                // carry the unknown-name equivalence to the longer prefix
                if !known {
                    assert(flat2[flat.len() as int] == m@);
                    assert(!ns.contains(flat2[flat.len() as int]));
                } else {
                    if !(exists|j: int| 0 <= j < flat.len() && !ns.contains(#[trigger] flat[j])) {
                        assert forall|j: int| 0 <= j < flat2.len() implies ns.contains(
                            #[trigger] flat2[j],
                        ) by {
                            if j < flat.len() {
                                assert(flat2[j] == flat[j]);
                                assert(ns.contains(flat[j]));
                            } else {
                                assert(flat2[j] == m@);
                            }
                        }
                    } else {
                        let j = choose|j: int| 0 <= j < flat.len() && !ns.contains(
                            #[trigger] flat[j],
                        );
                        assert(flat2[j] == flat[j]);
                        assert(!ns.contains(flat2[j]));
                    }
                }
                // carry the duplicate equivalence to the longer prefix
                if repeated {
                    let j0 = choose|j0: int| 0 <= j0 < flat.len() && flat[j0] == m@;
                    assert(flat2[j0] == m@);
                    assert(flat2[flat.len() as int] == m@);
                    assert(dup_at(flat2, flat.len() as int));
                } else {
                    if !(exists|j: int| 0 <= j < flat.len() && #[trigger] dup_at(flat, j)) {
                        assert forall|j: int| 0 <= j < flat2.len() && #[trigger] dup_at(
                            flat2,
                            j,
                        ) implies false by {
                            let i0 = choose|i0: int| 0 <= i0 < j && flat2[i0] == flat2[j];
                            if j < flat.len() {
                                assert(flat2[i0] == flat[i0] && flat2[j] == flat[j]);
                                assert(dup_at(flat, j));
                            } else {
                                assert(flat2[j] == m@);
                                assert(flat[i0] == m@);
                                assert(flat.contains(m@));
                            }
                        }
                    } else {
                        let j = choose|j: int| 0 <= j < flat.len() && #[trigger] dup_at(flat, j);
                        let i0 = choose|i0: int| 0 <= i0 < j && flat[i0] == flat[j];
                        assert(flat2[i0] == flat2[j]);
                        assert(dup_at(flat2, j));
                    }
                }
            }
            mi += 1;
        }
        proof {
            assert(member_names(gs[gi2 as int]).take(mn as int) =~= member_names(gs[gi2 as int]));
            lemma_all_members_take(gs, gi2 as int);
        }
        gi2 += 1;
    }
    proof {
        assert(gs.take(gn as int) =~= gs);
    }

    // Variants that no group covers, in declaration order.
    let vn = variants.len();
    let mut missing: Vec<String> = Vec::new();
    let mut vi: usize = 0;
    proof {
        assert(ns.take(0) =~= Seq::<Seq<char>>::empty());
        assert(views_of(missing@) =~= uncovered(ns.take(0), gs));
    }
    while vi < vn
        invariant
            0 <= vi <= vn,
            vn == variants@.len(),
            ns == variant_names(variants@),
            gs == gspec.groups@,
            groups == &gspec.groups,
            views_of(seen@) == all_members(gs),
            views_of(missing@) == uncovered(ns.take(vi as int), gs),
            forall|k: int| 0 <= k < errors@.len() ==> error_justified(#[trigger] errors@[k], ns, gs),
            has_empty_group_err(errors@) <==> exists|i: int|
                0 <= i < gs.len() && member_names(#[trigger] gs[i]).len() == 0,
            has_dup_group_err(errors@) <==> exists|j: int| 0 <= j < gs.len() && #[trigger] dup_at(
                group_names(gs),
                j,
            ),
            has_unknown_err(errors@) <==> exists|j: int|
                0 <= j < all_members(gs).len() && !ns.contains(#[trigger] all_members(gs)[j]),
            has_dup_member_err(errors@) <==> exists|j: int|
                0 <= j < all_members(gs).len() && #[trigger] dup_at(all_members(gs), j),
            !has_missing_err(errors@),
        decreases vn - vi,
    {
        let ghost before = views_of(missing@);
        let covered = strings_contain(&seen, &variants[vi].name);
        if !covered {
            missing.push(variants[vi].name.clone());
        }
        proof {
            assert(ns.take(vi as int + 1).drop_last() =~= ns.take(vi as int));
            assert(ns.take(vi as int + 1).last() == ns[vi as int]);
            assert(ns[vi as int] == variants@[vi as int].name@);
            if covered {
                assert(views_of(missing@) =~= before);
                assert(uncovered(ns.take(vi as int + 1), gs) =~= before);
            } else {
                assert(views_of(missing@) =~= before.push(variants@[vi as int].name@));
                assert(uncovered(ns.take(vi as int + 1), gs) =~= before.push(ns[vi as int]));
            }
        }
        vi += 1;
    }
    proof {
        assert(ns.take(vn as int) =~= ns);
    }
    if missing.len() > 0 {
        let e = GroupingError::MissingVariants(missing);
        proof {
            lemma_err_push(errors@, e);
            assert(error_justified(e, ns, gs));
        }
        errors.push(e);
    }

    proof {
        lemma_dup_iff_not_unique(group_names(gs));
        lemma_dup_iff_not_unique(all_members(gs));
    }

    if errors.len() > 0 {
        proof {
            lemma_partition_violated(ns, gs, errors@);
        }
        return Err(errors);
    }

    // No failure: the grouping is a partition; build the assignment.
    proof {
        lemma_partition_holds(ns, gs, errors@);
    }
    let mut group_name_list: Vec<String> = Vec::new();
    let mut gi3: usize = 0;
    proof {
        assert(views_of(group_name_list@) =~= group_names(gs).take(0));
    }
    while gi3 < gn
        invariant
            0 <= gi3 <= gn,
            gn == gs.len(),
            gs == gspec.groups@,
            groups == &gspec.groups,
            views_of(group_name_list@) == group_names(gs).take(gi3 as int),
        decreases gn - gi3,
    {
        group_name_list.push(groups[gi3].name.clone());
        proof {
            assert(views_of(group_name_list@) =~= group_names(gs).take(gi3 as int).push(
                gs[gi3 as int].name@,
            ));
            assert(group_names(gs).take(gi3 as int + 1) =~= group_names(gs).take(gi3 as int).push(
                gs[gi3 as int].name@,
            ));
        }
        gi3 += 1;
    }
    proof {
        assert(group_names(gs).take(gn as int) =~= group_names(gs));
    }

    let mut assignment: Vec<String> = Vec::new();
    let mut vi2: usize = 0;
    while vi2 < vn
        invariant
            0 <= vi2 <= vn,
            vn == variants@.len(),
            ns == variant_names(variants@),
            gs == gspec.groups@,
            gn == gs.len(),
            groups == &gspec.groups,
            partition_ok(ns, gs),
            assignment@.len() == vi2,
            forall|i: int| 0 <= i < vi2 ==> #[trigger] assigned_ok(gs, ns, assignment@, i),
        decreases vn - vi2,
    {
        let name = &variants[vi2].name;
        proof {
            assert(ns[vi2 as int] == name@);
            assert(all_members(gs).contains(name@));
            lemma_all_members_source(gs, name@);
        }
        let mut gj: usize = 0;
        let mut found: Option<usize> = None;
        while gj < gn
            invariant
                0 <= gj <= gn,
                gn == gs.len(),
                gs == gspec.groups@,
                groups == &gspec.groups,
                0 <= vi2 < vn,
                vn == variants@.len(),
                ns == variant_names(variants@),
                name == &variants[vi2 as int].name,
                name@ == ns[vi2 as int],
                match found {
                    Some(g) => 0 <= g < gj && member_names(gs[g as int]).contains(name@) && (
                    forall|g2: int| 0 <= g2 < g ==> !member_names(#[trigger] gs[g2]).contains(
                        name@,
                    )),
                    None => forall|g2: int| 0 <= g2 < gj ==> !member_names(
                        #[trigger] gs[g2],
                    ).contains(name@),
                },
            decreases gn - gj,
        {
            if found.is_none() {
                if strings_contain(&groups[gj].members, name) {
                    found = Some(gj);
                }
            }
            gj += 1;
        }
        let ghost assignment_before = assignment@;
        match found {
            Some(g) => {
                proof {
                    lemma_group_index_from_found(gs, name@, g as int);
                }
                assignment.push(groups[g].name.clone());
                proof {
                    assert(assignment@[vi2 as int]@ == gs[g as int].name@);
                    assert(group_index_of(gs, ns[vi2 as int]) == g);
                    assert forall|i: int| 0 <= i < vi2 + 1 implies #[trigger] assigned_ok(
                        gs,
                        ns,
                        assignment@,
                        i,
                    ) by {
                        if i < vi2 {
                            assert(assigned_ok(gs, ns, assignment_before, i));
                            assert(assignment@[i] == assignment_before[i]);
                        } else {
                            assert(assignment@[i]@ == gs[g as int].name@);
                        }
                    }
                }
            },
            None => {
                proof {
                    let gw = choose|gw: int|
                        0 <= gw < gs.len() && member_names(#[trigger] gs[gw]).contains(name@);
                    assert(false);
                }
                // unreachable: the coverage check above found every variant
                assignment.push(variants[vi2].name.clone());
            },
        }
        vi2 += 1;
    }

    let p = GroupPartition {
        dispatch_name: gspec.dispatch_name.clone(),
        group_names: group_name_list,
        assignment,
    };
    proof {
        assert forall|i: int| 0 <= i < p.assignment@.len() implies views_of(
            p.group_names@,
        ).contains((#[trigger] p.assignment@[i])@) by {
            assert(assigned_ok(gs, ns, p.assignment@, i));
            let gidx = group_index_of(gs, ns[i]);
            assert(views_of(p.group_names@)[gidx] == gs[gidx].name@);
        }
    }
    Ok(p)
}

/// A first-containing-group scan lands on `group_index_of`.
proof fn lemma_group_index_from_found(gs: Seq<Group>, v: Seq<char>, g: int)
    requires
        0 <= g < gs.len(),
        member_names(gs[g]).contains(v),
        forall|g2: int| 0 <= g2 < g ==> !member_names(#[trigger] gs[g2]).contains(v),
    ensures
        group_index_of(gs, v) == g,
{
    lemma_group_index_from_step(gs, v, 0, g);
}

proof fn lemma_group_index_from_step(gs: Seq<Group>, v: Seq<char>, i: int, g: int)
    requires
        0 <= i <= g < gs.len(),
        member_names(gs[g]).contains(v),
        forall|g2: int| i <= g2 < g ==> !member_names(#[trigger] gs[g2]).contains(v),
    ensures
        group_index_from(gs, v, i) == g,
    decreases g - i,
{
    if i < g {
        lemma_group_index_from_step(gs, v, i + 1, g);
    }
}

/// An error list built by the validator refutes the partition invariant.
proof fn lemma_partition_violated(ns: Seq<Seq<char>>, gs: Seq<Group>, es: Seq<GroupingError>)
    requires
        es.len() > 0,
        has_empty_group_err(es) <==> exists|i: int|
            0 <= i < gs.len() && member_names(#[trigger] gs[i]).len() == 0,
        has_dup_group_err(es) <==> !names_unique(group_names(gs)),
        has_unknown_err(es) <==> exists|j: int|
            0 <= j < all_members(gs).len() && !ns.contains(#[trigger] all_members(gs)[j]),
        has_dup_member_err(es) <==> !names_unique(all_members(gs)),
        has_missing_err(es) <==> uncovered(ns, gs).len() > 0,
    ensures
        !partition_ok(ns, gs),
{
    assert((es[0]) is EmptyGroup || (es[0]) is DuplicateGroup || (es[0]) is UnknownVariant || (
    es[0]) is DuplicateVariant || (es[0]) is MissingVariants);
    if (es[0]) is EmptyGroup {
        assert(has_empty_group_err(es)) by {
            assert(0 <= 0 < es.len() && (es[0]) is EmptyGroup);
        }
        let i = choose|i: int| 0 <= i < gs.len() && member_names(#[trigger] gs[i]).len() == 0;
        assert(!partition_ok(ns, gs));
    } else if (es[0]) is DuplicateGroup {
        assert(has_dup_group_err(es)) by {
            assert(0 <= 0 < es.len() && (es[0]) is DuplicateGroup);
        }
        assert(!partition_ok(ns, gs));
    } else if (es[0]) is UnknownVariant {
        assert(has_unknown_err(es)) by {
            assert(0 <= 0 < es.len() && (es[0]) is UnknownVariant);
        }
        let j = choose|j: int|
            0 <= j < all_members(gs).len() && !ns.contains(#[trigger] all_members(gs)[j]);
        assert(!partition_ok(ns, gs));
    } else if (es[0]) is DuplicateVariant {
        assert(has_dup_member_err(es)) by {
            assert(0 <= 0 < es.len() && (es[0]) is DuplicateVariant);
        }
        assert(!partition_ok(ns, gs));
    } else {
        assert(has_missing_err(es)) by {
            assert(0 <= 0 < es.len() && (es[0]) is MissingVariants);
        }
        lemma_uncovered_nonempty(ns, gs);
        let i = choose|i: int|
            0 <= i < ns.len() && !all_members(gs).contains(#[trigger] ns[i]);
        assert(!partition_ok(ns, gs));
    }
}

/// An empty error list establishes the partition invariant.
proof fn lemma_partition_holds(ns: Seq<Seq<char>>, gs: Seq<Group>, es: Seq<GroupingError>)
    requires
        es.len() == 0,
        has_empty_group_err(es) <==> exists|i: int|
            0 <= i < gs.len() && member_names(#[trigger] gs[i]).len() == 0,
        has_dup_group_err(es) <==> !names_unique(group_names(gs)),
        has_unknown_err(es) <==> exists|j: int|
            0 <= j < all_members(gs).len() && !ns.contains(#[trigger] all_members(gs)[j]),
        has_dup_member_err(es) <==> !names_unique(all_members(gs)),
        has_missing_err(es) <==> uncovered(ns, gs).len() > 0,
    ensures
        partition_ok(ns, gs),
{
    assert(!has_empty_group_err(es));
    assert(!has_dup_group_err(es));
    assert(!has_unknown_err(es));
    assert(!has_dup_member_err(es));
    assert(!has_missing_err(es));
    assert forall|i: int| 0 <= i < gs.len() implies member_names(#[trigger] gs[i]).len() > 0 by {
        if member_names(gs[i]).len() == 0 {
            assert(exists|i2: int| 0 <= i2 < gs.len() && member_names(#[trigger] gs[i2]).len()
                == 0);
        }
    }
    assert forall|j: int| 0 <= j < all_members(gs).len() implies ns.contains(
        #[trigger] all_members(gs)[j],
    ) by {
        if !ns.contains(all_members(gs)[j]) {
            assert(exists|j2: int|
                0 <= j2 < all_members(gs).len() && !ns.contains(#[trigger] all_members(gs)[j2]));
        }
    }
    lemma_uncovered_nonempty(ns, gs);
    assert forall|i: int| 0 <= i < ns.len() implies all_members(gs).contains(
        #[trigger] ns[i],
    ) by {
        if !all_members(gs).contains(ns[i]) {
            assert(exists|i2: int|
                0 <= i2 < ns.len() && !all_members(gs).contains(#[trigger] ns[i2]));
        }
    }
}

/// Some variant is uncovered exactly when the uncovered list is nonempty.
proof fn lemma_uncovered_nonempty(ns: Seq<Seq<char>>, gs: Seq<Group>)
    ensures
        uncovered(ns, gs).len() > 0 <==> exists|i: int|
            0 <= i < ns.len() && !all_members(gs).contains(#[trigger] ns[i]),
    decreases ns.len(),
{
    if ns.len() > 0 {
        lemma_uncovered_nonempty(ns.drop_last(), gs);
        if uncovered(ns, gs).len() > 0 {
            if uncovered(ns.drop_last(), gs).len() > 0 {
                let i = choose|i: int|
                    0 <= i < ns.drop_last().len() && !all_members(gs).contains(
                        #[trigger] ns.drop_last()[i],
                    );
                assert(ns[i] == ns.drop_last()[i]);
                assert(!all_members(gs).contains(ns[i]));
            } else {
                assert(!all_members(gs).contains(ns.last()));
                assert(ns[ns.len() - 1] == ns.last());
            }
        }
        if exists|i: int| 0 <= i < ns.len() && !all_members(gs).contains(#[trigger] ns[i]) {
            let i = choose|i: int| 0 <= i < ns.len() && !all_members(gs).contains(#[trigger] ns[i]);
            if i < ns.len() - 1 {
                assert(ns.drop_last()[i] == ns[i]);
                assert(!all_members(gs).contains(ns.drop_last()[i]));
                assert(uncovered(ns.drop_last(), gs).len() > 0);
            }
            assert(uncovered(ns, gs).len() > 0);
        }
    }
}

} // verus!
