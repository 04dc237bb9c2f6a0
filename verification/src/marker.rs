//! The marker allocator: one marker type per distinct variant name within a
//! token scope, allocated on first sight and reused afterwards, so that two
//! sum types naming the same shared scope agree on marker identity.

use vstd::prelude::*;

use crate::ident::concat_names;
use crate::schema::TokenScope;

verus! {

/// One allocated marker: its scope and the variant spelling it stands for.
/// Its id is its position in the allocator's entry list.
#[derive(Debug, Clone)]
pub struct MarkerEntry {
    pub scope: TokenScope,
    pub variant: String,
}

/// One emitted marker-type declaration.
#[derive(Debug, Clone)]
pub struct MarkerDecl {
    pub id: usize,
    pub scope: TokenScope,
    pub ty_name: String,
}

/// The scope-to-marker map for one generation run.
pub struct MarkerAllocator {
    pub entries: Vec<MarkerEntry>,
}

/// Two scopes are the same namespace: same kind, same spelling.
pub open spec fn same_scope(a: TokenScope, b: TokenScope) -> bool {
    match (a, b) {
        (TokenScope::Local(x), TokenScope::Local(y)) => x@ == y@,
        (TokenScope::Shared(x), TokenScope::Shared(y)) => x@ == y@,
        _ => false,
    }
}

/// Entry `i` holds the key `(scope, variant)`.
pub open spec fn key_at(
    entries: Seq<MarkerEntry>,
    i: int,
    scope: TokenScope,
    variant: Seq<char>,
) -> bool {
    &&& 0 <= i < entries.len()
    &&& same_scope(entries[i].scope, scope)
    &&& entries[i].variant@ == variant
}

/// No two entries hold the same key: marker identity is a function of
/// `(scope, variant name)`.
pub open spec fn alloc_wf(entries: Seq<MarkerEntry>) -> bool {
    forall|i: int, j: int|
        0 <= i < j < entries.len() ==> !(same_scope(
            (#[trigger] entries[i]).scope,
            (#[trigger] entries[j]).scope,
        ) && entries[i].variant@ == entries[j].variant@)
}

/// The marker type name derived from a variant name.
pub open spec fn marker_name_of(variant: Seq<char>) -> Seq<char> {
    variant + "Variant"@
}

/// Names the marker type of a variant: the variant name with `Variant` behind it.
pub fn marker_type_name(variant: &String) -> (r: String)
    ensures
        r@ == marker_name_of(variant@),
{
    concat_names(variant.as_str(), "Variant")
}

pub fn scope_eq(a: &TokenScope, b: &TokenScope) -> (r: bool)
    ensures
        r == same_scope(*a, *b),
{
    match (a, b) {
        (TokenScope::Local(x), TokenScope::Local(y)) => *x == *y,
        (TokenScope::Shared(x), TokenScope::Shared(y)) => *x == *y,
        _ => false,
    }
}

/// Copies a scope, spelling preserved.
pub fn clone_scope(s: &TokenScope) -> (r: TokenScope)
    ensures
        r == *s,
{
    match s {
        TokenScope::Local(x) => TokenScope::Local(x.clone()),
        TokenScope::Shared(x) => TokenScope::Shared(x.clone()),
    }
}

impl MarkerAllocator {
    /// An empty scope map: nothing allocated yet.
    pub fn new() -> (r: MarkerAllocator)
        ensures
            r.entries@.len() == 0,
            alloc_wf(r.entries@),
    {
        MarkerAllocator { entries: Vec::new() }
    }

    /// Finds the marker already allocated for `(scope, variant)`, if any.
    pub fn lookup(&self, scope: &TokenScope, variant: &String) -> (r: Option<usize>)
        ensures
            match r {
                Some(i) => key_at(self.entries@, i as int, *scope, variant@),
                None => forall|i: int|
                    0 <= i < self.entries@.len() ==> !key_at(self.entries@, i, *scope, variant@),
            },
    {
        let n = self.entries.len();
        let mut i: usize = 0;
        while i < n
            invariant
                0 <= i <= n,
                n == self.entries@.len(),
                forall|j: int| 0 <= j < i ==> !key_at(self.entries@, j, *scope, variant@),
            decreases n - i,
        {
            if scope_eq(&self.entries[i].scope, scope) && self.entries[i].variant == *variant {
                return Some(i);
            }
            i += 1;
        }
        None
    }

    /// Assigns the marker for `(scope, variant)`: the one already allocated for
    /// that key if the run has seen it, else a fresh one behind all others.
    /// Repeated calls with one key return one id; distinct keys get distinct ids.
    pub fn assign(&mut self, scope: &TokenScope, variant: &String) -> (id: usize)
        requires
            alloc_wf(old(self).entries@),
        ensures
            alloc_wf(final(self).entries@),
            key_at(final(self).entries@, id as int, *scope, variant@),
            final(self).entries@.len() >= old(self).entries@.len(),
            forall|k: int|
                0 <= k < old(self).entries@.len() ==> final(self).entries@[k] == old(
                    self,
                ).entries@[k],
            (exists|i: int| key_at(old(self).entries@, i, *scope, variant@)) ==> final(self).entries@
                == old(self).entries@ && key_at(old(self).entries@, id as int, *scope, variant@),
            !(exists|i: int| key_at(old(self).entries@, i, *scope, variant@))
                ==> final(self).entries@.len() == old(self).entries@.len() + 1 && id == old(
                self,
            ).entries@.len(),
    {
        let hit = self.lookup(scope, variant);
        match hit {
            Some(i) => {
                proof {
                    assert(key_at(self.entries@, i as int, *scope, variant@));
                }
                i
            },
            None => {
                let id = self.entries.len();
                let entry = MarkerEntry { scope: clone_scope(scope), variant: variant.clone() };
                let ghost before = self.entries@;
                self.entries.push(entry);
                proof {
                    assert(self.entries@[id as int].variant@ == variant@);
                    assert(same_scope(self.entries@[id as int].scope, *scope));
                    assert forall|i: int, j: int|
                        0 <= i < j < self.entries@.len() implies !(same_scope(
                        (#[trigger] self.entries@[i]).scope,
                        (#[trigger] self.entries@[j]).scope,
                    ) && self.entries@[i].variant@ == self.entries@[j].variant@) by {
                        if j < id {
                            assert(self.entries@[i] == before[i]);
                            assert(self.entries@[j] == before[j]);
                        } else {
                            assert(j == id);
                            assert(self.entries@[i] == before[i]);
                            if same_scope(before[i].scope, *scope) && before[i].variant@
                                == variant@ {
                                assert(key_at(before, i, *scope, variant@));
                            }
                        }
                    }
                }
                id
            },
        }
    }

    /// Emits one marker-type declaration per allocated marker, in allocation
    /// order: never one per schema-variant pair, so a shared scope reused by
    /// several sum types still declares each marker once.
    pub fn marker_decls(&self) -> (r: Vec<MarkerDecl>)
        ensures
            r@.len() == self.entries@.len(),
            forall|i: int|
                0 <= i < r@.len() ==> {
                    &&& (#[trigger] r@[i]).id == i
                    &&& r@[i].scope == self.entries@[i].scope
                    &&& r@[i].ty_name@ == marker_name_of(self.entries@[i].variant@)
                },
    {
        let n = self.entries.len();
        let mut out: Vec<MarkerDecl> = Vec::new();
        let mut i: usize = 0;
        while i < n
            invariant
                0 <= i <= n,
                n == self.entries@.len(),
                out@.len() == i,
                forall|j: int|
                    0 <= j < i ==> {
                        &&& (#[trigger] out@[j]).id == j
                        &&& out@[j].scope == self.entries@[j].scope
                        &&& out@[j].ty_name@ == marker_name_of(self.entries@[j].variant@)
                    },
            decreases n - i,
        {
            let decl = MarkerDecl {
                id: i,
                scope: clone_scope(&self.entries[i].scope),
                ty_name: marker_type_name(&self.entries[i].variant),
            };
            out.push(decl);
            i += 1;
        }
        out
    }
}

/// Allocates a marker for every listed name in one scope, in order, and emits
/// the matching declarations: the explicit marker pre-declaration form.
pub fn declare_tokens(
    alloc: &mut MarkerAllocator,
    scope: &TokenScope,
    names: &Vec<String>,
) -> (r: Vec<MarkerDecl>)
    requires
        alloc_wf(old(alloc).entries@),
    ensures
        alloc_wf(final(alloc).entries@),
        r@.len() == names@.len(),
        forall|i: int|
            0 <= i < r@.len() ==> {
                &&& (#[trigger] r@[i]).ty_name@ == marker_name_of(names@[i]@)
                &&& r@[i].scope == *scope
                &&& key_at(final(alloc).entries@, r@[i].id as int, *scope, names@[i]@)
            },
        final(alloc).entries@.len() <= old(alloc).entries@.len() + names@.len(),
        forall|k: int|
            old(alloc).entries@.len() <= k < final(alloc).entries@.len() ==> same_scope(
                (#[trigger] final(alloc).entries@[k]).scope,
                *scope,
            ) && (exists|j: int|
                0 <= j < names@.len() && (#[trigger] names@[j])@ == final(alloc).entries@[
                    k
                ].variant@),
{
    let ghost entries0 = old(alloc).entries@;
    let n = names.len();
    let mut out: Vec<MarkerDecl> = Vec::new();
    let mut i: usize = 0;
    while i < n
        invariant
            0 <= i <= n,
            n == names@.len(),
            alloc_wf(alloc.entries@),
            out@.len() == i,
            forall|j: int|
                0 <= j < i ==> {
                    &&& (#[trigger] out@[j]).ty_name@ == marker_name_of(names@[j]@)
                    &&& out@[j].scope == *scope
                    &&& key_at(alloc.entries@, out@[j].id as int, *scope, names@[j]@)
                },
            entries0.len() <= alloc.entries@.len() <= entries0.len() + i,
            forall|k: int| 0 <= k < entries0.len() ==> alloc.entries@[k] == entries0[k],
            forall|k: int|
                entries0.len() <= k < alloc.entries@.len() ==> same_scope(
                    (#[trigger] alloc.entries@[k]).scope,
                    *scope,
                ) && (exists|j: int|
                    0 <= j < names@.len() && (#[trigger] names@[j])@ == alloc.entries@[k].variant@),
        decreases n - i,
    {
        let ghost entries_before = alloc.entries@;
        let id = alloc.assign(scope, &names[i]);
        proof {
            assert forall|k: int|
                entries0.len() <= k < alloc.entries@.len() implies same_scope(
                (#[trigger] alloc.entries@[k]).scope,
                *scope,
            ) && (exists|j: int|
                0 <= j < names@.len() && (#[trigger] names@[j])@ == alloc.entries@[k].variant@) by {
                if k < entries_before.len() {
                    assert(alloc.entries@[k] == entries_before[k]);
                } else {
                    // a single fresh entry, carrying the key just assigned
                    assert(k == entries_before.len() && id as int == k);
                    assert(key_at(alloc.entries@, k, *scope, names@[i as int]@));
                    assert((names@[i as int])@ == alloc.entries@[k].variant@);
                }
            }
        }
        let decl = MarkerDecl {
            id,
            scope: clone_scope(scope),
            ty_name: marker_type_name(&names[i]),
        };
        out.push(decl);
        proof {
            assert forall|j: int| 0 <= j < i + 1 implies {
                &&& (#[trigger] out@[j]).ty_name@ == marker_name_of(names@[j]@)
                &&& out@[j].scope == *scope
                &&& key_at(alloc.entries@, out@[j].id as int, *scope, names@[j]@)
            } by {
                if j < i {
                    assert(key_at(entries_before, out@[j].id as int, *scope, names@[j]@));
                    assert(alloc.entries@[out@[j].id as int] == entries_before[out@[j].id as int]);
                }
            }
        }
        i += 1;
    }
    out
}

} // verus!
