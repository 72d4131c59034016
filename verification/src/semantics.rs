//! Satisfaction semantics of scope constraints, and the guarantees the
//! slicing index gives against them: the index partitions its policy
//! set, every satisfied policy survives slicing, slices only grow when
//! ancestor sets grow, wildcard policies are in every slice, and
//! policies pinned to unrelated entities are pruned.

use vstd::prelude::*;
use crate::hierarchy::EntityHierarchy;
use crate::policy::{EntityId, Policy, ScopeConstraint};
use crate::request::RequestEntity;
use crate::slicing::{
    in_slice, index_bucket, key_in_candidates, lemma_filter_count, lemma_index_bucket_mem,
    slice_key_of, spec_key_of, SliceKey,
};

verus! {

/// Whether one side of a request satisfies a scope constraint under the
/// ancestor relation `h`. An unlinked template constraint (`Unresolved`)
/// pins nothing down until it is linked, so no concrete request
/// satisfies it.
pub open spec fn satisfies(c: ScopeConstraint, side: RequestEntity, h: EntityHierarchy) -> bool {
    match c {
        ScopeConstraint::Any => true,
        ScopeConstraint::EqEntity(x) => side == RequestEntity::Concrete(x),
        ScopeConstraint::InEntity(x) => match side {
            RequestEntity::Concrete(e) => e == x || h.ancestor_set(e).contains(x),
            _ => false,
        },
        ScopeConstraint::IsOfType(t) => match side {
            RequestEntity::Concrete(e) => e.etype == t,
            _ => false,
        },
        ScopeConstraint::IsOfTypeIn(t, x) => match side {
            RequestEntity::Concrete(e) => e.etype == t && (e == x || h.ancestor_set(e).contains(
                x,
            )),
            _ => false,
        },
        ScopeConstraint::Unresolved => false,
    }
}

/// A policy applies to a request when both of its scope constraints are
/// satisfied. Its condition body is outside this model; the evaluator
/// that consumes a slice decides it.
pub open spec fn policy_applies(
    p: Policy,
    principal: RequestEntity,
    resource: RequestEntity,
    h: EntityHierarchy,
) -> bool {
    satisfies(p.principal, principal, h) && satisfies(p.resource, resource, h)
}

/// The key a constraint projects to never loses a satisfying request:
/// when a side satisfies a constraint, the constraint's key component is
/// among that side's candidate components. This is why projecting six
/// constraint shapes onto a two-valued key is a sound over-approximation.
pub proof fn lemma_key_of_sound(c: ScopeConstraint, side: RequestEntity, h: EntityHierarchy)
    requires
        satisfies(c, side, h),
        !side.is_residual(),
    ensures
        key_in_candidates(spec_key_of(c), side, h),
{
}

/// Soundness of slicing: every policy of the indexed set that a request
/// satisfies is a member of the slice computed for that request. An
/// evaluator that only considers satisfied policies therefore reaches
/// the same decision over the slice as over the full set.
pub proof fn lemma_slice_sound(
    src: Seq<Policy>,
    p: Policy,
    principal: RequestEntity,
    resource: RequestEntity,
    h: EntityHierarchy,
)
    requires
        src.contains(p),
        policy_applies(p, principal, resource, h),
        !principal.is_residual(),
        !resource.is_residual(),
    ensures
        in_slice(src, principal, resource, h, p),
{
    lemma_key_of_sound(p.principal, principal, h);
    lemma_key_of_sound(p.resource, resource, h);
}

/// Partition: the buckets of an index built from `src` hold together
/// exactly the policies of `src`, each exactly as often as `src` holds
/// it, and each only in the bucket of its own key.
pub proof fn lemma_index_partition(src: Seq<Policy>)
    ensures
        forall|p: Policy| src.contains(p) <==> #[trigger] index_bucket(
            src,
            slice_key_of(p),
        ).contains(p),
        forall|k: SliceKey, p: Policy| #[trigger] index_bucket(src, k).contains(p)
            ==> src.contains(p) && slice_key_of(p) == k,
        forall|p: Policy| #[trigger] index_bucket(src, slice_key_of(p)).to_multiset().count(p)
            == src.to_multiset().count(p),
        forall|k: SliceKey, p: Policy|
            slice_key_of(p) != k ==> #[trigger] index_bucket(src, k).to_multiset().count(p) == 0,
{
    assert forall|p: Policy| src.contains(p) <==> #[trigger] index_bucket(
        src,
        slice_key_of(p),
    ).contains(p) by {
        lemma_index_bucket_mem(src, slice_key_of(p));
    }
    assert forall|k: SliceKey, p: Policy| #[trigger] index_bucket(src, k).contains(
        p,
    ) implies src.contains(p) && slice_key_of(p) == k by {
        lemma_index_bucket_mem(src, k);
    }
    assert forall|p: Policy| #[trigger] index_bucket(src, slice_key_of(p)).to_multiset().count(p)
        == src.to_multiset().count(p) by {
        let k = slice_key_of(p);
        let pred = |q: Policy| slice_key_of(q) == k;
        lemma_filter_count(src, pred, p);
    }
    assert forall|k: SliceKey, p: Policy| slice_key_of(p) != k implies #[trigger] index_bucket(
        src,
        k,
    ).to_multiset().count(p) == 0 by {
        let pred = |q: Policy| slice_key_of(q) == k;
        lemma_filter_count(src, pred, p);
    }
}

/// Growing an ancestor set can only grow candidate key sets.
pub proof fn lemma_candidates_monotone(
    k: Option<EntityId>,
    side: RequestEntity,
    h1: EntityHierarchy,
    h2: EntityHierarchy,
)
    requires
        forall|e: EntityId| (#[trigger] h1.ancestor_set(e)).subset_of(h2.ancestor_set(e)),
        key_in_candidates(k, side, h1),
    ensures
        key_in_candidates(k, side, h2),
{
    match side {
        RequestEntity::Concrete(e) => {
            assert(h1.ancestor_set(e).subset_of(h2.ancestor_set(e)));
        },
        _ => {},
    }
}

/// Monotonicity: recording more ancestors can only grow (never shrink)
/// the slice computed for a request.
pub proof fn lemma_slice_monotone(
    src: Seq<Policy>,
    principal: RequestEntity,
    resource: RequestEntity,
    h1: EntityHierarchy,
    h2: EntityHierarchy,
    p: Policy,
)
    requires
        forall|e: EntityId| (#[trigger] h1.ancestor_set(e)).subset_of(h2.ancestor_set(e)),
        in_slice(src, principal, resource, h1, p),
    ensures
        in_slice(src, principal, resource, h2, p),
{
    lemma_candidates_monotone(slice_key_of(p).principal, principal, h1, h2);
    lemma_candidates_monotone(slice_key_of(p).resource, resource, h1, h2);
}

/// A policy unconstrained on both sides is in the slice of every
/// supported request.
pub proof fn lemma_wildcard_in_every_slice(
    src: Seq<Policy>,
    p: Policy,
    principal: RequestEntity,
    resource: RequestEntity,
    h: EntityHierarchy,
)
    requires
        src.contains(p),
        p.principal is Any,
        p.resource is Any,
        !principal.is_residual(),
        !resource.is_residual(),
    ensures
        in_slice(src, principal, resource, h, p),
{
}

/// Exclusion precision: a policy pinned by equality to entities that a
/// request neither names nor descends from is absent from the request's
/// slice.
pub proof fn lemma_unrelated_eq_excluded(
    src: Seq<Policy>,
    p: Policy,
    a: EntityId,
    b: EntityId,
    x: EntityId,
    y: EntityId,
    h: EntityHierarchy,
)
    requires
        p.principal == ScopeConstraint::EqEntity(x),
        p.resource == ScopeConstraint::EqEntity(y),
        a != x,
        !h.ancestor_set(a).contains(x),
        b != y,
        !h.ancestor_set(b).contains(y),
    ensures
        !in_slice(src, RequestEntity::Concrete(a), RequestEntity::Concrete(b), h, p),
{
}

} // verus!
