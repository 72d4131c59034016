//! The policy slicing index.
//!
//! Policies are bucketed once, under a key derived from their scope
//! constraints; a query then assembles the candidate keys of a request
//! from the request's entities and their ancestors, and unions the
//! buckets found under those keys. The union is a sound slice: every
//! policy whose scope the request satisfies is in it.

use vstd::prelude::*;
use vstd::multiset::Multiset;
use crate::hierarchy::EntityHierarchy;
use crate::policy::{EntityId, Policy, PolicySet, ScopeConstraint};
use crate::request::{Request, RequestEntity};

verus! {

/// The key a scope constraint contributes to the slice key of its policy:
/// `None` for constraint shapes that any entity could satisfy, `Some(e)`
/// for shapes that only `e` or a descendant of `e` could satisfy.
pub open spec fn spec_key_of(c: ScopeConstraint) -> Option<EntityId> {
    match c {
        ScopeConstraint::Any => None,
        ScopeConstraint::EqEntity(e) => Some(e),
        ScopeConstraint::InEntity(e) => Some(e),
        ScopeConstraint::IsOfType(_) => None,
        ScopeConstraint::IsOfTypeIn(_, e) => Some(e),
        ScopeConstraint::Unresolved => None,
    }
}

/// Map one scope constraint to its slice-key component. Total; a bare
/// type constraint pins no entity, so it lands on the wildcard key, the
/// only sound choice short of a second index dimension.
pub fn key_of(c: &ScopeConstraint) -> (k: Option<EntityId>)
    ensures
        k == spec_key_of(*c),
{
    match c {
        ScopeConstraint::Any => None,
        ScopeConstraint::EqEntity(e) => Some(*e),
        ScopeConstraint::InEntity(e) => Some(*e),
        ScopeConstraint::IsOfType(_) => None,
        ScopeConstraint::IsOfTypeIn(_, e) => Some(*e),
        ScopeConstraint::Unresolved => None,
    }
}

/// Key format under which policies are indexed.
#[derive(Clone, Copy, PartialEq, Eq, PartialOrd, Ord, Hash, Debug)]
pub struct SliceKey {
    /// `None` for policies that apply to all principals.
    pub principal: Option<EntityId>,
    /// `None` for policies that apply to all resources.
    pub resource: Option<EntityId>,
}

/// The slice key a policy is stored under.
pub open spec fn slice_key_of(p: Policy) -> SliceKey {
    SliceKey { principal: spec_key_of(p.principal), resource: spec_key_of(p.resource) }
}

impl SliceKey {
    /// Get the `SliceKey` under which the given `policy` should be stored.
    pub fn for_policy(policy: &Policy) -> (k: SliceKey)
        ensures
            k == slice_key_of(*policy),
    {
        SliceKey { principal: key_of(&policy.principal), resource: key_of(&policy.resource) }
    }
}

/// Structural equality of two key components.
fn component_eq(a: &Option<EntityId>, b: &Option<EntityId>) -> (r: bool)
    ensures
        r == (a == b),
{
    match (a, b) {
        (None, None) => true,
        (Some(x), Some(y)) => *x == *y,
        _ => false,
    }
}

/// Structural equality of two slice keys.
fn slice_key_eq(a: &SliceKey, b: &SliceKey) -> (r: bool)
    ensures
        r == (a == b),
{
    component_eq(&a.principal, &b.principal) && component_eq(&a.resource, &b.resource)
}

/// Whether a key component is among the candidate components of one side
/// of a request: the wildcard component always is; a pinned component is
/// when the side carries that entity or one of its descendants. No
/// component is a candidate for a residual side; such requests are
/// outside this index's capability.
pub open spec fn key_in_candidates(
    k: Option<EntityId>,
    side: RequestEntity,
    h: EntityHierarchy,
) -> bool {
    match side {
        RequestEntity::Concrete(e) => match k {
            None => true,
            Some(a) => a == e || h.ancestor_set(e).contains(a),
        },
        RequestEntity::Unspecified => k is None,
        RequestEntity::Residual => false,
    }
}

/// The bucket of policies an index built from `src` stores under `k`:
/// exactly the policies of `src` whose own key is `k`, in input order.
pub open spec fn index_bucket(src: Seq<Policy>, k: SliceKey) -> Seq<Policy> {
    src.filter(|q: Policy| slice_key_of(q) == k)
}

/// Membership in the slice of a request `(principal, resource)` against
/// an index built from `src` under hierarchy `h`.
pub open spec fn in_slice(
    src: Seq<Policy>,
    principal: RequestEntity,
    resource: RequestEntity,
    h: EntityHierarchy,
    p: Policy,
) -> bool {
    &&& src.contains(p)
    &&& key_in_candidates(slice_key_of(p).principal, principal, h)
    &&& key_in_candidates(slice_key_of(p).resource, resource, h)
}

/// Pushing onto a sequence extends its membership by exactly the pushed
/// element.
pub proof fn lemma_push_contains<A>(s: Seq<A>, x: A, y: A)
    ensures
        s.push(x).contains(y) <==> (s.contains(y) || y == x),
{
    if s.push(x).contains(y) {
        let i = choose|i: int| 0 <= i < s.push(x).len() && s.push(x)[i] == y;
        if i < s.len() {
            assert(s[i] == y);
        }
    }
    if s.contains(y) {
        let i = choose|i: int| 0 <= i < s.len() && s[i] == y;
        assert(s.push(x)[i] == y);
    }
    if y == x {
        assert(s.push(x)[s.len() as int] == y);
    }
}

/// Everything a filter keeps was in the source sequence.
pub proof fn lemma_filter_in_source<A>(s: Seq<A>, pred: spec_fn(A) -> bool)
    ensures
        forall|x: A| #[trigger] s.filter(pred).contains(x) ==> s.contains(x),
    decreases s.len(),
{
    reveal(Seq::filter);
    if s.len() == 0 {
    } else {
        let d = s.drop_last();
        lemma_filter_in_source(d, pred);
        assert forall|x: A| #[trigger] s.filter(pred).contains(x) implies s.contains(x) by {
            if pred(s.last()) {
                lemma_push_contains(d.filter(pred), s.last(), x);
            }
            if x == s.last() {
                assert(s[s.len() - 1] == x);
            } else {
                assert(d.filter(pred).contains(x));
                assert(d.contains(x));
                let i = choose|i: int| 0 <= i < d.len() && d[i] == x;
                assert(s[i] == x);
            }
        }
    }
}

/// How often a filter keeps an element: as often as the source holds it
/// when the predicate accepts it, never otherwise.
pub proof fn lemma_filter_count<A>(s: Seq<A>, pred: spec_fn(A) -> bool, x: A)
    ensures
        s.filter(pred).to_multiset().count(x) == if pred(x) {
            s.to_multiset().count(x)
        } else {
            0
        },
    decreases s.len(),
{
    broadcast use vstd::seq_lib::group_to_multiset_ensures;

    reveal(Seq::filter);
    if s.len() == 0 {
        assert(s.to_multiset() =~= Multiset::<A>::empty());
        assert(s.filter(pred).to_multiset() =~= Multiset::<A>::empty());
    } else {
        let d = s.drop_last();
        lemma_filter_count(d, pred, x);
        assert(s =~= d.push(s.last()));
        assert(s.to_multiset() == d.push(s.last()).to_multiset());
        assert(d.push(s.last()).to_multiset() =~= d.to_multiset().insert(s.last()));
        if pred(s.last()) {
            assert(s.filter(pred) == d.filter(pred).push(s.last()));
            assert(d.filter(pred).push(s.last()).to_multiset() =~= d.filter(
                pred,
            ).to_multiset().insert(s.last()));
        }
    }
}

/// How a bucket changes when one more policy arrives: it grows by that
/// policy exactly when the policy's own key is the bucket's key.
pub proof fn lemma_index_bucket_push(src: Seq<Policy>, x: Policy, k: SliceKey)
    ensures
        index_bucket(src.push(x), k) == if slice_key_of(x) == k {
            index_bucket(src, k).push(x)
        } else {
            index_bucket(src, k)
        },
{
    reveal(Seq::filter);
    assert(src.push(x).drop_last() =~= src);
    assert(src.push(x).last() == x);
}

/// What a bucket holds: exactly the source policies whose key it is.
pub proof fn lemma_index_bucket_mem(src: Seq<Policy>, k: SliceKey)
    ensures
        forall|p: Policy| #[trigger] index_bucket(src, k).contains(p) <==> (src.contains(p)
            && slice_key_of(p) == k),
{
    broadcast use vstd::seq_lib::group_filter_ensures;

    let pred = |q: Policy| slice_key_of(q) == k;
    lemma_filter_in_source(src, pred);
    assert forall|p: Policy| #[trigger] index_bucket(src, k).contains(p) implies (src.contains(p)
        && slice_key_of(p) == k) by {
        let i = choose|i: int| 0 <= i < src.filter(pred).len() && src.filter(pred)[i] == p;
        assert(pred(src.filter(pred)[i]));
    }
    assert forall|p: Policy| src.contains(p) && slice_key_of(p) == k implies #[trigger] index_bucket(
        src,
        k,
    ).contains(p) by {
        let i = choose|i: int| 0 <= i < src.len() && src[i] == p;
        assert(pred(src[i]));
        assert(src.filter(pred).contains(src[i]));
    }
}

/// Two policies of an id-unique sequence with one id are one policy.
pub proof fn lemma_unique_id_equal(src: Seq<Policy>, p: Policy, q: Policy)
    requires
        crate::policy::unique_ids(src),
        src.contains(p),
        src.contains(q),
        p.id == q.id,
    ensures
        p == q,
{
    let i = choose|i: int| 0 <= i < src.len() && src[i] == p;
    let j = choose|j: int| 0 <= j < src.len() && src[j] == q;
    if i != j {
        assert(src[i].id != src[j].id);
    }
}

/// The candidate slice-key components of one side of a request: for a
/// concrete entity, the entity itself, the wildcard, and every ancestor
/// of the entity; for an unspecified side, the wildcard alone, since no
/// bound identity exists that could satisfy a pinned constraint.
pub fn candidate_keys(side: &RequestEntity, entities: &EntityHierarchy) -> (r: Vec<
    Option<EntityId>,
>)
    requires
        entities.wf(),
        !side.is_residual(),
    ensures
        forall|k: Option<EntityId>| #[trigger] r@.contains(k) <==> key_in_candidates(
            k,
            *side,
            *entities,
        ),
{
    match side {
        RequestEntity::Unspecified => {
            let mut r: Vec<Option<EntityId>> = Vec::new();
            r.push(None);
            proof {
                assert forall|k: Option<EntityId>| #[trigger] r@.contains(k) <==> k is None by {
                    if k is None {
                        assert(r@[0] == k);
                    }
                }
            }
            r
        },
        RequestEntity::Concrete(e) => {
            let mut r: Vec<Option<EntityId>> = Vec::new();
            r.push(Some(*e));
            r.push(None);
            let anc: Vec<EntityId> = entities.ancestors_of(e);
            proof {
                assert forall|k: Option<EntityId>| #[trigger] r@.contains(k) <==> (k is None || k
                    == Some(*e)) by {
                    if k is None {
                        assert(r@[1] == k);
                    }
                    if k == Some(*e) {
                        assert(r@[0] == k);
                    }
                    if r@.contains(k) {
                        let idx = choose|idx: int| 0 <= idx < r@.len() && r@[idx] == k;
                        assert(idx == 0 || idx == 1);
                    }
                }
            }
            let n: usize = anc.len();
            let mut u: usize = 0;
            while u < n
                invariant
                    0 <= u <= n,
                    n == anc@.len(),
                    forall|k: Option<EntityId>| #[trigger] r@.contains(k) <==> (k is None || k
                        == Some(*e) || exists|v: int| 0 <= v < u && Some(#[trigger] anc@[v]) == k),
                decreases n - u,
            {
                let ghost r_pre = r@;
                r.push(Some(anc[u]));
                proof {
                    assert forall|k: Option<EntityId>| #[trigger] r@.contains(k) <==> (k is None
                        || k == Some(*e) || exists|v: int|
                        0 <= v < u + 1 && Some(#[trigger] anc@[v]) == k) by {
                        lemma_push_contains(r_pre, Some(anc@[u as int]), k);
                        if k == Some(anc@[u as int]) {
                            assert(Some(anc@[u as int]) == k);
                        }
                        if exists|v: int| 0 <= v < u + 1 && Some(#[trigger] anc@[v]) == k {
                            let v = choose|v: int|
                                0 <= v < u + 1 && Some(#[trigger] anc@[v]) == k;
                            if v < u {
                                assert(r_pre.contains(k));
                            }
                        }
                    }
                }
                u = u + 1;
            }
            proof {
                assert forall|k: Option<EntityId>| #[trigger] r@.contains(k) <==> key_in_candidates(
                    k,
                    *side,
                    *entities,
                ) by {
                    if r@.contains(k) {
                        if !(k is None) && k != Some(*e) {
                            let v = choose|v: int| 0 <= v < n && Some(#[trigger] anc@[v]) == k;
                            assert(anc@.contains(anc@[v]));
                            assert(entities.ancestor_set(*e).contains(anc@[v]));
                        }
                    }
                    if key_in_candidates(k, *side, *entities) {
                        if !(k is None) && k != Some(*e) {
                            let a = k->0;
                            assert(entities.ancestor_set(*e).contains(a));
                            assert(anc@.contains(a));
                            let v = choose|v: int| 0 <= v < anc@.len() && anc@[v] == a;
                            assert(Some(anc@[v]) == k);
                        }
                    }
                }
            }
            r
        },
        RequestEntity::Residual => vstd::pervasive::unreached(),
    }
}

/// One bucket of the index: the policies stored under one key.
struct IndexBucket {
    key: SliceKey,
    policies: Vec<Policy>,
}

/// Some bucket of the list carries the given key.
spec fn key_present(buckets: Seq<IndexBucket>, k: SliceKey) -> bool {
    exists|i: int| 0 <= i < buckets.len() && (#[trigger] buckets[i]).key == k
}

/// Find the bucket stored under `k`, if any.
fn find_bucket(buckets: &Vec<IndexBucket>, k: &SliceKey) -> (r: Option<usize>)
    ensures
        match r {
            Some(i) => i < buckets@.len() && buckets@[i as int].key == *k,
            None => !key_present(buckets@, *k),
        },
{
    let n: usize = buckets.len();
    let mut i: usize = 0;
    while i < n
        invariant
            0 <= i <= n,
            n == buckets@.len(),
            forall|j: int| 0 <= j < i ==> (#[trigger] buckets@[j]).key != *k,
        decreases n - i,
    {
        if slice_key_eq(&buckets[i].key, k) {
            return Some(i);
        }
        i = i + 1;
    }
    None
}

/// Performs policy slicing: an immutable map from slice keys to the
/// policies stored under them, built once from a policy set.
pub struct Slicer {
    indexed: Vec<IndexBucket>,
    source: Ghost<Seq<Policy>>,
}

impl Slicer {
    /// The policies this index was built from, in input order.
    pub closed spec fn policies_view(&self) -> Seq<Policy> {
        self.source@
    }

    /// The bucket stored under `k`; empty when no policy maps to `k`.
    pub closed spec fn spec_bucket(&self, k: SliceKey) -> Seq<Policy> {
        if key_present(self.indexed@, k) {
            let i = choose|i: int|
                0 <= i < self.indexed@.len() && (#[trigger] self.indexed@[i]).key == k;
            self.indexed@[i].policies@
        } else {
            Seq::empty()
        }
    }

    /// Shape of a built index: distinct bucket keys, each bucket exactly
    /// the source policies keyed by it, every source policy covered, and
    /// distinct policy ids in the source.
    pub closed spec fn wf(&self) -> bool {
        &&& forall|i: int, j: int|
            0 <= i < j < self.indexed@.len() ==> (#[trigger] self.indexed@[i]).key != (
            #[trigger] self.indexed@[j]).key
        &&& forall|i: int|
            0 <= i < self.indexed@.len() ==> (#[trigger] self.indexed@[i]).policies@
                == index_bucket(self.source@, self.indexed@[i].key)
        &&& forall|j: int|
            0 <= j < self.source@.len() ==> key_present(
                self.indexed@,
                slice_key_of(#[trigger] self.source@[j]),
            )
        &&& crate::policy::unique_ids(self.source@)
    }

    /// A built index stores under every key exactly the bucket that the
    /// source prescribes.
    pub proof fn lemma_bucket_faithful(&self, k: SliceKey)
        requires
            self.wf(),
        ensures
            self.spec_bucket(k) == index_bucket(self.policies_view(), k),
    {
        if key_present(self.indexed@, k) {
            let i = choose|i: int|
                0 <= i < self.indexed@.len() && (#[trigger] self.indexed@[i]).key == k;
            assert(self.indexed@[i].policies@ == index_bucket(self.source@, k));
        } else {
            lemma_index_bucket_mem(self.source@, k);
            if index_bucket(self.source@, k).len() > 0 {
                let p = index_bucket(self.source@, k)[0];
                assert(index_bucket(self.source@, k).contains(p));
                let j = choose|j: int| 0 <= j < self.source@.len() && self.source@[j] == p;
                assert(key_present(self.indexed@, slice_key_of(self.source@[j])));
                assert(false);
            }
            assert(index_bucket(self.source@, k) =~= Seq::<Policy>::empty());
        }
    }

    /// Create a `Slicer` for the given `PolicySet`: bucket every policy
    /// under the key derived from its own scope constraints. Within a
    /// bucket, input order is kept. Construction cannot fail.
    pub fn new(policy_set: &PolicySet) -> (s: Slicer)
        requires
            policy_set.wf(),
        ensures
            s.wf(),
            s.policies_view() == policy_set@,
            forall|k: SliceKey| #[trigger] s.spec_bucket(k) == index_bucket(policy_set@, k),
    {
        let ps: &Vec<Policy> = policy_set.policies();
        let n: usize = ps.len();
        let mut indexed: Vec<IndexBucket> = Vec::new();
        let mut t: usize = 0;
        while t < n
            invariant
                0 <= t <= n,
                n == ps@.len(),
                ps@ == policy_set@,
                forall|i: int, j: int|
                    0 <= i < j < indexed@.len() ==> (#[trigger] indexed@[i]).key != (
                    #[trigger] indexed@[j]).key,
                forall|i: int|
                    0 <= i < indexed@.len() ==> (#[trigger] indexed@[i]).policies@ == index_bucket(
                        ps@,
                        indexed@[i].key,
                    ),
                forall|j: int|
                    0 <= j < t ==> key_present(indexed@, slice_key_of(#[trigger] ps@[j])),
            decreases n - t,
        {
            let p: Policy = ps[t];
            let k: SliceKey = SliceKey::for_policy(&p);
            match find_bucket(&indexed, &k) {
                Some(fi) => {
                    proof {
                        assert(indexed@[fi as int].key == k);
                    }
                },
                None => {
                    let mut bucket_policies: Vec<Policy> = Vec::new();
                    let mut j: usize = 0;
                    while j < n
                        invariant
                            0 <= j <= n,
                            n == ps@.len(),
                            bucket_policies@ == index_bucket(ps@.subrange(0, j as int), k),
                        decreases n - j,
                    {
                        let q: Policy = ps[j];
                        proof {
                            assert(ps@.subrange(0, j as int + 1) =~= ps@.subrange(
                                0,
                                j as int,
                            ).push(ps@[j as int]));
                            lemma_index_bucket_push(ps@.subrange(0, j as int), ps@[j as int], k);
                        }
                        let qk = SliceKey::for_policy(&q);
                        if slice_key_eq(&qk, &k) {
                            bucket_policies.push(q);
                        }
                        j = j + 1;
                    }
                    proof {
                        assert(ps@.subrange(0, n as int) =~= ps@);
                    }
                    let ghost pre = indexed@;
                    indexed.push(IndexBucket { key: k, policies: bucket_policies });
                    proof {
                        assert(indexed@[pre.len() as int].key == k);
                        assert forall|i: int|
                            0 <= i < indexed@.len() implies (#[trigger] indexed@[i]).policies@
                            == index_bucket(ps@, indexed@[i].key) by {
                            if i < pre.len() {
                                assert(indexed@[i] == pre[i]);
                            }
                        }
                        assert forall|j2: int| 0 <= j2 < t implies key_present(
                            indexed@,
                            slice_key_of(#[trigger] ps@[j2]),
                        ) by {
                            let i = choose|i: int|
                                0 <= i < pre.len() && (#[trigger] pre[i]).key == slice_key_of(
                                    ps@[j2],
                                );
                            assert(indexed@[i].key == slice_key_of(ps@[j2]));
                        }
                    }
                },
            }
            proof {
                assert(key_present(indexed@, slice_key_of(ps@[t as int])));
            }
            t = t + 1;
        }
        let s = Slicer { indexed, source: Ghost(ps@) };
        proof {
            assert forall|k: SliceKey| #[trigger] s.spec_bucket(k) == index_bucket(
                policy_set@,
                k,
            ) by {
                s.lemma_bucket_faithful(k);
            }
        }
        s
    }

    /// Get a slice of the policy set that contains only the policies
    /// needed for the given `Request`: look up, over the Cartesian
    /// product of the two candidate key sets, every bucket of the index,
    /// and union what is found. Needs the `EntityHierarchy` because the
    /// candidate keys of a concrete request entity are the entity itself,
    /// the wildcard, and every ancestor of the entity.
    ///
    /// A lookup that finds no bucket is normal and contributes nothing.
    /// Requests carrying a residual entity are outside this index's
    /// capability and are excluded by precondition.
    pub fn get_slice(&self, request: &Request, entities: &EntityHierarchy) -> (slice: PolicySet)
        requires
            self.wf(),
            entities.wf(),
            !request.principal.is_residual(),
            !request.resource.is_residual(),
        ensures
            slice.wf(),
            forall|p: Policy| #[trigger] slice@.contains(p) <==> in_slice(
                self.policies_view(),
                request.principal,
                request.resource,
                *entities,
                p,
            ),
    {
        let cand_p: Vec<Option<EntityId>> = candidate_keys(&request.principal, entities);
        let cand_r: Vec<Option<EntityId>> = candidate_keys(&request.resource, entities);
        let np: usize = cand_p.len();
        let nr: usize = cand_r.len();
        let mut keys: Vec<SliceKey> = Vec::new();
        let mut i: usize = 0;
        while i < np
            invariant
                0 <= i <= np,
                np == cand_p@.len(),
                nr == cand_r@.len(),
                forall|t: int| 0 <= t < keys@.len() ==> cand_p@.contains(
                    (#[trigger] keys@[t]).principal,
                ) && cand_r@.contains(keys@[t].resource),
                forall|a: int, b: int|
                    0 <= a < i && 0 <= b < nr ==> keys@.contains(
                        (SliceKey { principal: cand_p@[a], resource: cand_r@[b] }),
                    ),
            decreases np - i,
        {
            let mut j: usize = 0;
            while j < nr
                invariant
                    0 <= i < np,
                    0 <= j <= nr,
                    np == cand_p@.len(),
                    nr == cand_r@.len(),
                    forall|t: int| 0 <= t < keys@.len() ==> cand_p@.contains(
                        (#[trigger] keys@[t]).principal,
                    ) && cand_r@.contains(keys@[t].resource),
                    forall|a: int, b: int|
                        0 <= a < i && 0 <= b < nr ==> keys@.contains(
                            (SliceKey { principal: cand_p@[a], resource: cand_r@[b] }),
                        ),
                    forall|b: int|
                        0 <= b < j ==> keys@.contains(
                            (SliceKey { principal: cand_p@[i as int], resource: cand_r@[b] }),
                        ),
                decreases nr - j,
            {
                let ghost keys_pre = keys@;
                let key = SliceKey { principal: cand_p[i], resource: cand_r[j] };
                keys.push(key);
                proof {
                    assert(cand_p@.contains(cand_p@[i as int]));
                    assert(cand_r@.contains(cand_r@[j as int]));
                    assert forall|t: int| 0 <= t < keys@.len() implies cand_p@.contains(
                        (#[trigger] keys@[t]).principal,
                    ) && cand_r@.contains(keys@[t].resource) by {
                        if t < keys_pre.len() {
                            assert(keys@[t] == keys_pre[t]);
                        }
                    }
                    assert forall|a: int, b: int|
                        0 <= a <= i && 0 <= b < nr && (a < i || b <= j) implies keys@.contains(
                        (SliceKey { principal: cand_p@[a], resource: cand_r@[b] }),
                    ) by {
                        let k2 = SliceKey { principal: cand_p@[a], resource: cand_r@[b] };
                        if a == i as int && b == j as int {
                            assert(keys@[keys_pre.len() as int] == k2);
                        } else {
                            assert(keys_pre.contains(k2));
                            lemma_push_contains(keys_pre, key, k2);
                        }
                    }
                }
                j = j + 1;
            }
            i = i + 1;
        }
        let slice = self.all_policies_with_keys(&keys);
        proof {
            assert forall|p: Policy| #[trigger] slice@.contains(p) <==> in_slice(
                self.policies_view(),
                request.principal,
                request.resource,
                *entities,
                p,
            ) by {
                if slice@.contains(p) {
                    let t = choose|t: int|
                        0 <= t < keys@.len() && self.spec_bucket(#[trigger] keys@[t]).contains(p);
                    let k = keys@[t];
                    self.lemma_bucket_faithful(k);
                    lemma_index_bucket_mem(self.policies_view(), k);
                    assert(self.policies_view().contains(p) && slice_key_of(p) == k);
                    assert(cand_p@.contains(k.principal));
                    assert(cand_r@.contains(k.resource));
                }
                if in_slice(self.policies_view(), request.principal, request.resource, *entities, p) {
                    let k = slice_key_of(p);
                    assert(cand_p@.contains(k.principal));
                    assert(cand_r@.contains(k.resource));
                    let a = choose|a: int| 0 <= a < cand_p@.len() && cand_p@[a] == k.principal;
                    let b = choose|b: int| 0 <= b < cand_r@.len() && cand_r@[b] == k.resource;
                    assert(keys@.contains((SliceKey { principal: cand_p@[a], resource: cand_r@[b] })));
                    let t = choose|t: int| 0 <= t < keys@.len() && keys@[t] == k;
                    self.lemma_bucket_faithful(k);
                    lemma_index_bucket_mem(self.policies_view(), k);
                    assert(self.spec_bucket(keys@[t]).contains(p));
                }
            }
        }
        slice
    }

    /// All policies stored under any of the given keys, deduplicated by
    /// policy id, as a fresh policy set.
    fn all_policies_with_keys(&self, keys: &Vec<SliceKey>) -> (slice: PolicySet)
        requires
            self.wf(),
        ensures
            slice.wf(),
            forall|p: Policy| #[trigger] slice@.contains(p) <==> exists|t: int|
                0 <= t < keys@.len() && self.spec_bucket(#[trigger] keys@[t]).contains(p),
    {
        let mut slice = PolicySet::new();
        let nk: usize = keys.len();
        let mut t: usize = 0;
        while t < nk
            invariant
                0 <= t <= nk,
                nk == keys@.len(),
                self.wf(),
                slice.wf(),
                forall|p: Policy| #[trigger] slice@.contains(p) ==> self.policies_view().contains(
                    p,
                ),
                forall|p: Policy| #[trigger] slice@.contains(p) <==> exists|v: int|
                    0 <= v < t && self.spec_bucket(#[trigger] keys@[v]).contains(p),
            decreases nk - t,
        {
            let k: SliceKey = keys[t];
            proof {
                self.lemma_bucket_faithful(k);
                lemma_index_bucket_mem(self.policies_view(), k);
            }
            match find_bucket(&self.indexed, &k) {
                None => {
                    proof {
                        assert(self.spec_bucket(k) =~= Seq::<Policy>::empty());
                        assert forall|p: Policy| #[trigger] slice@.contains(p) <==> exists|v: int|
                            0 <= v < t + 1 && self.spec_bucket(#[trigger] keys@[v]).contains(
                                p,
                            ) by {
                            if exists|v: int|
                                0 <= v < t + 1 && self.spec_bucket(#[trigger] keys@[v]).contains(
                                    p,
                                ) {
                                let v = choose|v: int|
                                    0 <= v < t + 1 && self.spec_bucket(
                                        #[trigger] keys@[v],
                                    ).contains(p);
                                assert(v < t);
                            }
                        }
                    }
                },
                Some(bi) => {
                    let ghost bucket = self.spec_bucket(k);
                    proof {
                        assert(self.indexed@[bi as int].policies@ == index_bucket(
                            self.source@,
                            self.indexed@[bi as int].key,
                        ));
                        assert(self.spec_bucket(k) == index_bucket(self.policies_view(), k));
                    }
                    let m: usize = self.indexed[bi].policies.len();
                    let mut u: usize = 0;
                    while u < m
                        invariant
                            0 <= u <= m,
                            0 <= t < nk,
                            nk == keys@.len(),
                            bi < self.indexed@.len(),
                            self.indexed@[bi as int].key == keys@[t as int],
                            m == self.indexed@[bi as int].policies@.len(),
                            bucket == self.indexed@[bi as int].policies@,
                            bucket == self.spec_bucket(keys@[t as int]),
                            self.wf(),
                            slice.wf(),
                            forall|p: Policy| #[trigger] slice@.contains(p)
                                ==> self.policies_view().contains(p),
                            forall|p: Policy| #[trigger] slice@.contains(p) <==> ((exists|v: int|
                                0 <= v < t && self.spec_bucket(#[trigger] keys@[v]).contains(p))
                                || bucket.subrange(0, u as int).contains(p)),
                        decreases m - u,
                    {
                        let q: Policy = self.indexed[bi].policies[u];
                        proof {
                            assert(bucket[u as int] == q);
                            assert(bucket.contains(q));
                            lemma_index_bucket_mem(self.policies_view(), keys@[t as int]);
                            assert(self.policies_view().contains(q));
                            assert(bucket.subrange(0, u as int + 1) =~= bucket.subrange(
                                0,
                                u as int,
                            ).push(q));
                            lemma_push_contains(bucket.subrange(0, u as int), q, q);
                        }
                        let ghost slice_pre = slice@;
                        if !slice.contains_id(q.id) {
                            let added = slice.add(q);
                            proof {
                                assert(added is Ok);
                                assert forall|p: Policy| #[trigger] slice@.contains(p) <==> (
                                slice_pre.contains(p) || p == q) by {
                                    lemma_push_contains(slice_pre, q, p);
                                }
                            }
                        } else {
                            proof {
                                let i2 = choose|i2: int|
                                    0 <= i2 < slice_pre.len() && (#[trigger] slice_pre[i2]).id
                                        == q.id;
                                let p2 = slice_pre[i2];
                                assert(slice_pre.contains(p2));
                                lemma_unique_id_equal(self.policies_view(), p2, q);
                                assert(slice@.contains(q));
                            }
                        }
                        proof {
                            assert forall|p: Policy| #[trigger] slice@.contains(p) <==> ((exists|v: int|
                                0 <= v < t && self.spec_bucket(#[trigger] keys@[v]).contains(p))
                                || bucket.subrange(0, u as int + 1).contains(p)) by {
                                lemma_push_contains(bucket.subrange(0, u as int), q, p);
                            }
                        }
                        u = u + 1;
                    }
                    proof {
                        assert(bucket.subrange(0, m as int) =~= bucket);
                        assert forall|p: Policy| #[trigger] slice@.contains(p) <==> exists|v: int|
                            0 <= v < t + 1 && self.spec_bucket(#[trigger] keys@[v]).contains(
                                p,
                            ) by {
                            if slice@.contains(p) {
                                if bucket.contains(p) {
                                    assert(self.spec_bucket(keys@[t as int]).contains(p));
                                } else {
                                    let v = choose|v: int|
                                        0 <= v < t && self.spec_bucket(
                                            #[trigger] keys@[v],
                                        ).contains(p);
                                    assert(0 <= v < t + 1);
                                }
                            }
                            if exists|v: int|
                                0 <= v < t + 1 && self.spec_bucket(#[trigger] keys@[v]).contains(
                                    p,
                                ) {
                                let v = choose|v: int|
                                    0 <= v < t + 1 && self.spec_bucket(
                                        #[trigger] keys@[v],
                                    ).contains(p);
                            }
                        }
                    }
                },
            }
            t = t + 1;
        }
        slice
    }
}

} // verus!
