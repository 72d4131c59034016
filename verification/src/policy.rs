//! Model of policies and policy sets.
//!
//! A policy is inert to the slicing index except for its identity and its
//! two scope constraints (one for the principal side, one for the resource
//! side); its condition body is never inspected here. Entities are known to
//! the index only by identity: a type tag and an entity tag.

use vstd::prelude::*;

verus! {

/// Identity of an entity type (for example a `User` or `Team` namespace).
#[derive(Clone, Copy, PartialEq, Eq, Structural, PartialOrd, Ord, Hash, Debug)]
pub struct EntityTypeId(pub u64);

/// Identity of a concrete entity: its type together with a tag that is
/// unique within that type.
#[derive(Clone, Copy, PartialEq, Eq, Structural, PartialOrd, Ord, Hash, Debug)]
pub struct EntityId {
    pub etype: EntityTypeId,
    pub eid: u64,
}

/// Identity of a policy.
#[derive(Clone, Copy, PartialEq, Eq, Structural, PartialOrd, Ord, Hash, Debug)]
pub struct PolicyId(pub u64);

/// The principal or resource scope constraint of a policy: the closed set
/// of shapes a policy head can take on one side.
#[derive(Clone, Copy, PartialEq, Eq, Structural, Hash, Debug)]
pub enum ScopeConstraint {
    /// The side is unconstrained.
    Any,
    /// The side must be exactly the given entity.
    EqEntity(EntityId),
    /// The side must be the given entity or one of its descendants.
    InEntity(EntityId),
    /// The side must be an entity of the given type; no particular entity
    /// is pinned down.
    IsOfType(EntityTypeId),
    /// The side must be an entity of the given type that also is, or
    /// descends from, the given entity.
    IsOfTypeIn(EntityTypeId, EntityId),
    /// The side refers to a template placeholder rather than a concrete
    /// entity; only unlinked templates carry this shape.
    Unresolved,
}

/// A policy as the slicing index sees it: an identity and the two scope
/// constraints of its head.
#[derive(Clone, Copy, PartialEq, Eq, Structural, Hash, Debug)]
pub struct Policy {
    pub id: PolicyId,
    pub principal: ScopeConstraint,
    pub resource: ScopeConstraint,
}

impl Policy {
    pub fn new(id: PolicyId, principal: ScopeConstraint, resource: ScopeConstraint) -> (p: Policy)
        ensures
            p == (Policy { id, principal, resource }),
    {
        Policy { id, principal, resource }
    }

    /// The scope constraint this policy places on the principal side.
    pub fn principal_constraint(&self) -> (c: ScopeConstraint)
        ensures
            c == self.principal,
    {
        self.principal
    }

    /// The scope constraint this policy places on the resource side.
    pub fn resource_constraint(&self) -> (c: ScopeConstraint)
        ensures
            c == self.resource,
    {
        self.resource
    }
}

/// Error raised when a policy set would hold two policies with one id.
#[derive(Clone, Copy, PartialEq, Eq, Structural, Debug)]
pub enum PolicySetError {
    /// The id of the policy being added is already taken.
    Occupied,
}

/// The ids of the policies of a sequence are pairwise distinct.
pub open spec fn unique_ids(s: Seq<Policy>) -> bool {
    forall|i: int, j: int| 0 <= i < j < s.len() ==> (#[trigger] s[i]).id != (#[trigger] s[j]).id
}

/// A set of policies with pairwise distinct ids, in insertion order.
#[derive(Debug)]
pub struct PolicySet {
    policies: Vec<Policy>,
}

impl View for PolicySet {
    type V = Seq<Policy>;

    closed spec fn view(&self) -> Seq<Policy> {
        self.policies@
    }
}

impl PolicySet {
    /// All ids in the set are pairwise distinct.
    pub open spec fn wf(&self) -> bool {
        unique_ids(self@)
    }

    /// Some member of the set carries the given id.
    pub open spec fn spec_contains_id(&self, id: PolicyId) -> bool {
        exists|i: int| 0 <= i < self@.len() && (#[trigger] self@[i]).id == id
    }

    pub fn new() -> (s: PolicySet)
        ensures
            s@ == Seq::<Policy>::empty(),
            s.wf(),
    {
        PolicySet { policies: Vec::new() }
    }

    /// Whether the set already holds a policy with the given id.
    pub fn contains_id(&self, id: PolicyId) -> (r: bool)
        ensures
            r == self.spec_contains_id(id),
    {
        let n: usize = self.policies.len();
        let mut i: usize = 0;
        while i < n
            invariant
                0 <= i <= n,
                n == self@.len(),
                forall|j: int| 0 <= j < i ==> (#[trigger] self@[j]).id != id,
            decreases n - i,
        {
            if self.policies[i].id == id {
                return true;
            }
            i = i + 1;
        }
        false
    }

    /// Add a policy; refused when its id is already taken, so that `wf`
    /// is preserved.
    pub fn add(&mut self, p: Policy) -> (r: Result<(), PolicySetError>)
        requires
            old(self).wf(),
        ensures
            final(self).wf(),
            r is Ok ==> !old(self).spec_contains_id(p.id) && final(self)@ == old(self)@.push(p),
            r is Err ==> old(self).spec_contains_id(p.id) && final(self)@ == old(self)@,
    {
        if self.contains_id(p.id) {
            Err(PolicySetError::Occupied)
        } else {
            self.policies.push(p);
            Ok(())
        }
    }

    /// The policies of the set, in insertion order.
    pub fn policies(&self) -> (r: &Vec<Policy>)
        ensures
            r@ == self@,
    {
        &self.policies
    }

    pub fn len(&self) -> (n: usize)
        ensures
            n == self@.len(),
    {
        self.policies.len()
    }

    pub fn is_empty(&self) -> (r: bool)
        ensures
            r == (self@.len() == 0),
    {
        self.policies.len() == 0
    }

    /// Whether the set holds this exact policy.
    pub fn contains_policy(&self, p: &Policy) -> (r: bool)
        ensures
            r == self@.contains(*p),
    {
        let n: usize = self.policies.len();
        let mut i: usize = 0;
        while i < n
            invariant
                0 <= i <= n,
                n == self@.len(),
                forall|j: int| 0 <= j < i ==> self@[j] != *p,
            decreases n - i,
        {
            if policy_eq(&self.policies[i], p) {
                assert(self@[i as int] == *p);
                return true;
            }
            i = i + 1;
        }
        false
    }
}

/// Structural equality of two scope constraints.
pub fn scope_constraint_eq(a: &ScopeConstraint, b: &ScopeConstraint) -> (r: bool)
    ensures
        r == (a == b),
{
    match (a, b) {
        (ScopeConstraint::Any, ScopeConstraint::Any) => true,
        (ScopeConstraint::EqEntity(x), ScopeConstraint::EqEntity(y)) => *x == *y,
        (ScopeConstraint::InEntity(x), ScopeConstraint::InEntity(y)) => *x == *y,
        (ScopeConstraint::IsOfType(s), ScopeConstraint::IsOfType(t)) => *s == *t,
        (ScopeConstraint::IsOfTypeIn(s, x), ScopeConstraint::IsOfTypeIn(t, y)) => *s == *t
            && *x == *y,
        (ScopeConstraint::Unresolved, ScopeConstraint::Unresolved) => true,
        _ => false,
    }
}

/// Structural equality of two policies.
pub fn policy_eq(a: &Policy, b: &Policy) -> (r: bool)
    ensures
        r == (a == b),
{
    a.id == b.id && scope_constraint_eq(&a.principal, &b.principal) && scope_constraint_eq(
        &a.resource,
        &b.resource,
    )
}

} // verus!
