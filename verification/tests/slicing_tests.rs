use policy_slicing::hierarchy::EntityHierarchy;
use policy_slicing::policy::{
    EntityId, EntityTypeId, Policy, PolicyId, PolicySet, PolicySetError, ScopeConstraint,
};
use policy_slicing::request::{Request, RequestEntity};
use policy_slicing::slicing::{key_of, SliceKey, Slicer};

fn user(n: u64) -> EntityId {
    EntityId { etype: EntityTypeId(1), eid: n }
}

fn team(n: u64) -> EntityId {
    EntityId { etype: EntityTypeId(2), eid: n }
}

fn doc(n: u64) -> EntityId {
    EntityId { etype: EntityTypeId(3), eid: n }
}

fn ids(set: &PolicySet) -> Vec<u64> {
    let mut v: Vec<u64> = set.policies().iter().map(|p| p.id.0).collect();
    v.sort();
    v
}

#[test]
fn key_of_maps_each_constraint_shape() {
    let u1 = user(1);
    assert_eq!(key_of(&ScopeConstraint::Any), None);
    assert_eq!(key_of(&ScopeConstraint::EqEntity(u1)), Some(u1));
    assert_eq!(key_of(&ScopeConstraint::InEntity(u1)), Some(u1));
    assert_eq!(key_of(&ScopeConstraint::IsOfType(EntityTypeId(1))), None);
    assert_eq!(
        key_of(&ScopeConstraint::IsOfTypeIn(EntityTypeId(1), u1)),
        Some(u1)
    );
    assert_eq!(key_of(&ScopeConstraint::Unresolved), None);
}

#[test]
fn for_policy_combines_both_sides() {
    let p = Policy::new(
        PolicyId(7),
        ScopeConstraint::EqEntity(user(1)),
        ScopeConstraint::Any,
    );
    let k = SliceKey::for_policy(&p);
    assert_eq!(k.principal, Some(user(1)));
    assert_eq!(k.resource, None);
}

#[test]
fn wildcard_policy_reaches_every_request() {
    // One policy unconstrained on both sides: every request gets it.
    let mut ps = PolicySet::new();
    ps.add(Policy::new(
        PolicyId(1),
        ScopeConstraint::Any,
        ScopeConstraint::Any,
    ))
    .unwrap();
    let slicer = Slicer::new(&ps);
    let h = EntityHierarchy::new();

    let concrete = Request::new(
        RequestEntity::Concrete(user(1)),
        RequestEntity::Concrete(doc(1)),
    );
    assert_eq!(ids(&slicer.get_slice(&concrete, &h)), vec![1]);

    let anonymous = Request::new(RequestEntity::Unspecified, RequestEntity::Unspecified);
    assert_eq!(ids(&slicer.get_slice(&anonymous, &h)), vec![1]);

    let half = Request::new(RequestEntity::Concrete(user(2)), RequestEntity::Unspecified);
    assert_eq!(ids(&slicer.get_slice(&half, &h)), vec![1]);
}

#[test]
fn equality_scoped_policy_prunes_other_principals() {
    // p1 pinned to U1, p2 pinned to U2; a request by U1 sees only p1.
    let mut ps = PolicySet::new();
    ps.add(Policy::new(
        PolicyId(1),
        ScopeConstraint::EqEntity(user(1)),
        ScopeConstraint::Any,
    ))
    .unwrap();
    ps.add(Policy::new(
        PolicyId(2),
        ScopeConstraint::EqEntity(user(2)),
        ScopeConstraint::Any,
    ))
    .unwrap();
    let slicer = Slicer::new(&ps);
    let h = EntityHierarchy::new();
    let req = Request::new(
        RequestEntity::Concrete(user(1)),
        RequestEntity::Concrete(doc(1)),
    );
    assert_eq!(ids(&slicer.get_slice(&req, &h)), vec![1]);
}

#[test]
fn in_scoped_policy_found_through_ancestor() {
    // U1 is in Team1; a policy scoped to Team1 applies to U1's requests.
    let mut ps = PolicySet::new();
    ps.add(Policy::new(
        PolicyId(3),
        ScopeConstraint::InEntity(team(1)),
        ScopeConstraint::Any,
    ))
    .unwrap();
    let slicer = Slicer::new(&ps);
    let mut h = EntityHierarchy::new();
    h.insert(user(1), vec![team(1)]).unwrap();
    let req = Request::new(
        RequestEntity::Concrete(user(1)),
        RequestEntity::Concrete(doc(1)),
    );
    assert_eq!(ids(&slicer.get_slice(&req, &h)), vec![3]);

    // Without the membership the policy is pruned.
    let req2 = Request::new(
        RequestEntity::Concrete(user(2)),
        RequestEntity::Concrete(doc(1)),
    );
    assert_eq!(ids(&slicer.get_slice(&req2, &h)), Vec::<u64>::new());
}

#[test]
fn unspecified_resource_keeps_only_wildcard_resource_policies() {
    // Policies keyed on a concrete resource are excluded once the
    // request leaves the resource unspecified, whatever the principal.
    let mut ps = PolicySet::new();
    ps.add(Policy::new(
        PolicyId(1),
        ScopeConstraint::EqEntity(user(1)),
        ScopeConstraint::EqEntity(doc(1)),
    ))
    .unwrap();
    ps.add(Policy::new(
        PolicyId(2),
        ScopeConstraint::EqEntity(user(1)),
        ScopeConstraint::Any,
    ))
    .unwrap();
    ps.add(Policy::new(
        PolicyId(3),
        ScopeConstraint::Any,
        ScopeConstraint::IsOfType(EntityTypeId(3)),
    ))
    .unwrap();
    ps.add(Policy::new(
        PolicyId(4),
        ScopeConstraint::Any,
        ScopeConstraint::Unresolved,
    ))
    .unwrap();
    let slicer = Slicer::new(&ps);
    let h = EntityHierarchy::new();
    let req = Request::new(RequestEntity::Concrete(user(1)), RequestEntity::Unspecified);
    assert_eq!(ids(&slicer.get_slice(&req, &h)), vec![2, 3, 4]);
}

#[test]
fn slice_grows_with_ancestors() {
    // Adding an ancestor can only grow the slice.
    let mut ps = PolicySet::new();
    ps.add(Policy::new(
        PolicyId(1),
        ScopeConstraint::InEntity(team(1)),
        ScopeConstraint::Any,
    ))
    .unwrap();
    ps.add(Policy::new(
        PolicyId(2),
        ScopeConstraint::Any,
        ScopeConstraint::Any,
    ))
    .unwrap();
    let slicer = Slicer::new(&ps);

    let bare = EntityHierarchy::new();
    let mut linked = EntityHierarchy::new();
    linked.insert(user(1), vec![team(1)]).unwrap();

    let req = Request::new(
        RequestEntity::Concrete(user(1)),
        RequestEntity::Concrete(doc(1)),
    );
    let small = ids(&slicer.get_slice(&req, &bare));
    let large = ids(&slicer.get_slice(&req, &linked));
    assert_eq!(small, vec![2]);
    assert_eq!(large, vec![1, 2]);
    assert!(small.iter().all(|id| large.contains(id)));
}

#[test]
fn every_policy_lands_in_exactly_one_bucket() {
    // A request whose candidate keys cover every bucket retrieves the
    // whole set, each policy exactly once.
    let mut ps = PolicySet::new();
    ps.add(Policy::new(
        PolicyId(1),
        ScopeConstraint::Any,
        ScopeConstraint::Any,
    ))
    .unwrap();
    ps.add(Policy::new(
        PolicyId(2),
        ScopeConstraint::EqEntity(user(1)),
        ScopeConstraint::Any,
    ))
    .unwrap();
    ps.add(Policy::new(
        PolicyId(3),
        ScopeConstraint::InEntity(team(1)),
        ScopeConstraint::EqEntity(doc(1)),
    ))
    .unwrap();
    ps.add(Policy::new(
        PolicyId(4),
        ScopeConstraint::IsOfTypeIn(EntityTypeId(1), team(1)),
        ScopeConstraint::IsOfType(EntityTypeId(3)),
    ))
    .unwrap();
    let slicer = Slicer::new(&ps);
    let mut h = EntityHierarchy::new();
    h.insert(user(1), vec![team(1)]).unwrap();
    let req = Request::new(
        RequestEntity::Concrete(user(1)),
        RequestEntity::Concrete(doc(1)),
    );
    let slice = slicer.get_slice(&req, &h);
    assert_eq!(slice.len(), 4);
    assert_eq!(ids(&slice), vec![1, 2, 3, 4]);
}

#[test]
fn empty_policy_set_slices_to_nothing() {
    let ps = PolicySet::new();
    assert!(ps.is_empty());
    let slicer = Slicer::new(&ps);
    let h = EntityHierarchy::new();
    let req = Request::new(
        RequestEntity::Concrete(user(1)),
        RequestEntity::Concrete(doc(1)),
    );
    let slice = slicer.get_slice(&req, &h);
    assert!(slice.is_empty());
    assert_eq!(slice.len(), 0);
}

#[test]
fn duplicate_policy_id_is_refused() {
    let mut ps = PolicySet::new();
    ps.add(Policy::new(
        PolicyId(1),
        ScopeConstraint::Any,
        ScopeConstraint::Any,
    ))
    .unwrap();
    let second = ps.add(Policy::new(
        PolicyId(1),
        ScopeConstraint::Unresolved,
        ScopeConstraint::Any,
    ));
    assert_eq!(second, Err(PolicySetError::Occupied));
    assert_eq!(ps.len(), 1);
}

#[test]
fn duplicate_hierarchy_entry_is_refused() {
    let mut h = EntityHierarchy::new();
    assert!(h.insert(user(1), vec![team(1)]).is_ok());
    assert!(h.insert(user(1), vec![team(2)]).is_err());
    let anc = h.ancestors_of(&user(1));
    assert_eq!(anc, vec![team(1)]);
    assert_eq!(h.ancestors_of(&user(9)), Vec::<EntityId>::new());
}

#[test]
fn residual_request_sides_are_detected() {
    assert!(RequestEntity::Concrete(user(1)).is_sliceable());
    assert!(RequestEntity::Unspecified.is_sliceable());
    assert!(!RequestEntity::Residual.is_sliceable());
}
