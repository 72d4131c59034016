//! The entity hierarchy, consumed read-only as an ancestor oracle.
//!
//! For any concrete entity the hierarchy answers with the complete set of
//! its ancestors, already transitively closed by whoever built it. An
//! entity with no recorded entry simply has no ancestors; that is not an
//! error.

use vstd::prelude::*;
use crate::policy::EntityId;

verus! {

struct HierarchyEntry {
    entity: EntityId,
    ancestors: Vec<EntityId>,
}

/// A precomputed ancestor relation over entities.
pub struct EntityHierarchy {
    entries: Vec<HierarchyEntry>,
}

impl EntityHierarchy {
    /// Each entity has at most one entry.
    pub closed spec fn wf(&self) -> bool {
        forall|i: int, j: int|
            0 <= i < j < self.entries@.len() ==> (#[trigger] self.entries@[i]).entity != (
            #[trigger] self.entries@[j]).entity
    }

    /// The set of ancestors recorded for `e`; empty when `e` has no entry.
    pub closed spec fn ancestor_set(&self, e: EntityId) -> Set<EntityId> {
        Set::new(
            |a: EntityId|
                exists|i: int, j: int|
                    0 <= i < self.entries@.len() && self.entries@[i].entity == e && 0 <= j
                        < self.entries@[i].ancestors@.len() && #[trigger] self.entries@[i].ancestors@[j]
                        == a,
        )
    }

    /// Some entry is recorded for `e`.
    pub closed spec fn spec_has_entry(&self, e: EntityId) -> bool {
        exists|i: int| 0 <= i < self.entries@.len() && (#[trigger] self.entries@[i]).entity == e
    }

    pub fn new() -> (h: EntityHierarchy)
        ensures
            h.wf(),
            forall|e: EntityId| !(#[trigger] h.spec_has_entry(e)),
            forall|e: EntityId| #[trigger] h.ancestor_set(e) == Set::<EntityId>::empty(),
    {
        let h = EntityHierarchy { entries: Vec::new() };
        proof {
            assert forall|e: EntityId| #[trigger] h.ancestor_set(e) == Set::<EntityId>::empty() by {
                assert(h.ancestor_set(e) =~= Set::<EntityId>::empty());
            }
        }
        h
    }

    /// Record the full ancestor set of one entity. Refused when the entity
    /// already has an entry, so that the relation stays a function.
    pub fn insert(&mut self, entity: EntityId, ancestors: Vec<EntityId>) -> (r: Result<(), ()>)
        requires
            old(self).wf(),
        ensures
            final(self).wf(),
            r is Ok ==> !old(self).spec_has_entry(entity) && (forall|e: EntityId|
                #[trigger] final(self).ancestor_set(e) == if e == entity {
                    ancestors@.to_set()
                } else {
                    old(self).ancestor_set(e)
                }),
            r is Err ==> old(self).spec_has_entry(entity) && *final(self) == *old(self),
    {
        if self.has_entry(&entity) {
            return Err(());
        }
        let ghost pre = *self;
        self.entries.push(HierarchyEntry { entity, ancestors });
        proof {
            let n = pre.entries@.len() as int;
            assert(self.entries@ == pre.entries@.push(HierarchyEntry { entity, ancestors }));
            assert forall|e: EntityId|
                #[trigger] self.ancestor_set(e) == if e == entity {
                    ancestors@.to_set()
                } else {
                    pre.ancestor_set(e)
                } by {
                if e == entity {
                    assert forall|a: EntityId| #[trigger] self.ancestor_set(e).contains(a)
                        <==> ancestors@.to_set().contains(a) by {
                        if ancestors@.to_set().contains(a) {
                            let j = choose|j: int|
                                0 <= j < ancestors@.len() && ancestors@[j] == a;
                            assert(self.entries@[n].entity == e);
                            assert(self.entries@[n].ancestors@[j] == a);
                        }
                        if self.ancestor_set(e).contains(a) {
                            let (i, j): (int, int) = choose|i: int, j: int|
                                0 <= i < self.entries@.len() && self.entries@[i].entity == e && 0
                                    <= j < self.entries@[i].ancestors@.len()
                                    && #[trigger] self.entries@[i].ancestors@[j] == a;
                            if i < n {
                                assert(!pre.spec_has_entry(entity));
                                assert(pre.entries@[i].entity == e);
                                assert(false);
                            }
                            assert(ancestors@[j] == a);
                        }
                    }
                    assert(self.ancestor_set(e) =~= ancestors@.to_set());
                } else {
                    assert forall|a: EntityId| #[trigger] self.ancestor_set(e).contains(a)
                        <==> pre.ancestor_set(e).contains(a) by {
                        if pre.ancestor_set(e).contains(a) {
                            let (i, j): (int, int) = choose|i: int, j: int|
                                0 <= i < pre.entries@.len() && pre.entries@[i].entity == e && 0
                                    <= j < pre.entries@[i].ancestors@.len()
                                    && #[trigger] pre.entries@[i].ancestors@[j] == a;
                            assert(self.entries@[i].entity == e);
                            assert(self.entries@[i].ancestors@[j] == a);
                        }
                        if self.ancestor_set(e).contains(a) {
                            let (i, j): (int, int) = choose|i: int, j: int|
                                0 <= i < self.entries@.len() && self.entries@[i].entity == e && 0
                                    <= j < self.entries@[i].ancestors@.len()
                                    && #[trigger] self.entries@[i].ancestors@[j] == a;
                            assert(i < n);
                            assert(pre.entries@[i].entity == e);
                            assert(pre.entries@[i].ancestors@[j] == a);
                        }
                    }
                    assert(self.ancestor_set(e) =~= pre.ancestor_set(e));
                }
            }
        }
        Ok(())
    }

    /// Whether an entry is recorded for `e`.
    pub fn has_entry(&self, e: &EntityId) -> (r: bool)
        ensures
            r == self.spec_has_entry(*e),
    {
        let n: usize = self.entries.len();
        let mut i: usize = 0;
        while i < n
            invariant
                0 <= i <= n,
                n == self.entries@.len(),
                forall|j: int| 0 <= j < i ==> (#[trigger] self.entries@[j]).entity != *e,
            decreases n - i,
        {
            if self.entries[i].entity == *e {
                return true;
            }
            i = i + 1;
        }
        false
    }

    /// The ancestors of `e`, as a list; empty when none are recorded.
    pub fn ancestors_of(&self, e: &EntityId) -> (r: Vec<EntityId>)
        requires
            self.wf(),
        ensures
            forall|a: EntityId| #[trigger] r@.contains(a) <==> self.ancestor_set(*e).contains(a),
    {
        let n: usize = self.entries.len();
        let mut i: usize = 0;
        while i < n
            invariant
                0 <= i <= n,
                n == self.entries@.len(),
                self.wf(),
                forall|j: int| 0 <= j < i ==> (#[trigger] self.entries@[j]).entity != *e,
            decreases n - i,
        {
            if self.entries[i].entity == *e {
                let r = copy_ids(&self.entries[i].ancestors);
                proof {
                    assert forall|a: EntityId| #[trigger] r@.contains(a)
                        <==> self.ancestor_set(*e).contains(a) by {
                        if r@.contains(a) {
                            let j = choose|j: int| 0 <= j < r@.len() && r@[j] == a;
                            assert(self.entries@[i as int].entity == *e);
                            assert(self.entries@[i as int].ancestors@[j] == a);
                        }
                        if self.ancestor_set(*e).contains(a) {
                            let (k, j): (int, int) = choose|k: int, j: int|
                                0 <= k < self.entries@.len() && self.entries@[k].entity == *e && 0
                                    <= j < self.entries@[k].ancestors@.len()
                                    && #[trigger] self.entries@[k].ancestors@[j] == a;
                            assert(k == i as int);
                            assert(r@[j] == a);
                        }
                    }
                }
                return r;
            }
            i = i + 1;
        }
        proof {
            assert forall|a: EntityId| !self.ancestor_set(*e).contains(a) by {
                if self.ancestor_set(*e).contains(a) {
                    let (k, j): (int, int) = choose|k: int, j: int|
                        0 <= k < self.entries@.len() && self.entries@[k].entity == *e && 0 <= j
                            < self.entries@[k].ancestors@.len()
                            && #[trigger] self.entries@[k].ancestors@[j] == a;
                    assert(false);
                }
            }
        }
        Vec::new()
    }
}

/// A fresh copy of a list of entity ids.
fn copy_ids(v: &Vec<EntityId>) -> (r: Vec<EntityId>)
    ensures
        r@ == v@,
{
    let mut r: Vec<EntityId> = Vec::new();
    let n: usize = v.len();
    let mut i: usize = 0;
    while i < n
        invariant
            0 <= i <= n,
            n == v@.len(),
            r@ == v@.subrange(0, i as int),
        decreases n - i,
    {
        r.push(v[i]);
        proof {
            assert(r@ =~= v@.subrange(0, i as int + 1));
        }
        i = i + 1;
    }
    proof {
        assert(r@ =~= v@);
    }
    r
}

} // verus!
