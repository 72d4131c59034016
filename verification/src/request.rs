//! Model of authorization requests.

use vstd::prelude::*;
use crate::policy::EntityId;

verus! {

/// One side of a request: the principal or the resource position.
#[derive(Clone, Copy, PartialEq, Eq, Structural, Hash, Debug)]
pub enum RequestEntity {
    /// A concrete, bound entity.
    Concrete(EntityId),
    /// No identity is bound in this position; used for partial or
    /// anonymous queries.
    Unspecified,
    /// A symbolic, residual value. Slicing over residual values is an
    /// explicit capability boundary of this index, not a recoverable
    /// error; queries must not carry this shape.
    Residual,
}

impl RequestEntity {
    pub open spec fn is_residual(&self) -> bool {
        self is Residual
    }

    /// Whether this side carries a shape the slicing index supports.
    pub fn is_sliceable(&self) -> (r: bool)
        ensures
            r == !self.is_residual(),
    {
        match self {
            RequestEntity::Residual => false,
            _ => true,
        }
    }
}

/// A request as the slicing index sees it: the principal and resource
/// references. The action and context of a request never influence which
/// bucket a policy lands in, so they are not modelled here.
#[derive(Clone, Copy, PartialEq, Eq, Structural, Hash, Debug)]
pub struct Request {
    pub principal: RequestEntity,
    pub resource: RequestEntity,
}

impl Request {
    pub fn new(principal: RequestEntity, resource: RequestEntity) -> (r: Request)
        ensures
            r == (Request { principal, resource }),
    {
        Request { principal, resource }
    }

    pub fn principal(&self) -> (r: RequestEntity)
        ensures
            r == self.principal,
    {
        self.principal
    }

    pub fn resource(&self) -> (r: RequestEntity)
        ensures
            r == self.resource,
    {
        self.resource
    }
}

} // verus!
