//! A policy-slicing index for authorization policy sets.
//!
//! Given a set of policies, each of which constrains the principals and
//! resources it can apply to, the index answers concrete authorization
//! requests with a sound subset of the policies: every policy whose scope
//! the request satisfies is in the subset, and policies pinned to unrelated
//! entities are pruned away.

use vstd::prelude::*;

pub mod bench;
pub mod hierarchy;
pub mod openfga;
pub mod policy;
pub mod rego_requests;
pub mod request;
pub mod semantics;
pub mod slicing;
pub mod tinytodo;
pub mod tinytodo_generator;

verus! {

/// Sum of two numbers, defined only where the mathematical sum fits in `i32`.
pub fn add_numbers(x: i32, y: i32) -> (r: i32)
    requires
        i32::MIN <= x + y <= i32::MAX,
    ensures
        r == x + y,
{
    x + y
}

} // verus!
