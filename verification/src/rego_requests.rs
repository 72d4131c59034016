//! Request shapes handed to the policy-language comparison engine: the
//! drive-sharing model and the repository-permission model, each with
//! its principals, resources and relation graphs in textual form.

use vstd::prelude::*;

verus! {

/// One batch of drive-model requests with the policy that governs them.
#[derive(Debug, Clone)]
pub struct Input {
    pub policy: String,
    pub namespace: &'static str,
    pub requests: Vec<Request>,
}

/// One drive-model request: who does what to which resource, with the
/// file graph it is judged against, each file paired with the files
/// above it.
#[derive(Debug, Clone)]
pub struct Request {
    pub principal: Principal,
    pub action: String,
    pub resource: Resource,
    pub files: Vec<(String, Vec<String>)>,
}

/// A drive-model principal and what it owns or may view.
#[derive(Debug, Clone)]
pub struct Principal {
    pub uid: String,
    pub documents_and_folders_with_view_access: Vec<String>,
    pub owned_folders: Vec<String>,
    pub owned_documents: Vec<String>,
}

/// A drive-model resource.
#[derive(Debug, Clone)]
pub struct Resource {
    pub uid: String,
    pub is_public: bool,
}

/// A repository with the groups that hold each permission on it.
#[derive(Debug, Clone)]
pub struct GithubRepo {
    pub readers: String,
    pub writers: String,
    pub admins: String,
    pub triagers: String,
    pub maintainers: String,
    pub owner: GithubOrg,
}

/// An organization with the groups that hold each permission on it.
#[derive(Debug, Clone)]
pub struct GithubOrg {
    pub readers: String,
    pub writers: String,
    pub admins: String,
}

} // verus!
