//! The parts of Terraform's JSON plan representation that this library
//! reads: each entry of `resource_changes` with its `address`, `type` and
//! `change`.
use vstd::prelude::*;
use crate::json::{JsonValue, PathSegment};

verus! {

/// A plan as `terraform show -json` writes it, reduced to what is read here.
#[derive(Debug)]
pub struct Plan {
    pub terraform_version: Option<String>,
    pub resource_changes: Vec<ResourceChange>,
}

/// One entry of `resource_changes`.
#[derive(Debug)]
pub struct ResourceChange {
    pub address: String,
    pub mode: Option<String>,
    pub resource_type: String,
    pub name: Option<String>,
    pub provider_name: Option<String>,
    pub change: Change,
}

/// The `change` of a resource: its action verbs, the attribute values
/// before and after, and the attribute paths that forced a replacement.
/// `replace_paths` is documented but optional in real plan output: absent
/// for non-replace changes, and not every provider or Terraform version
/// fills it in even for a replace.
#[derive(Debug)]
pub struct Change {
    pub actions: Vec<String>,
    pub before: Option<JsonValue>,
    pub after: Option<JsonValue>,
    pub replace_paths: Option<Vec<Vec<PathSegment>>>,
}

} // verus!
