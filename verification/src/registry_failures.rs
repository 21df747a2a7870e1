//! How refusals of the capability, event and workflow registries are
//! answered over HTTP.

use vstd::prelude::*;
use crate::text::{chars_of, find, find_slice, str_equals, texts};
use crate::workflow::{find_cycle_path, is_cycle, WorkflowEdge};

verus! {

/// The registry error codes the answer depends on.
#[derive(Clone, Copy, Debug, PartialEq, Eq, Structural)]
pub enum RegistryErrorKind {
    ImmutableVersionConflict,
    ArtifactConflict,
    Other,
}

/// One error of a capability registration refused by the registry.
pub struct RegistryErrorEntry {
    pub code: RegistryErrorKind,
    pub message: String,
}

pub open spec fn mentions_immutable_versions(message: Seq<char>) -> bool {
    find(message, "published contract versions are immutable"@) is Some
}

/// A refused capability registration: 409 when a published version would
/// change or the artifact conflicts, else 422.
pub open spec fn registry_failure_http(errors: Seq<RegistryErrorEntry>) -> (u16, Seq<char>, Seq<char>) {
    if exists|i: int| 0 <= i < errors.len() && (#[trigger] errors[i]).code == RegistryErrorKind::ImmutableVersionConflict {
        (409, "immutable_version_conflict"@, "Conflict"@)
    } else if exists|i: int| 0 <= i < errors.len() && ((#[trigger] errors[i]).code == RegistryErrorKind::ArtifactConflict
        || mentions_immutable_versions(errors[i].message@)) {
        (409, "registration_conflict"@, "Conflict"@)
    } else {
        (422, "registration_failed"@, "Unprocessable Entity"@)
    }
}

pub fn map_registry_failure_http(errors: &Vec<RegistryErrorEntry>) -> (r: (u16, &'static str, &'static str))
    ensures
        (r.0, r.1@, r.2@) == registry_failure_http(errors@),
{
    let needle = chars_of("published contract versions are immutable");
    let mut has_immutable = false;
    let mut has_conflict = false;
    let mut i: usize = 0;
    while i < errors.len()
        invariant
            i <= errors@.len(),
            needle@ == "published contract versions are immutable"@,
            has_immutable == exists|j: int| 0 <= j < i && (#[trigger] errors@[j]).code == RegistryErrorKind::ImmutableVersionConflict,
            has_conflict == exists|j: int| 0 <= j < i && ((#[trigger] errors@[j]).code == RegistryErrorKind::ArtifactConflict
                || mentions_immutable_versions(errors@[j].message@)),
        decreases errors.len() - i,
    {
        let e = &errors[i];
        if e.code == RegistryErrorKind::ImmutableVersionConflict {
            has_immutable = true;
        }
        let message = chars_of(e.message.as_str());
        if e.code == RegistryErrorKind::ArtifactConflict || find_slice(message.as_slice(), needle.as_slice()).is_some() {
            has_conflict = true;
        }
        proof {
            assert(errors@[i as int] == *e);
        }
        i = i + 1;
    }
    if has_immutable {
        return (409, "immutable_version_conflict", "Conflict");
    }
    if has_conflict {
        return (409, "registration_conflict", "Conflict");
    }
    (422, "registration_failed", "Unprocessable Entity")
}

/// A refused event registration: 409 when a published version would
/// change, else 422.
pub open spec fn event_registry_failure_http(immutable_conflicts: Seq<bool>) -> (u16, Seq<char>, Seq<char>) {
    if immutable_conflicts.contains(true) {
        (409, "registration_conflict"@, "Conflict"@)
    } else {
        (422, "event_registration_failed"@, "Unprocessable Entity"@)
    }
}

/// `immutable_conflicts[i]` says whether the `i`-th error of the refusal is
/// an immutable version conflict.
pub fn map_event_registry_failure_http(immutable_conflicts: &Vec<bool>) -> (r: (u16, &'static str, &'static str))
    ensures
        (r.0, r.1@, r.2@) == event_registry_failure_http(immutable_conflicts@),
{
    let mut i: usize = 0;
    while i < immutable_conflicts.len()
        invariant
            i <= immutable_conflicts@.len(),
            forall|j: int| 0 <= j < i ==> !immutable_conflicts@[j],
        decreases immutable_conflicts.len() - i,
    {
        if immutable_conflicts[i] {
            assert(immutable_conflicts@[i as int]);
            return (409, "registration_conflict", "Conflict");
        }
        i = i + 1;
    }
    (422, "event_registration_failed", "Unprocessable Entity")
}

/// The workflow error codes the answer depends on.
#[derive(Clone, Copy, Debug, PartialEq, Eq, Structural)]
pub enum WorkflowErrorKind {
    ImmutableVersionConflict,
    DeterministicCycleNotAllowed,
    EdgeSchemaMismatch,
    MissingReference,
    MissingRequiredField,
    Other,
}

/// One error of a workflow registration refused by the registry.
pub struct WorkflowErrorEntry {
    pub code: WorkflowErrorKind,
    pub path: String,
}

pub open spec fn has_workflow_error(errors: Seq<WorkflowErrorEntry>, code: WorkflowErrorKind) -> bool {
    exists|i: int| 0 <= i < errors.len() && (#[trigger] errors[i]).code == code
}

pub open spec fn has_empty_nodes(errors: Seq<WorkflowErrorEntry>) -> bool {
    exists|i: int| 0 <= i < errors.len() && (#[trigger] errors[i]).code == WorkflowErrorKind::MissingRequiredField
        && errors[i].path@ == "$.nodes"@
}

/// A refused workflow registration, by the first kind of error present in
/// this order: a version conflict (409), a cycle (422, with a cycle of the
/// graph), an edge schema mismatch, an unresolved capability, an empty node
/// list, anything else (all 422).
pub open spec fn workflow_failure_http(errors: Seq<WorkflowErrorEntry>) -> (u16, Seq<char>, Seq<char>) {
    if has_workflow_error(errors, WorkflowErrorKind::ImmutableVersionConflict) {
        (409, "immutable_version_conflict"@, "Conflict"@)
    } else if has_workflow_error(errors, WorkflowErrorKind::DeterministicCycleNotAllowed) {
        (422, "workflow_cycle_detected"@, "Unprocessable Entity"@)
    } else if has_workflow_error(errors, WorkflowErrorKind::EdgeSchemaMismatch) {
        (422, "edge_schema_mismatch"@, "Unprocessable Entity"@)
    } else if has_workflow_error(errors, WorkflowErrorKind::MissingReference) {
        (422, "unresolved_capability_reference"@, "Unprocessable Entity"@)
    } else if has_empty_nodes(errors) {
        (422, "empty_workflow"@, "Unprocessable Entity"@)
    } else {
        (422, "registration_failed"@, "Unprocessable Entity"@)
    }
}

fn has_kind(errors: &Vec<WorkflowErrorEntry>, code: WorkflowErrorKind) -> (b: bool)
    ensures
        b == has_workflow_error(errors@, code),
{
    let mut i: usize = 0;
    while i < errors.len()
        invariant
            i <= errors@.len(),
            forall|j: int| 0 <= j < i ==> (#[trigger] errors@[j]).code != code,
        decreases errors.len() - i,
    {
        if errors[i].code == code {
            assert(errors@[i as int].code == code);
            return true;
        }
        i = i + 1;
    }
    false
}

fn lists_empty_nodes(errors: &Vec<WorkflowErrorEntry>) -> (b: bool)
    ensures
        b == has_empty_nodes(errors@),
{
    let mut i: usize = 0;
    while i < errors.len()
        invariant
            i <= errors@.len(),
            forall|j: int| 0 <= j < i ==> !((#[trigger] errors@[j]).code == WorkflowErrorKind::MissingRequiredField
                && errors@[j].path@ == "$.nodes"@),
        decreases errors.len() - i,
    {
        if errors[i].code == WorkflowErrorKind::MissingRequiredField && str_equals(errors[i].path.as_str(), "$.nodes") {
            assert(errors@[i as int].code == WorkflowErrorKind::MissingRequiredField && errors@[i as int].path@ == "$.nodes"@);
            return true;
        }
        i = i + 1;
    }
    false
}

/// The answer to a refused workflow registration; for a cycle, a closed
/// path of the definition's graph.
pub fn map_workflow_failure_http(
    errors: &Vec<WorkflowErrorEntry>,
    node_ids: &Vec<String>,
    edges: &Vec<WorkflowEdge>,
) -> (r: (u16, &'static str, &'static str, Option<Vec<String>>))
    ensures
        (r.0, r.1@, r.2@) == workflow_failure_http(errors@),
        match r.3 {
            Some(p) => {
                &&& !has_workflow_error(errors@, WorkflowErrorKind::ImmutableVersionConflict)
                &&& has_workflow_error(errors@, WorkflowErrorKind::DeterministicCycleNotAllowed)
                &&& p@.len() > 0 ==> is_cycle(texts(node_ids@), edges@, texts(p@))
                &&& p@.len() == 0 ==> forall|q: Seq<Seq<char>>| !is_cycle(texts(node_ids@), edges@, q)
            },
            None => has_workflow_error(errors@, WorkflowErrorKind::ImmutableVersionConflict)
                || !has_workflow_error(errors@, WorkflowErrorKind::DeterministicCycleNotAllowed),
        },
{
    if has_kind(errors, WorkflowErrorKind::ImmutableVersionConflict) {
        return (409, "immutable_version_conflict", "Conflict", None);
    }
    if has_kind(errors, WorkflowErrorKind::DeterministicCycleNotAllowed) {
        let path = find_cycle_path(node_ids, edges);
        return (422, "workflow_cycle_detected", "Unprocessable Entity", Some(path));
    }
    if has_kind(errors, WorkflowErrorKind::EdgeSchemaMismatch) {
        return (422, "edge_schema_mismatch", "Unprocessable Entity", None);
    }
    if has_kind(errors, WorkflowErrorKind::MissingReference) {
        return (422, "unresolved_capability_reference", "Unprocessable Entity", None);
    }
    if lists_empty_nodes(errors) {
        return (422, "empty_workflow", "Unprocessable Entity", None);
    }
    (422, "registration_failed", "Unprocessable Entity", None)
}

} // verus!
