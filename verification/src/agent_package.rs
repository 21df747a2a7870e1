//! AI-agent packages: the manifest of a package, the checks it must pass on
//! its own and against its capability contract, the digest of its binary,
//! and the summary printed for it.

use vstd::prelude::*;
use crate::text::{
    blank, join, join_texts, owned, push_str, str_equals, str_is_blank, texts,
};
use crate::digest::{fnv1a64, fnv1a64_text};

verus! {

pub const AGENT_PACKAGE_KIND: &'static str = "agent_package";

pub const AGENT_PACKAGE_SCHEMA_VERSION: &'static str = "1.0.0";

pub const AGENT_GOVERNING_SPEC: &'static str = "017-ai-agent-packaging";

#[derive(Debug, PartialEq, Eq)]
pub struct AgentCapabilityReference {
    pub id: String,
    pub version: String,
    pub contract_path: String,
}

#[derive(Debug, PartialEq, Eq)]
pub struct AgentWorkflowReference {
    pub workflow_id: String,
    pub workflow_version: String,
}

#[derive(Debug, PartialEq, Eq)]
pub struct AgentSourceReference {
    pub path: String,
    pub language: String,
    pub entry: String,
}

#[derive(Debug, PartialEq, Eq)]
pub struct AgentBinaryReference {
    pub path: String,
    pub format: String,
    pub expected_digest: String,
    pub abi_version: String,
}

#[derive(Debug, PartialEq, Eq)]
pub struct AgentConstraintDeclaration {
    pub host_api_access: String,
    pub network_access: String,
    pub filesystem_access: String,
}

#[derive(Debug, PartialEq, Eq)]
pub struct AgentModelDependency {
    pub interface: String,
    pub purpose: String,
}

/// The manifest of an AI-agent package.
#[derive(Debug, PartialEq, Eq)]
pub struct AgentPackageManifest {
    pub kind: String,
    pub schema_version: String,
    pub package_id: String,
    pub version: String,
    pub summary: String,
    pub capability_ref: AgentCapabilityReference,
    pub workflow_refs: Vec<AgentWorkflowReference>,
    pub source: AgentSourceReference,
    pub binary: AgentBinaryReference,
    pub constraints: AgentConstraintDeclaration,
    pub model_dependencies: Vec<AgentModelDependency>,
}

/// Why a manifest is refused on its own, or `None`; `path` is how the
/// manifest's path is displayed and `supported_abi` the host ABI version the
/// runtime supports. The first failing rule names the error.
pub open spec fn manifest_shape_error(m: AgentPackageManifest, path: Seq<char>, supported_abi: Seq<char>) -> Option<Seq<char>> {
    if m.kind@ != AGENT_PACKAGE_KIND@ {
        Some("agent package manifest "@ + path + " must declare kind=agent_package"@)
    } else if m.schema_version@ != AGENT_PACKAGE_SCHEMA_VERSION@ {
        Some("agent package manifest "@ + path + " must declare schema_version=1.0.0"@)
    } else if blank(m.package_id@) {
        Some("agent package package_id must be non-empty"@)
    } else if blank(m.version@) {
        Some("agent package version must be non-empty"@)
    } else if blank(m.capability_ref.id@) || blank(m.capability_ref.version@) {
        Some("agent package capability_ref must declare non-empty id and version"@)
    } else if blank(m.capability_ref.contract_path@) {
        Some("agent package capability_ref.contract_path must be non-empty"@)
    } else if blank(m.source.path@) || blank(m.source.entry@) {
        Some("agent package source.path and source.entry must be non-empty"@)
    } else if blank(m.binary.path@) || blank(m.binary.expected_digest@) {
        Some("agent package binary.path and binary.expected_digest must be non-empty"@)
    } else if m.binary.abi_version@ != supported_abi {
        Some("agent package binary.abi_version must equal "@ + supported_abi)
    } else if m.binary.format@ != "wasm"@ {
        Some("agent package binary.format must equal wasm"@)
    } else if m.workflow_refs@.len() == 0 {
        Some("agent package must declare at least one approved workflow reference"@)
    } else {
        None
    }
}

/// Checks a manifest on its own, before any file it names is read.
pub fn validate_manifest_shape(
    manifest: &AgentPackageManifest,
    manifest_path: &str,
    supported_abi: &str,
) -> (r: Result<(), String>)
    ensures
        match r {
            Ok(()) => manifest_shape_error(*manifest, manifest_path@, supported_abi@) is None,
            Err(m) => manifest_shape_error(*manifest, manifest_path@, supported_abi@) == Some(m@),
        },
{
    if !str_equals(manifest.kind.as_str(), AGENT_PACKAGE_KIND) {
        let mut m = owned("agent package manifest ");
        push_str(&mut m, manifest_path);
        push_str(&mut m, " must declare kind=agent_package");
        return Err(m);
    }
    if !str_equals(manifest.schema_version.as_str(), AGENT_PACKAGE_SCHEMA_VERSION) {
        let mut m = owned("agent package manifest ");
        push_str(&mut m, manifest_path);
        push_str(&mut m, " must declare schema_version=1.0.0");
        return Err(m);
    }
    if str_is_blank(manifest.package_id.as_str()) {
        return Err(owned("agent package package_id must be non-empty"));
    }
    if str_is_blank(manifest.version.as_str()) {
        return Err(owned("agent package version must be non-empty"));
    }
    if str_is_blank(manifest.capability_ref.id.as_str()) || str_is_blank(
        manifest.capability_ref.version.as_str(),
    ) {
        return Err(owned("agent package capability_ref must declare non-empty id and version"));
    }
    if str_is_blank(manifest.capability_ref.contract_path.as_str()) {
        return Err(owned("agent package capability_ref.contract_path must be non-empty"));
    }
    if str_is_blank(manifest.source.path.as_str()) || str_is_blank(manifest.source.entry.as_str()) {
        return Err(owned("agent package source.path and source.entry must be non-empty"));
    }
    if str_is_blank(manifest.binary.path.as_str()) || str_is_blank(
        manifest.binary.expected_digest.as_str(),
    ) {
        return Err(owned("agent package binary.path and binary.expected_digest must be non-empty"));
    }
    if !str_equals(manifest.binary.abi_version.as_str(), supported_abi) {
        let mut m = owned("agent package binary.abi_version must equal ");
        push_str(&mut m, supported_abi);
        return Err(m);
    }
    if !str_equals(manifest.binary.format.as_str(), "wasm") {
        return Err(owned("agent package binary.format must equal wasm"));
    }
    if manifest.workflow_refs.len() == 0 {
        return Err(owned("agent package must declare at least one approved workflow reference"));
    }
    Ok(())
}

/// What the package checks read of its validated capability contract.
#[derive(Debug, PartialEq, Eq)]
pub struct ContractSummary {
    pub id: String,
    pub version: String,
    /// The execution's binary format is wasm.
    pub wasm_execution: bool,
    /// The entrypoint is a WASI command.
    pub wasi_command_entrypoint: bool,
    pub entrypoint_command: String,
    /// `host_api_access` is `none`.
    pub host_api_none: bool,
    /// `network_access` is `forbidden`.
    pub network_forbidden: bool,
    /// `filesystem_access` is `none`.
    pub filesystem_none: bool,
}

/// Why a manifest does not fit its contract, or `None`: same capability
/// and version, a wasm `run` WASI command, and no host API, network or
/// filesystem access on either side.
pub open spec fn contract_mismatch_error(m: AgentPackageManifest, c: ContractSummary) -> Option<Seq<char>> {
    if c.id@ != m.capability_ref.id@ || c.version@ != m.capability_ref.version@ {
        Some(
            "agent package capability_ref "@ + m.capability_ref.id@ + "@"@ + m.capability_ref.version@
                + " does not match contract "@ + c.id@ + "@"@ + c.version@,
        )
    } else if !c.wasm_execution {
        Some("agent package capability "@ + c.id@ + " must declare wasm execution"@)
    } else if !c.wasi_command_entrypoint || c.entrypoint_command@ != "run"@ {
        Some(
            "agent package capability "@ + c.id@
                + " must declare a wasi-command entrypoint named run"@,
        )
    } else if !c.host_api_none || m.constraints.host_api_access@ != "none"@ {
        Some("agent package capability "@ + c.id@ + " must keep host_api_access=none"@)
    } else if !c.network_forbidden || m.constraints.network_access@ != "forbidden"@ {
        Some("agent package capability "@ + c.id@ + " must keep network_access=forbidden"@)
    } else if !c.filesystem_none || m.constraints.filesystem_access@ != "none"@ {
        Some("agent package capability "@ + c.id@ + " must keep filesystem_access=none"@)
    } else {
        None
    }
}

fn capability_error(id: &str, tail: &str) -> (s: String)
    ensures
        s@ == "agent package capability "@ + id@ + tail@,
{
    let mut s = owned("agent package capability ");
    push_str(&mut s, id);
    push_str(&mut s, tail);
    s
}

pub fn validate_manifest_against_contract(manifest: &AgentPackageManifest, contract: &ContractSummary) -> (r: Result<(), String>)
    ensures
        match r {
            Ok(()) => contract_mismatch_error(*manifest, *contract) is None,
            Err(m) => contract_mismatch_error(*manifest, *contract) == Some(m@),
        },
{
    if !str_equals(contract.id.as_str(), manifest.capability_ref.id.as_str()) || !str_equals(
        contract.version.as_str(),
        manifest.capability_ref.version.as_str(),
    ) {
        let mut m = owned("agent package capability_ref ");
        push_str(&mut m, manifest.capability_ref.id.as_str());
        push_str(&mut m, "@");
        push_str(&mut m, manifest.capability_ref.version.as_str());
        push_str(&mut m, " does not match contract ");
        push_str(&mut m, contract.id.as_str());
        push_str(&mut m, "@");
        push_str(&mut m, contract.version.as_str());
        return Err(m);
    }
    let id = contract.id.as_str();
    if !contract.wasm_execution {
        return Err(capability_error(id, " must declare wasm execution"));
    }
    if !contract.wasi_command_entrypoint || !str_equals(contract.entrypoint_command.as_str(), "run") {
        return Err(capability_error(id, " must declare a wasi-command entrypoint named run"));
    }
    if !contract.host_api_none || !str_equals(manifest.constraints.host_api_access.as_str(), "none") {
        return Err(capability_error(id, " must keep host_api_access=none"));
    }
    if !contract.network_forbidden || !str_equals(
        manifest.constraints.network_access.as_str(),
        "forbidden",
    ) {
        return Err(capability_error(id, " must keep network_access=forbidden"));
    }
    if !contract.filesystem_none || !str_equals(
        manifest.constraints.filesystem_access.as_str(),
        "none",
    ) {
        return Err(capability_error(id, " must keep filesystem_access=none"));
    }
    Ok(())
}

/// Checks the bytes of an agent binary against the manifest's expected
/// digest and returns the digest.
pub fn check_binary_digest(binary_path: &str, expected_digest: &str, binary: &[u8]) -> (r: Result<String, String>)
    ensures
        fnv1a64_text(binary@) == expected_digest@ ==> (r matches Ok(d) && d@ == fnv1a64_text(
            binary@,
        )),
        fnv1a64_text(binary@) != expected_digest@ ==> (r matches Err(m) && m@
            == "agent binary digest mismatch for "@ + binary_path@ + ": expected "@
            + expected_digest@ + ", got "@ + fnv1a64_text(binary@)),
{
    let digest = fnv1a64(binary);
    if !str_equals(digest.as_str(), expected_digest) {
        let mut m = owned("agent binary digest mismatch for ");
        push_str(&mut m, binary_path);
        push_str(&mut m, ": expected ");
        push_str(&mut m, expected_digest);
        push_str(&mut m, ", got ");
        push_str(&mut m, digest.as_str());
        return Err(m);
    }
    Ok(digest)
}

/// The message for a file the package names but that does not exist.
pub fn missing_file_message(description: &str, path: &str) -> (s: String)
    ensures
        s@ == "missing "@ + description@ + " file "@ + path@,
{
    let mut s = owned("missing ");
    push_str(&mut s, description);
    push_str(&mut s, " file ");
    push_str(&mut s, path);
    s
}

/// Where a contract's provenance says it came from.
#[derive(Clone, Copy, Debug, PartialEq, Eq, Structural)]
pub enum ProvenanceSource {
    Greenfield,
    BrownfieldExtracted,
    AiGenerated,
    AiAssisted,
}

pub open spec fn provenance_label(s: ProvenanceSource) -> Seq<char> {
    match s {
        ProvenanceSource::Greenfield => "greenfield"@,
        ProvenanceSource::BrownfieldExtracted => "brownfield-extracted"@,
        ProvenanceSource::AiGenerated => "ai-generated"@,
        ProvenanceSource::AiAssisted => "ai-assisted"@,
    }
}

/// The registry's label for a provenance source.
pub fn provenance_source_label(source: &ProvenanceSource) -> (s: String)
    ensures
        s@ == provenance_label(*source),
{
    match source {
        ProvenanceSource::Greenfield => owned("greenfield"),
        ProvenanceSource::BrownfieldExtracted => owned("brownfield-extracted"),
        ProvenanceSource::AiGenerated => owned("ai-generated"),
        ProvenanceSource::AiAssisted => owned("ai-assisted"),
    }
}

/// One error of a refused contract: its message and the path it points at.
#[derive(Debug, PartialEq, Eq)]
pub struct ContractError {
    pub message: String,
    pub path: String,
}

pub open spec fn contract_error_lines(errors: Seq<ContractError>) -> Seq<Seq<char>> {
    errors.map_values(|e: ContractError| e.message@ + " at "@ + e.path@)
}

/// `capability contract <path> is invalid: <message> at <path>; ...`.
pub fn render_contract_failure(contract_path: &str, errors: &Vec<ContractError>) -> (s: String)
    ensures
        s@ == "capability contract "@ + contract_path@ + " is invalid: "@ + join(
            contract_error_lines(errors@),
            "; "@,
        ),
{
    let mut lines: Vec<String> = Vec::new();
    let n = errors.len();
    let mut i: usize = 0;
    while i < n
        invariant
            n == errors@.len(),
            i <= n,
            texts(lines@) == contract_error_lines(errors@).take(i as int),
        decreases n - i,
    {
        let mut l = owned(errors[i].message.as_str());
        push_str(&mut l, " at ");
        push_str(&mut l, errors[i].path.as_str());
        let ghost before = lines@;
        assert(contract_error_lines(errors@)[i as int] == l@);
        lines.push(l);
        assert(texts(lines@) =~= texts(before).push(l@));
        assert(contract_error_lines(errors@).take(i + 1) =~= contract_error_lines(errors@).take(
            i as int,
        ).push(l@));
        i = i + 1;
    }
    assert(contract_error_lines(errors@).take(n as int) =~= contract_error_lines(errors@));
    let mut s = owned("capability contract ");
    push_str(&mut s, contract_path);
    push_str(&mut s, " is invalid: ");
    let details = join_texts(&lines, "; ");
    push_str(&mut s, details.as_str());
    s
}

} // verus!

verus! {

/// A package that loaded and passed every check.
#[derive(Debug, PartialEq, Eq)]
pub struct LoadedAgentPackage {
    /// How the manifest's path is displayed.
    pub manifest_path: String,
    pub manifest: AgentPackageManifest,
    pub contract: ContractSummary,
    pub source_path: String,
    pub binary_path: String,
    pub binary_digest: String,
}

pub open spec fn model_interfaces(deps: Seq<AgentModelDependency>) -> Seq<Seq<char>> {
    deps.map_values(|d: AgentModelDependency| d.interface@)
}

pub open spec fn workflow_labels(refs: Seq<AgentWorkflowReference>) -> Seq<Seq<char>> {
    refs.map_values(|w: AgentWorkflowReference| w.workflow_id@ + "@"@ + w.workflow_version@)
}

/// The lines of a package summary; `workflow_refs` only when there are some.
pub open spec fn summary_lines(p: LoadedAgentPackage) -> Seq<Seq<char>> {
    let base = seq![
        "path: "@ + p.manifest_path@,
        "package_id: "@ + p.manifest.package_id@,
        "package_version: "@ + p.manifest.version@,
        "capability_id: "@ + p.manifest.capability_ref.id@,
        "capability_version: "@ + p.manifest.capability_ref.version@,
        "source_path: "@ + p.source_path@,
        "binary_path: "@ + p.binary_path@,
        "binary_digest: "@ + p.binary_digest@,
        "model_interfaces: "@ + join(model_interfaces(p.manifest.model_dependencies@), ", "@),
    ];
    if p.manifest.workflow_refs@.len() == 0 {
        base
    } else {
        base.push("workflow_refs: "@ + join(workflow_labels(p.manifest.workflow_refs@), ", "@))
    }
}

fn labelled(label: &str, value: &str) -> (s: String)
    ensures
        s@ == label@ + value@,
{
    let mut s = owned(label);
    push_str(&mut s, value);
    s
}

impl LoadedAgentPackage {
    /// The summary printed for a loaded package, one `name: value` per line.
    pub fn render_summary(&self) -> (s: String)
        ensures
            s@ == join(summary_lines(*self), "\n"@),
    {
        let m = &self.manifest;
        let mut interfaces: Vec<String> = Vec::new();
        let n = m.model_dependencies.len();
        let mut i: usize = 0;
        while i < n
            invariant
                n == m.model_dependencies@.len(),
                i <= n,
                texts(interfaces@) == model_interfaces(m.model_dependencies@).take(i as int),
            decreases n - i,
        {
            let ghost before = interfaces@;
            interfaces.push(m.model_dependencies[i].interface.clone());
            assert(texts(interfaces@) =~= texts(before).push(m.model_dependencies@[i as int].interface@));
            assert(model_interfaces(m.model_dependencies@).take(i + 1) =~= model_interfaces(
                m.model_dependencies@,
            ).take(i as int).push(m.model_dependencies@[i as int].interface@));
            i = i + 1;
        }
        assert(model_interfaces(m.model_dependencies@).take(n as int) =~= model_interfaces(
            m.model_dependencies@,
        ));
        let mut lines: Vec<String> = Vec::new();
        lines.push(labelled("path: ", self.manifest_path.as_str()));
        lines.push(labelled("package_id: ", m.package_id.as_str()));
        lines.push(labelled("package_version: ", m.version.as_str()));
        lines.push(labelled("capability_id: ", m.capability_ref.id.as_str()));
        lines.push(labelled("capability_version: ", m.capability_ref.version.as_str()));
        lines.push(labelled("source_path: ", self.source_path.as_str()));
        lines.push(labelled("binary_path: ", self.binary_path.as_str()));
        lines.push(labelled("binary_digest: ", self.binary_digest.as_str()));
        let joined = join_texts(&interfaces, ", ");
        lines.push(labelled("model_interfaces: ", joined.as_str()));
        if m.workflow_refs.len() > 0 {
            let mut refs: Vec<String> = Vec::new();
            let k = m.workflow_refs.len();
            let mut j: usize = 0;
            while j < k
                invariant
                    k == m.workflow_refs@.len(),
                    j <= k,
                    texts(refs@) == workflow_labels(m.workflow_refs@).take(j as int),
                decreases k - j,
            {
                let w = &m.workflow_refs[j];
                let mut l = owned(w.workflow_id.as_str());
                push_str(&mut l, "@");
                push_str(&mut l, w.workflow_version.as_str());
                let ghost before = refs@;
                assert(workflow_labels(m.workflow_refs@)[j as int] == l@);
                refs.push(l);
                assert(texts(refs@) =~= texts(before).push(l@));
                assert(workflow_labels(m.workflow_refs@).take(j + 1) =~= workflow_labels(
                    m.workflow_refs@,
                ).take(j as int).push(l@));
                j = j + 1;
            }
            assert(workflow_labels(m.workflow_refs@).take(k as int) =~= workflow_labels(
                m.workflow_refs@,
            ));
            let joined_refs = join_texts(&refs, ", ");
            lines.push(labelled("workflow_refs: ", joined_refs.as_str()));
        }
        assert(texts(lines@) =~= summary_lines(*self));
        join_texts(&lines, "\n")
    }
}

/// The registry labels of a package's capability registration.
#[derive(Debug, PartialEq, Eq)]
pub struct AgentRegistrationLabels {
    pub artifact_ref: String,
    pub registered_at: String,
    pub provided: Vec<String>,
    pub required_workflows: Vec<String>,
}

pub open spec fn workflow_ids(refs: Seq<AgentWorkflowReference>) -> Seq<Seq<char>> {
    refs.map_values(|w: AgentWorkflowReference| w.workflow_id@)
}

/// `agent-package:<id>:<version>` as the artifact reference,
/// `agent-package:<id>@<version>` as the registration stamp; the package
/// provides its capability and requires its workflows.
pub fn registration_labels(manifest: &AgentPackageManifest) -> (r: AgentRegistrationLabels)
    ensures
        r.artifact_ref@ == "agent-package:"@ + manifest.package_id@ + ":"@ + manifest.version@,
        r.registered_at@ == "agent-package:"@ + manifest.package_id@ + "@"@ + manifest.version@,
        texts(r.provided@) == seq![manifest.capability_ref.id@],
        texts(r.required_workflows@) == workflow_ids(manifest.workflow_refs@),
{
    let mut artifact_ref = owned("agent-package:");
    push_str(&mut artifact_ref, manifest.package_id.as_str());
    push_str(&mut artifact_ref, ":");
    push_str(&mut artifact_ref, manifest.version.as_str());
    let mut registered_at = owned("agent-package:");
    push_str(&mut registered_at, manifest.package_id.as_str());
    push_str(&mut registered_at, "@");
    push_str(&mut registered_at, manifest.version.as_str());
    let mut provided: Vec<String> = Vec::new();
    provided.push(manifest.capability_ref.id.clone());
    assert(texts(provided@) =~= seq![manifest.capability_ref.id@]);
    let mut required_workflows: Vec<String> = Vec::new();
    let n = manifest.workflow_refs.len();
    let mut i: usize = 0;
    while i < n
        invariant
            n == manifest.workflow_refs@.len(),
            i <= n,
            texts(required_workflows@) == workflow_ids(manifest.workflow_refs@).take(i as int),
        decreases n - i,
    {
        let ghost before = required_workflows@;
        required_workflows.push(manifest.workflow_refs[i].workflow_id.clone());
        assert(texts(required_workflows@) =~= texts(before).push(manifest.workflow_refs@[i as int].workflow_id@));
        assert(workflow_ids(manifest.workflow_refs@).take(i + 1) =~= workflow_ids(
            manifest.workflow_refs@,
        ).take(i as int).push(manifest.workflow_refs@[i as int].workflow_id@));
        i = i + 1;
    }
    assert(workflow_ids(manifest.workflow_refs@).take(n as int) =~= workflow_ids(manifest.workflow_refs@));
    AgentRegistrationLabels { artifact_ref, registered_at, provided, required_workflows }
}


/// The files a manifest names, resolved against the manifest's directory,
/// and whether each exists; `has_parent` tells whether the manifest path has
/// a directory to resolve them against.
pub struct PackageFiles {
    pub has_parent: bool,
    pub contract_path: String,
    pub source_path: String,
    pub binary_path: String,
    pub contract_exists: bool,
    pub source_exists: bool,
    pub binary_exists: bool,
}

/// What reading and validating the capability contract gave.
pub enum ContractReading {
    /// The file could not be read (the error's text).
    Unreadable(String),
    /// The contract did not parse or validate.
    Invalid(Vec<ContractError>),
    Valid(ContractSummary),
}

/// What reading the agent binary gave.
pub enum BinaryReading {
    Unreadable(String),
    Bytes(Vec<u8>),
}

pub open spec fn missing_file(description: Seq<char>, path: Seq<char>) -> Seq<char> {
    "missing "@ + description + " file "@ + path
}

/// Why a package does not load, checked in this order: the manifest on its
/// own, the manifest's directory, the contract, source and binary files, the
/// contract's text, the contract against the manifest, the binary's bytes
/// and its digest.
pub open spec fn agent_package_error(
    manifest_path: Seq<char>,
    m: AgentPackageManifest,
    supported_abi: Seq<char>,
    files: PackageFiles,
    contract: ContractReading,
    binary: BinaryReading,
) -> Option<Seq<char>> {
    if manifest_shape_error(m, manifest_path, supported_abi) is Some {
        manifest_shape_error(m, manifest_path, supported_abi)
    } else if !files.has_parent {
        Some("agent package manifest "@ + manifest_path + " has no parent directory"@)
    } else if !files.contract_exists {
        Some(missing_file("capability contract"@, files.contract_path@))
    } else if !files.source_exists {
        Some(missing_file("agent source"@, files.source_path@))
    } else if !files.binary_exists {
        Some(missing_file("agent binary"@, files.binary_path@))
    } else {
        match contract {
            ContractReading::Unreadable(e) => Some(
                "failed to read capability contract "@ + files.contract_path@ + ": "@ + e@,
            ),
            ContractReading::Invalid(errors) => Some(
                "capability contract "@ + files.contract_path@ + " is invalid: "@ + join(
                    contract_error_lines(errors@),
                    "; "@,
                ),
            ),
            ContractReading::Valid(c) => if contract_mismatch_error(m, c) is Some {
                contract_mismatch_error(m, c)
            } else {
                match binary {
                    BinaryReading::Unreadable(e) => Some(
                        "failed to read agent binary "@ + files.binary_path@ + ": "@ + e@,
                    ),
                    BinaryReading::Bytes(b) => if fnv1a64_text(b@) != m.binary.expected_digest@ {
                        Some(
                            "agent binary digest mismatch for "@ + files.binary_path@ + ": expected "@
                                + m.binary.expected_digest@ + ", got "@ + fnv1a64_text(b@),
                        )
                    } else {
                        None
                    },
                }
            },
        }
    }
}

/// Loads a package from its parsed manifest and what was found on disk: the
/// package loads exactly when no check refuses it, and then holds the
/// manifest, the validated contract, the resolved source and binary paths
/// and the binary's digest.
pub fn load_agent_package_from(
    manifest_path: &str,
    manifest: AgentPackageManifest,
    supported_abi: &str,
    files: PackageFiles,
    contract: ContractReading,
    binary: BinaryReading,
) -> (r: Result<LoadedAgentPackage, String>)
    ensures
        match r {
            Err(e) => agent_package_error(manifest_path@, manifest, supported_abi@, files, contract, binary)
                == Some(e@),
            Ok(p) => {
                &&& agent_package_error(manifest_path@, manifest, supported_abi@, files, contract, binary)
                    is None
                &&& p.manifest_path@ == manifest_path@
                &&& p.manifest == manifest
                &&& contract == ContractReading::Valid(p.contract)
                &&& p.contract.id@ == manifest.capability_ref.id@
                &&& p.contract.version@ == manifest.capability_ref.version@
                &&& p.source_path@ == files.source_path@
                &&& p.binary_path@ == files.binary_path@
                &&& (binary matches BinaryReading::Bytes(b) && p.binary_digest@ == fnv1a64_text(b@))
            },
        },
{
    validate_manifest_shape(&manifest, manifest_path, supported_abi)?;
    if !files.has_parent {
        let mut m = owned("agent package manifest ");
        push_str(&mut m, manifest_path);
        push_str(&mut m, " has no parent directory");
        return Err(m);
    }
    if !files.contract_exists {
        return Err(missing_file_message("capability contract", files.contract_path.as_str()));
    }
    if !files.source_exists {
        return Err(missing_file_message("agent source", files.source_path.as_str()));
    }
    if !files.binary_exists {
        return Err(missing_file_message("agent binary", files.binary_path.as_str()));
    }
    let summary = match contract {
        ContractReading::Unreadable(e) => {
            let mut m = owned("failed to read capability contract ");
            push_str(&mut m, files.contract_path.as_str());
            push_str(&mut m, ": ");
            push_str(&mut m, e.as_str());
            return Err(m);
        },
        ContractReading::Invalid(errors) => {
            return Err(render_contract_failure(files.contract_path.as_str(), &errors));
        },
        ContractReading::Valid(c) => c,
    };
    validate_manifest_against_contract(&manifest, &summary)?;
    let binary_digest = match binary {
        BinaryReading::Unreadable(e) => {
            let mut m = owned("failed to read agent binary ");
            push_str(&mut m, files.binary_path.as_str());
            push_str(&mut m, ": ");
            push_str(&mut m, e.as_str());
            return Err(m);
        },
        BinaryReading::Bytes(b) => check_binary_digest(files.binary_path.as_str(), manifest.binary.expected_digest.as_str(), b.as_slice())?,
    };
    Ok(LoadedAgentPackage {
        manifest_path: owned(manifest_path),
        manifest,
        contract: summary,
        source_path: files.source_path,
        binary_path: files.binary_path,
        binary_digest,
    })
}


/// A manifest fits its contract only when both name the same capability and
/// version, the contract runs as a wasm `run` WASI command, and both sides
/// keep the sandbox shut: the manifest declares `host_api_access` `none`,
/// `network_access` `forbidden` and `filesystem_access` `none`, and the
/// contract forbids the same.
pub proof fn lemma_fitting_manifest_keeps_sandbox(m: AgentPackageManifest, c: ContractSummary)
    ensures
        contract_mismatch_error(m, c) is None ==> {
            &&& c.id@ == m.capability_ref.id@
            &&& c.version@ == m.capability_ref.version@
            &&& c.wasm_execution && c.wasi_command_entrypoint && c.entrypoint_command@ == "run"@
            &&& m.constraints.host_api_access@ == "none"@ && c.host_api_none
            &&& m.constraints.network_access@ == "forbidden"@ && c.network_forbidden
            &&& m.constraints.filesystem_access@ == "none"@ && c.filesystem_none
        },
{
}

/// A package loads only with a valid contract that its manifest fits, so
/// only with the sandbox shut on both sides, and only when its binary's
/// digest is the expected one.
pub proof fn lemma_loaded_package_keeps_sandbox(
    manifest_path: Seq<char>,
    m: AgentPackageManifest,
    supported_abi: Seq<char>,
    files: PackageFiles,
    contract: ContractReading,
    binary: BinaryReading,
)
    ensures
        agent_package_error(manifest_path, m, supported_abi, files, contract, binary) is None ==> {
            &&& manifest_shape_error(m, manifest_path, supported_abi) is None
            &&& files.has_parent && files.contract_exists && files.source_exists && files.binary_exists
            &&& contract matches ContractReading::Valid(c) && contract_mismatch_error(m, c) is None
            &&& m.constraints.host_api_access@ == "none"@
            &&& m.constraints.network_access@ == "forbidden"@
            &&& m.constraints.filesystem_access@ == "none"@
            &&& binary matches BinaryReading::Bytes(b) && fnv1a64_text(b@) == m.binary.expected_digest@
        },
{
    if let ContractReading::Valid(c) = contract {
        lemma_fitting_manifest_keeps_sandbox(m, c);
    }
}

/// A manifest passes its own checks only when it declares the agent package
/// kind and schema, non-blank identities, paths and digest, the supported
/// host ABI, the wasm format and at least one workflow.
pub proof fn lemma_accepted_manifest_is_well_formed(m: AgentPackageManifest, path: Seq<char>, supported_abi: Seq<char>)
    ensures
        manifest_shape_error(m, path, supported_abi) is None ==> {
            &&& m.kind@ == "agent_package"@
            &&& m.schema_version@ == "1.0.0"@
            &&& !blank(m.package_id@) && !blank(m.version@)
            &&& !blank(m.capability_ref.id@) && !blank(m.capability_ref.version@)
            &&& !blank(m.capability_ref.contract_path@)
            &&& !blank(m.source.path@) && !blank(m.source.entry@)
            &&& !blank(m.binary.path@) && !blank(m.binary.expected_digest@)
            &&& m.binary.abi_version@ == supported_abi
            &&& m.binary.format@ == "wasm"@
            &&& m.workflow_refs@.len() > 0
        },
{
}

} // verus!
