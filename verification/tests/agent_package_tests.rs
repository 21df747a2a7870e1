use traverse_cli::agent_package::{
    check_binary_digest, load_agent_package_from, missing_file_message, BinaryReading, ContractReading, PackageFiles, provenance_source_label, registration_labels,
    render_contract_failure, validate_manifest_against_contract, validate_manifest_shape,
    AgentBinaryReference, AgentCapabilityReference, AgentConstraintDeclaration,
    AgentModelDependency, AgentPackageManifest, AgentSourceReference, AgentWorkflowReference,
    ContractError, ContractSummary, LoadedAgentPackage, ProvenanceSource,
};
use traverse_cli::digest::fnv1a64;

const ABI: &str = "traverse-host-abi-test";
const BINARY_BYTES: &[u8] = b"agent-package-fixture-wasm-bytes";

fn manifest() -> AgentPackageManifest {
    AgentPackageManifest {
        kind: "agent_package".to_string(),
        schema_version: "1.0.0".to_string(),
        package_id: "test.agent-pkg".to_string(),
        version: "1.0.0".to_string(),
        summary: "Deterministic test agent package for coverage.".to_string(),
        capability_ref: AgentCapabilityReference {
            id: "test.agent-pkg.capability".to_string(),
            version: "1.0.0".to_string(),
            contract_path: "./contract.json".to_string(),
        },
        workflow_refs: vec![AgentWorkflowReference {
            workflow_id: "test.agent-pkg.workflow".to_string(),
            workflow_version: "1.0.0".to_string(),
        }],
        source: AgentSourceReference {
            path: "./src/agent.rs".to_string(),
            language: "rust".to_string(),
            entry: "run".to_string(),
        },
        binary: AgentBinaryReference {
            path: "./artifacts/agent.wasm".to_string(),
            format: "wasm".to_string(),
            expected_digest: fnv1a64(BINARY_BYTES),
            abi_version: ABI.to_string(),
        },
        constraints: AgentConstraintDeclaration {
            host_api_access: "none".to_string(),
            network_access: "forbidden".to_string(),
            filesystem_access: "none".to_string(),
        },
        model_dependencies: vec![AgentModelDependency {
            interface: "test-model-v1".to_string(),
            purpose: "Exercise agent package coverage paths.".to_string(),
        }],
    }
}

fn contract() -> ContractSummary {
    ContractSummary {
        id: "test.agent-pkg.capability".to_string(),
        version: "1.0.0".to_string(),
        wasm_execution: true,
        wasi_command_entrypoint: true,
        entrypoint_command: "run".to_string(),
        host_api_none: true,
        network_forbidden: true,
        filesystem_none: true,
    }
}

fn shape_rejection(mutate: impl FnOnce(&mut AgentPackageManifest)) -> String {
    let mut m = manifest();
    mutate(&mut m);
    validate_manifest_shape(&m, "/tmp/agent-package.json", ABI).expect_err("shape must be refused")
}

fn contract_rejection(mutate: impl FnOnce(&mut AgentPackageManifest, &mut ContractSummary)) -> String {
    let mut m = manifest();
    let mut c = contract();
    mutate(&mut m, &mut c);
    validate_manifest_against_contract(&m, &c).expect_err("contract must be refused")
}

fn loaded(workflows: bool) -> LoadedAgentPackage {
    let mut m = manifest();
    if !workflows {
        m.workflow_refs.clear();
    }
    LoadedAgentPackage {
        manifest_path: "/pkg/agent-package.json".to_string(),
        manifest: m,
        contract: contract(),
        source_path: "/pkg/src/agent.rs".to_string(),
        binary_path: "/pkg/artifacts/agent.wasm".to_string(),
        binary_digest: fnv1a64(BINARY_BYTES),
    }
}

#[test]
fn provenance_source_label_maps_all_variants() {
    assert_eq!(provenance_source_label(&ProvenanceSource::Greenfield), "greenfield");
    assert_eq!(provenance_source_label(&ProvenanceSource::BrownfieldExtracted), "brownfield-extracted");
    assert_eq!(provenance_source_label(&ProvenanceSource::AiGenerated), "ai-generated");
    assert_eq!(provenance_source_label(&ProvenanceSource::AiAssisted), "ai-assisted");
}

#[test]
fn render_contract_failure_joins_multiple_errors_with_path() {
    let errors = vec![
        ContractError { message: "first problem".to_string(), path: "$.a".to_string() },
        ContractError { message: "second problem".to_string(), path: "$.b".to_string() },
    ];
    let rendered = render_contract_failure("contract.json", &errors);
    assert!(rendered.contains("contract.json"));
    assert!(rendered.contains("first problem at $.a"));
    assert!(rendered.contains("second problem at $.b"));
    assert_eq!(rendered, "capability contract contract.json is invalid: first problem at $.a; second problem at $.b");
}

#[test]
fn render_summary_includes_workflow_refs_when_present() {
    let summary = loaded(true).render_summary();
    assert!(summary.contains("package_id: test.agent-pkg"));
    assert!(summary.contains("model_interfaces: test-model-v1"));
    assert!(summary.contains("workflow_refs: test.agent-pkg.workflow@1.0.0"));
}

#[test]
fn render_summary_omits_workflow_refs_section_when_empty() {
    let summary = loaded(false).render_summary();
    assert!(!summary.contains("workflow_refs"));
    assert_eq!(summary.lines().count(), 9);
    assert_eq!(summary.lines().next(), Some("path: /pkg/agent-package.json"));
}

#[test]
fn loads_valid_agent_package_successfully() {
    let m = manifest();
    assert!(validate_manifest_shape(&m, "/tmp/agent-package.json", ABI).is_ok());
    assert!(validate_manifest_against_contract(&m, &contract()).is_ok());
    assert_eq!(
        check_binary_digest("/pkg/artifacts/agent.wasm", &m.binary.expected_digest, BINARY_BYTES),
        Ok(fnv1a64(BINARY_BYTES))
    );
    let loaded_package = load_agent_package_from(
        "/pkg/agent-package.json",
        manifest(),
        ABI,
        files(true, true, true),
        ContractReading::Valid(contract()),
        BinaryReading::Bytes(BINARY_BYTES.to_vec()),
    )
    .expect("package loads");
    assert_eq!(loaded_package, loaded(true));
}

fn files(contract: bool, source: bool, binary: bool) -> PackageFiles {
    PackageFiles {
        has_parent: true,
        contract_path: "/pkg/./contract.json".to_string(),
        source_path: "/pkg/src/agent.rs".to_string(),
        binary_path: "/pkg/artifacts/agent.wasm".to_string(),
        contract_exists: contract,
        source_exists: source,
        binary_exists: binary,
    }
}

#[test]
fn package_load_reports_the_first_missing_file() {
    let load = |f: PackageFiles| {
        load_agent_package_from(
            "/pkg/agent-package.json",
            manifest(),
            ABI,
            f,
            ContractReading::Unreadable("not found".to_string()),
            BinaryReading::Unreadable("not found".to_string()),
        )
        .err()
        .expect("refused")
    };
    assert_eq!(load(files(false, false, false)), "missing capability contract file /pkg/./contract.json");
    assert_eq!(load(files(true, false, false)), "missing agent source file /pkg/src/agent.rs");
    assert_eq!(load(files(true, true, false)), "missing agent binary file /pkg/artifacts/agent.wasm");
    assert_eq!(load(files(true, true, true)), "failed to read capability contract /pkg/./contract.json: not found");
    let mut orphan = files(true, true, true);
    orphan.has_parent = false;
    assert_eq!(load(orphan), "agent package manifest /pkg/agent-package.json has no parent directory");
}

#[test]
fn package_load_checks_contract_then_binary() {
    let invalid = load_agent_package_from(
        "/pkg/agent-package.json",
        manifest(),
        ABI,
        files(true, true, true),
        ContractReading::Invalid(vec![ContractError { message: "missing id".to_string(), path: "$.id".to_string() }]),
        BinaryReading::Bytes(b"other".to_vec()),
    );
    assert_eq!(invalid.err().as_deref(), Some("capability contract /pkg/./contract.json is invalid: missing id at $.id"));
    let wrong_digest = load_agent_package_from(
        "/pkg/agent-package.json",
        manifest(),
        ABI,
        files(true, true, true),
        ContractReading::Valid(contract()),
        BinaryReading::Bytes(b"other".to_vec()),
    );
    assert!(wrong_digest.err().expect("refused").starts_with("agent binary digest mismatch for /pkg/artifacts/agent.wasm"));
}

#[test]
fn rejects_wrong_kind() {
    assert!(shape_rejection(|m| m.kind = "wrong_kind".to_string()).contains("must declare kind=agent_package"));
}

#[test]
fn rejects_wrong_schema_version() {
    assert!(shape_rejection(|m| m.schema_version = "9.9.9".to_string()).contains("must declare schema_version=1.0.0"));
}

#[test]
fn rejects_empty_package_id() {
    assert!(shape_rejection(|m| m.package_id = " ".to_string()).contains("package_id must be non-empty"));
}

#[test]
fn rejects_empty_version() {
    assert!(shape_rejection(|m| m.version = String::new()).contains("version must be non-empty"));
}

#[test]
fn rejects_empty_capability_ref_id() {
    assert!(shape_rejection(|m| m.capability_ref.id = String::new()).contains("capability_ref must declare non-empty id and version"));
}

#[test]
fn rejects_empty_capability_ref_version() {
    assert!(shape_rejection(|m| m.capability_ref.version = String::new()).contains("capability_ref must declare non-empty id and version"));
}

#[test]
fn rejects_empty_contract_path() {
    assert!(shape_rejection(|m| m.capability_ref.contract_path = String::new()).contains("capability_ref.contract_path must be non-empty"));
}

#[test]
fn rejects_empty_source_path() {
    assert!(shape_rejection(|m| m.source.path = String::new()).contains("source.path and source.entry must be non-empty"));
}

#[test]
fn rejects_empty_source_entry() {
    assert!(shape_rejection(|m| m.source.entry = String::new()).contains("source.path and source.entry must be non-empty"));
}

#[test]
fn rejects_empty_binary_path() {
    assert!(shape_rejection(|m| m.binary.path = String::new()).contains("binary.path and binary.expected_digest must be non-empty"));
}

#[test]
fn rejects_empty_binary_expected_digest() {
    assert!(shape_rejection(|m| m.binary.expected_digest = String::new()).contains("binary.path and binary.expected_digest must be non-empty"));
}

#[test]
fn rejects_wrong_abi_version() {
    assert!(shape_rejection(|m| m.binary.abi_version = "0.0.0".to_string()).contains("binary.abi_version must equal"));
}

#[test]
fn rejects_wrong_binary_format() {
    assert!(shape_rejection(|m| m.binary.format = "elf".to_string()).contains("binary.format must equal wasm"));
}

#[test]
fn rejects_empty_workflow_refs() {
    assert!(shape_rejection(|m| m.workflow_refs.clear()).contains("at least one approved workflow reference"));
}

#[test]
fn rejects_capability_ref_mismatch_with_contract() {
    let e = contract_rejection(|m, _| m.capability_ref.id = "other.capability".to_string());
    assert!(e.contains("does not match contract"));
    assert_eq!(e, "agent package capability_ref other.capability@1.0.0 does not match contract test.agent-pkg.capability@1.0.0");
}

#[test]
fn rejects_entrypoint_command_mismatch() {
    assert!(contract_rejection(|_, c| c.entrypoint_command = "start".to_string()).contains("wasi-command entrypoint named run"));
}

#[test]
fn rejects_host_api_access_mismatch_on_contract_side() {
    assert!(contract_rejection(|_, c| c.host_api_none = false).contains("host_api_access=none"));
}

#[test]
fn rejects_host_api_access_mismatch_on_manifest_side() {
    assert!(contract_rejection(|m, _| m.constraints.host_api_access = "full".to_string()).contains("host_api_access=none"));
}

#[test]
fn rejects_network_access_mismatch() {
    assert!(contract_rejection(|m, _| m.constraints.network_access = "allowed".to_string()).contains("network_access=forbidden"));
}

#[test]
fn rejects_filesystem_access_mismatch() {
    assert!(contract_rejection(|_, c| c.filesystem_none = false).contains("filesystem_access=none"));
}

#[test]
fn rejects_binary_digest_mismatch() {
    let err = check_binary_digest("/pkg/a.wasm", "fnv1a64:0000000000000000", BINARY_BYTES).expect_err("mismatch");
    assert!(err.contains("agent binary digest mismatch"));
    assert_eq!(err, format!("agent binary digest mismatch for /pkg/a.wasm: expected fnv1a64:0000000000000000, got {}", fnv1a64(BINARY_BYTES)));
}

#[test]
fn non_wasm_contract_execution_is_refused() {
    let e = contract_rejection(|_, c| c.wasm_execution = false);
    assert_eq!(e, "agent package capability test.agent-pkg.capability must declare wasm execution");
}

#[test]
fn missing_files_are_named() {
    assert_eq!(missing_file_message("agent binary", "/pkg/a.wasm"), "missing agent binary file /pkg/a.wasm");
}

#[test]
fn registration_labels_name_the_package() {
    let labels = registration_labels(&manifest());
    assert_eq!(labels.artifact_ref, "agent-package:test.agent-pkg:1.0.0");
    assert_eq!(labels.registered_at, "agent-package:test.agent-pkg@1.0.0");
    assert_eq!(labels.provided, vec!["test.agent-pkg.capability".to_string()]);
    assert_eq!(labels.required_workflows, vec!["test.agent-pkg.workflow".to_string()]);
}
