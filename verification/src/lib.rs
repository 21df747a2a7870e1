//! Verified core of the Traverse command-line host: digests, text rendering,
//! request routing, credential decoding, application availability, authoring
//! telemetry aggregation, state-machine manifest checks, federation reports,
//! application commands and their event log, idempotent requests, workflow
//! cycles, registry refusals, the local browser adapter and the provisioning
//! QR code.

pub mod text;
pub mod digest;
pub mod routes;
pub mod auth;
pub mod availability;
pub mod telemetry;
pub mod state_machine;
pub mod http;
pub mod identity;
pub mod agent_package;
pub mod federation;
pub mod grants;
pub mod app_events;
pub mod idempotency;
pub mod workflow;
pub mod registry_failures;
pub mod browser_adapter;
pub mod qr;
pub mod execute;
pub mod registration;
pub mod reader;
pub mod conditions;
pub mod versions;
pub mod json_members;
