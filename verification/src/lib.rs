//! The verified core of the Codex digital employee connector.
use vstd::prelude::*;

pub mod json;
pub mod text;
pub mod paths;
pub mod events;
pub mod event_store;
pub mod http;
pub mod server_requests;
pub mod thread_state;
pub mod json_compat;
pub mod codex_binary;
pub mod project_checkout;
pub mod project_preparation;
pub mod cli;
pub mod runtime;
pub mod baijimu_cli;

verus! {
}
