//! Verified core of the Codex OAuth LLM client and the agent builder.
use vstd::prelude::*;

pub mod agent_builder;
pub mod text;
pub mod json;
pub mod json_text;
pub mod responses;
pub mod extraction;
pub mod auth;
pub mod client;

verus! {

} // verus!
