use vstd::prelude::*;

pub mod text;
pub mod keyed;
pub mod metadata_tokens;
pub mod terminal_id;
pub mod layout;
pub mod handoff_runtime;
pub mod provider_agents;
pub mod agent_provider;
pub mod orchestration;
pub mod startup_script;
pub mod startup;
pub mod coverage;
