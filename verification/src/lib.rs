//! Verified core logic of the distri agent runtime: the agent loop's
//! decisions, span bookkeeping, declared connections, sub-agent and tool
//! selection, skill re-injection, prompt-template validation, context
//! trimming, message interleaving, plan parsing, and the text helpers they
//! rest on.

pub mod skill_tracker;
pub mod text;
pub mod definition;
pub mod prompt_validation;
pub mod code_plan;
pub mod message;
pub mod formatter;
pub mod context_size;
pub mod trace;
pub mod planning;
pub mod agent_types;
pub mod agent_loop;
pub mod model_log;
pub mod connections;
pub mod tool_batch;
pub mod delegation;
pub mod plugins;
pub mod dash;
pub mod span_book;
pub mod pricing;
pub mod browser_sessions;
pub mod a2a_history;
pub mod usage;
pub mod history;
pub mod scratchpad;
pub mod context_ids;
pub mod native_history;
