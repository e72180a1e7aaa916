//! A runtime for declaratively defined workflows.
//!
//! A workflow is a graph of named states. The payloads that its states receive and hand on are
//! templates: JSON-shaped values whose strings may hold `${...}` expressions, which are
//! scanned, parsed and evaluated against the context of a run. The executor takes a run
//! through its states one step at a time, and says after each step what is to be done outside
//! and what is to be written to the history.

pub mod blueprint;
pub mod errors;
pub mod executor;
pub mod function_registry;
pub mod guarantees;
pub mod payload_template;
pub mod scanner;
pub mod state_machine;
pub mod template_func_parser;
pub mod template_functions_v1;
pub mod text;
pub mod value;
pub mod workflow_executions;
