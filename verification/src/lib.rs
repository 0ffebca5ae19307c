//! Core of a workflow orchestration engine: compiles a workflow graph into an
//! ordered execution plan, resolves per-task templated configuration against
//! runtime context, decides the worker loop's scheduling steps, and dispatches
//! resolved payloads to executors.
pub mod types;
pub mod scheduler;
pub mod planner;
pub mod textjson;
pub mod bundler;
pub mod executor;
