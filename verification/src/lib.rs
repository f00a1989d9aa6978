//! Core logic of an autonomous task-execution loop.
//!
//! The library owns everything that can be stated and proved: the task
//! queue and its id discipline, the permissive parsing of model output
//! into tasks, prompt construction, ordering of retrieved context by
//! similarity score, the retry policy of the completion client, and the
//! URL derivations for the retrieval store. Network transport, process
//! configuration and async plumbing live outside the library and hand
//! it plain values.

pub mod agents;
pub mod completion;
pub mod context;
pub mod prompts;
pub mod store;
pub mod task;
pub mod text;

pub use task::add_task;
pub use task::Task;
