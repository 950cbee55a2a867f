//! Agent teams: a lead session plus named teammates that share a mailbox and
//! a task list, the store that holds that state, the model-facing team tools,
//! and the pager-side panel and runtime that present and drive it.
pub mod text;
pub mod seqs;
pub mod types;
pub mod table;
pub mod store;
pub mod mailbox;
pub mod tasks;
pub mod laws;
pub mod panel;
pub mod numbers;
pub mod panel_laws;
pub mod runtime;
pub mod pager;
pub mod tools;
pub mod slash;
pub mod runtime_laws;
pub mod pass_laws;
pub mod in_flight;
pub mod answer_laws;
