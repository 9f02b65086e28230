//! A small task list: item texts, each tagged done or not done, kept in the
//! order in which they were first added, together with the flat line format
//! in which the list is persisted and the decisions of its command line.

pub mod clear;
pub mod command;
pub mod format;
pub mod listing;
pub mod store;
pub mod text;
