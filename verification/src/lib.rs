//! A small to-do list: tasks grouped by context, priority or status, a
//! selection that moves through the listing, and an overlay that edits one
//! task at a time. Everything here is plain data and decisions; the terminal,
//! the files on disk and the serialised formats live with the caller.

pub mod task;
pub mod text;
pub mod store;
pub mod grouping;
pub mod state;
pub mod keys;
pub mod modal;
pub mod app;
pub mod laws;
