//! The graphical interface's pages and the state it shares with the
//! background worker.

pub mod app;
pub mod shared;
