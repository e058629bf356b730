//! The terminal wizard.

pub mod app;
