//! The terminal front end: its state machine and its text layout.

pub mod app;
pub mod view;
