//! The decisions of the interactive terminal view.
pub mod app;
pub mod event;
pub mod view;
