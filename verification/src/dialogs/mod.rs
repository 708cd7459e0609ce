//! Dialogs over the main window.

pub mod environment;
pub mod new_workspace;
pub mod ports;
