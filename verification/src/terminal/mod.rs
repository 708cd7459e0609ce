//! Tabbed terminals of workspaces.

pub mod boot;
pub mod lifecycle;
pub mod panel;
pub mod session;
pub mod view;
pub mod workspace;
