//! The list of workspaces.

pub mod workspace_item;
