//! The decisions behind a workspace window: text editing, diff review, tabbed terminals,
//! themes, settings, dialogs and remote access, each as plain data with a proved contract.

pub mod components;
pub mod dialogs;
pub mod dock;
pub mod remote;
pub mod review;
pub mod settings;
pub mod setup;
pub mod sidebar;
pub mod terminal;
pub mod text;
pub mod text_map;
pub mod text_order;
pub mod text_set;
pub mod theme;
