//! Small parts that windows are made of.

pub mod history;
pub mod scrollbar;
pub mod text_input;
pub mod toast;
