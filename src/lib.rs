pub mod editor;
pub mod file_tree;
pub mod state;
pub mod style;
