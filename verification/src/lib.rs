//! A tree of named folders that hold tasks, with a selection cursor in each
//! folder, and the modal input that turns keys into changes of the tree.

pub mod buffer;
pub mod folder;
pub mod session;
pub mod store;
pub mod task;
pub mod text;
