//! The engine of a terminal directory browser: path arithmetic, directory
//! listings, selection and navigation state, a single-slot clipboard, and the
//! planning of copy, move and delete operations. The engine never touches the
//! filesystem itself; its host reads directories and performs the operations
//! the engine asks for.

pub mod app;
pub mod bytes;
pub mod calendar;
pub mod cli;
pub mod dir;
pub mod entry;
pub mod error;
pub mod nav;
pub mod path;
pub mod selection;
pub mod status_bar;
pub mod tree_copy;
