//! Verified core of the codeg desktop helpers: global-shortcut string
//! conversion, window-visibility decisions and process-environment planning.
pub mod error;
pub mod shortcut;
pub mod text;
pub mod shortcut_laws;
pub mod process;
pub mod order;
pub mod node_search;
pub mod version;
