//! An application launcher's core: a hierarchical menu of shortcuts and the
//! incremental matcher that narrows it down as the user types.
pub mod launcher;
pub mod lemmas;
pub mod menu;
pub mod resolver;
pub mod text;

pub use launcher::{on_text_changed, shell_command, Reaction};
pub use menu::{borrow_nodes, targets, Config, Node};
pub use resolver::{resolve, Resolved};
pub use text::starts_with;
