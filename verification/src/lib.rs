//! Global hotkeys: the data they are configured with, the registry of
//! bindings, and the decisions that the low-level keyboard hook takes on
//! every key message.

pub mod config;
pub mod kee;
pub mod kee_keys;
pub mod kee_manager;
pub mod kee_windows;
