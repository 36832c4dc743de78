//! Dialogs shown before connecting.
pub mod config_dialog;
