//! Seamless text replacement: the decisions of the `kbcut` daemon and its tools.
pub mod clipboard;
pub mod config;
pub mod daemon;
pub mod document;
pub mod inject;
pub mod input;
pub mod json;
pub mod keymap;
pub mod keys;
pub mod layout;
pub mod replacements;
pub mod setup;
pub mod text;
