//! Transfers of files between a remote session and the machine that is connected to it.
pub mod archive;
pub mod chooser;
pub mod digest;
pub mod encoding;
pub mod error;
pub mod filename;
pub mod http;
pub mod json;
pub mod keybinding;
pub mod paths;
pub mod picker;
pub mod protocol;
pub mod receiver;
pub mod selection;
pub mod sender;
pub mod sending;
pub mod service;
pub mod settings;
pub mod text;
pub mod token;
pub mod upload;
