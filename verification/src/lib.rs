//! A verified filter for HTML-formatted chat-log documents.
//!
//! The library splits a document into a preamble, a sequence of message
//! fragments, and a fixed trailer, keeps the fragments that pass a
//! configurable pattern test, and reassembles the survivors byte for byte.

pub mod casefold;
pub mod filter;
pub mod laws;
pub mod paths;
pub mod config;
pub mod regexes;
pub mod text;

pub use config::{Config, FilterError, Role};
pub use filter::filter_chat_log;
pub use paths::get_path_for_output;

