//! A chat-moderation core: a multi-pattern phrase index, the block-list /
//! allow-list resolver built on it, and the mutable rule set that feeds both.

pub mod app_data;
pub mod command;
pub mod handler;
pub mod listing;
pub mod persist;
pub mod resolver;
pub mod text;
pub mod trie;
