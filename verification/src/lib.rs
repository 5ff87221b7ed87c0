//! Manage locally hosted Minecraft servers: configuration, server identities,
//! terminal-multiplexer sessions and the server tree.
pub mod text;
pub mod paths;
pub mod error;
pub mod config;
pub mod collections;
pub mod session;
pub mod tree;
pub mod server;
pub mod server_id;
pub mod listing;
pub mod cli;
pub mod platforms;
pub mod render;
