//! Decision logic of a server dashboard's websocket endpoints.

pub mod archive;
pub mod config;
pub mod file;
pub mod file_session;
pub mod message;
pub mod pages;
pub mod reader;
pub mod terminal;
pub mod text;
pub mod token;
