//! The logic of a small IRC-like chat: a server that keeps connected clients,
//! their nicknames and channels, parses slash commands and decides which
//! client receives which line of text; and the browser page's state update.

pub mod chat_server;
pub mod commands;
pub mod delivery;
pub mod handlers;
pub mod index_page;
pub mod laws;
pub mod structs;
pub mod text;
mod trusted;
