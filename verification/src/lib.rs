//! The logic of a command line client for the Inderes MCP server.
//!
//! A subcommand becomes a tool call ([`args`]), the call a request of the protocol ([`mcp`]),
//! and the answer a text ([`render`], [`forum`], [`query`], [`activity`], [`commands`]). Threads
//! of the forum are read page by page ([`walk`]) into a cache ([`cache`]). Signing in and the
//! life of tokens are in [`oauth`], [`auth`], [`storage`] and [`moment`].
//!
//! Texts are seen as sequences of characters and JSON values as [`json::JsonView`]; contracts
//! speak of those. Laws that relate several functions are the `law_` proof functions.

pub mod activity;
pub mod args;
pub mod auth;
pub mod cache;
pub mod commands;
pub mod double;
pub mod forum;
pub mod json;
pub mod mcp;
pub mod moment;
pub mod oauth;
pub mod query;
pub mod render;
pub mod skill;
pub mod storage;
pub mod table;
pub mod text;
pub mod upgrade;
pub mod walk;
