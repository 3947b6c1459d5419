//! The logic of a terminal coding agent: what the agent decides, renders and
//! records, apart from the network, the disk and the terminal.
pub mod agent;
pub mod api;
pub mod calendar;
pub mod chat;
pub mod cli;
pub mod commands;
pub mod config;
pub mod frontmatter;
pub mod headless;
pub mod hooks;
pub mod json;
pub mod laws;
pub mod matching;
pub mod mcp;
pub mod order;
pub mod permissions;
pub mod session;
pub mod table;
pub mod text;
pub mod tools;
pub mod tui;
pub mod util;

use vstd::prelude::*;

verus! {

/// The user-facing product name, used in the banner.
pub const APP_NAME: &'static str = "grok-cli";

pub const VERSION: &'static str = "0.1.0";

} // verus!
