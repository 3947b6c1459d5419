//! What the library promises of its operations, stated of what goes in and what
//! comes out.
pub mod calls;
pub mod commands;
pub mod conversation;
pub mod edits;
pub mod figures;
pub mod files;
pub mod hooks;
pub mod markdown;
pub mod outcomes;
pub mod paths;
pub mod permissions;
pub mod reports;
pub mod requests;
pub mod screen;
pub mod search;
pub mod sessions;
pub mod settings;
pub mod text;
pub mod times;
pub mod tools;
pub mod typing;
