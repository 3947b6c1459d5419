//! The chat-completions API: wire types, streaming and the client's decisions.
pub mod types;
pub mod sse;
pub mod stream;
pub mod client;
