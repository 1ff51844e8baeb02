//! A small HTTP/1.1 connection server: request parsing, the per-connection
//! keep-alive decisions and the accept-loop decisions, all verified.
pub mod text;
pub mod fields;
pub mod parser;
pub mod reply;
pub mod server;
pub mod laws;

pub use parser::HttpRequest;
