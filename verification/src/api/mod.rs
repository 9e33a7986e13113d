//! The Messages API: its values, the event stream of a reply, and the rules of
//! a request.

pub mod assembler;
pub mod client;
pub mod stream;
pub mod types;
