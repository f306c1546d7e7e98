//! A small HTTP/1.1 server core.
//!
//! The crate holds the wire format of requests and responses, the rules of a
//! response that sends its status line and headers with the first body write,
//! and the rules by which a fixed set of workers shares one queue of jobs.
//! Sockets and threads are left to the program that uses the crate: every
//! function here works on values in memory and is verified against its
//! contract.

pub mod bytes;
pub mod error;
pub mod headers;
pub mod http;
pub mod number;
pub mod pool;
pub mod server;
pub mod text;
