//! A filesystem-driven request execution engine.
//!
//! A request path is resolved segment by segment against a directory tree.
//! Every directory on the way may hold hook programs (gatekeepers, request
//! transformers, response transformers, loggers), and the walk ends at a
//! static file or at an executable program. The engine itself performs no
//! I/O: it is a state machine that asks its host to look at the filesystem
//! and to run programs, and decides everything else.

pub mod strmap;
pub mod config;
pub mod text;
pub mod message;
pub mod process;
pub mod hooks;
pub mod engine;
pub mod gemini;
pub mod http;
