//! An HTTP/2 file and application server, without its sockets.
//!
//! The crate holds what such a server decides: how the text of a route is
//! read and how a request finds its route (`request`), what a response holds
//! and how it goes over the wire (`response`), which response a file gets
//! (`mcache`, `handlers`), how a cache computes each response once and forgets
//! it when the file changes (`mcache`), and through which phases a connection
//! runs (`server`). Reading files, watching them, TLS, the protocol engine and
//! the threads belong to the program around the crate, which hands the crate
//! what it read and does what the crate decides.

pub mod cache;
pub mod error;
pub mod handlers;
pub mod mcache;
pub mod request;
pub mod response;
pub mod seamap;
pub mod server;
pub mod strmap;
pub mod text;

pub use error::ServerError;
pub use handlers::{Handler, StaticFile};
pub use request::{Action, Request};
pub use response::Response;
pub use server::Server;
