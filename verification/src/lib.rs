//! Verified core of a small ticket tracker: the HTTP request handling and
//! ticket-store rules of the server, the request planning and output of the
//! command-line client, and the configuration checks of the acceptor.

pub mod text;
pub mod http;
pub mod ticket;
pub mod handler;
pub mod cli;
pub mod acceptor;
pub mod exchange;
