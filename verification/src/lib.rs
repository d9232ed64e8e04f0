//! A line-oriented broadcast relay, kept free of sockets: the transport reports
//! what happened on a link, and the functions here decide what follows from it.

pub mod client;
pub mod pool;
pub mod server;
pub mod tcp;
