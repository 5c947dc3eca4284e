//! The decisions of a tunnel engine: which requests are accepted and where they lead, what is
//! said to clients, servers and proxies, how datagrams and streams are framed and shared, and
//! what is kept about users and connections. Sockets, files and tasks are left to the program
//! around it.

pub mod api;
pub mod config;
pub mod dispatcher;
pub mod frame;
pub mod ids;
pub mod inbound;
pub mod net;
pub mod outbound;
pub mod router;
pub mod search;
pub mod sessions;
pub mod state;
pub mod text;
pub mod transport;
pub mod wire;
