//! The core of an HTTP front end to a peer-to-peer code collaboration network:
//! consensus over the tags that peers advertise, the process-wide web
//! configuration, the repository view and its visibility rule, search ranking,
//! and the decisions of the transport layer.
pub mod config;
pub mod listen;
pub mod logger;
pub mod order;
pub mod repo;
pub mod resolver;
pub mod search;
pub mod text;
pub mod transport;
