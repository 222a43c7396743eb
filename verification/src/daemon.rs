//! The optional local daemon: the decisions behind each of its endpoints.
//! Whatever the endpoint needs to know is handed in, and what comes out is a
//! response, or the work to do before one.

pub mod compose_waiting;
pub mod containers;
pub mod exec;
pub mod images;
pub mod network_events;
pub mod networks;
pub mod nodes;
pub mod routes;
pub mod secrets;
pub mod server;
pub mod system;
pub mod volumes;
