pub mod auth;
pub mod command;
pub mod cpuinfo;
pub mod handlers;
pub mod ifaces;
pub mod memfmt;
pub mod netdev;
pub mod text;
