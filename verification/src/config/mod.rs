pub mod data;
pub mod config;
pub mod ports;
pub mod connection;
pub mod muteable_connections;
pub mod switchable_connections;
pub mod laws;
