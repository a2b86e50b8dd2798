pub mod text;
pub mod config;
pub mod connections;
pub mod program;
pub mod status;
