pub mod port_connection;
pub mod link;
pub mod connection;
pub mod link_run;
pub mod changeable_connection;
pub mod connection_switch;
pub mod server_model;
