pub mod info_server;
pub mod server_config;
