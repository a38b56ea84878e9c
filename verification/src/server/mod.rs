pub mod proxy_server;
pub mod server;
