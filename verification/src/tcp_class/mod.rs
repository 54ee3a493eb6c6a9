pub mod frame;
pub mod websocket_func;
pub mod http_websocket_func;
pub mod handshake;
pub mod http_func;
pub mod tcp_base;
pub mod tcp_file_func;
pub mod tcp_func;
