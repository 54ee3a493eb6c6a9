pub mod udp_base;
pub mod echo_func;
