use rcgi::udp_class::udp_base::{Client, SockAddr};

#[test]
fn test() {}

fn addr(text: &str, ip: &str, port: u16) -> SockAddr {
    SockAddr { text: text.to_string(), ip: ip.to_string(), port }
}

#[test]
fn client_text_and_id() {
    let relay = Client { from: "pong".to_string(), addr: addr("10.0.0.2:7000", "10.0.0.2", 7000), name: "relay".to_string(), via: None };
    let c = Client { from: "pong".to_string(), addr: addr("10.0.0.1:3000", "10.0.0.1", 3000), name: "host".to_string(), via: Some(Box::new(relay)) };
    assert_eq!(c.to_parse(), "10.0.0.1:3000|host|10.0.0.2:7000|relay");
    assert_eq!(c.get_id(), "10.0.0.1<10.0.0.2");
    assert_eq!(c.addr_string(), "10.0.0.1:3000");
}
