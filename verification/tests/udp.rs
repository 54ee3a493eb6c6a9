use rcgi::udp_class::echo_func::output_lines;
use rcgi::table::Table;
use rcgi::udp_class::echo_func::{
    client_list, echo_kind, echo_load, ping_message, pong_fields, pong_message, record_exchange,
    record_pong, EchoKind,
};
use rcgi::udp_class::udp_base::{
    datagram_kind, udp_script_env, Client, ClientDraft, DatagramKind, SockAddr,
};

fn addr(text: &str, ip: &str, port: u16) -> SockAddr {
    SockAddr { text: text.to_string(), ip: ip.to_string(), port }
}

fn client(from: &str, a: SockAddr, name: &str, via: Option<Client>) -> Client {
    Client { from: from.to_string(), addr: a, name: name.to_string(), via: via.map(Box::new) }
}

fn chain(d: &ClientDraft) -> Vec<(String, String, String)> {
    let mut out = vec![(d.from.clone(), d.addr.clone(), d.name.clone())];
    if let Some(v) = &d.via {
        out.extend(chain(v));
    }
    out
}

#[test]
fn from_str_reads_chain() {
    let d = Client::from_str("1.2.3.4:5|alpha|6.7.8.9:10|beta", "exchange").unwrap();
    assert_eq!(
        chain(&d),
        vec![
            ("exchange".to_string(), "1.2.3.4:5".to_string(), "alpha".to_string()),
            ("exchange".to_string(), "6.7.8.9:10".to_string(), "beta".to_string()),
        ]
    );
    assert!(Client::from_str("1.2.3.4:5", "x").is_none());
    assert!(Client::from_str("", "x").is_none());
    let d = Client::from_str("1.2.3.4:5|alpha|", "x").unwrap();
    assert!(d.via.is_none());
    let d = Client::from_str("1.2.3.4:5|alpha|junk", "x").unwrap();
    assert!(d.via.is_none());
}

#[test]
fn text_roundtrip() {
    let relay = client("pong", addr("[::1]:7000", "::1", 7000), "relay", None);
    let c = client("pong", addr("10.0.0.1:3000", "10.0.0.1", 3000), "host", Some(relay));
    let d = Client::from_str(&c.to_parse(), "exchange").unwrap();
    assert_eq!(
        chain(&d),
        vec![
            ("exchange".to_string(), "10.0.0.1:3000".to_string(), "host".to_string()),
            ("exchange".to_string(), "[::1]:7000".to_string(), "relay".to_string()),
        ]
    );
}

#[test]
fn json_text() {
    let relay = client("pong", addr("10.0.0.2:7", "10.0.0.2", 7), "r", None);
    let c = client("exchange", addr("10.0.0.1:3", "10.0.0.1", 3), "h", Some(relay));
    assert_eq!(
        c.to_json_string(),
        "{\"ip\":\"10.0.0.1\",\"port\":\"3\",\"hostname\":\"h\",\"from\":\"exchange\",\"via\":{\"ip\":\"10.0.0.2\",\"port\":\"7\",\"hostname\":\"r\",\"from\":\"pong\",\"string\":\"10.0.0.2:7|r\"},\"string\":\"10.0.0.1:3|h|10.0.0.2:7|r\"}"
    );
}

#[test]
fn echo_kinds() {
    assert_eq!(echo_kind(b"\x05\x02ponghere:x"), EchoKind::Pong);
    assert_eq!(echo_kind(b"\x05\x02exhehere:x"), EchoKind::Exchange);
    assert_eq!(echo_kind(b"\x05\x02pinghere:x"), EchoKind::Ping);
    assert_eq!(echo_kind(b"\x05\x02client_list"), EchoKind::ClientList);
    assert_eq!(echo_kind(b"\x05\x02pong"), EchoKind::Unknown);
    assert_eq!(echo_kind(b"\x05\x02"), EchoKind::Unknown);
    assert_eq!(echo_load(b"\x05\x02pinghere:box"), "box");
    assert_eq!(echo_load(b"\x05\x02pinghere:a\xffb"), "a\u{fffd}b");
}

#[test]
fn ping_and_pong_messages() {
    assert_eq!(ping_message("box"), "\x05\x02pinghere:box");
    assert_eq!(pong_message(&addr("1.2.3.4:5", "1.2.3.4", 5), "box"), "\x05\x02ponghere:1.2.3.4:5|box");
}

#[test]
fn pong_fields_cases() {
    let me = addr("1.2.3.4:5", "1.2.3.4", 5);
    assert_eq!(pong_fields(&me, "1.2.3.4:5|peer"), None);
    assert_eq!(pong_fields(&me, "9.9.9.9:1|peer|x"), Some(("9.9.9.9:1".to_string(), "peer".to_string())));
    assert_eq!(pong_fields(&me, "9.9.9.9:1"), Some(("9.9.9.9:1".to_string(), String::new())));
}

#[test]
fn recording_clients() {
    let mut table: Table<Client> = Table::new();
    record_exchange(&mut table, client("exchange", addr("7.7.7.7:7", "7.7.7.7", 7), "far", None));
    let via = client("pong", addr("9.9.9.9:1", "9.9.9.9", 1), "me", None);
    let msgs = record_pong(&mut table, &addr("1.2.3.4:5", "1.2.3.4", 5), "peer".to_string(), &via);
    assert_eq!(msgs, vec!["\x05\x02exhehere:1.2.3.4:5|peer|9.9.9.9:1|me".to_string()]);
    assert!(table.get("1.2.3.4").is_some());
    assert!(table.get("7.7.7.7").is_some());
    assert_eq!(
        client_list(&table),
        "[{\"key\":\"7.7.7.7\",\"value\":{\"ip\":\"7.7.7.7\",\"port\":\"7\",\"hostname\":\"far\",\"from\":\"exchange\",\"string\":\"7.7.7.7:7|far\"}},{\"key\":\"1.2.3.4\",\"value\":{\"ip\":\"1.2.3.4\",\"port\":\"5\",\"hostname\":\"peer\",\"from\":\"pong\",\"via\":{\"ip\":\"9.9.9.9\",\"port\":\"1\",\"hostname\":\"me\",\"from\":\"pong\",\"string\":\"9.9.9.9:1|me\"},\"string\":\"1.2.3.4:5|peer|9.9.9.9:1|me\"}}]"
    );
    let empty: Table<Client> = Table::new();
    assert_eq!(client_list(&empty), "[]");
}

#[test]
fn datagram_dispatch() {
    assert_eq!(datagram_kind(&[5, 1, 0]), DatagramKind::Tunnel);
    assert_eq!(datagram_kind(&[5, 2]), DatagramKind::Echo);
    assert_eq!(datagram_kind(&[5]), DatagramKind::Script);
    assert_eq!(datagram_kind(&[0; 16]), DatagramKind::Script);
}

#[test]
fn udp_script_variables() {
    let env = udp_script_env(&addr("[::1]:53", "::1", 53));
    assert_eq!(env.get("Req_Peer_Addr").map(|s| s.as_str()), Some("::1:53"));
    assert_eq!(env.get("Req_Peer_Port").map(|s| s.as_str()), Some("53"));
    assert_eq!(env.get("req_body_method").map(|s| s.as_str()), Some("UDP"));
    assert_eq!(env.get("req_script_path").map(|s| s.as_str()), Some("/udp_handle"));
}

#[test]
fn socket_addresses_checked() {
    let a = SockAddr::new("1.2.3.4:5".to_string(), "1.2.3.4".to_string(), 5).unwrap();
    assert_eq!((a.text.as_str(), a.ip.as_str(), a.port), ("1.2.3.4:5", "1.2.3.4", 5));
    assert!(SockAddr::new("[fe80::1%2]:80".to_string(), "fe80::1".to_string(), 80).is_some());
    assert!(SockAddr::new("1.2.3.4:5".to_string(), "1.2.3.4".to_string(), 6).is_none());
    assert!(SockAddr::new("1.2|3.4:5".to_string(), "1.2.3.4".to_string(), 5).is_none());
    assert!(SockAddr::new(":5".to_string(), "x".to_string(), 5).is_none());
}

#[test]
fn whole_client_reads_back() {
    let relay = Client {
        from: "exchange".to_string(),
        addr: SockAddr::new("10.0.0.2:7".to_string(), "10.0.0.2".to_string(), 7).unwrap(),
        name: "relay".to_string(),
        via: None,
    };
    let c = Client {
        from: "exchange".to_string(),
        addr: SockAddr::new("[::1]:9".to_string(), "::1".to_string(), 9).unwrap(),
        name: "box".to_string(),
        via: Some(Box::new(relay)),
    };
    let d = Client::from_str(&c.to_parse(), "exchange").unwrap();
    assert_eq!((d.from.as_str(), d.addr.as_str(), d.name.as_str()), ("exchange", "[::1]:9", "box"));
    let v = d.via.unwrap();
    assert_eq!((v.from.as_str(), v.addr.as_str(), v.name.as_str()), ("exchange", "10.0.0.2:7", "relay"));
    assert!(v.via.is_none());
}

#[test]
fn broadcast_output_lines() {
    assert_eq!(output_lines("  10.0.0.255\n192.168.1.255\n"), vec!["10.0.0.255", "192.168.1.255"]);
    assert_eq!(output_lines("\n"), vec![""]);
    assert_eq!(output_lines("a\n\nb"), vec!["a", "", "b"]);
}
