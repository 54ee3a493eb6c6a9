use rcgi::env::Env;
use rcgi::tcp_class::http_func::{
    looks_like_http, lookup_step, script_candidate, Http, LookupStep, Probe,
};

fn get(env: &Env, key: &str) -> Option<String> {
    env.get(key).cloned()
}

#[test]
fn new_request_variables() {
    let http = Http::new("10.1.2.3", 8080);
    let env = http.env();
    assert_eq!(get(env, "req_body_method").as_deref(), Some("HTTP"));
    assert_eq!(get(env, "Req_Buffer_Size").as_deref(), Some("131072"));
    assert_eq!(get(env, "Req_Peer_Addr").as_deref(), Some("10.1.2.3:8080"));
    assert_eq!(get(env, "Req_Peer_Ip").as_deref(), Some("10.1.2.3"));
    assert_eq!(get(env, "Req_Peer_Port").as_deref(), Some("8080"));
    assert_eq!(http.path(), "/");
    assert_eq!(http.buffer_size(), 131072);
}

#[test]
fn request_line_pieces() {
    let mut http = Http::new("::1", 1);
    http.request_line("POST /cgi/run?x=1&y=two HTTP/1.1\r\n");
    assert_eq!(get(http.env(), "req_method").as_deref(), Some("POST"));
    assert_eq!(get(http.env(), "req_path").as_deref(), Some("/cgi/run?x=1&y=two"));
    assert_eq!(get(http.env(), "req_version").as_deref(), Some("HTTP/1.1"));
    assert_eq!(http.path(), "/cgi/run?x=1&y=two");
}

#[test]
fn request_line_with_extra_spaces_and_missing_parts() {
    let mut http = Http::new("1.1.1.1", 2);
    http.request_line("GET / a b\n");
    assert_eq!(get(http.env(), "req_version").as_deref(), Some("a b"));
    let mut http = Http::new("1.1.1.1", 2);
    http.request_line("\r\n");
    assert_eq!(get(http.env(), "req_method").as_deref(), Some(""));
    assert_eq!(get(http.env(), "req_path"), None);
    assert_eq!(http.path(), "/");
}

#[test]
fn header_lines_and_end_of_head() {
    let mut http = Http::new("1.1.1.1", 2);
    assert!(!http.header_line("Content-Length:   12\r\n"));
    assert!(!http.header_line("Host: a:b\r\n"));
    assert!(!http.header_line("no colon here\r\n"));
    assert!(!http.header_line("Req_Buffer_Size: 4096\r\n"));
    assert_eq!(get(http.env(), "Host").as_deref(), Some("a:b"));
    assert_eq!(get(http.env(), "Content-Length").as_deref(), Some("12"));
    assert!(http.header_line("\r\n"));
    assert_eq!(http.buffer_size(), 4096);
    assert!(!http.body_done());
    http.note_read(5);
    assert!(!http.body_done());
    http.note_read(7);
    assert!(http.body_done());
}

#[test]
fn bad_numbers_keep_defaults() {
    let mut http = Http::new("1.1.1.1", 2);
    assert!(!http.header_line("Req_Buffer_Size: lots\n"));
    assert!(!http.header_line("Content-Length: -3\n"));
    assert!(http.header_line(""));
    assert_eq!(http.buffer_size(), 131072);
    assert!(!http.body_done());
}

#[test]
fn query_parameters() {
    let mut http = Http::new("1.1.1.1", 2);
    http.request_line("GET /a/b?x=1&y=two&flag&z=a=b HTTP/1.1");
    let path = http.parse_query();
    assert_eq!(path, "/a/b");
    let env = http.env();
    assert_eq!(get(env, "req_path").as_deref(), Some("/a/b"));
    assert_eq!(get(env, "req_params").as_deref(), Some("x=1&y=two&flag&z=a=b"));
    assert_eq!(get(env, "req_param_x").as_deref(), Some("1"));
    assert_eq!(get(env, "req_param_y").as_deref(), Some("two"));
    assert_eq!(get(env, "req_param_flag"), None);
    assert_eq!(get(env, "req_param_z").as_deref(), Some("a=b"));
}

#[test]
fn script_arguments_and_upgrade() {
    let mut http = Http::new("1.1.1.1", 2);
    assert!(!http.header_line("Upgrade: WebSocket"));
    // The search collected the innermost component first.
    http.set_script("/srv/cgi/app", &vec!["c".to_string(), "b".to_string()]);
    let env = http.env();
    assert_eq!(get(env, "req_script_path").as_deref(), Some("/srv/cgi/app"));
    assert_eq!(get(env, "req_argv_1").as_deref(), Some("b"));
    assert_eq!(get(env, "req_argv_2").as_deref(), Some("c"));
    assert_eq!(get(env, "req_param_argv_2").as_deref(), Some("c"));
    assert_eq!(get(env, "req_argv_count").as_deref(), Some("2"));
    assert_eq!(get(env, "req_argv_params").as_deref(), Some("b/c"));
    assert_eq!(get(env, "req_body_method").as_deref(), Some("WEBSOCKET"));
}

#[test]
fn script_without_arguments() {
    let mut http = Http::new("1.1.1.1", 2);
    http.set_script("/srv/cgi/index", &vec![]);
    assert_eq!(get(http.env(), "req_argv_count").as_deref(), Some("0"));
    assert_eq!(get(http.env(), "req_argv_params").as_deref(), Some(""));
    assert_eq!(get(http.env(), "req_body_method").as_deref(), Some("HTTP"));
}

#[test]
fn http_detection() {
    let mut peek = [0u8; 16];
    peek[..4].copy_from_slice(b"GET ");
    assert!(looks_like_http(&peek, 4));
    assert!(!looks_like_http(&peek, 0));
    let mut peek = [0u8; 16];
    peek[..8].copy_from_slice(b"OPTIONS ");
    assert!(looks_like_http(&peek, 16));
    let mut peek = [0u8; 16];
    peek[..4].copy_from_slice(b"GETX");
    assert!(!looks_like_http(&peek, 16));
}

#[test]
fn script_lookup_steps() {
    assert_eq!(script_candidate("/srv/cgi", "/api/v1"), "/srv/cgi/api/v1");
    assert!(matches!(lookup_step("/srv/cgi/api", Probe::File), LookupStep::Found(p) if p == "/srv/cgi/api"));
    assert!(matches!(lookup_step("/srv/cgi/api", Probe::Dir), LookupStep::Found(p) if p == "/srv/cgi/api/index"));
    assert!(matches!(lookup_step("/srv/cgi/", Probe::Dir), LookupStep::Found(p) if p == "/srv/cgi/index"));
    match lookup_step("/srv/cgi/api/v1", Probe::Missing) {
        LookupStep::Up { parent, arg } => {
            assert_eq!(parent, "/srv/cgi/api");
            assert_eq!(arg, "v1");
        }
        _ => panic!("expected a step up"),
    }
    match lookup_step("a", Probe::Missing) {
        LookupStep::Up { parent, arg } => {
            assert_eq!(parent, "");
            assert_eq!(arg, "a");
        }
        _ => panic!("expected a step up"),
    }
    assert!(matches!(lookup_step("/", Probe::Missing), LookupStep::Stuck));
    assert!(matches!(lookup_step("/srv/..", Probe::Missing), LookupStep::Stuck));
}
