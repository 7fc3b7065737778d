use my_teams::cli::{client_request, parse_port, server_request, CliRequest};

fn args(list: &[&str]) -> Vec<String> {
    list.iter().map(|s| s.to_string()).collect()
}

fn run_of(r: CliRequest) -> Option<(String, u16)> {
    match r {
        CliRequest::Run { port_text, port, .. } => Some((port_text, port)),
        _ => None,
    }
}

#[test]
fn parse_port_arg_with_valid_port() {
    let result = run_of(server_request(&args(&["server", "8080"])));
    assert_eq!(result, Some(("8080".to_string(), 8080)));
}

#[test]
fn parse_port_arg_with_port_1() {
    let result = run_of(server_request(&args(&["server", "1"])));
    assert_eq!(result, Some(("1".to_string(), 1)));
}

#[test]
fn parse_port_arg_with_max_port() {
    let result = run_of(server_request(&args(&["server", "65535"])));
    assert_eq!(result, Some(("65535".to_string(), 65535)));
}

#[test]
fn parse_port_arg_with_help_flag() {
    let result = server_request(&args(&["server", "--help"]));
    assert!(matches!(result, CliRequest::Help));
    assert_eq!(run_of(result), None);
}

#[test]
fn server_rejects_bad_ports_and_arity() {
    assert!(matches!(server_request(&args(&["server"])), CliRequest::Usage));
    assert!(matches!(server_request(&args(&["server", "0"])), CliRequest::Usage));
    assert!(matches!(server_request(&args(&["server", "65536"])), CliRequest::Usage));
    assert!(matches!(server_request(&args(&["server", "80", "x"])), CliRequest::Usage));
}

#[test]
fn client_takes_host_and_port() {
    match client_request(&args(&["cli", "127.0.0.1", "4242"])) {
        CliRequest::Run { host, port_text, port } => {
            assert_eq!(host, "127.0.0.1");
            assert_eq!(port_text, "4242");
            assert_eq!(port, 4242);
        }
        _ => panic!("expected a run"),
    }
    assert!(matches!(client_request(&args(&["cli", "--help"])), CliRequest::Help));
    assert!(matches!(client_request(&args(&["cli", "", "4242"])), CliRequest::Usage));
    assert!(matches!(client_request(&args(&["cli", "host"])), CliRequest::Usage));
}

#[test]
fn port_texts() {
    assert_eq!(parse_port("8080"), Some(8080));
    assert_eq!(parse_port("+1"), Some(1));
    assert_eq!(parse_port("0"), None);
    assert_eq!(parse_port("-1"), None);
    assert_eq!(parse_port(""), None);
    assert_eq!(parse_port(" 1"), None);
}
