use palagent_ai::server::{
    http_get_request, http_response, line_one, lookup_param, parse_query, read_host_reply,
    request_path, route_request, split_text, split_words, HostReply, HostRoute,
};

fn pairs(v: &[(&str, &str)]) -> Vec<(String, String)> {
    v.iter().map(|(a, b)| (a.to_string(), b.to_string())).collect()
}

#[test]
fn first_line_drops_carriage_return() {
    assert_eq!(line_one("GET / HTTP/1.1\r\nHost: x"), Some("GET / HTTP/1.1".to_string()));
    assert_eq!(line_one("one line"), Some("one line".to_string()));
    assert_eq!(line_one("\nrest"), Some(String::new()));
    assert_eq!(line_one(""), None);
}

#[test]
fn words_and_pieces() {
    assert_eq!(split_words("  GET   /x \t HTTP/1.1 "), vec!["GET", "/x", "HTTP/1.1"]);
    assert!(split_words("   ").is_empty());
    assert_eq!(split_text("a&b&&c", '&'), vec!["a", "b", "", "c"]);
    assert_eq!(split_text("", '&'), vec![""]);
}

#[test]
fn query_pairs_keep_only_key_value() {
    assert_eq!(
        parse_query("cmd=players&junk&a=b=c&passcode=1234"),
        pairs(&[("cmd", "players"), ("passcode", "1234")])
    );
}

#[test]
fn last_parameter_wins() {
    let p = pairs(&[("cmd", "a"), ("x", "1"), ("cmd", "b")]);
    assert_eq!(lookup_param(&p, "cmd"), Some("b".to_string()));
    assert_eq!(lookup_param(&p, "x"), Some("1".to_string()));
    assert_eq!(lookup_param(&p, "y"), None);
}

#[test]
fn host_runs_command_with_passcode() {
    let req = b"GET /api/command?cmd=players&passcode=s3cret&is_json=true&uid=ABC HTTP/1.1\r\nHost: h\r\n\r\n";
    assert_eq!(
        route_request(req, "s3cret"),
        HostRoute::Run {
            cmd: "players".to_string(),
            is_json: true,
            uid: Some("ABC".to_string())
        }
    );
}

#[test]
fn host_defaults_to_full_report() {
    let req = b"GET /api/command?passcode=pw HTTP/1.1\r\n\r\n";
    assert_eq!(
        route_request(req, "pw"),
        HostRoute::Run { cmd: "full".to_string(), is_json: false, uid: None }
    );
}

#[test]
fn host_refuses_wrong_or_missing_passcode() {
    let req = b"GET /api/command?cmd=full&passcode=wrong HTTP/1.1\r\n\r\n";
    assert_eq!(route_request(req, "right"), HostRoute::Forbidden);
    let req = b"GET /api/command?cmd=full HTTP/1.1\r\n\r\n";
    assert_eq!(route_request(req, "right"), HostRoute::Forbidden);
}

#[test]
fn host_other_answers() {
    assert_eq!(route_request(b"GET /other HTTP/1.1\r\n\r\n", "pw"), HostRoute::NotFound);
    assert_eq!(route_request(b"GARBAGE\r\n", "pw"), HostRoute::BadRequest);
    assert_eq!(route_request(b"", "pw"), HostRoute::Ignore);
}

#[test]
fn client_request_reaches_host() {
    let path = request_path("breeding", "pw", true, Some("U1"));
    assert_eq!(path, "/api/command?cmd=breeding&passcode=pw&is_json=true&uid=U1");
    let req = http_get_request(&path, "10.0.0.2:8080");
    assert_eq!(
        req,
        "GET /api/command?cmd=breeding&passcode=pw&is_json=true&uid=U1 HTTP/1.1\r\nHost: 10.0.0.2:8080\r\nConnection: close\r\n\r\n"
    );
    assert_eq!(
        route_request(req.as_bytes(), "pw"),
        HostRoute::Run { cmd: "breeding".to_string(), is_json: true, uid: Some("U1".to_string()) }
    );
    assert_eq!(request_path("full", "pw", false, None), "/api/command?cmd=full&passcode=pw");
}

#[test]
fn response_text_counts_body_bytes() {
    assert_eq!(
        http_response("200 OK", "text/plain; charset=utf-8", "héllo"),
        "HTTP/1.1 200 OK\r\nContent-Type: text/plain; charset=utf-8\r\nContent-Length: 6\r\nConnection: close\r\n\r\nhéllo"
    );
}

#[test]
fn client_reads_replies() {
    let ok = http_response("200 OK", "text/plain", "report");
    assert_eq!(read_host_reply(ok.as_bytes()), HostReply::Body("report".to_string()));
    let denied = http_response("403 Forbidden", "text/plain", "no");
    assert_eq!(read_host_reply(denied.as_bytes()), HostReply::Denied);
    let missing = http_response("404 Not Found", "text/plain", "");
    assert_eq!(
        read_host_reply(missing.as_bytes()),
        HostReply::Failed("HTTP/1.1 404 Not Found".to_string())
    );
    assert_eq!(read_host_reply(b"HTTP/1.1 200 OK\r\n"), HostReply::Invalid);
}
