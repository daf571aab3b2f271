use cheshire_chess::text::{lines, parse_unsigned, trim, trim_end, words_of};
use cheshire_chess::tracker::{
    client_id_header, header_value, http_body, is_id_header, register_request, servers_request, parse_query_param, puzzle_request, request_line,
    respond_error, respond_json, route, Route,
};

#[test]
fn parse_unsigned_follows_str_parse() {
    assert_eq!(parse_unsigned("1200", 65535), Some(1200));
    assert_eq!(parse_unsigned("+7", 65535), Some(7));
    assert_eq!(parse_unsigned("0065535", 65535), Some(65535));
    assert_eq!(parse_unsigned("65536", 65535), None);
    assert_eq!(parse_unsigned("", 65535), None);
    assert_eq!(parse_unsigned("+", 65535), None);
    assert_eq!(parse_unsigned("-1", 65535), None);
    assert_eq!(parse_unsigned("12a", 65535), None);
    assert_eq!(parse_unsigned("18446744073709551615", u64::MAX), Some(u64::MAX));
    assert_eq!(parse_unsigned("18446744073709551616", u64::MAX), None);
    for n in [0u64, 9, 10, 99, 12345, 65535] {
        assert_eq!(parse_unsigned(&n.to_string(), 65535), Some(n));
    }
}

#[test]
fn trimming_and_words() {
    assert_eq!(trim("  a b \t"), "a b");
    assert_eq!(trim_end("x y \r\n"), "x y");
    assert_eq!(trim(""), "");
    assert_eq!(words_of("  e2e4   d7d5 "), vec!["e2e4".to_string(), "d7d5".to_string()]);
    assert!(words_of("   ").is_empty());
}

#[test]
fn lines_split_like_str_lines() {
    for text in ["", "a", "a\n", "a\r\nb", "a\n\nb\n", "\r\n", "x\r", "one\ntwo\r\nthree"] {
        let expected: Vec<String> = text.lines().map(String::from).collect();
        assert_eq!(lines(text), expected, "{text:?}");
    }
}

#[test]
fn query_params_are_found() {
    let q = "theme=fork&max_rating=2000&offset=0&limit=50";
    assert_eq!(parse_query_param(q, "theme"), Some("fork"));
    assert_eq!(parse_query_param(q, "limit"), Some("50"));
    assert_eq!(parse_query_param(q, "missing"), None);
    assert_eq!(parse_query_param("a&b=1=2", "b"), Some("1=2"));
    assert_eq!(parse_query_param("", "a"), None);
    assert_eq!(parse_query_param("a=&a=2", "a"), Some(""));
}

#[test]
fn responses_are_framed() {
    assert_eq!(
        respond_json("[]"),
        "HTTP/1.1 200 OK\r\nContent-Type: application/json\r\nAccess-Control-Allow-Origin: *\r\nContent-Length: 2\r\n\r\n[]"
    );
    assert_eq!(
        respond_error(404, "not found"),
        "HTTP/1.1 404 Error\r\nContent-Length: 9\r\n\r\nnot found"
    );
    // the length counts bytes, not characters
    assert!(respond_json("é").contains("Content-Length: 2\r\n"));
}

#[test]
fn requests_are_routed() {
    assert_eq!(route("GET /servers HTTP/1.1"), Route::Servers);
    assert_eq!(route("GET /puzzles?theme=pin HTTP/1.1"), Route::Puzzles);
    assert_eq!(route("GET /themes HTTP/1.1"), Route::Themes);
    assert_eq!(route("POST /register HTTP/1.1"), Route::Register);
    assert_eq!(route("DELETE /register HTTP/1.1"), Route::Unregister);
    assert_eq!(route("GET /version HTTP/1.1"), Route::Version);
    assert_eq!(route("GET / HTTP/1.1"), Route::NotFound);
}

#[test]
fn puzzle_requests_take_defaults_and_caps() {
    let r = puzzle_request("GET /puzzles?theme=pin&max_rating=1800&limit=500&offset=40 HTTP/1.1");
    assert_eq!(r.theme, "pin");
    assert_eq!(r.max_rating, 1800);
    assert_eq!(r.limit, 100);
    // the last parameter runs on to the end of the request line
    assert_eq!(r.offset, 0);
    let r2 = puzzle_request("GET /puzzles?offset=40&theme=pin HTTP/1.1");
    assert_eq!(r2.offset, 40);
    assert_eq!(r2.theme, "pin HTTP/1.1");
    let d = puzzle_request("GET /puzzles HTTP/1.1");
    assert_eq!(d.theme, "fork");
    assert_eq!(d.max_rating, 2500);
    assert_eq!(d.limit, 50);
    assert_eq!(d.offset, 0);
    let bad = puzzle_request("GET /puzzles?max_rating=high&limit=-3");
    assert_eq!(bad.max_rating, 2500);
    assert_eq!(bad.limit, 50);
}

#[test]
fn request_headers_are_read() {
    let req = "GET /puzzles?theme=fork HTTP/1.1\r\nHost: x\r\nX-Cheshire-Id: abc123 \r\nx-cheshire-id: later\r\n\r\n";
    assert_eq!(request_line(req), "GET /puzzles?theme=fork HTTP/1.1");
    assert_eq!(client_id_header(req), Some("abc123".to_string()));
    assert_eq!(client_id_header("GET / HTTP/1.1\r\nHost: x\r\n"), None);
    assert_eq!(client_id_header("x-cheshire-id"), None);
    assert_eq!(client_id_header("X-CHESHIRE-ID:a:b"), Some("a".to_string()));
    assert_eq!(request_line(""), "");
    assert_eq!(header_value("Host"), "");
    assert!(is_id_header("x-cheshire-id: 1"));
    assert!(!is_id_header("X-Cheshire-Id: 1"));
}

#[test]
fn http_bodies_and_requests() {
    assert_eq!(http_body("HTTP/1.1 200 OK\r\nA: b\r\n\r\n[1,2]"), Some("[1,2]".to_string()));
    assert_eq!(http_body("head\r\n\r\nbody\r\n\r\nmore"), Some("body".to_string()));
    assert_eq!(http_body("head\r\n\r\n"), Some(String::new()));
    assert_eq!(http_body("no blank line\r\n"), None);
    assert_eq!(servers_request("h"), "GET /servers HTTP/1.1\r\nHost: h\r\nConnection: close\r\n\r\n");
    assert_eq!(
        register_request("h", "{\"n\":\"é\"}"),
        "POST /register HTTP/1.1\r\nHost: h\r\nContent-Type: application/json\r\nContent-Length: 10\r\nConnection: close\r\n\r\n{\"n\":\"é\"}"
    );
}
