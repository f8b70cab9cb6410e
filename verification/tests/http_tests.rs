use blink::http::{
    build_get_request, finish_response, parse_http_response, recv_step, HttpClient, HttpError,
    ReadOutcome, RecvStep,
};

#[test]
fn build_get_request_basic() {
    let req = build_get_request("api.binance.com", "/api/v3/ticker/price?symbol=BTCUSDT").unwrap();
    assert!(req.as_str().starts_with("GET /api/v3/ticker/price?symbol=BTCUSDT HTTP/1.1\r\n"));
    assert!(req.as_str().contains("Host: api.binance.com\r\n"));
    assert!(req.as_str().contains("Connection: close\r\n"));
    assert!(req.as_str().ends_with("\r\n\r\n"));
}

#[test]
fn build_get_request_rejects_newline_in_host() {
    let result = build_get_request("evil.com\r\nInjected: yes", "/path");
    assert!(result.is_err());
}

#[test]
fn build_get_request_rejects_newline_in_path() {
    let result = build_get_request("api.binance.com", "/path\r\nInjected: yes");
    assert!(result.is_err());
}

#[test]
fn build_get_request_exact_text() {
    let req = build_get_request("h", "/p").unwrap();
    assert_eq!(
        req.as_str(),
        "GET /p HTTP/1.1\r\nHost: h\r\nConnection: close\r\nUser-Agent: blink/0.1\r\n\r\n"
    );
}

#[test]
fn build_get_request_error_kinds() {
    assert_eq!(build_get_request("a\0b", "/").unwrap_err(), HttpError::InvalidUrl);
    assert_eq!(build_get_request("a", "/\n").unwrap_err(), HttpError::InvalidUrl);
    let long_path = "x".repeat(600);
    assert_eq!(build_get_request("a", &long_path).unwrap_err(), HttpError::SendFailed);
    // 4 + 444 + 17 + 1 + 46 = 512 bytes: fits exactly.
    let path = "y".repeat(444);
    let req = build_get_request("a", &path).unwrap();
    assert_eq!(req.len(), 512);
    let path = "y".repeat(445);
    assert_eq!(build_get_request("a", &path).unwrap_err(), HttpError::SendFailed);
}

#[test]
fn response_200_with_body() {
    let raw = b"HTTP/1.1 200 OK\r\nContent-Length: 12\r\n\r\nHello World!";
    let mut buf = [0u8; 128];
    let resp = parse_http_response(raw, &mut buf).unwrap();
    assert_eq!(resp.status_code, 200);
    assert!(buf[..resp.body_len].starts_with(b"Hello World!"));
}

#[test]
fn response_404_no_body() {
    let raw = b"HTTP/1.1 404 Not Found\r\n\r\n";
    let mut buf = [0u8; 128];
    let resp = parse_http_response(raw, &mut buf).unwrap();
    assert_eq!(resp.status_code, 404);
    assert_eq!(resp.body_len, 0);
}

#[test]
fn response_500_with_json() {
    let raw = b"HTTP/1.1 500 Internal Server Error\r\n\r\n{\"error\":\"boom\"}";
    let mut buf = [0u8; 128];
    let resp = parse_http_response(raw, &mut buf).unwrap();
    assert_eq!(resp.status_code, 500);
    assert!(buf[..resp.body_len].starts_with(b"{\"error\":\"boom\"}"));
}

#[test]
fn response_with_binance_json() {
    // Real Binance API response format
    let raw = b"HTTP/1.1 200 OK\r\nContent-Type: application/json\r\nContent-Length: 49\r\n\r\n{\"symbol\":\"BTCUSDT\",\"price\":\"63617.99000000\"}";
    let mut buf = [0u8; 256];
    let resp = parse_http_response(raw, &mut buf).unwrap();
    assert_eq!(resp.status_code, 200);
    let body = core::str::from_utf8(&buf[..resp.body_len]).unwrap();
    assert!(body.contains("\"price\":\"63617.99000000\""));
}

#[test]
fn response_truncates_body_to_buffer() {
    let raw = b"HTTP/1.1 200 OK\r\n\r\nABCDEFGHIJKLMNOPQRSTUVWXYZ";
    let mut buf = [0u8; 5];
    let resp = parse_http_response(raw, &mut buf).unwrap();
    assert_eq!(resp.status_code, 200);
    assert_eq!(resp.body_len, 5);
    assert_eq!(&buf, b"ABCDE");
}

#[test]
fn response_http_1_0_accepted() {
    let raw = b"HTTP/1.0 200 OK\r\n\r\nbody";
    let mut buf = [0u8; 64];
    let resp = parse_http_response(raw, &mut buf).unwrap();
    assert_eq!(resp.status_code, 200);
    assert_eq!(&buf[..resp.body_len], b"body");
}

#[test]
fn response_invalid_version_rejected() {
    let raw = b"HTTP/2.0 200 OK\r\n\r\nbody";
    let mut buf = [0u8; 64];
    assert!(parse_http_response(raw, &mut buf).is_err());
}

#[test]
fn response_empty_body() {
    let raw = b"HTTP/1.1 204 No Content\r\n\r\n";
    let mut buf = [0u8; 64];
    let resp = parse_http_response(raw, &mut buf).unwrap();
    assert_eq!(resp.status_code, 204);
    assert_eq!(resp.body_len, 0);
}

#[test]
fn response_status_code_edge_cases() {
    let mut buf = [7u8; 8];
    // A leading plus sign is accepted, as str::parse does.
    assert_eq!(parse_http_response(b"HTTP/1.1 +201 Created\r\n\r\n", &mut buf).unwrap().status_code, 201);
    // The code may end the line.
    assert_eq!(parse_http_response(b"HTTP/1.1 302", &mut buf).unwrap().status_code, 302);
    assert_eq!(parse_http_response(b"HTTP/1.1 65535 X\r\n\r\n", &mut buf).unwrap().status_code, 65535);
    assert_eq!(parse_http_response(b"HTTP/1.1 65536 X\r\n\r\n", &mut buf), Err(HttpError::ParseError));
    assert_eq!(parse_http_response(b"HTTP/1.1  200 X\r\n\r\n", &mut buf), Err(HttpError::ParseError));
    assert_eq!(parse_http_response(b"HTTP/1.1 2x0 X\r\n\r\n", &mut buf), Err(HttpError::ParseError));
    assert_eq!(parse_http_response(b"HTTP/1.1\r\n\r\n", &mut buf), Err(HttpError::ParseError));
    assert_eq!(parse_http_response(b"", &mut buf), Err(HttpError::ParseError));
    // Headers that are not UTF-8 are refused; the body may be anything.
    assert_eq!(parse_http_response(b"HTTP/1.1 200 \xff\r\n\r\n", &mut buf), Err(HttpError::ParseError));
    let resp = parse_http_response(b"HTTP/1.1 200 OK\r\n\r\n\xff\xfe", &mut buf).unwrap();
    assert_eq!(resp.body_len, 2);
    assert_eq!(buf, [0xff, 0xfe, 7, 7, 7, 7, 7, 7]);
}

#[test]
fn response_error_leaves_buffer() {
    let mut buf = [9u8; 4];
    assert!(parse_http_response(b"HTTP/3 200 OK\r\n\r\nabc", &mut buf).is_err());
    assert_eq!(buf, [9u8; 4]);
}

#[test]
fn recv_loop_steps() {
    assert_eq!(recv_step(0, 10, ReadOutcome::Data(4)), RecvStep::Continue(4));
    assert_eq!(recv_step(4, 10, ReadOutcome::Data(0)), RecvStep::Finished);
    assert_eq!(recv_step(4, 10, ReadOutcome::Failed), RecvStep::Finished);
    assert_eq!(recv_step(0, 10, ReadOutcome::Failed), RecvStep::Abort(HttpError::RecvFailed));
}

#[test]
fn finish_response_parses_received_prefix() {
    let raw = b"HTTP/1.1 200 OK\r\n\r\nhello, and more";
    let mut buf = [0u8; 16];
    assert_eq!(finish_response(raw, 0, &mut buf), Err(HttpError::RecvFailed));
    let resp = finish_response(raw, 24, &mut buf).unwrap();
    assert_eq!(resp.status_code, 200);
    assert_eq!(&buf[..resp.body_len], b"hello");
}

#[test]
fn host_client_cannot_connect() {
    let mut client = HttpClient::new();
    let mut buf = [1u8; 4];
    assert_eq!(client.get_https(&mut buf, "api.binance.com", "/"), Err(HttpError::ConnectionFailed));
    assert_eq!(buf, [1u8; 4]);
}
