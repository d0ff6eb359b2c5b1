use http_probe::common::Arguments;
use http_probe::common::ClientErrorType;
use http_probe::common::Parameters;
use http_probe::headers::Headers;
use http_probe::http::get_http_client;
use http_probe::http::HttpClient;
use http_probe::http::HttpRequest;
use http_probe::http::HttpResponse;

#[test]
fn test_get_request_string() {
    let client = HttpClient::new("localhost".to_string(), 8080, 1000);
    let mut headers = Headers::new();
    headers.insert("Accept".to_string(), "application/json".to_string());
    let request =
        HttpRequest::new("/test".to_string(), "GET".to_string(), headers, None);
    let text = client.get_request_string(&request);
    assert_eq!(text, "GET /test HTTP/1.1\nAccept: application/json\n\n");
}

#[test]
fn test_get_request_string_no_headers() {
    let client = HttpClient::new("localhost".to_string(), 8080, 1000);
    let request =
        HttpRequest::new("/".to_string(), "POST".to_string(), Headers::new(), None);
    assert_eq!(client.get_request_string(&request), "POST / HTTP/1.1\n\n\n");
}

#[test]
fn test_response_parsing() {
    let raw = "HTTP/1.1 200 OK\nContent-Type: text/plain\n\nHello".to_string();
    let response = HttpResponse::new(&raw).unwrap();
    assert_eq!(response.response_code, 200);
    assert_eq!(response.headers.len(), 1);
    assert_eq!(response.headers.get("Content-Type").unwrap(), " text/plain");
    assert_eq!(response.body.unwrap(), "Hello");
}

#[test]
fn test_response_parsing_non_numeric_code_defaults() {
    let raw = "HTTP/1.1 okay\n\n".to_string();
    let response = HttpResponse::new(&raw).unwrap();
    assert_eq!(response.response_code, 500);
}

#[test]
fn test_response_parsing_empty_fails() {
    let raw = String::new();
    let err = HttpResponse::new(&raw).unwrap_err();
    assert_eq!(err.error_type, ClientErrorType::NoResponse);
    assert_eq!(err.message, "No response");
}

#[test]
fn test_response_parsing_multiline_body() {
    let raw = "HTTP/1.1 200 OK\nA: 1\nB: 2\n\nfirst\nsecond\n".to_string();
    let response = HttpResponse::new(&raw).unwrap();
    assert_eq!(response.response_code, 200);
    assert_eq!(response.headers.len(), 2);
    assert_eq!(response.body.unwrap(), "firstsecond");
}

#[test]
fn test_response_parsing_crlf_lines() {
    let raw = "HTTP/1.1 204 No Content\r\nX: y\r\n\r\n".to_string();
    let response = HttpResponse::new(&raw).unwrap();
    assert_eq!(response.response_code, 204);
    assert_eq!(response.headers.get("X").unwrap(), " y");
    assert!(response.body.is_none());
}

#[test]
fn test_get_response_code() {
    assert_eq!(HttpResponse::get_response_code("HTTP/1.1 404 Not Found"), 404);
    assert_eq!(HttpResponse::get_response_code("HTTP/1.1"), 500);
    assert_eq!(HttpResponse::get_response_code("HTTP/1.1 99999 Big"), 500);
    assert_eq!(HttpResponse::get_response_code(""), 500);
}

#[test]
fn test_get_header() {
    let (name, value) = HttpResponse::get_header("Date: 10:30:00");
    assert_eq!(name, "Date");
    assert_eq!(value, " 10:30:00");
}

#[test]
fn test_append_body() {
    let body = HttpResponse::append_body(None, "a".to_string());
    let body = HttpResponse::append_body(body, "b".to_string());
    assert_eq!(body.unwrap(), "ab");
}

#[test]
fn test_get_http_client_schemes() {
    let ok = Parameters::new(&Arguments {
        url: "http://localhost:8080/".to_string(),
        connection_timeout: None,
        proxyhost: None,
        proxyport: None,
        method: None,
        body: None,
        headers: None,
    })
    .unwrap();
    assert!(get_http_client(&ok).is_ok());

    let tcp = Parameters::new(&Arguments {
        url: "tcp://localhost:9000".to_string(),
        connection_timeout: None,
        proxyhost: None,
        proxyport: None,
        method: None,
        body: None,
        headers: None,
    })
    .unwrap();
    let err = get_http_client(&tcp).unwrap_err();
    assert_eq!(err.error_type, ClientErrorType::UnsupportedScheme);
}
