use http_probe::common::Arguments;
use http_probe::common::ClientError;
use http_probe::common::ClientErrorType;
use http_probe::common::DEFAULT_CONNECTION_TIMEOUT;
use http_probe::common::Parameters;
use http_probe::common::UrlParts;

fn arguments(url: &str) -> Arguments {
    Arguments {
        url: url.to_string(),
        connection_timeout: None,
        proxyhost: None,
        proxyport: None,
        method: None,
        body: None,
        headers: None,
    }
}

#[test]
fn test_get_use_path_no_proxy() {
    let url = Parameters::get_url_parts("http://localhost:8080").unwrap();
    let path = Parameters::get_use_path(&url, None);
    assert_eq!(path, "/");
}

#[test]
fn test_get_use_path_proxy() {
    let url = Parameters::get_url_parts("http://localhost:8080/test").unwrap();
    let proxyhost = Some("http://localhost:8888".to_string());
    let path = Parameters::get_use_path(&url, proxyhost);
    assert_eq!(path, "http://localhost:8080/test");
}

#[test]
fn test_get_use_path_default_port_and_host() {
    let parts = UrlParts {
        scheme: "https".to_string(),
        host: None,
        port: None,
        path: "/p".to_string(),
    };
    let path = Parameters::get_use_path(&parts, Some("proxy".to_string()));
    assert_eq!(path, "https://localhost:443/p");
}

#[test]
fn test_get_headers_none() {
    let headers = Parameters::get_headers(&None);
    assert_eq!(0, headers.len());
}

#[test]
fn test_get_headers_one_header() {
    let headers = Parameters::get_headers(&Some("accept: application/json".to_string()));
    assert_eq!(1, headers.len());
    assert_eq!(headers.get("accept").unwrap(), "application/json");
}

#[test]
fn test_get_headers_multiple_headers() {
    let headers =
        Parameters::get_headers(&Some("accept: application/json, content-type: text/xml".to_string()));
    assert_eq!(2, headers.len());
    assert_eq!(headers.get("accept").unwrap(), "application/json");
    assert_eq!(headers.get("content-type").unwrap(), "text/xml");
}

#[test]
fn test_get_headers_trims_tabs_and_keeps_order() {
    let headers = Parameters::get_headers(&Some("\tB :\t2 , A: 1".to_string()));
    assert_eq!(2, headers.len());
    assert_eq!(headers.get("B").unwrap(), "2");
    assert_eq!(headers.get("A").unwrap(), "1");
    assert_eq!(headers.entry_at(0).0, "B");
    assert_eq!(headers.entry_at(1).0, "A");
}

#[test]
fn test_get_headers_repeated_name_keeps_last_value() {
    let headers = Parameters::get_headers(&Some("a: 1, a: 2".to_string()));
    assert_eq!(1, headers.len());
    assert_eq!(headers.get("a").unwrap(), "2");
}

#[test]
fn test_get_connection_timeout_none() {
    let connection_timeout = Parameters::get_connection_timeout(&None);
    assert_eq!(DEFAULT_CONNECTION_TIMEOUT, connection_timeout);
}

#[test]
fn test_get_connection_timeout_with_value() {
    let connection_timeout = Parameters::get_connection_timeout(&Some(2000));
    assert_eq!(2000, connection_timeout);
}

#[test]
fn test_successful_url() {
    let url = "http://localhost:8080/test";
    let url_parts = Parameters::get_url_parts(url);
    assert!(url_parts.is_ok());
}

#[test]
fn test_arguments_to_parameters() {
    let arguments = Arguments {
        url: "http://localhost:8080/test".to_string(),
        connection_timeout: Some(2000),
        proxyhost: Some("localhost".to_string()),
        proxyport: Some(8888),
        method: Some("GET".to_string()),
        headers: Some("accept: application/json, content-type: text/xml".to_string()),
        body: Some("{}".to_string()),
    };
    let parameters = Parameters::new(&arguments);
    assert!(parameters.is_ok());
    assert_eq!(parameters.as_ref().unwrap().scheme.as_str(), "http");
    assert_eq!(parameters.as_ref().unwrap().connect_host, "localhost");
    assert_eq!(parameters.as_ref().unwrap().connect_port, 8888);
    assert_eq!(parameters.as_ref().unwrap().path, "http://localhost:8080/test");
    assert_eq!(parameters.as_ref().unwrap().connection_timeout, 2000);
    assert_eq!(parameters.as_ref().unwrap().method, "GET");
    assert_eq!(parameters.as_ref().unwrap().headers.len(), 2);
    assert!(parameters.as_ref().unwrap().body.is_some());
}

#[test]
fn test_create_client_error() {
    let client_error =
        ClientError::new(ClientErrorType::UnparseableUrl, "Url could not be parsed".to_string());
    assert_eq!(client_error.error_type, ClientErrorType::UnparseableUrl);
    assert!(client_error.message == "Url could not be parsed");
}

#[test]
fn test_parameters_without_proxy() {
    let parameters = Parameters::new(&arguments("http://localhost:8080/test")).unwrap();
    assert_eq!(parameters.path, "/test");
    assert_eq!(parameters.connect_host, "localhost");
    assert_eq!(parameters.connect_port, 8080);
    assert_eq!(parameters.method, "GET");
    assert_eq!(parameters.connection_timeout, 1000);
    assert!(parameters.body.is_none());
}

#[test]
fn test_parameters_default_ports() {
    let http = Parameters::new(&arguments("http://example.org/a")).unwrap();
    assert_eq!(http.connect_port, 80);
    let https = Parameters::new(&arguments("https://example.org/a")).unwrap();
    assert_eq!(https.connect_port, 443);
    assert!(http.connect_port > 0 && https.connect_port > 0);
}

#[test]
fn test_parameters_unparseable_url() {
    let err = Parameters::new(&arguments("not a url")).unwrap_err();
    assert_eq!(err.error_type, ClientErrorType::UnparseableUrl);
    assert_eq!(err.message, "Url could not be parsed");
}

#[test]
fn test_parameters_unsupported_scheme() {
    let err = Parameters::new(&arguments("ftp://example.org/file")).unwrap_err();
    assert_eq!(err.error_type, ClientErrorType::UnsupportedScheme);
}

#[test]
fn test_parameters_tcp_scheme_resolves() {
    let parameters = Parameters::new(&arguments("tcp://localhost:9000")).unwrap();
    assert_eq!(parameters.scheme.as_str(), "tcp");
    assert_eq!(parameters.connect_port, 9000);
}
