use http_probe::common::ClientErrorType;
use http_probe::connection::ConnectOutcome;
use http_probe::connection::ReadOutcome;
use http_probe::connection::TcpConnection;
use http_probe::connection::WriteOutcome;

#[test]
fn test_get_connect_str() {
    let tcp_connection = TcpConnection::new("localhost".to_string(), 8080, 5000);
    assert_eq!(tcp_connection.get_connect_str(), "localhost:8080");
}

#[test]
fn test_never_connected_write_and_read_fail() {
    let tcp_connection = TcpConnection::new("localhost".to_string(), 80, 5000);
    assert!(tcp_connection.is_not_connected());
    let write_err = tcp_connection.check_write().unwrap_err();
    assert_eq!(write_err.error_type, ClientErrorType::NoAvailableTcpStream);
    let read_err = tcp_connection.check_read().unwrap_err();
    assert_eq!(read_err.error_type, ClientErrorType::NoAvailableTcpStream);
}

#[test]
fn test_connect_outcomes() {
    let mut c = TcpConnection::new("localhost".to_string(), 80, 1);
    let err = c
        .apply_connect(ConnectOutcome::Refused("connection timed out".to_string()))
        .unwrap_err();
    assert_eq!(err.error_type, ClientErrorType::ConnectionFailure);
    assert!(c.is_not_connected());

    let err = c
        .apply_connect(ConnectOutcome::NoAddress("Could not get socket address".to_string()))
        .unwrap_err();
    assert_eq!(err.error_type, ClientErrorType::IncorrectSocketAddr);
    assert!(c.is_not_connected());

    assert!(c.apply_connect(ConnectOutcome::Opened).is_ok());
    assert!(!c.is_not_connected());
    assert!(c.check_write().is_ok());
    assert!(c.check_read().is_ok());
}

#[test]
fn test_write_and_read_outcomes() {
    let mut c = TcpConnection::new("localhost".to_string(), 80, 1);
    c.apply_connect(ConnectOutcome::Opened).unwrap();
    assert!(c.apply_write(WriteOutcome::Written).is_ok());
    let err = c.apply_write(WriteOutcome::WriteFailed).unwrap_err();
    assert_eq!(err.error_type, ClientErrorType::WriteError);

    let text = c.apply_read(ReadOutcome::Data(b"HTTP/1.1 200 OK".to_vec())).unwrap();
    assert_eq!(text, "HTTP/1.1 200 OK");
    let err = c.apply_read(ReadOutcome::ReadFailed).unwrap_err();
    assert_eq!(err.error_type, ClientErrorType::WriteError);
    let err = c.apply_read(ReadOutcome::Data(vec![0xff, 0xfe])).unwrap_err();
    assert_eq!(err.error_type, ClientErrorType::WriteError);
}

#[test]
fn test_disconnect_is_idempotent() {
    let mut c = TcpConnection::new("localhost".to_string(), 80, 1);
    c.apply_connect(ConnectOutcome::Opened).unwrap();
    assert!(!c.is_not_connected());
    c.disconnect();
    assert!(c.is_not_connected());
    c.disconnect();
    assert!(c.is_not_connected());
}
