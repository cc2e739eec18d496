use http_echo_server::server::{run, Server, ServerError};

#[test]
fn run_reports_missing_transport() {
    assert_eq!(run(), Err(ServerError::NoTransport));
}

#[test]
fn server_keeps_its_address() {
    let server = Server::new("127.0.0.1:8080".to_string());
    assert_eq!(server.address, "127.0.0.1:8080");
}
