use connector::connection::{Connection, IpAddr, Method, RequestParts, SendError, StatusCode};

type Conn = Connection<Vec<(String, String)>, Vec<u8>, u8>;

fn request() -> Conn {
    let parts = RequestParts {
        method: Method::Post,
        scheme: Some("http".to_string()),
        host: None,
        path: "/issues".to_string(),
        query: Some("a=1".to_string()),
        headers: vec![("accept".to_string(), "*/*".to_string())],
        body: b"payload".to_vec(),
    };
    Connection::from_parts(
        parts,
        IpAddr::V6([0; 16]),
        443,
        vec![("server".to_string(), "connector".to_string())],
    )
}

fn status(code: u16) -> StatusCode {
    StatusCode::from_u16(code).unwrap()
}

#[test]
fn status_codes_are_from_100_to_999() {
    assert!(StatusCode::from_u16(99).is_none());
    assert_eq!(StatusCode::from_u16(100).unwrap().as_u16(), 100);
    assert_eq!(StatusCode::from_u16(999).unwrap().as_u16(), 999);
    assert!(StatusCode::from_u16(1000).is_none());
}

#[test]
fn send_without_status_fails() {
    let c = request().with_responder(1);
    assert_eq!(c.send().err(), Some(SendError::StatusNotSet));
}

#[test]
fn send_without_status_fails_even_without_responder() {
    assert_eq!(request().send().err(), Some(SendError::StatusNotSet));
}

#[test]
fn send_without_responder_fails() {
    let c = request().put_status(status(200));
    assert_eq!(c.send().err(), Some(SendError::AlreadySent));
}

#[test]
fn send_delivers_status_headers_and_body() {
    let c = request().with_responder(7).put_status(status(201)).put_body(b"done".to_vec());
    let sent = c.send().unwrap();
    assert_eq!(sent.responder, 7);
    assert_eq!(sent.response.status.as_u16(), 201);
    assert_eq!(sent.response.body, b"done".to_vec());
    assert_eq!(sent.response.headers, vec![("server".to_string(), "connector".to_string())]);
    assert_eq!(sent.conn.resp_headers, vec![("server".to_string(), "connector".to_string())]);
    assert_eq!(sent.conn.req_headers, vec![("accept".to_string(), "*/*".to_string())]);
}

#[test]
fn send_without_body_sends_an_empty_body() {
    let sent = request().with_responder(1).put_status(status(204)).send().unwrap();
    assert!(sent.response.body.is_empty());
}

#[test]
fn second_send_fails() {
    let sent = request().with_responder(1).put_status(status(200)).send().unwrap();
    let again = sent.conn.put_status(status(500)).put_body(b"x".to_vec()).send();
    assert_eq!(again.err(), Some(SendError::AlreadySent));
}

#[test]
fn send_resp_puts_status_and_body() {
    let c = request().with_responder(3);
    let sent = c.send_resp(status(404), b"Page not found".to_vec()).unwrap();
    assert_eq!(sent.response.status.as_u16(), 404);
    assert_eq!(sent.response.body, b"Page not found".to_vec());
    assert_eq!(sent.responder, 3);
}

#[test]
fn put_header_changes_nothing() {
    let sent = request().put_header().with_responder(2).put_status(status(200)).send().unwrap();
    assert_eq!(sent.response.status.as_u16(), 200);
}

#[test]
fn send_error_messages() {
    assert_eq!(SendError::StatusNotSet.message(), "Status not set");
    assert_eq!(SendError::AlreadySent.message(), "Response has already been sent");
}

#[test]
fn connection_keeps_request_method_and_path() {
    let c = request();
    assert!(c.match_method(Method::Post));
    assert_eq!(c.match_path("/:x"), Some(vec!["issues".to_string()]));
}
