use httpd_core::connection::Connection;
use httpd_core::dispatch::{
    failure_reply, handle_connection, handle_http_connection, method_not_allowed_page,
    options_response, route, session_cookie, settle_outcome, too_many_requests_page,
    wants_session_cookie, Dispatch, Route, MAX_BODY_SIZE,
};
use httpd_core::parser::{Arrival, RequestParser, Step};
use httpd_core::rate_limiter::{ClientAddr, RateLimiter};
use httpd_core::request::{ParseOutcome, ParsedRequest};

fn request(text: &str) -> ParsedRequest {
    match RequestParser::new(1024).feed(Arrival::Data(text.as_bytes().to_vec())) {
        Step::Done(ParseOutcome::Success(request)) => request,
        _ => panic!("the request should parse"),
    }
}

fn without_date(reply: &[u8]) -> String {
    let text = String::from_utf8(reply.to_vec()).unwrap();
    let start = text.find("\r\nDate: ").expect("a date line");
    let end = start + 2 + text[start + 2..].find("\r\n").unwrap();
    format!("{}{}", &text[..start], &text[end..])
}

const LIMITED: &str = "HTTP/1.1 429 Too Many Requests\r\nContent-Length: 99\r\nContent-Type: text/html; charset=UTF-8\r\nConnection: close\r\n\r\n<html><body><h1>Too Many Requests</h1><p>Too many requests. Please wait a moment.</p></body></html>";
const MALFORMED: &str = "HTTP/1.1 400 Bad Request\r\nContent-Length: 79\r\nContent-Type: text/html; charset=UTF-8\r\nConnection: close\r\n\r\n<html><body><h1>Bad Request</h1><p>Error parsing the request.</p></body></html>";
const INCOMPLETE: &str = "HTTP/1.1 400 Bad Request\r\nContent-Length: 68\r\nContent-Type: text/html; charset=UTF-8\r\nConnection: close\r\n\r\n<html><body><h1>Bad Request</h1><p>Incomplete body</p></body></html>";

#[test]
fn requests_find_their_routes() {
    for (head, expected) in [
        ("GET /api/status HTTP/1.1\r\n\r\n", Route::ApiStatus),
        ("get /api/status HTTP/1.1\r\n\r\n", Route::ApiStatus),
        ("GET /api/status/ HTTP/1.1\r\n\r\n", Route::Get),
        ("GET /API/STATUS HTTP/1.1\r\n\r\n", Route::Get),
        ("GET / HTTP/1.1\r\n\r\n", Route::Get),
        ("GeT /x HTTP/1.1\r\n\r\n", Route::Get),
        ("POST /upload HTTP/1.1\r\nContent-Type: multipart/form-data; boundary=b\r\n\r\n", Route::Upload),
        ("post /upload HTTP/1.1\r\ncontent-type: multipart/form-data\r\n\r\n", Route::Upload),
        ("POST /upload HTTP/1.1\r\nContent-Type: Multipart/form-data\r\n\r\n", Route::Post),
        ("POST /upload HTTP/1.1\r\nContent-Type: text/plain\r\n\r\n", Route::Post),
        ("POST /upload HTTP/1.1\r\n\r\n", Route::Post),
        ("POST /uploads HTTP/1.1\r\nContent-Type: multipart/form-data\r\n\r\n", Route::Post),
        ("POST /api/status HTTP/1.1\r\n\r\n", Route::Post),
        ("PUT /f HTTP/1.1\r\n\r\n", Route::Put),
        ("put /upload HTTP/1.1\r\nContent-Type: multipart/form-data\r\n\r\n", Route::Put),
        ("DELETE /f HTTP/1.1\r\n\r\n", Route::Delete),
        ("delete /f HTTP/1.1\r\n\r\n", Route::Delete),
        ("OPTIONS * HTTP/1.1\r\n\r\n", Route::Options),
        ("options / HTTP/1.1\r\n\r\n", Route::Options),
        ("PATCH /f HTTP/1.1\r\n\r\n", Route::MethodNotAllowed),
        ("HEAD / HTTP/1.1\r\n\r\n", Route::MethodNotAllowed),
        ("GETX / HTTP/1.1\r\n\r\n", Route::MethodNotAllowed),
        ("\r\n\r\n", Route::MethodNotAllowed),
    ] {
        assert_eq!(route(&request(head)), expected, "{:?}", head);
    }
}

#[test]
fn cookie_is_wanted_unless_the_request_carries_one() {
    assert!(wants_session_cookie(&request("GET / HTTP/1.1\r\nHost: h\r\n\r\n")));
    assert!(!wants_session_cookie(&request("GET / HTTP/1.1\r\nCookie: a=b\r\n\r\n")));
    assert!(!wants_session_cookie(&request("GET / HTTP/1.1\r\nCOOKIE:\r\n\r\n")));
    assert!(wants_session_cookie(&request("GET / HTTP/1.1\r\nCookies: a=b\r\n\r\n")));
    assert_eq!(session_cookie(), "session_id=abc123; HttpOnly; Path=/");
}

#[test]
fn pages_and_texts_of_the_dispatcher() {
    let page = too_many_requests_page();
    assert_eq!(
        (page.code, page.title, page.message),
        (429, "Too Many Requests", "Too many requests. Please wait a moment.")
    );
    let page = method_not_allowed_page();
    assert_eq!(
        (page.code, page.title, page.message),
        (405, "Method Not Allowed", "Only GET, POST, PUT, DELETE, OPTIONS are allowed.")
    );
    assert_eq!(
        options_response(),
        "HTTP/1.1 204 No Content\r\nAllow: GET, POST, PUT, DELETE, OPTIONS\r\nAccess-Control-Allow-Origin: *\r\nAccess-Control-Allow-Methods: GET, POST, PUT, DELETE, OPTIONS\r\nAccess-Control-Allow-Headers: Content-Type\r\n\r\n"
    );
    assert_eq!(MAX_BODY_SIZE, 10 * 1024 * 1024);
}

#[test]
fn only_a_failed_connection_is_answered_by_the_dispatcher() {
    let page = failure_reply(&ParseOutcome::Malformed).expect("a page");
    assert_eq!((page.code, page.title, page.message), (400, "Bad Request", "Error parsing the request."));
    assert!(failure_reply(&ParseOutcome::TooLarge).is_none());
    assert!(failure_reply(&ParseOutcome::IncompleteBody).is_none());
    assert!(failure_reply(&ParseOutcome::ConnectionClosed).is_none());
    assert!(failure_reply(&ParseOutcome::Success(request("GET / HTTP/1.1\r\n\r\n"))).is_none());
}

#[test]
fn outcomes_are_settled() {
    let mut stream = Vec::new();
    assert!(matches!(
        settle_outcome(&mut stream, ParseOutcome::Malformed),
        Dispatch::Failed(ParseOutcome::Malformed)
    ));
    assert_eq!(without_date(&stream), MALFORMED);
    for outcome in [ParseOutcome::TooLarge, ParseOutcome::IncompleteBody, ParseOutcome::ConnectionClosed] {
        let mut stream = Vec::new();
        assert!(matches!(settle_outcome(&mut stream, outcome), Dispatch::Failed(_)));
        assert!(stream.is_empty());
    }
    let mut stream = Vec::new();
    let outcome = ParseOutcome::Success(request("DELETE /x HTTP/1.1\r\nCookie: c\r\n\r\n"));
    match settle_outcome(&mut stream, outcome) {
        Dispatch::Accepted { request, route, set_cookie } => {
            assert_eq!(request.path, "/x");
            assert_eq!(route, Route::Delete);
            assert!(!set_cookie);
        }
        _ => panic!("the request is accepted"),
    }
    assert!(stream.is_empty());
}

#[test]
fn connection_with_a_request_is_accepted() {
    let mut stream = Connection::new(b"POST /form HTTP/1.1\r\nContent-Length: 3\r\n\r\na=b".to_vec());
    match handle_connection(&mut stream) {
        Dispatch::Accepted { request, route, set_cookie } => {
            assert_eq!(request.method, "POST");
            assert_eq!(request.body, b"a=b".to_vec());
            assert_eq!(route, Route::Post);
            assert!(set_cookie);
        }
        _ => panic!("the request is accepted"),
    }
    assert!(stream.written().is_empty());
}

#[test]
fn connection_without_a_request_is_answered_once() {
    let mut stream = Connection::new(b"POST /form HTTP/1.1\r\nContent-Length: 30\r\n\r\na=b".to_vec());
    assert!(matches!(handle_connection(&mut stream), Dispatch::Failed(ParseOutcome::IncompleteBody)));
    assert_eq!(without_date(stream.written()), INCOMPLETE);
    let mut closed = Connection::new(b"GET".to_vec());
    assert!(matches!(handle_connection(&mut closed), Dispatch::Failed(ParseOutcome::ConnectionClosed)));
    assert!(closed.written().is_empty());
}

#[test]
fn limited_client_is_turned_away_before_anything_is_read() {
    let client = ClientAddr::V4(0x7F00_0001);
    let mut limiter = RateLimiter::new_with_limits(3600, 1);
    let mut first = Connection::new(b"GET /a HTTP/1.1\r\n\r\n".to_vec());
    match handle_http_connection(&mut first, &mut limiter, client) {
        Dispatch::Accepted { request, route, set_cookie } => {
            assert_eq!(request.path, "/a");
            assert_eq!(route, Route::Get);
            assert!(set_cookie);
        }
        _ => panic!("the first request is admitted"),
    }
    assert_eq!(first.remaining(), 0);
    let mut second = Connection::new(b"GET /b HTTP/1.1\r\n\r\n".to_vec());
    assert!(matches!(handle_http_connection(&mut second, &mut limiter, client), Dispatch::Limited));
    assert_eq!(second.remaining(), 19);
    assert_eq!(without_date(second.written()), LIMITED);
    let mut other = Connection::new(b"GET /c HTTP/1.1\r\n\r\n".to_vec());
    assert!(matches!(
        handle_http_connection(&mut other, &mut limiter, ClientAddr::V4(0x7F00_0002)),
        Dispatch::Accepted { .. }
    ));
}
