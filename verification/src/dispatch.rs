//! What is done with one connection: the client is admitted or turned away,
//! its request is read, a failure is answered, and a request that was read is
//! given its route.

use crate::connection::{parse_request, replied, run, send_parser_page, Connection};
use crate::parser::fresh;
use crate::rate_limiter::{after_call, limited, ClientAddr, RateLimiter};
use crate::request::{OutcomeModel, ParseOutcome, ParsedRequest, RequestModel};
use crate::response::{page_bytes, send_error_page, ErrorPage, PageModel};
use crate::text::{same_text, starts_with, to_uppercase, uppercase};
use vstd::prelude::*;

verus! {

/// The largest body that a request may have.
pub const MAX_BODY_SIZE: usize = 10485760;

/// Where a request goes.
#[derive(Clone, Copy, Debug, PartialEq, Eq, Structural)]
pub enum Route {
    /// `GET /api/status`: the state of the server as JSON.
    ApiStatus,
    /// `POST /upload` with a multipart form: an upload.
    Upload,
    /// Another `GET`: a file is sent.
    Get,
    /// Another `POST`: the data is shown.
    Post,
    /// `PUT`: a file is written.
    Put,
    /// `DELETE`: a file is removed.
    Delete,
    /// `OPTIONS`: the methods are listed.
    Options,
    /// No method that is served.
    MethodNotAllowed,
}

/// True when the request is an upload: it names a content type that begins
/// with `multipart/form-data`.
pub open spec fn is_multipart(headers: Map<Seq<char>, Seq<char>>) -> bool {
    headers.contains_key("content-type"@) && "multipart/form-data"@.is_prefix_of(
        headers["content-type"@],
    )
}

/// The route of a request. The method counts in upper case, the path as it
/// is written.
pub open spec fn route_of(request: RequestModel) -> Route {
    let method = uppercase(request.method);
    if method == "GET"@ && request.path == "/api/status"@ {
        Route::ApiStatus
    } else if method == "POST"@ && request.path == "/upload"@ && is_multipart(request.headers) {
        Route::Upload
    } else if method == "GET"@ {
        Route::Get
    } else if method == "POST"@ {
        Route::Post
    } else if method == "PUT"@ {
        Route::Put
    } else if method == "DELETE"@ {
        Route::Delete
    } else if method == "OPTIONS"@ {
        Route::Options
    } else {
        Route::MethodNotAllowed
    }
}

/// Finds the route of `request`.
pub fn route(request: &ParsedRequest) -> (found: Route)
    ensures
        found == route_of(request@),
{
    proof {
        reveal_strlit("GET");
        reveal_strlit("POST");
        reveal_strlit("PUT");
        reveal_strlit("DELETE");
        reveal_strlit("OPTIONS");
        assert("GET"@[0] != "PUT"@[0]);
    }
    let upper = to_uppercase(request.method.as_str());
    let method = upper.as_str();
    let path = request.path.as_str();
    if same_text(method, "GET") {
        if same_text(path, "/api/status") {
            Route::ApiStatus
        } else {
            Route::Get
        }
    } else if same_text(method, "POST") {
        let multipart = match request.headers.get("content-type") {
            Some(value) => starts_with(value.as_str(), "multipart/form-data"),
            None => false,
        };
        if multipart && same_text(path, "/upload") {
            Route::Upload
        } else {
            Route::Post
        }
    } else if same_text(method, "PUT") {
        Route::Put
    } else if same_text(method, "DELETE") {
        Route::Delete
    } else if same_text(method, "OPTIONS") {
        Route::Options
    } else {
        Route::MethodNotAllowed
    }
}

/// True when a session cookie is to be set: the request carries no cookie.
pub open spec fn wants_cookie(request: RequestModel) -> bool {
    !request.headers.contains_key("cookie"@)
}

/// Tells whether a session cookie is to be set for `request`.
pub fn wants_session_cookie(request: &ParsedRequest) -> (wanted: bool)
    ensures
        wanted == wants_cookie(request@),
{
    !request.has_header("cookie")
}

/// The cookie that opens a session.
pub fn session_cookie() -> (cookie: &'static str)
    ensures
        cookie@ == "session_id=abc123; HttpOnly; Path=/"@,
{
    "session_id=abc123; HttpOnly; Path=/"
}

/// The page for a client that is turned away by the rate limiter.
pub open spec fn limited_page() -> PageModel {
    PageModel {
        code: 429,
        title: "Too Many Requests"@,
        message: "Too many requests. Please wait a moment."@,
    }
}

/// The page for a client that is turned away by the rate limiter.
pub fn too_many_requests_page() -> (page: ErrorPage)
    ensures
        page@ == limited_page(),
{
    ErrorPage {
        code: 429,
        title: "Too Many Requests",
        message: "Too many requests. Please wait a moment.",
    }
}

/// The page for a method that is not served.
pub fn method_not_allowed_page() -> (page: ErrorPage)
    ensures
        page@ == (PageModel {
            code: 405,
            title: "Method Not Allowed"@,
            message: "Only GET, POST, PUT, DELETE, OPTIONS are allowed."@,
        }),
{
    ErrorPage {
        code: 405,
        title: "Method Not Allowed",
        message: "Only GET, POST, PUT, DELETE, OPTIONS are allowed.",
    }
}

/// The whole response to `OPTIONS`.
pub fn options_response() -> (response: &'static str)
    ensures
        response@
            == "HTTP/1.1 204 No Content\r\nAllow: GET, POST, PUT, DELETE, OPTIONS\r\nAccess-Control-Allow-Origin: *\r\nAccess-Control-Allow-Methods: GET, POST, PUT, DELETE, OPTIONS\r\nAccess-Control-Allow-Headers: Content-Type\r\n\r\n"@,
{
    "HTTP/1.1 204 No Content\r\nAllow: GET, POST, PUT, DELETE, OPTIONS\r\nAccess-Control-Allow-Origin: *\r\nAccess-Control-Allow-Methods: GET, POST, PUT, DELETE, OPTIONS\r\nAccess-Control-Allow-Headers: Content-Type\r\n\r\n"
}

/// The page with which the dispatcher answers a request that ended in
/// `outcome`: one where the connection failed while the request was read. A
/// request that is too large or whose body is not complete was answered by
/// the parser, and a closed connection gets no answer.
pub open spec fn failure_page(outcome: OutcomeModel) -> Option<PageModel> {
    match outcome {
        OutcomeModel::Malformed => Some(
            PageModel { code: 400, title: "Bad Request"@, message: "Error parsing the request."@ },
        ),
        _ => None,
    }
}

/// The page with which the dispatcher answers a request that ended in
/// `outcome`.
pub fn failure_reply(outcome: &ParseOutcome) -> (page: Option<ErrorPage>)
    ensures
        match page {
            Some(p) => failure_page(outcome@) == Some(p@),
            None => failure_page(outcome@) is None,
        },
{
    match outcome {
        ParseOutcome::Malformed => Some(
            ErrorPage { code: 400, title: "Bad Request", message: "Error parsing the request." },
        ),
        _ => None,
    }
}

/// What became of a connection.
pub enum Dispatch {
    /// The client was turned away by the rate limiter.
    Limited,
    /// No request could be read.
    Failed(ParseOutcome),
    /// A request was read: it goes to `route`, and after the answer a session
    /// cookie is set if `set_cookie` holds.
    Accepted { request: ParsedRequest, route: Route, set_cookie: bool },
}

/// What became of a connection, as plain values.
pub enum DispatchModel {
    Limited,
    Failed(OutcomeModel),
    Accepted { request: RequestModel, route: Route, set_cookie: bool },
}

impl View for Dispatch {
    type V = DispatchModel;

    open spec fn view(&self) -> DispatchModel {
        match self {
            Dispatch::Limited => DispatchModel::Limited,
            Dispatch::Failed(outcome) => DispatchModel::Failed(outcome@),
            Dispatch::Accepted { request, route, set_cookie } => DispatchModel::Accepted {
                request: request@,
                route: *route,
                set_cookie: *set_cookie,
            },
        }
    }
}

/// What becomes of a request that ended in `outcome`.
pub open spec fn dispatch_of(outcome: OutcomeModel) -> DispatchModel {
    match outcome {
        OutcomeModel::Success(request) => DispatchModel::Accepted {
            request,
            route: route_of(request),
            set_cookie: wants_cookie(request),
        },
        _ => DispatchModel::Failed(outcome),
    }
}

/// True when `after` is `before` with the answers to a request that ended in
/// `outcome` written behind it: the page of the parser or the page of the
/// dispatcher, where one is due.
pub open spec fn answered(before: Seq<u8>, after: Seq<u8>, outcome: OutcomeModel) -> bool {
    match failure_page(outcome) {
        Some(page) => exists|date: Seq<char>| after == before + #[trigger] page_bytes(page, date),
        None => replied(before, after, outcome),
    }
}

/// Gives a request that has been read its route, and answers one that could
/// not be read.
pub fn settle_outcome(stream: &mut Vec<u8>, outcome: ParseOutcome) -> (dispatch: Dispatch)
    ensures
        dispatch@ == dispatch_of(outcome@),
        match failure_page(outcome@) {
            Some(page) => exists|date: Seq<char>|
                final(stream)@ == old(stream)@ + #[trigger] page_bytes(page, date),
            None => final(stream)@ == old(stream)@,
        },
{
    match failure_reply(&outcome) {
        Some(page) => {
            send_error_page(stream, &page);
            proof {
                let date = choose|date: Seq<char>|
                    final(stream)@ == old(stream)@ + #[trigger] page_bytes(page@, date);
                assert(final(stream)@ == old(stream)@ + page_bytes(
                    failure_page(outcome@).unwrap(),
                    date,
                ));
            }
        },
        None => {},
    }
    match outcome {
        ParseOutcome::Success(request) => {
            let found = route(&request);
            let set_cookie = wants_session_cookie(&request);
            Dispatch::Accepted { request, route: found, set_cookie }
        },
        other => Dispatch::Failed(other),
    }
}

/// Settles a request whose reading has ended in `outcome`, for a caller who
/// did the reading: the page that the parser owes, or the page of the
/// dispatcher, is written where one is due, and a request that was read gets
/// its route.
pub fn receive(stream: &mut Vec<u8>, outcome: ParseOutcome) -> (dispatch: Dispatch)
    ensures
        dispatch@ == dispatch_of(outcome@),
        answered(old(stream)@, final(stream)@, outcome@),
{
    send_parser_page(stream, &outcome);
    settle_outcome(stream, outcome)
}

/// Reads one request from `stream` and settles it: a request that was read
/// gets its route, and one that could not be read is answered.
pub fn handle_connection(stream: &mut Connection) -> (dispatch: Dispatch)
    ensures
        dispatch@ == dispatch_of(run(fresh(MAX_BODY_SIZE as nat), old(stream).unread()).outcome),
        final(stream).unread() == old(stream).unread().skip(
            run(fresh(MAX_BODY_SIZE as nat), old(stream).unread()).consumed as int,
        ),
        answered(
            old(stream).sent(),
            final(stream).sent(),
            run(fresh(MAX_BODY_SIZE as nat), old(stream).unread()).outcome,
        ),
{
    let outcome = parse_request(stream, MAX_BODY_SIZE);
    let ghost model = outcome@;
    let mut reply: Vec<u8> = Vec::new();
    let dispatch = settle_outcome(&mut reply, outcome);
    let ghost before = stream.sent();
    stream.write_all(&reply);
    proof {
        assert(Seq::<u8>::empty() + reply@ =~= reply@);
        match failure_page(model) {
            Some(page) => {
                let date = choose|date: Seq<char>|
                    reply@ == Seq::<u8>::empty() + #[trigger] page_bytes(page, date);
                assert(stream.sent() == old(stream).sent() + page_bytes(page, date));
            },
            None => {
                assert(before + reply@ =~= before);
            },
        }
    }
    dispatch
}

/// True when the call of `client` that takes the limiter from `before` to
/// `after` was judged at some time `now` and was turned away or not as
/// `turned_away` says; no other client's record has changed, nor have the
/// limits.
pub open spec fn judged(
    before: RateLimiter,
    after: RateLimiter,
    client: ClientAddr,
    turned_away: bool,
) -> bool {
    &&& exists|now: u128|
        {
            &&& turned_away == #[trigger] limited(
                before.log(client),
                now,
                before.window(),
                before.max_requests(),
            )
            &&& after.log(client) == after_call(
                before.log(client),
                now,
                before.window(),
                before.max_requests(),
            )
        }
    &&& forall|other: ClientAddr| other != client ==> after.log(other) == before.log(other)
    &&& after.window() == before.window()
    &&& after.max_requests() == before.max_requests()
}

/// Asks the rate limiter whether `client` may be served now, and writes the
/// page that turns the client away to `stream` if it may not.
pub fn screen_client(stream: &mut Vec<u8>, rate_limiter: &mut RateLimiter, client: ClientAddr) -> (admitted:
    bool)
    ensures
        judged(*old(rate_limiter), *final(rate_limiter), client, !admitted),
        admitted ==> final(stream)@ == old(stream)@,
        !admitted ==> exists|date: Seq<char>|
            final(stream)@ == old(stream)@ + #[trigger] page_bytes(limited_page(), date),
{
    if rate_limiter.is_rate_limited(client) {
        let page = too_many_requests_page();
        send_error_page(stream, &page);
        proof {
            let date = choose|date: Seq<char>|
                final(stream)@ == old(stream)@ + #[trigger] page_bytes(page@, date);
            assert(final(stream)@ == old(stream)@ + page_bytes(limited_page(), date));
        }
        false
    } else {
        true
    }
}

/// Handles one connection of `client`: the client is turned away with a page
/// if the rate limiter says so, and nothing is read then; else one request is
/// read and settled.
pub fn handle_http_connection(
    stream: &mut Connection,
    rate_limiter: &mut RateLimiter,
    client: ClientAddr,
) -> (dispatch: Dispatch)
    ensures
        judged(*old(rate_limiter), *final(rate_limiter), client, dispatch is Limited),
        dispatch is Limited ==> final(stream).unread() == old(stream).unread() && exists|
            date: Seq<char>,
        |
            final(stream).sent() == old(stream).sent() + #[trigger] page_bytes(limited_page(), date),
        !(dispatch is Limited) ==> {
            &&& dispatch@ == dispatch_of(
                run(fresh(MAX_BODY_SIZE as nat), old(stream).unread()).outcome,
            )
            &&& final(stream).unread() == old(stream).unread().skip(
                run(fresh(MAX_BODY_SIZE as nat), old(stream).unread()).consumed as int,
            )
            &&& answered(
                old(stream).sent(),
                final(stream).sent(),
                run(fresh(MAX_BODY_SIZE as nat), old(stream).unread()).outcome,
            )
        },
{
    let mut reply: Vec<u8> = Vec::new();
    if screen_client(&mut reply, rate_limiter, client) {
        handle_connection(stream)
    } else {
        stream.write_all(&reply);
        proof {
            assert(Seq::<u8>::empty() + reply@ =~= reply@);
            let date = choose|date: Seq<char>|
                reply@ == Seq::<u8>::empty() + #[trigger] page_bytes(limited_page(), date);
            assert(stream.sent() == old(stream).sent() + page_bytes(limited_page(), date));
        }
        Dispatch::Limited
    }
}

} // verus!
