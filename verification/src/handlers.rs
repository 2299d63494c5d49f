//! The answers to a request that has its route. Work on files is done by the
//! caller, who hands over how it went; everything else is answered here.

use crate::content::{
    deleted_document, deleted_json, file_head, file_response_head, get_target,
    handle_post_request, page_response, posted_page, status_document, status_json, target_of,
    updated_document, updated_json, upload_document, upload_json,
};
use crate::json::{json_document, time_value};
use crate::media::guessed_mime;
use crate::dispatch::{method_not_allowed_page, options_response, session_cookie, Route};
use crate::request::{body_text_of, ParsedRequest, RequestModel};
use crate::response::{
    cookie_line, http_date, json_response, page_bytes, send_cookie, send_error_page, send_json,
    write_text, ErrorPage, PageModel,
};
use vstd::prelude::*;
use vstd::utf8::encode_utf8;

verus! {

/// How the reading of the file for a `GET` went.
pub enum Fetched {
    /// There is no such file below the served directory.
    Missing,
    /// The file is there and could not be read.
    Failed,
    /// The file `path` holds `contents`.
    Found { path: String, contents: Vec<u8> },
}

/// How the writing of the file for a `PUT` went.
pub enum Stored {
    /// The path names no file below the served directory.
    InvalidPath,
    /// The file could not be written.
    Failed,
    /// The file `path` was written.
    Done { path: String },
}

/// How the removal of the file for a `DELETE` went.
pub enum Removed {
    /// The path names nothing below the served directory.
    InvalidPath,
    /// The path names no file.
    Missing,
    /// The file could not be removed.
    Failed,
    /// The file `path` was removed.
    Done { path: String },
}

/// The work on files that a request asks for. The caller does it.
pub enum FileTask {
    /// The request asks for no work on files.
    Nothing,
    /// The file that `path` names is to be read.
    Fetch { path: String },
    /// `contents` is to be written to the file that `path` names.
    Store { path: String, contents: String },
    /// The file that `path` names is to be removed.
    Remove { path: String },
}

/// How the work on files for a request went.
pub enum FileWork {
    /// No work on files was done.
    Nothing,
    /// A file was looked for and read.
    Fetched(Fetched),
    /// A file was written.
    Stored(Stored),
    /// A file was removed.
    Removed(Removed),
}

/// True when `after` is `before` with the page `page` behind it, whatever its
/// date.
pub open spec fn page_sent(before: Seq<u8>, after: Seq<u8>, page: PageModel) -> bool {
    exists|date: Seq<char>| after == before + #[trigger] page_bytes(page, date)
}

/// True when `after` is `before` with the JSON document `json` behind it,
/// whatever its date.
pub open spec fn json_sent(before: Seq<u8>, after: Seq<u8>, json: Seq<char>) -> bool {
    exists|date: Seq<char>| after == before + encode_utf8(#[trigger] json_response(json, date))
}

/// Writes the page `page`, dated now, to `stream`.
fn send_page(stream: &mut Vec<u8>, code: u16, title: &'static str, message: &'static str)
    ensures
        page_sent(
            old(stream)@,
            final(stream)@,
            PageModel { code, title: title@, message: message@ },
        ),
{
    let page = ErrorPage { code, title, message };
    send_error_page(stream, &page);
    proof {
        let date = choose|date: Seq<char>|
            final(stream)@ == old(stream)@ + #[trigger] page_bytes(page@, date);
        assert(final(stream)@ == old(stream)@ + page_bytes(
            PageModel { code, title: title@, message: message@ },
            date,
        ));
    }
}

/// Writes the JSON document `json`, dated now, to `stream`.
fn send_document(stream: &mut Vec<u8>, json: &str)
    ensures
        json_sent(old(stream)@, final(stream)@, json@),
{
    send_json(stream, json);
}

/// The page that says that no file was found.
pub open spec fn not_found_page() -> PageModel {
    PageModel { code: 404, title: "Not Found"@, message: "404 - File not found"@ }
}

/// True when `after` is `before` with the answer to a `GET` behind it, once
/// the file was looked for: a file that was read is sent with its length, its
/// media type and the date; one that could not be read gets a page that says
/// so, and a missing one the page for that.
pub open spec fn get_answered(before: Seq<u8>, after: Seq<u8>, fetched: Fetched) -> bool {
    match fetched {
        Fetched::Found { path, contents } => exists|date: Seq<char>|
            after == before + encode_utf8(
                #[trigger] file_head(contents@.len(), guessed_mime(path@), date),
            ) + contents@,
        Fetched::Failed => page_sent(
            before,
            after,
            PageModel {
                code: 500,
                title: "Internal Server Error"@,
                message: "Error reading the file"@,
            },
        ),
        Fetched::Missing => page_sent(before, after, not_found_page()),
    }
}

/// True when `after` is `before` with the answer to a `PUT` behind it, once
/// the file was written, or was not.
pub open spec fn put_answered(before: Seq<u8>, after: Seq<u8>, stored: Stored) -> bool {
    match stored {
        Stored::Done { path } => json_sent(before, after, updated_document(path@)),
        Stored::Failed => page_sent(
            before,
            after,
            PageModel {
                code: 500,
                title: "Internal Server Error"@,
                message: "Could not write to file."@,
            },
        ),
        Stored::InvalidPath => page_sent(
            before,
            after,
            PageModel { code: 400, title: "Bad Request"@, message: "Invalid path."@ },
        ),
    }
}

/// True when `after` is `before` with the answer to a `DELETE` behind it,
/// once the file was removed, or was not.
pub open spec fn delete_answered(before: Seq<u8>, after: Seq<u8>, removed: Removed) -> bool {
    match removed {
        Removed::Done { path } => json_sent(before, after, deleted_document(path@)),
        Removed::Failed => page_sent(
            before,
            after,
            PageModel { code: 500, title: "Error"@, message: "File could not be deleted."@ },
        ),
        Removed::Missing => page_sent(
            before,
            after,
            PageModel { code: 404, title: "Not Found"@, message: "File does not exist."@ },
        ),
        Removed::InvalidPath => page_sent(
            before,
            after,
            PageModel { code: 400, title: "Bad Request"@, message: "Invalid path."@ },
        ),
    }
}

/// Answers a `GET` once the file was looked for.
pub fn handle_get_request(stream: &mut Vec<u8>, fetched: Fetched)
    ensures
        get_answered(old(stream)@, final(stream)@, fetched),
{
    match fetched {
        Fetched::Found { path, contents } => {
            let date = http_date();
            let head = file_response_head(contents.len(), path.as_str(), date.as_str());
            write_text(stream, head.as_str());
            let mut contents = contents;
            let ghost bytes = contents@;
            stream.append(&mut contents);
            assert(stream@ == old(stream)@ + encode_utf8(
                file_head(bytes.len(), guessed_mime(path@), date@),
            ) + bytes);
        },
        Fetched::Failed => {
            send_page(stream, 500, "Internal Server Error", "Error reading the file");
        },
        Fetched::Missing => {
            send_page(stream, 404, "Not Found", "404 - File not found");
        },
    }
}

/// Answers a `PUT` once the file was written, or was not.
pub fn handle_put_request(stream: &mut Vec<u8>, stored: Stored)
    ensures
        put_answered(old(stream)@, final(stream)@, stored),
{
    match stored {
        Stored::Done { path } => {
            let document = updated_json(path.as_str());
            send_document(stream, document.as_str());
        },
        Stored::Failed => {
            send_page(stream, 500, "Internal Server Error", "Could not write to file.");
        },
        Stored::InvalidPath => {
            send_page(stream, 400, "Bad Request", "Invalid path.");
        },
    }
}

/// Answers a `DELETE` once the file was removed, or was not.
pub fn handle_delete_request(stream: &mut Vec<u8>, removed: Removed)
    ensures
        delete_answered(old(stream)@, final(stream)@, removed),
{
    match removed {
        Removed::Done { path } => {
            let document = deleted_json(path.as_str());
            send_document(stream, document.as_str());
        },
        Removed::Failed => {
            send_page(stream, 500, "Error", "File could not be deleted.");
        },
        Removed::Missing => {
            send_page(stream, 404, "Not Found", "File does not exist.");
        },
        Removed::InvalidPath => {
            send_page(stream, 400, "Bad Request", "Invalid path.");
        },
    }
}

/// True when the route needs work on files, which the caller does.
pub open spec fn needs_files(route: Route) -> bool {
    route is Get || route is Put || route is Delete
}

/// True when `after` is `before` with the answer to `request` on `route`
/// behind it, for a route that takes no work on files: the state of the
/// server, the receipt of an upload, the page that shows posted data, the
/// list of methods, and the page for a method that is not served. For a route
/// that takes work on files nothing is written.
pub open spec fn plainly_answered(
    before: Seq<u8>,
    after: Seq<u8>,
    request: RequestModel,
    route: Route,
) -> bool {
    match route {
        Route::ApiStatus => exists|time: Seq<char>|
            json_sent(before, after, #[trigger] status_document(time)),
        Route::Upload => json_sent(before, after, upload_document()),
        Route::Post => exists|date: Seq<char>|
            after == before + encode_utf8(
                #[trigger] page_response(posted_page(body_text_of(request.body)), date),
            ),
        Route::Options => after == before + encode_utf8(
            "HTTP/1.1 204 No Content\r\nAllow: GET, POST, PUT, DELETE, OPTIONS\r\nAccess-Control-Allow-Origin: *\r\nAccess-Control-Allow-Methods: GET, POST, PUT, DELETE, OPTIONS\r\nAccess-Control-Allow-Headers: Content-Type\r\n\r\n"@,
        ),
        Route::MethodNotAllowed => page_sent(
            before,
            after,
            PageModel {
                code: 405,
                title: "Method Not Allowed"@,
                message: "Only GET, POST, PUT, DELETE, OPTIONS are allowed."@,
            },
        ),
        _ => after == before,
    }
}

/// Answers `request` on its route `route` where that takes no work on files.
/// Tells whether it answered; it writes nothing when it did not.
pub fn answer(stream: &mut Vec<u8>, request: &ParsedRequest, route: Route) -> (answered: bool)
    ensures
        answered == !needs_files(route),
        plainly_answered(old(stream)@, final(stream)@, request@, route),
{
    match route {
        Route::ApiStatus => {
            let time = time_value();
            let ghost shown = json_document(time);
            let document = status_json(time);
            send_document(stream, document.as_str());
            assert(json_sent(old(stream)@, stream@, status_document(shown)));
            true
        },
        Route::Upload => {
            let document = upload_json();
            send_document(stream, document.as_str());
            true
        },
        Route::Post => {
            let body = request.body_text();
            handle_post_request(stream, request.path.as_str(), body.as_str());
            true
        },
        Route::Options => {
            write_text(stream, options_response());
            true
        },
        Route::MethodNotAllowed => {
            let page = method_not_allowed_page();
            send_error_page(stream, &page);
            proof {
                let date = choose|date: Seq<char>|
                    stream@ == old(stream)@ + #[trigger] page_bytes(page@, date);
                assert(stream@ == old(stream)@ + page_bytes(
                    PageModel {
                        code: 405,
                        title: "Method Not Allowed"@,
                        message: "Only GET, POST, PUT, DELETE, OPTIONS are allowed."@,
                    },
                    date,
                ));
            }
            true
        },
        _ => false,
    }
}

/// The bytes `before` with the end of the answer behind them: the line that
/// sets the session cookie if `set_cookie` holds, and nothing otherwise.
pub open spec fn concluded(before: Seq<u8>, set_cookie: bool) -> Seq<u8> {
    if set_cookie {
        before + encode_utf8(cookie_line("session_id=abc123; HttpOnly; Path=/"@))
    } else {
        before
    }
}

/// Ends the answer: sets the session cookie if `set_cookie` holds.
pub fn conclude(stream: &mut Vec<u8>, set_cookie: bool)
    ensures
        final(stream)@ == concluded(old(stream)@, set_cookie),
{
    if set_cookie {
        send_cookie(stream, session_cookie());
    }
}

/// The work on files that `request` asks for on its route `route`: a `GET`
/// has its target read, a `PUT` has the text of its body written to its path,
/// a `DELETE` has its path removed, and no other route touches a file.
pub fn file_task(request: &ParsedRequest, route: Route) -> (task: FileTask)
    ensures
        match route {
            Route::Get => task matches FileTask::Fetch { path }
                && path@ == target_of(request@.path),
            Route::Put => task matches FileTask::Store { path, contents }
                && path@ == request@.path && contents@ == body_text_of(request@.body),
            Route::Delete => task matches FileTask::Remove { path } && path@ == request@.path,
            _ => task is Nothing,
        },
{
    match route {
        Route::Get => FileTask::Fetch { path: get_target(request.path.as_str()).to_string() },
        Route::Put => FileTask::Store {
            path: request.path.clone(),
            contents: request.body_text(),
        },
        Route::Delete => FileTask::Remove { path: request.path.clone() },
        _ => FileTask::Nothing,
    }
}

/// True when `work` is the outcome of the work on files that `route` takes:
/// a file read for a `GET`, written for a `PUT`, removed for a `DELETE`, and
/// none for any other route.
pub open spec fn fits(route: Route, work: FileWork) -> bool {
    match route {
        Route::Get => work is Fetched,
        Route::Put => work is Stored,
        Route::Delete => work is Removed,
        _ => work is Nothing,
    }
}

/// True when `after` is `before` with the answer to `request` on `route`
/// behind it, the work on files having gone as `work` says.
pub open spec fn work_answered(
    before: Seq<u8>,
    after: Seq<u8>,
    request: RequestModel,
    route: Route,
    work: FileWork,
) -> bool {
    match work {
        FileWork::Fetched(fetched) => get_answered(before, after, fetched),
        FileWork::Stored(stored) => put_answered(before, after, stored),
        FileWork::Removed(removed) => delete_answered(before, after, removed),
        FileWork::Nothing => plainly_answered(before, after, request, route),
    }
}

/// Writes the whole response to `request` on its route `route`, the work on
/// files having gone as `work` says: first the answer, then the line that
/// sets the session cookie if `set_cookie` holds. Tells whether `work` fits
/// the route; nothing is written when it does not.
pub fn respond(
    stream: &mut Vec<u8>,
    request: &ParsedRequest,
    route: Route,
    set_cookie: bool,
    work: FileWork,
) -> (done: bool)
    ensures
        done == fits(route, work),
        done ==> exists|answer: Seq<u8>|
            #[trigger] work_answered(old(stream)@, answer, request@, route, work)
                && final(stream)@ == concluded(answer, set_cookie),
        !done ==> final(stream)@ == old(stream)@,
{
    let done = match work {
        FileWork::Fetched(fetched) => match route {
            Route::Get => {
                handle_get_request(stream, fetched);
                true
            },
            _ => false,
        },
        FileWork::Stored(stored) => match route {
            Route::Put => {
                handle_put_request(stream, stored);
                true
            },
            _ => false,
        },
        FileWork::Removed(removed) => match route {
            Route::Delete => {
                handle_delete_request(stream, removed);
                true
            },
            _ => false,
        },
        FileWork::Nothing => answer(stream, request, route),
    };
    if done {
        let ghost answer = stream@;
        assert(work_answered(old(stream)@, answer, request@, route, work));
        conclude(stream, set_cookie);
    }
    done
}

} // verus!
