//! The responses that the engine writes itself: error pages, JSON documents
//! and the cookie line. A stream is the bytes written to the connection so far.

use crate::text::{decimal_digits, push_decimal};
use vstd::prelude::*;
use vstd::string::{StrSliceExecFns, StringExecFns};
use vstd::utf8::encode_utf8;

verus! {

/// An error page: its status code, its title, which is also the reason
/// phrase, and its message.
pub struct ErrorPage {
    pub code: u16,
    pub title: &'static str,
    pub message: &'static str,
}

/// An error page as plain values.
pub struct PageModel {
    pub code: u16,
    pub title: Seq<char>,
    pub message: Seq<char>,
}

impl View for ErrorPage {
    type V = PageModel;

    open spec fn view(&self) -> PageModel {
        PageModel { code: self.code, title: self.title@, message: self.message@ }
    }
}

/// The bytes of the response that carries `page`, dated `date`.
pub open spec fn page_bytes(page: PageModel, date: Seq<char>) -> Seq<u8> {
    encode_utf8(error_response(page.code, page.title, page.message, date))
}

/// The HTML of an error page.
pub open spec fn error_page_body(title: Seq<char>, message: Seq<char>) -> Seq<char> {
    "<html><body><h1>"@ + title + "</h1><p>"@ + message + "</p></body></html>"@
}

/// The whole response that carries an error page: status line, the length of
/// the page in bytes, its type, the date, the notice that the connection
/// closes, an empty line, and the page.
pub open spec fn error_response(code: u16, title: Seq<char>, message: Seq<char>, date: Seq<char>)
    -> Seq<char> {
    let body = error_page_body(title, message);
    "HTTP/1.1 "@ + decimal_digits(code as nat) + " "@ + title + "\r\nContent-Length: "@
        + decimal_digits(encode_utf8(body).len()) + "\r\nContent-Type: text/html; charset=UTF-8\r\nDate: "@
        + date + "\r\nConnection: close\r\n\r\n"@ + body
}

/// The whole response that carries the JSON document `json`.
pub open spec fn json_response(json: Seq<char>, date: Seq<char>) -> Seq<char> {
    "HTTP/1.1 200 OK\r\nContent-Type: application/json\r\nContent-Length: "@ + decimal_digits(
        encode_utf8(json).len(),
    ) + "\r\nDate: "@ + date + "\r\nConnection: close\r\n\r\n"@ + json
}

/// The header line that sets `cookie`.
pub open spec fn cookie_line(cookie: Seq<char>) -> Seq<char> {
    "Set-Cookie: "@ + cookie + "\r\n"@
}

/// Calls `chrono::Utc::now` and `DateTime::to_rfc2822`: the current time in
/// the format of RFC 2822. Nothing is claimed of the text, which differs from
/// call to call. The system clock must stand between 1970 and the year 9999.
#[verifier::external_body]
pub fn http_date() -> String {
    chrono::Utc::now().to_rfc2822()
}

/// Appends the bytes of `text` to `stream`.
pub fn write_text(stream: &mut Vec<u8>, text: &str)
    ensures
        final(stream)@ == old(stream)@ + encode_utf8(text@),
{
    let mut bytes = text.as_bytes_vec();
    stream.append(&mut bytes);
}

/// Builds the response that carries an error page, dated `date`.
pub fn html_error_response(code: u16, title: &str, message: &str, date: &str) -> (response: String)
    ensures
        response@ == error_response(code, title@, message@, date@),
{
    let mut body = String::new();
    body.append("<html><body><h1>");
    body.append(title);
    body.append("</h1><p>");
    body.append(message);
    body.append("</p></body></html>");
    assert(body@ =~= error_page_body(title@, message@));
    let mut response = String::new();
    response.append("HTTP/1.1 ");
    push_decimal(&mut response, code as usize);
    response.append(" ");
    response.append(title);
    response.append("\r\nContent-Length: ");
    push_decimal(&mut response, body.as_str().as_bytes().len());
    response.append("\r\nContent-Type: text/html; charset=UTF-8\r\nDate: ");
    response.append(date);
    response.append("\r\nConnection: close\r\n\r\n");
    response.append(body.as_str());
    assert(response@ =~= error_response(code, title@, message@, date@));
    response
}

/// Writes an error page, dated now, to `stream`.
pub fn send_html_error(stream: &mut Vec<u8>, code: u16, title: &str, message: &str)
    ensures
        exists|date: Seq<char>|
            final(stream)@ == old(stream)@ + encode_utf8(
                #[trigger] error_response(code, title@, message@, date),
            ),
{
    let date = http_date();
    let response = html_error_response(code, title, message, date.as_str());
    write_text(stream, response.as_str());
}

/// Writes the page that says that no file was found, dated now, to `stream`.
pub fn send_404_page(stream: &mut Vec<u8>)
    ensures
        exists|date: Seq<char>|
            final(stream)@ == old(stream)@ + encode_utf8(
                #[trigger] error_response(404, "Not Found"@, "404 - File not found"@, date),
            ),
{
    send_html_error(stream, 404, "Not Found", "404 - File not found");
}

/// Builds the response that carries the JSON document `json`, dated `date`.
pub fn json_response_text(json: &str, date: &str) -> (response: String)
    ensures
        response@ == json_response(json@, date@),
{
    let mut response = String::new();
    response.append("HTTP/1.1 200 OK\r\nContent-Type: application/json\r\nContent-Length: ");
    push_decimal(&mut response, json.as_bytes().len());
    response.append("\r\nDate: ");
    response.append(date);
    response.append("\r\nConnection: close\r\n\r\n");
    response.append(json);
    assert(response@ =~= json_response(json@, date@));
    response
}

/// Writes the JSON document `json` as a response, dated now, to `stream`.
pub fn send_json(stream: &mut Vec<u8>, json: &str)
    ensures
        exists|date: Seq<char>|
            final(stream)@ == old(stream)@ + encode_utf8(#[trigger] json_response(json@, date)),
{
    let date = http_date();
    let response = json_response_text(json, date.as_str());
    write_text(stream, response.as_str());
}

/// Writes the header line that sets `cookie` to `stream`.
pub fn send_cookie(stream: &mut Vec<u8>, cookie: &str)
    ensures
        final(stream)@ == old(stream)@ + encode_utf8(cookie_line(cookie@)),
{
    let mut line = String::new();
    line.append("Set-Cookie: ");
    line.append(cookie);
    line.append("\r\n");
    assert(line@ =~= cookie_line(cookie@));
    write_text(stream, line.as_str());
}

/// Writes the error page `page`, dated now, to `stream`.
pub fn send_error_page(stream: &mut Vec<u8>, page: &ErrorPage)
    ensures
        exists|date: Seq<char>| final(stream)@ == old(stream)@ + #[trigger] page_bytes(page@, date),
{
    send_html_error(stream, page.code, page.title, page.message);
    proof {
        let date = choose|date: Seq<char>|
            final(stream)@ == old(stream)@ + encode_utf8(
                #[trigger] error_response(page.code, page.title@, page.message@, date),
            );
        assert(final(stream)@ == old(stream)@ + page_bytes(page@, date));
    }
}

} // verus!
