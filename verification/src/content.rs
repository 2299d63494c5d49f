//! What the handlers send: the page that shows posted data, the head of a
//! file response, and the JSON documents.

use crate::json::{
    json_document, json_object, json_parsed, json_pretty, json_quoted, new_object, no_fields,
    object_value, parse_json, set_field, string_value, write_json, write_pretty,
};
use crate::media::{guess_mime, guessed_mime};
use crate::response::{http_date, write_text};
use crate::text::{
    chars_of, decimal_digits, find_char, find_in, push_decimal, same_text, skip_white,
    skip_white_in, string_of,
};
use vstd::prelude::*;
use vstd::string::StringExecFns;
use vstd::utf8::encode_utf8;

verus! {

/// What stands for `c` in HTML text: an entity for `&`, `<` and `>`, and the
/// character itself otherwise.
pub open spec fn escaped_char(c: char) -> Seq<char> {
    if c == '&' {
        "&amp;"@
    } else if c == '<' {
        "&lt;"@
    } else if c == '>' {
        "&gt;"@
    } else {
        seq![c]
    }
}

/// The text `s` as HTML text, character by character.
pub open spec fn escaped(s: Seq<char>) -> Seq<char>
    decreases s.len(),
{
    if s.len() == 0 {
        Seq::empty()
    } else {
        escaped(s.drop_last()) + escaped_char(s.last())
    }
}

/// How a text fares as JSON.
pub enum JsonRendering {
    /// The text is JSON; this is the document, indented.
    Pretty(String),
    /// The text is JSON that cannot be written out again.
    Unprintable,
    /// The text is no JSON.
    Invalid,
}

/// How a text fares as JSON, as plain values.
pub enum JsonModel {
    Pretty(Seq<char>),
    Unprintable,
    Invalid,
}

impl View for JsonRendering {
    type V = JsonModel;

    open spec fn view(&self) -> JsonModel {
        match self {
            JsonRendering::Pretty(text) => JsonModel::Pretty(text@),
            JsonRendering::Unprintable => JsonModel::Unprintable,
            JsonRendering::Invalid => JsonModel::Invalid,
        }
    }
}

/// How `text` fares as JSON: it is read, and what was read is written out
/// indented.
pub open spec fn json_rendering(text: Seq<char>) -> JsonModel {
    match json_parsed(text) {
        Some(document) => match json_pretty(document) {
            Some(pretty) => JsonModel::Pretty(pretty),
            None => JsonModel::Unprintable,
        },
        None => JsonModel::Invalid,
    }
}

/// Calls `html_escape::encode_text`, which puts `&amp;`, `&lt;` and `&gt;`
/// in place of `&`, `<` and `>` and leaves every other character as it is.
#[verifier::external_body]
pub(crate) fn encode_text(text: &str) -> (encoded: String)
    ensures
        encoded@ == escaped(text@),
{
    html_escape::encode_text(text).into_owned()
}

/// Reads `text` as JSON and writes what was read out indented.
pub fn render_json(text: &str) -> (rendering: JsonRendering)
    ensures
        rendering@ == json_rendering(text@),
{
    match parse_json(text) {
        Some(value) => match write_pretty(&value) {
            Some(pretty) => JsonRendering::Pretty(pretty),
            None => JsonRendering::Unprintable,
        },
        None => JsonRendering::Invalid,
    }
}

/// The line of the form field in `[lo, hi)`: name and value around the first
/// `=`, both as HTML text; nothing for a field without `=`.
pub open spec fn field_line(s: Seq<char>, lo: int, hi: int) -> Seq<char> {
    let eq = find_char(s, '=', lo, hi);
    if eq < hi {
        escaped(s.subrange(lo, eq)) + ": "@ + escaped(s.subrange(eq + 1, hi)) + "\n"@
    } else {
        Seq::empty()
    }
}

/// The lines of the form fields from `lo` on; the fields are parted by `&`.
pub open spec fn field_lines(s: Seq<char>, lo: int) -> Seq<char>
    decreases s.len() - lo,
{
    let amp = find_char(s, '&', lo, s.len() as int);
    if lo <= amp < s.len() {
        field_line(s, lo, amp) + field_lines(s, amp + 1)
    } else {
        field_line(s, lo, s.len() as int)
    }
}

/// True when the first character of `s` that is no white space is `{`.
pub open spec fn looks_like_json(s: Seq<char>) -> bool {
    let a = skip_white(s, 0, s.len() as int);
    a < s.len() && s[a] == '{'
}

/// The page that shows posted data: JSON is shown indented, or as it came if
/// it cannot be written out again; data that begins like JSON and is none is
/// shown as HTML text; all else is shown as a form, field by field.
pub open spec fn posted_page(body: Seq<char>) -> Seq<char> {
    posted_page_with(body, json_rendering(body))
}

/// The page that shows posted data, for data whose rendering as JSON is
/// `rendering`.
pub open spec fn posted_page_with(body: Seq<char>, rendering: JsonModel) -> Seq<char> {
    if looks_like_json(body) {
        match rendering {
            JsonModel::Pretty(pretty) => "<html><body><h1>Received JSON Data:</h1><pre>"@ + pretty
                + "</pre></body></html>"@,
            JsonModel::Unprintable => "<html><body><h1>Received JSON Data:</h1><pre>"@ + body
                + "</pre></body></html>"@,
            JsonModel::Invalid => "<html><body><h1>Received Data:</h1><pre>"@ + escaped(body)
                + "</pre></body></html>"@,
        }
    } else {
        "<html><body><h1>Received Form Data:</h1><pre>"@ + field_lines(body, 0)
            + "</pre></body></html>"@
    }
}

/// Tells whether the first character of `text` that is no white space is `{`.
pub fn begins_like_json(text: &Vec<char>) -> (like: bool)
    ensures
        like == looks_like_json(text@),
{
    let a = skip_white_in(text, 0, text.len());
    a < text.len() && text[a] == '{'
}

/// Writes the form fields of `text` out, line by line.
pub fn form_lines(text: &Vec<char>) -> (lines: String)
    ensures
        lines@ == field_lines(text@, 0),
{
    let n = text.len();
    let mut lines = String::new();
    let mut lo: usize = 0;
    loop
        invariant_except_break
            lines@ + field_lines(text@, lo as int) == field_lines(text@, 0),
        invariant
            n == text@.len(),
            lo <= n,
        ensures
            lines@ == field_lines(text@, 0),
        decreases n - lo,
    {
        let amp = find_in(text, '&', lo, n);
        let eq = find_in(text, '=', lo, amp);
        let ghost before = lines@;
        if eq < amp {
            let name = string_of(text, lo, eq);
            let value = string_of(text, eq + 1, amp);
            let name_html = encode_text(name.as_str());
            let value_html = encode_text(value.as_str());
            lines.append(name_html.as_str());
            lines.append(": ");
            lines.append(value_html.as_str());
            lines.append("\n");
        }
        assert(lines@ =~= before + field_line(text@, lo as int, amp as int));
        if amp < n {
            assert(before + field_line(text@, lo as int, amp as int) + field_lines(
                text@,
                amp + 1,
            ) =~= before + field_lines(text@, lo as int));
            lo = amp + 1;
        } else {
            assert(lines@ =~= before + field_lines(text@, lo as int));
            break ;
        }
    }
    lines
}

/// Builds the page that shows the posted data `body`, whose rendering as
/// JSON is `rendering`.
pub fn post_page_with(body: &str, rendering: JsonRendering) -> (page: String)
    ensures
        page@ == posted_page_with(body@, rendering@),
{
    let text = chars_of(body);
    let mut page = String::new();
    if begins_like_json(&text) {
        match rendering {
            JsonRendering::Pretty(pretty) => {
                page.append("<html><body><h1>Received JSON Data:</h1><pre>");
                page.append(pretty.as_str());
            },
            JsonRendering::Unprintable => {
                page.append("<html><body><h1>Received JSON Data:</h1><pre>");
                page.append(body);
            },
            JsonRendering::Invalid => {
                let html = encode_text(body);
                page.append("<html><body><h1>Received Data:</h1><pre>");
                page.append(html.as_str());
            },
        }
    } else {
        let lines = form_lines(&text);
        page.append("<html><body><h1>Received Form Data:</h1><pre>");
        page.append(lines.as_str());
    }
    page.append("</pre></body></html>");
    assert(page@ =~= posted_page_with(body@, rendering@));
    page
}

/// Builds the page that shows the posted data `body`.
pub fn post_page(body: &str) -> (page: String)
    ensures
        page@ == posted_page(body@),
{
    let rendering = render_json(body);
    post_page_with(body, rendering)
}

/// The whole response that carries the HTML page `page`.
pub open spec fn page_response(page: Seq<char>, date: Seq<char>) -> Seq<char> {
    "HTTP/1.1 200 OK\r\nContent-Length: "@ + decimal_digits(encode_utf8(page).len())
        + "\r\nContent-Type: text/html; charset=UTF-8\r\nDate: "@ + date
        + "\r\nConnection: close\r\n\r\n"@ + page
}

/// Builds the response that carries the HTML page `page`, dated `date`.
pub fn page_response_text(page: &str, date: &str) -> (response: String)
    ensures
        response@ == page_response(page@, date@),
{
    let mut response = String::new();
    response.append("HTTP/1.1 200 OK\r\nContent-Length: ");
    push_decimal(&mut response, page.as_bytes().len());
    response.append("\r\nContent-Type: text/html; charset=UTF-8\r\nDate: ");
    response.append(date);
    response.append("\r\nConnection: close\r\n\r\n");
    response.append(page);
    assert(response@ =~= page_response(page@, date@));
    response
}

/// Answers a `POST`: writes the page that shows the posted data `body`,
/// dated now, to `stream`. The path plays no part.
pub fn handle_post_request(stream: &mut Vec<u8>, _path: &str, body: &str)
    ensures
        exists|date: Seq<char>|
            final(stream)@ == old(stream)@ + encode_utf8(
                #[trigger] page_response(posted_page(body@), date),
            ),
{
    let page = post_page(body);
    let date = http_date();
    let response = page_response_text(page.as_str(), date.as_str());
    write_text(stream, response.as_str());
}

/// The file that a `GET` for `path` asks for: the index page for `/`.
pub open spec fn target_of(path: Seq<char>) -> Seq<char> {
    if path == "/"@ {
        "/index.html"@
    } else {
        path
    }
}

/// The file that a `GET` for `path` asks for.
pub fn get_target(path: &str) -> (target: &str)
    ensures
        target@ == target_of(path@),
{
    if same_text(path, "/") {
        "/index.html"
    } else {
        path
    }
}

/// The head of the response that carries a file of `length` bytes and of the
/// media type `content_type`.
pub open spec fn file_head(length: nat, content_type: Seq<char>, date: Seq<char>) -> Seq<char> {
    "HTTP/1.1 200 OK\r\nContent-Length: "@ + decimal_digits(length) + "\r\nContent-Type: "@
        + content_type + "\r\nDate: "@ + date + "\r\nConnection: close\r\n\r\n"@
}

/// Builds the head of the response that carries a file of `length` bytes
/// whose name is `path`, dated `date`.
pub fn file_response_head(length: usize, path: &str, date: &str) -> (head: String)
    ensures
        head@ == file_head(length as nat, guessed_mime(path@), date@),
{
    let content_type = guess_mime(path);
    let mut head = String::new();
    head.append("HTTP/1.1 200 OK\r\nContent-Length: ");
    push_decimal(&mut head, length);
    head.append("\r\nContent-Type: ");
    head.append(content_type.as_str());
    head.append("\r\nDate: ");
    head.append(date);
    head.append("\r\nConnection: close\r\n\r\n");
    assert(head@ =~= file_head(length as nat, guessed_mime(path@), date@));
    head
}

/// The message that reports the update of the file `path`.
pub open spec fn updated_message(path: Seq<char>) -> Seq<char> {
    "File "@ + path + " was successfully updated."@
}

/// The JSON document that reports the update of the file `path`: an object
/// with the status `ok` and the message.
pub open spec fn updated_document(path: Seq<char>) -> Seq<char> {
    json_object(
        no_fields().insert("status"@, json_quoted("ok"@)).insert(
            "message"@,
            json_quoted(updated_message(path)),
        ),
    )
}

/// Builds the JSON document that reports the update of the file `path`.
pub fn updated_json(path: &str) -> (document: String)
    ensures
        document@ == updated_document(path@),
{
    let mut message = String::new();
    message.append("File ");
    message.append(path);
    message.append(" was successfully updated.");
    assert(message@ =~= updated_message(path@));
    let mut object = new_object();
    set_field(&mut object, "status", string_value("ok"));
    set_field(&mut object, "message", string_value(message.as_str()));
    write_json(&object_value(object))
}

/// The JSON document that reports the removal of the file `path`: an object
/// that holds the path as what was deleted.
pub open spec fn deleted_document(path: Seq<char>) -> Seq<char> {
    json_object(no_fields().insert("deleted"@, json_quoted(path)))
}

/// Builds the JSON document that reports the removal of the file `path`.
pub fn deleted_json(path: &str) -> (document: String)
    ensures
        document@ == deleted_document(path@),
{
    let mut object = new_object();
    set_field(&mut object, "deleted", string_value(path));
    write_json(&object_value(object))
}

/// The JSON document that reports the state of the server at the time whose
/// JSON document is `time`: an object with the status `ok` and the time.
pub open spec fn status_document(time: Seq<char>) -> Seq<char> {
    json_object(no_fields().insert("status"@, json_quoted("ok"@)).insert("time"@, time))
}

/// Builds the JSON document that reports the state of the server at `time`.
pub fn status_json(time: serde_json::Value) -> (document: String)
    ensures
        document@ == status_document(json_document(time)),
{
    let mut object = new_object();
    set_field(&mut object, "status", string_value("ok"));
    set_field(&mut object, "time", time);
    write_json(&object_value(object))
}

/// The JSON document that confirms an upload: an object that holds
/// `received` as what became of the upload.
pub open spec fn upload_document() -> Seq<char> {
    json_object(no_fields().insert("upload"@, json_quoted("received"@)))
}

/// Builds the JSON document that confirms an upload.
pub fn upload_json() -> (document: String)
    ensures
        document@ == upload_document(),
{
    let mut object = new_object();
    set_field(&mut object, "upload", string_value("received"));
    write_json(&object_value(object))
}

/// True when `part` may stand in a path below the served directory: it is not
/// empty, it is neither `.` nor `..`, and it holds no `/`.
pub open spec fn is_safe_part(part: Seq<char>) -> bool {
    &&& part.len() > 0
    &&& part != seq!['.']
    &&& part != seq!['.', '.']
    &&& !part.contains('/')
}

/// The parts of `s` from `lo` on that are parted by `/`, without the empty
/// ones and without `.` and `..`.
pub open spec fn safe_parts(s: Seq<char>, lo: int) -> Seq<Seq<char>>
    decreases s.len() - lo,
{
    let slash = find_char(s, '/', lo, s.len() as int);
    let part = s.subrange(lo, slash);
    let kept = if is_safe_part(part) {
        seq![part]
    } else {
        Seq::empty()
    };
    if lo <= slash < s.len() {
        kept + safe_parts(s, slash + 1)
    } else {
        kept
    }
}

/// The texts of `parts`.
pub open spec fn texts(parts: Seq<String>) -> Seq<Seq<char>> {
    Seq::new(parts.len(), |i: int| parts[i]@)
}

/// Cuts `path` at each `/` and keeps the parts that may stand in a path
/// below the served directory, in their order.
pub fn safe_segments(path: &str) -> (parts: Vec<String>)
    ensures
        texts(parts@) == safe_parts(path@, 0),
        forall|i: int| 0 <= i < parts@.len() ==> is_safe_part(#[trigger] parts@[i]@),
{
    let text = chars_of(path);
    let n = text.len();
    let mut parts: Vec<String> = Vec::new();
    let mut lo: usize = 0;
    loop
        invariant_except_break
            texts(parts@) + safe_parts(text@, lo as int) == safe_parts(text@, 0),
        invariant
            n == text@.len(),
            text@ == path@,
            lo <= n,
            forall|i: int| 0 <= i < parts@.len() ==> is_safe_part(#[trigger] parts@[i]@),
        ensures
            texts(parts@) == safe_parts(path@, 0),
            forall|i: int| 0 <= i < parts@.len() ==> is_safe_part(#[trigger] parts@[i]@),
        decreases n - lo,
    {
        let slash = find_in(&text, '/', lo, n);
        let ghost before = parts@;
        let ghost part = text@.subrange(lo as int, slash as int);
        proof {
            crate::text::lemma_find_char_bounds(text@, '/', lo as int, n as int);
            assert(!part.contains('/')) by {
                if part.contains('/') {
                    let i = choose|i: int| 0 <= i < part.len() && part[i] == '/';
                    assert(text@[lo + i] == '/');
                }
            }
            assert(seq!['.'].len() == 1);
            assert(seq!['.', '.'].len() == 2);
        }
        let empty = slash == lo;
        let dot = slash - lo == 1 && text[lo] == '.';
        let dots = slash - lo == 2 && text[lo] == '.' && text[lo + 1] == '.';
        proof {
            if part.len() >= 1 {
                assert(part[0] == text@[lo as int]);
            }
            if part.len() >= 2 {
                assert(part[1] == text@[lo + 1]);
            }
            assert(seq!['.'][0] == '.');
            assert(seq!['.', '.'][0] == '.' && seq!['.', '.'][1] == '.');
            assert(dot == (part =~= seq!['.']));
            assert(dots == (part =~= seq!['.', '.']));
        }
        if !empty && !dot && !dots {
            let piece = string_of(&text, lo, slash);
            parts.push(piece);
            assert(texts(parts@) =~= texts(before) + seq![part]);
        } else {
            assert(texts(parts@) =~= texts(before) + Seq::<Seq<char>>::empty());
        }
        if slash < n {
            assert(texts(parts@) + safe_parts(text@, slash + 1) =~= texts(before) + safe_parts(
                text@,
                lo as int,
            ));
            lo = slash + 1;
        } else {
            assert(texts(parts@) =~= texts(before) + safe_parts(text@, lo as int));
            break ;
        }
    }
    parts
}

} // verus!
