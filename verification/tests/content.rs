use httpd_core::content::{
    deleted_json, file_response_head, form_lines, get_target, handle_post_request,
    page_response_text, post_page, post_page_with, render_json, safe_segments, status_json,
    updated_json, upload_json, JsonRendering,
};
use httpd_core::media::guess_mime;
use httpd_core::dispatch::Route;
use httpd_core::handlers::{
    answer, conclude, handle_delete_request, handle_get_request, handle_put_request, Fetched,
    Removed, Stored,
};
use httpd_core::parser::{Arrival, RequestParser, Step};
use httpd_core::request::{ParseOutcome, ParsedRequest};

fn request(text: &[u8]) -> ParsedRequest {
    match RequestParser::new(1024).feed(Arrival::Data(text.to_vec())) {
        Step::Done(ParseOutcome::Success(request)) => request,
        _ => panic!("the request should parse"),
    }
}

fn without_date(reply: &[u8]) -> Vec<u8> {
    let mark = b"\r\nDate: ";
    let start = reply.windows(mark.len()).position(|w| w == mark).expect("a date line");
    let end = start + 2 + reply[start + 2..].windows(2).position(|w| w == b"\r\n").unwrap();
    let mut rest = reply[..start].to_vec();
    rest.extend_from_slice(&reply[end..]);
    rest
}

fn text_without_date(reply: &[u8]) -> String {
    String::from_utf8(without_date(reply)).unwrap()
}

fn page(code_and_title: &str, message: &str) -> String {
    let title = &code_and_title[4..];
    let body = format!("<html><body><h1>{}</h1><p>{}</p></body></html>", title, message);
    format!(
        "HTTP/1.1 {}\r\nContent-Length: {}\r\nContent-Type: text/html; charset=UTF-8\r\nConnection: close\r\n\r\n{}",
        code_and_title,
        body.len(),
        body
    )
}

fn json(document: &str) -> String {
    format!(
        "HTTP/1.1 200 OK\r\nContent-Type: application/json\r\nContent-Length: {}\r\nConnection: close\r\n\r\n{}",
        document.len(),
        document
    )
}

fn chars(text: &str) -> Vec<char> {
    text.chars().collect()
}

#[test]
fn form_fields_are_written_line_by_line() {
    assert_eq!(form_lines(&chars("a=1&b=2")), "a: 1\nb: 2\n");
    assert_eq!(form_lines(&chars("")), "");
    assert_eq!(form_lines(&chars("novalue")), "");
    assert_eq!(form_lines(&chars("k=")), "k: \n");
    assert_eq!(form_lines(&chars("=v")), ": v\n");
    assert_eq!(form_lines(&chars("a=1&&skip&b=x=y&")), "a: 1\nb: x=y\n");
    assert_eq!(form_lines(&chars("<k>=a&b&c=\"q\"")), "&lt;k&gt;: a\nc: \"q\"\n");
    assert_eq!(form_lines(&chars("n=&amp;&x=<>")), "n: \nx: &lt;&gt;\n");
}

#[test]
fn form_fields_are_escaped_as_the_escaping_library_does() {
    for sample in ["a=1&b=2", "<script>=&&x=>", "k=v&amp;=&lt;", "ü=ß&k=é<è"] {
        let mut expected = String::new();
        for pair in sample.split('&') {
            let mut parts = pair.splitn(2, '=');
            if let (Some(key), Some(value)) = (parts.next(), parts.next()) {
                expected.push_str(&html_escape::encode_text(key));
                expected.push_str(": ");
                expected.push_str(&html_escape::encode_text(value));
                expected.push('\n');
            }
        }
        assert_eq!(form_lines(&chars(sample)), expected, "{:?}", sample);
    }
}

#[test]
fn posted_form_is_shown() {
    assert_eq!(
        post_page("name=Ann&age=<3>"),
        "<html><body><h1>Received Form Data:</h1><pre>name: Ann\nage: &lt;3&gt;\n</pre></body></html>"
    );
    assert_eq!(post_page(""), "<html><body><h1>Received Form Data:</h1><pre></pre></body></html>");
}

#[test]
fn posted_json_is_shown_indented() {
    assert_eq!(
        post_page("  {\"b\":[1,2],\"a\":\"<x>\"}"),
        "<html><body><h1>Received JSON Data:</h1><pre>{\n  \"a\": \"<x>\",\n  \"b\": [\n    1,\n    2\n  ]\n}</pre></body></html>"
    );
    let value = serde_json::from_str::<serde_json::Value>("{\"k\": {\"n\": null}}").unwrap();
    assert_eq!(
        post_page("{\"k\": {\"n\": null}}"),
        format!(
            "<html><body><h1>Received JSON Data:</h1><pre>{}</pre></body></html>",
            serde_json::to_string_pretty(&value).unwrap()
        )
    );
}

#[test]
fn posted_text_that_only_begins_like_json_is_escaped() {
    assert_eq!(
        post_page("{not json & <b>"),
        "<html><body><h1>Received Data:</h1><pre>{not json &amp; &lt;b&gt;</pre></body></html>"
    );
    assert_eq!(
        post_page("\u{A0}{"),
        "<html><body><h1>Received Data:</h1><pre>\u{A0}{</pre></body></html>"
    );
    // JSON that does not begin with a brace is shown as a form.
    assert_eq!(
        post_page("[1,2]"),
        "<html><body><h1>Received Form Data:</h1><pre></pre></body></html>"
    );
}

#[test]
fn posted_page_follows_the_rendering_it_is_given() {
    assert_eq!(
        post_page_with("{x", JsonRendering::Pretty(String::from("P"))),
        "<html><body><h1>Received JSON Data:</h1><pre>P</pre></body></html>"
    );
    assert_eq!(
        post_page_with("{<x", JsonRendering::Unprintable),
        "<html><body><h1>Received JSON Data:</h1><pre>{<x</pre></body></html>"
    );
    assert_eq!(
        post_page_with("{<x", JsonRendering::Invalid),
        "<html><body><h1>Received Data:</h1><pre>{&lt;x</pre></body></html>"
    );
    assert_eq!(
        post_page_with("a=b", JsonRendering::Pretty(String::from("P"))),
        "<html><body><h1>Received Form Data:</h1><pre>a: b\n</pre></body></html>"
    );
}

#[test]
fn page_response_is_built_exactly() {
    assert_eq!(
        page_response_text("<p>ä</p>", "DATE"),
        "HTTP/1.1 200 OK\r\nContent-Length: 9\r\nContent-Type: text/html; charset=UTF-8\r\nDate: DATE\r\nConnection: close\r\n\r\n<p>ä</p>"
    );
}

#[test]
fn post_is_answered_with_the_page() {
    let mut stream = Vec::new();
    handle_post_request(&mut stream, "/anything", "k=v");
    assert_eq!(
        text_without_date(&stream),
        "HTTP/1.1 200 OK\r\nContent-Length: 70\r\nContent-Type: text/html; charset=UTF-8\r\nConnection: close\r\n\r\n<html><body><h1>Received Form Data:</h1><pre>k: v\n</pre></body></html>"
    );
}

#[test]
fn get_asks_for_the_index_at_the_root() {
    assert_eq!(get_target("/"), "/index.html");
    assert_eq!(get_target("/a.txt"), "/a.txt");
    assert_eq!(get_target(""), "");
    assert_eq!(get_target("//"), "//");
}

#[test]
fn file_head_names_length_type_and_date() {
    assert_eq!(
        file_response_head(1234, "/srv/public/site/index.html", "DATE"),
        "HTTP/1.1 200 OK\r\nContent-Length: 1234\r\nContent-Type: text/html\r\nDate: DATE\r\nConnection: close\r\n\r\n"
    );
    for path in ["a.css", "b.PNG", "archive.tar.gz", "noextension", "x.unknownext", ".hidden", "dir.d/file"] {
        let expected = mime_guess::from_path(path).first_or_octet_stream();
        assert_eq!(
            file_response_head(0, path, ""),
            format!(
                "HTTP/1.1 200 OK\r\nContent-Length: 0\r\nContent-Type: {}\r\nDate: \r\nConnection: close\r\n\r\n",
                expected
            )
        );
    }
    assert!(file_response_head(0, "noextension", "").contains("Content-Type: application/octet-stream\r\n"));
    assert!(file_response_head(0, "a.css", "").contains("Content-Type: text/css\r\n"));
}

#[test]
fn json_documents_are_what_the_json_library_writes() {
    for path in ["/srv/a.txt", "we\"ird\\pa\th\n", "ünï", "", "\u{1}\u{7f}"] {
        let mut object = serde_json::Map::new();
        object.insert(String::from("deleted"), serde_json::Value::String(path.to_string()));
        assert_eq!(deleted_json(path), serde_json::Value::Object(object).to_string());
        let mut object = serde_json::Map::new();
        object.insert(String::from("status"), serde_json::Value::String(String::from("ok")));
        object.insert(
            String::from("message"),
            serde_json::Value::String(format!("File {} was successfully updated.", path)),
        );
        assert_eq!(updated_json(path), serde_json::Value::Object(object).to_string());
    }
    assert_eq!(deleted_json("a\"b"), "{\"deleted\":\"a\\\"b\"}");
    assert_eq!(
        updated_json("p/q"),
        "{\"message\":\"File p/q was successfully updated.\",\"status\":\"ok\"}"
    );
    let mut object = serde_json::Map::new();
    object.insert(String::from("upload"), serde_json::Value::String(String::from("received")));
    assert_eq!(upload_json(), serde_json::Value::Object(object).to_string());
    assert_eq!(upload_json(), "{\"upload\":\"received\"}");
}

#[test]
fn json_is_rendered_by_reading_and_writing_it_out() {
    assert!(matches!(
        render_json("{\"b\":[1,2.50],\"a\":null}"),
        JsonRendering::Pretty(text) if text == "{\n  \"a\": null,\n  \"b\": [\n    1,\n    2.5\n  ]\n}"
    ));
    assert!(matches!(render_json(" \"text\" "), JsonRendering::Pretty(text) if text == "\"text\""));
    for text in ["", "{", "{\"a\":1,}", "{'a':1}", "{\"a\":1} x", "nul"] {
        assert!(matches!(render_json(text), JsonRendering::Invalid));
    }
}

#[test]
fn media_type_is_guessed_from_the_name() {
    assert_eq!(guess_mime("public/index.html"), "text/html");
    assert_eq!(guess_mime("a.JSON"), "application/json");
    assert_eq!(guess_mime("pic.png"), "image/png");
    assert_eq!(guess_mime("png"), "application/octet-stream");
    assert_eq!(guess_mime(""), "application/octet-stream");
    assert_eq!(guess_mime("a.no-such-extension"), "application/octet-stream");
}

#[test]
fn status_document_holds_the_time() {
    assert_eq!(
        status_json(serde_json::Value::from("T")),
        "{\"status\":\"ok\",\"time\":\"T\"}"
    );
    assert_eq!(
        status_json(serde_json::Value::from("a\"b")),
        "{\"status\":\"ok\",\"time\":\"a\\\"b\"}"
    );
    let mut stream = Vec::new();
    assert!(answer(&mut stream, &request(b"GET /api/status HTTP/1.1\r\n\r\n"), Route::ApiStatus));
    let reply = text_without_date(&stream);
    let document = &reply[reply.find("\r\n\r\n").unwrap() + 4..];
    assert!(reply.contains(&format!("\r\nContent-Length: {}\r\n", document.len())));
    let value = serde_json::from_str::<serde_json::Value>(document).unwrap();
    assert_eq!(value["status"], serde_json::Value::String(String::from("ok")));
    let stamp = value["time"].as_str().expect("a string");
    assert!(stamp.ends_with('Z'));
    assert_eq!(&stamp[4..5], "-");
    assert_eq!(&stamp[10..11], "T");
    assert!(chrono::DateTime::parse_from_rfc3339(stamp).is_ok());
}

#[test]
fn path_is_cut_into_safe_parts() {
    assert_eq!(safe_segments("/a/b.txt"), vec!["a", "b.txt"]);
    assert_eq!(safe_segments("/../../etc/passwd"), vec!["etc", "passwd"]);
    assert_eq!(safe_segments("a/./b//c/"), vec!["a", "b", "c"]);
    assert_eq!(safe_segments("..."), vec!["..."]);
    assert_eq!(safe_segments("/.a/..b/c../.."), vec![".a", "..b", "c.."]);
    assert!(safe_segments("").is_empty());
    assert!(safe_segments("/").is_empty());
    assert!(safe_segments("../.././/").is_empty());
    assert_eq!(safe_segments("\\x\\../y"), vec!["\\x\\..", "y"]);
}

#[test]
fn safe_parts_are_the_normal_components_of_the_path() {
    for path in ["/a/b.txt", "/../../etc/passwd", "a/./b//c/", "...", "./x", "", "/", "x/../y", "é/ü"] {
        let expected: Vec<String> = std::path::Path::new(path)
            .components()
            .filter_map(|component| match component {
                std::path::Component::Normal(part) => Some(part.to_string_lossy().into_owned()),
                _ => None,
            })
            .collect();
        assert_eq!(safe_segments(path), expected, "{:?}", path);
    }
}

#[test]
fn get_is_answered_by_what_was_found() {
    let mut stream = Vec::new();
    handle_get_request(
        &mut stream,
        Fetched::Found { path: String::from("public/pic.png"), contents: vec![0, 159, 146, 150] },
    );
    let mut expected = b"HTTP/1.1 200 OK\r\nContent-Length: 4\r\nContent-Type: image/png\r\nConnection: close\r\n\r\n".to_vec();
    expected.extend_from_slice(&[0, 159, 146, 150]);
    assert_eq!(without_date(&stream), expected);
    let mut stream = Vec::new();
    handle_get_request(&mut stream, Fetched::Failed);
    assert_eq!(text_without_date(&stream), page("500 Internal Server Error", "Error reading the file"));
    let mut stream = Vec::new();
    handle_get_request(&mut stream, Fetched::Missing);
    assert_eq!(text_without_date(&stream), page("404 Not Found", "404 - File not found"));
}

#[test]
fn put_is_answered_by_how_the_writing_went() {
    let mut stream = Vec::new();
    handle_put_request(&mut stream, Stored::Done { path: String::from("/srv/public/n.txt") });
    assert_eq!(
        text_without_date(&stream),
        json("{\"message\":\"File /srv/public/n.txt was successfully updated.\",\"status\":\"ok\"}")
    );
    let mut stream = Vec::new();
    handle_put_request(&mut stream, Stored::Failed);
    assert_eq!(text_without_date(&stream), page("500 Internal Server Error", "Could not write to file."));
    let mut stream = Vec::new();
    handle_put_request(&mut stream, Stored::InvalidPath);
    assert_eq!(text_without_date(&stream), page("400 Bad Request", "Invalid path."));
}

#[test]
fn delete_is_answered_by_how_the_removal_went() {
    let mut stream = Vec::new();
    handle_delete_request(&mut stream, Removed::Done { path: String::from("/srv/public/n.txt") });
    assert_eq!(text_without_date(&stream), json("{\"deleted\":\"/srv/public/n.txt\"}"));
    let mut stream = Vec::new();
    handle_delete_request(&mut stream, Removed::Failed);
    assert_eq!(text_without_date(&stream), page("500 Error", "File could not be deleted."));
    let mut stream = Vec::new();
    handle_delete_request(&mut stream, Removed::Missing);
    assert_eq!(text_without_date(&stream), page("404 Not Found", "File does not exist."));
    let mut stream = Vec::new();
    handle_delete_request(&mut stream, Removed::InvalidPath);
    assert_eq!(text_without_date(&stream), page("400 Bad Request", "Invalid path."));
}

#[test]
fn routes_without_files_are_answered() {
    let plain = request(b"GET / HTTP/1.1\r\n\r\n");
    let mut stream = Vec::new();
    assert!(answer(&mut stream, &plain, Route::Upload));
    assert_eq!(text_without_date(&stream), json("{\"upload\":\"received\"}"));
    let mut stream = Vec::new();
    assert!(answer(&mut stream, &plain, Route::Options));
    assert_eq!(
        String::from_utf8(stream).unwrap(),
        "HTTP/1.1 204 No Content\r\nAllow: GET, POST, PUT, DELETE, OPTIONS\r\nAccess-Control-Allow-Origin: *\r\nAccess-Control-Allow-Methods: GET, POST, PUT, DELETE, OPTIONS\r\nAccess-Control-Allow-Headers: Content-Type\r\n\r\n"
    );
    let mut stream = Vec::new();
    assert!(answer(&mut stream, &plain, Route::MethodNotAllowed));
    assert_eq!(
        text_without_date(&stream),
        page("405 Method Not Allowed", "Only GET, POST, PUT, DELETE, OPTIONS are allowed.")
    );
    let mut stream = Vec::new();
    assert!(answer(&mut stream, &plain, Route::ApiStatus));
    let reply = text_without_date(&stream);
    assert!(reply.starts_with("HTTP/1.1 200 OK\r\nContent-Type: application/json\r\nContent-Length: "));
    let document = &reply[reply.find("\r\n\r\n").unwrap() + 4..];
    assert!(document.starts_with("{\"status\":\"ok\",\"time\":\""));
    for route in [Route::Get, Route::Put, Route::Delete] {
        let mut stream = b"kept".to_vec();
        assert!(!answer(&mut stream, &plain, route));
        assert_eq!(stream, b"kept".to_vec());
    }
}

#[test]
fn post_route_shows_the_body_as_text() {
    let posted = request(b"POST /p HTTP/1.1\r\nContent-Length: 7\r\n\r\nq=<ok>!");
    let mut stream = Vec::new();
    assert!(answer(&mut stream, &posted, Route::Post));
    assert!(text_without_date(&stream)
        .ends_with("\r\n\r\n<html><body><h1>Received Form Data:</h1><pre>q: &lt;ok&gt;!\n</pre></body></html>"));
    let broken = request(b"POST /p HTTP/1.1\r\nContent-Length: 3\r\n\r\na=\xFF");
    let mut stream = Vec::new();
    assert!(answer(&mut stream, &broken, Route::Post));
    assert!(text_without_date(&stream)
        .ends_with("\r\n\r\n<html><body><h1>Received Form Data:</h1><pre></pre></body></html>"));
}

#[test]
fn answer_ends_with_the_cookie_where_one_is_set() {
    let mut stream = b"answer".to_vec();
    conclude(&mut stream, false);
    assert_eq!(stream, b"answer".to_vec());
    conclude(&mut stream, true);
    assert_eq!(stream, b"answerSet-Cookie: session_id=abc123; HttpOnly; Path=/\r\n".to_vec());
}
