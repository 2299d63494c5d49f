use httpd_core::connection::{parse_request, parser_reply, Connection};
use httpd_core::parser::{Arrival, RequestParser, Step};
use httpd_core::request::{parse_head, ParseOutcome, ParsedRequest};

fn literal(text: &str) -> Vec<u8> {
    text.as_bytes().to_vec()
}

fn without_date(reply: &[u8]) -> String {
    let text = String::from_utf8(reply.to_vec()).unwrap();
    let start = text.find("\r\nDate: ").expect("a date line");
    let end = start + 2 + text[start + 2..].find("\r\n").unwrap();
    assert!(end > start + 8, "the date is not empty");
    format!("{}{}", &text[..start], &text[end..])
}

fn parsed(outcome: ParseOutcome) -> ParsedRequest {
    match outcome {
        ParseOutcome::Success(request) => request,
        ParseOutcome::Malformed => panic!("malformed"),
        ParseOutcome::TooLarge => panic!("too large"),
        ParseOutcome::IncompleteBody => panic!("incomplete body"),
        ParseOutcome::ConnectionClosed => panic!("connection closed"),
    }
}

fn feed_chunks(max_body_size: usize, chunks: &[&[u8]]) -> Option<ParseOutcome> {
    let mut parser = RequestParser::new(max_body_size);
    for (i, chunk) in chunks.iter().enumerate() {
        match parser.feed(Arrival::Data(chunk.to_vec())) {
            Step::More(next) => parser = next,
            Step::Done(outcome) => {
                assert_eq!(i + 1, chunks.len(), "the request ended before the last chunk");
                return Some(outcome);
            }
        }
    }
    None
}

const INCOMPLETE: &str = "HTTP/1.1 400 Bad Request\r\nContent-Length: 68\r\nContent-Type: text/html; charset=UTF-8\r\nConnection: close\r\n\r\n<html><body><h1>Bad Request</h1><p>Incomplete body</p></body></html>";
const TOO_LARGE: &str = "HTTP/1.1 413 Payload Too Large\r\nContent-Length: 84\r\nContent-Type: text/html; charset=UTF-8\r\nConnection: close\r\n\r\n<html><body><h1>Payload Too Large</h1><p>The request is too large.</p></body></html>";

#[test]
fn well_formed_request_round_trips() {
    let mut stream = Connection::new(literal(
        "POST /submit HTTP/1.1\r\nHost: example.org\r\nContent-Length: 5\r\nX-Tag:  a b \r\n\r\nhello",
    ));
    let request = parsed(parse_request(&mut stream, 1024));
    assert_eq!(request.method, "POST");
    assert_eq!(request.path, "/submit");
    assert_eq!(request.header("host").map(|v| v.as_str()), Some("example.org"));
    assert_eq!(request.header("content-length").map(|v| v.as_str()), Some("5"));
    assert_eq!(request.header("x-tag").map(|v| v.as_str()), Some("a b"));
    assert_eq!(request.header("Host"), None);
    assert!(request.has_header("host"));
    assert!(!request.has_header("Host"));
    assert!(!request.has_header("cookie"));
    assert_eq!(request.headers.len(), 3);
    assert_eq!(request.body, literal("hello"));
    assert_eq!(request.body_text(), "hello");
    assert!(stream.written().is_empty());
    assert_eq!(stream.remaining(), 0);
}

#[test]
fn long_request_is_read_in_many_reads() {
    let body: Vec<u8> = (0..3000u32).map(|i| (i % 251) as u8).collect();
    let mut bytes = literal("PUT /big HTTP/1.1\r\ncontent-length: 3000\r\n\r\n");
    bytes.extend_from_slice(&body);
    let mut stream = Connection::new(bytes);
    let request = parsed(parse_request(&mut stream, 4096));
    assert_eq!(request.method, "PUT");
    assert_eq!(request.path, "/big");
    assert_eq!(request.body, body);
    assert_eq!(request.body_text(), "");
    assert_eq!(stream.remaining(), 0);
    assert!(stream.written().is_empty());
}

#[test]
fn request_round_trips_whatever_the_chunks() {
    let bytes = literal("GET /a HTTP/1.1\r\nA: 1\r\nContent-Length: 4\r\n\r\nbody");
    for cut in 1..bytes.len() {
        let outcome = feed_chunks(64, &[&bytes[..cut], &bytes[cut..]]).expect("an end");
        let request = parsed(outcome);
        assert_eq!(request.method, "GET");
        assert_eq!(request.path, "/a");
        assert_eq!(request.header("a").map(|v| v.as_str()), Some("1"));
        assert_eq!(request.body, literal("body"));
    }
    let single: Vec<&[u8]> = bytes.chunks(1).collect();
    let request = parsed(feed_chunks(64, &single).expect("an end"));
    assert_eq!(request.body, literal("body"));
}

#[test]
fn parser_asks_for_more_until_the_head_ends() {
    let parser = RequestParser::new(16);
    let parser = match parser.feed(Arrival::Data(literal("GET / HTTP/1.1\r\n"))) {
        Step::More(next) => next,
        Step::Done(_) => panic!("the head is not complete"),
    };
    let parser = match parser.feed(Arrival::Data(literal("Host: x\r\n\r"))) {
        Step::More(next) => next,
        Step::Done(_) => panic!("the head is not complete"),
    };
    match parser.feed(Arrival::Data(literal("\n"))) {
        Step::Done(ParseOutcome::Success(request)) => {
            assert_eq!(request.method, "GET");
            assert_eq!(request.path, "/");
            assert!(request.body.is_empty());
        }
        _ => panic!("the request is complete"),
    }
}

#[test]
fn incomplete_body_is_reported_and_answered() {
    let mut bytes = literal("PUT /f HTTP/1.1\r\ncontent-length: 100\r\n\r\n");
    bytes.extend(std::iter::repeat(b'x').take(40));
    let mut stream = Connection::new(bytes);
    let outcome = parse_request(&mut stream, 1024);
    assert!(matches!(outcome, ParseOutcome::IncompleteBody));
    assert_eq!(without_date(stream.written()), INCOMPLETE);
    assert_eq!(stream.remaining(), 0);
}

#[test]
fn body_longer_than_declared_is_incomplete() {
    let mut stream = Connection::new(literal("POST / HTTP/1.1\r\nContent-Length: 2\r\n\r\nabc"));
    assert!(matches!(parse_request(&mut stream, 1024), ParseOutcome::IncompleteBody));
    assert_eq!(without_date(stream.written()), INCOMPLETE);
}

#[test]
fn closed_body_is_incomplete_for_the_parser() {
    let parser = RequestParser::new(1024);
    let parser = match parser.feed(Arrival::Data(literal("POST / HTTP/1.1\r\ncontent-length: 9\r\n\r\nabc"))) {
        Step::More(next) => next,
        Step::Done(_) => panic!("the body is not complete"),
    };
    assert!(matches!(parser.feed(Arrival::Closed), Step::Done(ParseOutcome::IncompleteBody)));
}

#[test]
fn oversized_head_is_too_large_and_answered() {
    let bytes: Vec<u8> = std::iter::repeat(b'a').take(9000).collect();
    let mut stream = Connection::new(bytes);
    let outcome = parse_request(&mut stream, 10);
    assert!(matches!(outcome, ParseOutcome::TooLarge));
    assert_eq!(without_date(stream.written()), TOO_LARGE);
    // 17 reads of 512 bytes are the first to hold more than 10 + 8192 bytes.
    assert_eq!(stream.remaining(), 9000 - 17 * 512);
}

#[test]
fn head_at_the_limit_is_not_too_large() {
    let mut bytes = literal("GET / HTTP/1.1\r\nX: ");
    let fill = 8192 - bytes.len() - 4;
    bytes.extend(std::iter::repeat(b'v').take(fill));
    bytes.extend_from_slice(b"\r\n\r\n");
    assert_eq!(bytes.len(), 8192);
    match feed_chunks(0, &[&bytes]) {
        Some(ParseOutcome::Success(request)) => {
            assert_eq!(request.header("x").map(|v| v.len()), Some(fill));
        }
        _ => panic!("8192 bytes are within the limit"),
    }
    bytes.insert(19, b'v');
    assert!(matches!(feed_chunks(0, &[&bytes]), Some(ParseOutcome::TooLarge)));
}

#[test]
fn oversized_chunk_is_too_large_even_with_a_whole_head() {
    let mut bytes = literal("GET / HTTP/1.1\r\n\r\n");
    bytes.extend(std::iter::repeat(b'b').take(8200));
    assert!(matches!(feed_chunks(5, &[&bytes]), Some(ParseOutcome::TooLarge)));
}

#[test]
fn oversized_body_is_too_large_and_answered() {
    let mut bytes = literal("POST /up HTTP/1.1\r\nContent-Length: 5000\r\n\r\n");
    bytes.extend(std::iter::repeat(b'z').take(5000));
    let mut stream = Connection::new(bytes);
    let outcome = parse_request(&mut stream, 1000);
    assert!(matches!(outcome, ParseOutcome::TooLarge));
    assert_eq!(without_date(stream.written()), TOO_LARGE);
}

#[test]
fn body_that_came_with_the_head_is_held_to_the_limit() {
    let mut bytes = literal("POST /x HTTP/1.1\r\nContent-Length: 20\r\n\r\n");
    bytes.extend(std::iter::repeat(b'a').take(20));
    assert!(bytes.len() <= 512, "one read holds the head and the body");
    let mut stream = Connection::new(bytes.clone());
    let outcome = parse_request(&mut stream, 10);
    assert!(matches!(outcome, ParseOutcome::TooLarge));
    assert!(stream.written().starts_with(b"HTTP/1.1 413 "));
    assert_eq!(without_date(stream.written()), TOO_LARGE);
    assert_eq!(stream.remaining(), 0);
    assert!(matches!(feed_chunks(10, &[&bytes]), Some(ParseOutcome::TooLarge)));
    // With a limit of 20 the same bytes are a whole request.
    let mut roomy = Connection::new(bytes);
    let request = parsed(parse_request(&mut roomy, 20));
    assert_eq!(request.body.len(), 20);
    assert!(roomy.written().is_empty());
}

#[test]
fn undeclared_body_that_came_with_the_head_is_held_to_the_limit() {
    let bytes = literal("POST /x HTTP/1.1\r\nHost: h\r\n\r\ntrailing");
    assert!(matches!(feed_chunks(7, &[&bytes]), Some(ParseOutcome::TooLarge)));
    match feed_chunks(8, &[&bytes]) {
        Some(ParseOutcome::Success(request)) => assert_eq!(request.body, literal("trailing")),
        _ => panic!("eight bytes are within the limit"),
    }
}

#[test]
fn body_at_the_limit_is_read() {
    let mut bytes = literal("POST /up HTTP/1.1\r\nContent-Length: 1000\r\n\r\n");
    bytes.extend(std::iter::repeat(b'z').take(1000));
    let mut stream = Connection::new(bytes);
    let request = parsed(parse_request(&mut stream, 1000));
    assert_eq!(request.body.len(), 1000);
}

#[test]
fn closed_before_the_head_ends() {
    let mut stream = Connection::new(literal("GET / HTTP/1.1\r\nHost: x\r\n"));
    assert!(matches!(parse_request(&mut stream, 1024), ParseOutcome::ConnectionClosed));
    assert!(stream.written().is_empty());
    let mut silent = Connection::new(Vec::new());
    assert!(matches!(parse_request(&mut silent, 1024), ParseOutcome::ConnectionClosed));
    assert!(silent.written().is_empty());
}

#[test]
fn empty_chunk_means_closed() {
    let parser = RequestParser::new(8);
    assert!(matches!(
        parser.feed(Arrival::Data(Vec::new())),
        Step::Done(ParseOutcome::ConnectionClosed)
    ));
    let parser = RequestParser::new(8);
    assert!(matches!(parser.feed(Arrival::Closed), Step::Done(ParseOutcome::ConnectionClosed)));
}

#[test]
fn failed_read_is_malformed() {
    let parser = RequestParser::new(8);
    assert!(matches!(parser.feed(Arrival::Failed), Step::Done(ParseOutcome::Malformed)));
    let parser = RequestParser::new(64);
    let parser = match parser.feed(Arrival::Data(literal("POST / HTTP/1.1\r\ncontent-length: 9\r\n\r\n"))) {
        Step::More(next) => next,
        Step::Done(_) => panic!("the body is not complete"),
    };
    assert!(matches!(parser.feed(Arrival::Failed), Step::Done(ParseOutcome::Malformed)));
}

#[test]
fn without_content_length_the_body_is_what_followed() {
    let mut stream = Connection::new(literal("POST /x HTTP/1.1\r\nHost: h\r\n\r\ntrailing"));
    let request = parsed(parse_request(&mut stream, 1024));
    assert_eq!(request.body, literal("trailing"));
    assert!(stream.written().is_empty());
    let mut bare = Connection::new(literal("GET /x HTTP/1.1\r\n\r\n"));
    let request = parsed(parse_request(&mut bare, 1024));
    assert!(request.body.is_empty());
    assert_eq!(request.headers.len(), 0);
}

#[test]
fn content_length_that_is_no_number_declares_nothing() {
    for value in ["abc", "-1", "1.5", "", "99999999999999999999999999"] {
        let text = format!("POST /x HTTP/1.1\r\nContent-Length: {}\r\n\r\nrest", value);
        let mut stream = Connection::new(literal(&text));
        let request = parsed(parse_request(&mut stream, 1024));
        assert_eq!(request.body, literal("rest"));
    }
}

#[test]
fn content_length_may_carry_a_plus_and_white_space() {
    let mut stream = Connection::new(literal("POST /x HTTP/1.1\r\nContent-Length:  +3 \r\n\r\nabc"));
    let request = parsed(parse_request(&mut stream, 1024));
    assert_eq!(request.header("content-length").map(|v| v.as_str()), Some("+3"));
    assert_eq!(request.body, literal("abc"));
}

#[test]
fn request_line_is_read_permissively() {
    let request = parsed(feed_chunks(8, &[b"\r\n\r\n"]).unwrap());
    assert_eq!(request.method, "");
    assert_eq!(request.path, "/");
    let request = parsed(feed_chunks(8, &[b"GET\r\n\r\n"]).unwrap());
    assert_eq!(request.method, "GET");
    assert_eq!(request.path, "/");
    let request = parsed(feed_chunks(8, &[b"  get \t /p?q=1   HTTP/1.1 extra\r\n\r\n"]).unwrap());
    assert_eq!(request.method, "get");
    assert_eq!(request.path, "/p?q=1");
    let request = parsed(feed_chunks(8, &[b"GET\xC2\xA0/nbsp\r\n\r\n"]).unwrap());
    assert_eq!(request.method, "GET");
    assert_eq!(request.path, "/nbsp");
}

#[test]
fn header_lines_are_read_as_specified() {
    let request = parsed(
        feed_chunks(
            8,
            &[b"GET / HTTP/1.1\r\n  Mixed-Case \t:  v:1 : 2 \r\nno colon here\r\nDup: first\r\ndup: second\r\nEmpty:\r\n: nameless\r\nBare\nLF: kept\n\r\n\r\n"],
        )
        .unwrap(),
    );
    assert_eq!(request.header("mixed-case").map(|v| v.as_str()), Some("v:1 : 2"));
    assert_eq!(request.header("dup").map(|v| v.as_str()), Some("second"));
    assert_eq!(request.header("empty").map(|v| v.as_str()), Some(""));
    assert_eq!(request.header("").map(|v| v.as_str()), Some("nameless"));
    assert_eq!(request.header("lf").map(|v| v.as_str()), Some("kept"));
    assert!(!request.has_header("no colon here"));
    assert!(!request.has_header("bare"));
    assert_eq!(request.headers.len(), 5);
}

#[test]
fn header_names_are_lower_cased_beyond_ascii() {
    let request = parsed(
        feed_chunks(8, "GET / HTTP/1.1\r\nÄÖÜ-Σ: Wert ÄÖ\r\n\r\n".as_bytes().chunks(7).collect::<Vec<_>>().as_slice())
            .unwrap(),
    );
    assert_eq!(request.header("äöü-σ").map(|v| v.as_str()), Some("Wert ÄÖ"));
    assert!(!request.has_header("ÄÖÜ-Σ"));
}

#[test]
fn invalid_utf8_in_the_head_is_replaced() {
    let request = parsed(feed_chunks(8, &[b"GET /\xFF HTTP/1.1\r\nX: a\xC3(b\r\n\r\n"]).unwrap());
    assert_eq!(request.path, "/\u{FFFD}");
    assert_eq!(request.header("x").map(|v| v.as_str()), Some("a\u{FFFD}(b"));
}

#[test]
fn body_text_is_empty_for_invalid_utf8() {
    let mut stream = Connection::new(b"POST / HTTP/1.1\r\ncontent-length: 3\r\n\r\n\xE2\x82\xAC".to_vec());
    let request = parsed(parse_request(&mut stream, 64));
    assert_eq!(request.body_text(), "€");
    let mut stream = Connection::new(b"POST / HTTP/1.1\r\ncontent-length: 2\r\n\r\n\xE2\x82".to_vec());
    let request = parsed(parse_request(&mut stream, 64));
    assert_eq!(request.body, b"\xE2\x82".to_vec());
    assert_eq!(request.body_text(), "");
}

#[test]
fn first_terminator_ends_the_head() {
    let mut stream = Connection::new(literal("POST / HTTP/1.1\r\nContent-Length: 8\r\n\r\nab\r\n\r\ncd"));
    let request = parsed(parse_request(&mut stream, 64));
    assert_eq!(request.body, literal("ab\r\n\r\ncd"));
}

#[test]
fn head_text_is_read_directly() {
    let text: Vec<char> = "DELETE /file.txt HTTP/1.1\r\nCookie: a=b\r\n\r\n".chars().collect();
    let head = parse_head(&text).expect("a head");
    assert_eq!(head.method, "DELETE");
    assert_eq!(head.path, "/file.txt");
    assert_eq!(head.headers.get("cookie").map(|v| v.as_str()), Some("a=b"));
    assert_eq!(head.content_length(), 0);
    assert!(parse_head(&Vec::new()).is_none());
    let text: Vec<char> = "POST /\ncontent-length: 12".chars().collect();
    let head = parse_head(&text).expect("a head");
    assert_eq!(head.content_length(), 12);
}

#[test]
fn parser_owes_a_page_for_two_outcomes() {
    let page = parser_reply(&ParseOutcome::TooLarge).expect("a page");
    assert_eq!((page.code, page.title, page.message), (413, "Payload Too Large", "The request is too large."));
    let page = parser_reply(&ParseOutcome::IncompleteBody).expect("a page");
    assert_eq!((page.code, page.title, page.message), (400, "Bad Request", "Incomplete body"));
    assert!(parser_reply(&ParseOutcome::Malformed).is_none());
    assert!(parser_reply(&ParseOutcome::ConnectionClosed).is_none());
}

#[test]
fn connection_reads_and_writes() {
    let mut stream = Connection::new(literal("abcdef"));
    assert_eq!(stream.remaining(), 6);
    assert_eq!(stream.read(4), literal("abcd"));
    assert_eq!(stream.read(0), Vec::<u8>::new());
    assert_eq!(stream.read(4), literal("ef"));
    assert_eq!(stream.read(4), Vec::<u8>::new());
    assert_eq!(stream.remaining(), 0);
    stream.write_all(&literal("x"));
    stream.write_all(&literal("yz"));
    assert_eq!(stream.written(), &literal("xyz"));
}
