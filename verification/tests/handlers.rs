use http_responder::http::response::{ContentType, HttpStatus};
use http_responder::server::handlers::{
    content_type_for, is_confined, parse_content_type, Echo, Index, NotFound, StaticFile,
    VisitCount,
};
use http_responder::SharedData;

fn text(bytes: Vec<u8>) -> String {
    String::from_utf8(bytes).unwrap()
}

#[test]
fn content_type_of_each_known_suffix() {
    assert_eq!(parse_content_type("foo.html"), ContentType::Html);
    assert_eq!(parse_content_type("index.htm"), ContentType::Html);
    assert_eq!(parse_content_type("notes.txt"), ContentType::PlainText);
    assert_eq!(parse_content_type("site.css"), ContentType::Css);
    assert_eq!(parse_content_type("a.png"), ContentType::AvifImage);
    assert_eq!(parse_content_type("b.jpg"), ContentType::AvifImage);
    assert_eq!(parse_content_type("favicon.ico"), ContentType::AvifImage);
}

#[test]
fn content_type_falls_back_to_html() {
    assert_eq!(parse_content_type("README"), ContentType::Html);
    assert_eq!(parse_content_type(""), ContentType::Html);
    assert_eq!(parse_content_type("archive.tar.gz"), ContentType::Html);
    assert_eq!(parse_content_type("photo.jpeg"), ContentType::Html);
}

#[test]
fn content_type_is_case_sensitive() {
    assert_eq!(parse_content_type("photo.PNG"), ContentType::Html);
    assert_eq!(parse_content_type("NOTES.TXT"), ContentType::Html);
    assert_eq!(parse_content_type("site.Css"), ContentType::Html);
}

#[test]
fn content_type_follows_the_order_of_the_tests() {
    assert_eq!(parse_content_type("a.txt.html"), ContentType::Html);
    assert_eq!(parse_content_type("a.html.txt"), ContentType::Html);
    assert_eq!(parse_content_type("a.css.txt"), ContentType::PlainText);
    assert_eq!(parse_content_type("a.txt.css"), ContentType::PlainText);
    assert_eq!(parse_content_type("a.png.css"), ContentType::Css);
    assert_eq!(parse_content_type("a.css.png"), ContentType::Css);
    assert_eq!(parse_content_type("a.ico.jpg.png"), ContentType::AvifImage);
}

#[test]
fn content_type_looks_anywhere_in_the_name() {
    assert_eq!(parse_content_type("notes.txt.bak"), ContentType::PlainText);
    assert_eq!(parse_content_type("page.htmx"), ContentType::Html);
    assert_eq!(parse_content_type(".cssrc"), ContentType::Css);
    assert_eq!(parse_content_type("my.pngs"), ContentType::AvifImage);
}

#[test]
fn content_type_of_a_name_in_bytes() {
    assert_eq!(content_type_for(b"site.css"), ContentType::Css);
    assert_eq!(content_type_for(&[0xff, b'.', b't', b'x', b't']), ContentType::PlainText);
    assert_eq!(content_type_for(&[0xff, 0xfe]), ContentType::Html);
}

#[test]
fn content_type_of_a_name_beyond_ascii() {
    assert_eq!(parse_content_type("r\u{e9}sum\u{e9}.txt"), ContentType::PlainText);
    assert_eq!(parse_content_type("\u{4e16}\u{754c}"), ContentType::Html);
}

#[test]
fn index_response_byte_for_byte() {
    let r = Index.respond();
    assert_eq!(r.status(), HttpStatus::Success);
    assert_eq!(r.header("Content-Type"), Some("text/html"));
    assert_eq!(r.header("Content-Length"), Some("10"));
    assert_eq!(r.body(), Some(&b"Index Page"[..]));
    assert_eq!(
        text(r.as_bytes()),
        "HTTP/1.1 200 OK\r\nContent-Type: text/html\r\nContent-Length: 10\r\n\r\nIndex Page"
    );
}

#[test]
fn not_found_response_byte_for_byte() {
    let r = NotFound.respond();
    assert_eq!(r.status(), HttpStatus::NotFound);
    assert_eq!(r.header("Content-Type"), Some("text/html"));
    assert_eq!(r.header("Content-Length"), Some("14"));
    assert_eq!(r.body(), Some(&b"404 Not Found!"[..]));
    assert_eq!(
        text(r.as_bytes()),
        "HTTP/1.1 404 Not Found\r\nContent-Type: text/html\r\nContent-Length: 14\r\n\r\n404 Not Found!"
    );
}

#[test]
fn index_and_not_found_repeat_themselves() {
    let first = Index.respond().as_bytes();
    for _ in 0..5 {
        assert_eq!(Index.respond().as_bytes(), first);
    }
    let first = NotFound.respond().as_bytes();
    for _ in 0..5 {
        assert_eq!(NotFound.respond().as_bytes(), first);
    }
    assert_ne!(Index.respond().as_bytes(), NotFound.respond().as_bytes());
}

#[test]
fn visit_count_reports_the_count() {
    let r = VisitCount.respond(1);
    assert_eq!(r.status(), HttpStatus::Success);
    assert_eq!(r.header("Content-Type"), Some("text/html"));
    assert_eq!(r.header("Content-Length"), Some("8"));
    assert_eq!(r.body(), Some(&b"1 Times!"[..]));
    assert_eq!(
        text(r.as_bytes()),
        "HTTP/1.1 200 OK\r\nContent-Type: text/html\r\nContent-Length: 8\r\n\r\n1 Times!"
    );
    let r = VisitCount.respond(1234);
    assert_eq!(r.header("Content-Length"), Some("11"));
    assert_eq!(r.body(), Some(&b"1234 Times!"[..]));
    let r = VisitCount.respond(0);
    assert_eq!(r.body(), Some(&b"0 Times!"[..]));
    let r = VisitCount.respond(u64::MAX);
    assert_eq!(r.body(), Some(&b"18446744073709551615 Times!"[..]));
    assert_eq!(r.header("Content-Length"), Some("27"));
}

#[test]
fn counter_starts_at_zero() {
    assert_eq!(SharedData::new().visit_count, 0);
}

#[test]
fn every_visit_is_counted_once() {
    let mut shared = SharedData { visit_count: 41 };
    let mut seen: Vec<u64> = Vec::new();
    for _ in 0..100 {
        let count = shared.record_visit();
        assert!(!seen.contains(&count));
        seen.push(count);
    }
    assert_eq!(shared.visit_count, 141);
    assert_eq!(seen.first(), Some(&42));
    assert_eq!(seen.last(), Some(&141));
}

#[test]
fn visit_is_answered_with_its_own_count() {
    let mut shared = SharedData::new();
    let first = VisitCount.respond(shared.record_visit());
    let second = VisitCount.respond(shared.record_visit());
    assert_eq!(first.body(), Some(&b"1 Times!"[..]));
    assert_eq!(second.body(), Some(&b"2 Times!"[..]));
    assert_eq!(shared.visit_count, 2);
}

#[test]
fn counter_reaches_its_last_value() {
    let mut shared = SharedData { visit_count: u64::MAX - 1 };
    assert_eq!(shared.record_visit(), u64::MAX);
    assert_eq!(shared.visit_count, u64::MAX);
}

#[test]
fn echo_answers_with_the_content_parameter() {
    let echo = Echo { path_buf: b"GET /echo?content=hello HTTP/1.1\r\nHost: x\r\n\r\n" };
    let r = echo.respond();
    assert_eq!(r.status(), HttpStatus::Success);
    assert_eq!(r.header("Content-Type"), Some("text/html"));
    assert_eq!(r.header("Content-Length"), Some("5"));
    assert_eq!(r.body(), Some(&b"hello"[..]));
    assert_eq!(
        text(r.as_bytes()),
        "HTTP/1.1 200 OK\r\nContent-Type: text/html\r\nContent-Length: 5\r\n\r\nhello"
    );
}

#[test]
fn echo_without_content_asks_for_arguments() {
    let echo = Echo { path_buf: b"GET /echo HTTP/1.1\r\n\r\n" };
    let r = echo.respond();
    assert_eq!(r.status(), HttpStatus::Success);
    assert_eq!(r.header("Content-Length"), Some("19"));
    assert_eq!(r.body(), Some(&b"Need some arguments"[..]));
    let echo = Echo { path_buf: b"GET /echo?other=1&contents=2 HTTP/1.1\r\n\r\n" };
    assert_eq!(echo.respond().body(), Some(&b"Need some arguments"[..]));
    let echo = Echo { path_buf: b"" };
    assert_eq!(echo.respond().body(), Some(&b"Need some arguments"[..]));
}

#[test]
fn echo_among_other_parameters() {
    let echo = Echo { path_buf: b"GET /echo?a=1&content=hi+there&b=2 HTTP/1.1" };
    assert_eq!(echo.respond().body(), Some(&b"hi+there"[..]));
    let echo = Echo { path_buf: b"GET /echo?content=first&content=last HTTP/1.1" };
    assert_eq!(echo.respond().body(), Some(&b"last"[..]));
}

#[test]
fn echo_of_an_empty_value() {
    let echo = Echo { path_buf: b"GET /echo?content= HTTP/1.1" };
    let r = echo.respond();
    assert_eq!(r.body(), Some(&b""[..]));
    assert_eq!(r.header("Content-Length"), Some("0"));
}

#[test]
fn confined_names() {
    assert!(is_confined(b"site.css"));
    assert!(is_confined(b"..."));
    assert!(is_confined(b".hidden"));
    assert!(is_confined(b"a..b"));
    assert!(is_confined(&[0xff, 0xfe]));
    assert!(!is_confined(b""));
    assert!(!is_confined(b"."));
    assert!(!is_confined(b".."));
    assert!(!is_confined(b"a/b"));
    assert!(!is_confined(b"/etc"));
    assert!(!is_confined(b"..\\secret"));
    assert!(!is_confined(b"a\0b"));
}

#[test]
fn static_file_names_the_asset() {
    let s = StaticFile { path_buf: b"GET /static/site.css HTTP/1.1\r\nHost: x\r\n\r\n" };
    assert_eq!(s.asset_name(), Some(&b"site.css"[..]));
}

#[test]
fn static_file_takes_the_segment_after_the_marker() {
    let s = StaticFile { path_buf: b"GET /static/img/logo.png HTTP/1.1" };
    assert_eq!(s.asset_name(), Some(&b"img"[..]));
    let s = StaticFile { path_buf: b"GET /static/a.txt/ HTTP/1.1" };
    assert_eq!(s.asset_name(), Some(&b"a.txt"[..]));
    let s = StaticFile { path_buf: b"/static/only" };
    assert_eq!(s.asset_name(), Some(&b"only"[..]));
}

#[test]
fn static_file_refuses_to_leave_the_root() {
    let s = StaticFile { path_buf: b"GET /static/../secret.txt HTTP/1.1" };
    assert_eq!(s.asset_name(), None);
    let s = StaticFile { path_buf: b"GET /static/.. HTTP/1.1" };
    assert_eq!(s.asset_name(), None);
    let s = StaticFile { path_buf: b"GET /static/../../etc/passwd HTTP/1.1" };
    assert_eq!(s.asset_name(), None);
    let s = StaticFile { path_buf: b"GET /static/..\\..\\secret.txt HTTP/1.1" };
    assert_eq!(s.asset_name(), None);
    let s = StaticFile { path_buf: b"GET /static//etc/passwd HTTP/1.1" };
    assert_eq!(s.asset_name(), None);
    let s = StaticFile { path_buf: b"GET /static/./x HTTP/1.1" };
    assert_eq!(s.asset_name(), None);
    let s = StaticFile { path_buf: b"GET /static/ HTTP/1.1" };
    assert_eq!(s.asset_name(), None);
    let s = StaticFile { path_buf: b"GET /static/a\0b HTTP/1.1" };
    assert_eq!(s.asset_name(), None);
}

#[test]
fn static_file_answers_an_escape_with_not_found() {
    let s = StaticFile { path_buf: b"GET /static/../secret.txt HTTP/1.1\r\n\r\n" };
    let expected = NotFound.respond().as_bytes();
    assert_eq!(s.respond(None).as_bytes(), expected);
    assert_eq!(s.respond(Some(b"top secret".to_vec())).as_bytes(), expected);
}

#[test]
fn static_file_wants_the_marker_at_the_start_of_the_token() {
    let s = StaticFile { path_buf: b"GET /files/static/a.txt HTTP/1.1" };
    assert_eq!(s.asset_name(), None);
    let s = StaticFile { path_buf: b"GET http://host/static/a.txt HTTP/1.1" };
    assert_eq!(s.asset_name(), None);
    let s = StaticFile { path_buf: b"GET static/a.txt HTTP/1.1" };
    assert_eq!(s.asset_name(), None);
}

#[test]
fn static_file_without_the_marker_names_nothing() {
    let s = StaticFile { path_buf: b"GET /index.html HTTP/1.1\r\n\r\n" };
    assert_eq!(s.asset_name(), None);
    assert_eq!(s.respond(None).as_bytes(), NotFound.respond().as_bytes());
    let s = StaticFile { path_buf: b"GET /static HTTP/1.1" };
    assert_eq!(s.asset_name(), None);
    let s = StaticFile { path_buf: b"" };
    assert_eq!(s.asset_name(), None);
    let s = StaticFile { path_buf: b"GET /sta tic/a HTTP/1.1" };
    assert_eq!(s.asset_name(), None);
}

#[test]
fn static_file_goes_by_the_first_token_that_holds_the_marker() {
    let s = StaticFile { path_buf: b"GET /static/a.txt /static/b.css HTTP/1.1" };
    assert_eq!(s.asset_name(), Some(&b"a.txt"[..]));
    let r = s.respond(Some(b"A".to_vec()));
    assert_eq!(r.header("Content-Type"), Some("text/plain"));
    let s = StaticFile { path_buf: b"GET /x/static/a.txt /static/b.css HTTP/1.1" };
    assert_eq!(s.asset_name(), None);
    let s = StaticFile { path_buf: b"GET /static/../a /static/b.css HTTP/1.1" };
    assert_eq!(s.asset_name(), None);
    let s = StaticFile { path_buf: b"/static/first GET /other HTTP/1.1" };
    assert_eq!(s.asset_name(), Some(&b"first"[..]));
}

#[test]
fn static_file_serves_what_was_read() {
    let s = StaticFile { path_buf: b"GET /static/site.css HTTP/1.1\r\n\r\n" };
    let file = b"body { margin: 0 }\n".to_vec();
    let r = s.respond(Some(file.clone()));
    assert_eq!(r.status(), HttpStatus::Success);
    assert_eq!(r.header("Content-Type"), Some("text/css"));
    assert_eq!(r.header("Content-Length"), Some("19"));
    assert_eq!(r.body(), Some(&file[..]));
    assert_eq!(
        text(r.as_bytes()),
        "HTTP/1.1 200 OK\r\nContent-Type: text/css\r\nContent-Length: 19\r\n\r\nbody { margin: 0 }\n"
    );
}

#[test]
fn static_file_serves_any_bytes_unchanged() {
    let s = StaticFile { path_buf: b"GET /static/logo.png HTTP/1.1" };
    let file: Vec<u8> = (0u8..=255).rev().collect();
    let r = s.respond(Some(file.clone()));
    assert_eq!(r.status(), HttpStatus::Success);
    assert_eq!(r.header("Content-Type"), Some("image/avif"));
    assert_eq!(r.header("Content-Length"), Some("256"));
    assert_eq!(r.body(), Some(&file[..]));
}

#[test]
fn static_file_serves_an_empty_file() {
    let s = StaticFile { path_buf: b"GET /static/empty.txt HTTP/1.1" };
    let r = s.respond(Some(Vec::new()));
    assert_eq!(r.status(), HttpStatus::Success);
    assert_eq!(r.header("Content-Type"), Some("text/plain"));
    assert_eq!(r.header("Content-Length"), Some("0"));
    assert_eq!(r.body(), Some(&b""[..]));
}

#[test]
fn static_file_serves_unknown_names_as_html() {
    let s = StaticFile { path_buf: b"GET /static/photo.PNG HTTP/1.1" };
    let r = s.respond(Some(b"x".to_vec()));
    assert_eq!(r.header("Content-Type"), Some("text/html"));
}

#[test]
fn static_file_answers_a_failed_read_as_not_found_does() {
    let s = StaticFile { path_buf: b"GET /static/missing.css HTTP/1.1\r\n\r\n" };
    assert_eq!(s.asset_name(), Some(&b"missing.css"[..]));
    let r = s.respond(None);
    assert_eq!(r.status(), HttpStatus::NotFound);
    assert_eq!(r.body(), Some(&b"404 Not Found!"[..]));
    assert_eq!(r.as_bytes(), NotFound.respond().as_bytes());
}
