use tide_testing::message::{Header, Method, Request, Response};
use tide_testing::text::same_ignore_case;

#[test]
fn set_header_replaces_every_header_of_that_name() {
    let mut request = Request::new(Method::Get, "http://example.com/");
    request.headers.push(Header { name: "Accept".to_string(), value: "a".to_string() });
    request.headers.push(Header { name: "X-One".to_string(), value: "1".to_string() });
    request.headers.push(Header { name: "ACCEPT".to_string(), value: "b".to_string() });
    request.set_header("accept", "c");
    assert_eq!(
        request.headers,
        vec![
            Header { name: "X-One".to_string(), value: "1".to_string() },
            Header { name: "accept".to_string(), value: "c".to_string() },
        ]
    );
}

#[test]
fn header_lookup_ignores_ascii_case_only() {
    let mut response = Response::new(200);
    response.append_header("Content-Type", "text/plain");
    response.append_header("content-type", "text/html");
    assert_eq!(response.header("CONTENT-TYPE"), Some("text/plain"));
    assert_eq!(response.header("Content-Typ"), None);
    assert_eq!(response.header("Content_Type"), None);
}

#[test]
fn case_folding_touches_ascii_letters_only() {
    assert!(same_ignore_case("Set-Cookie", "sET-cOOKIE"));
    assert!(same_ignore_case("", ""));
    assert!(!same_ignore_case("a", "ab"));
    assert!(!same_ignore_case("[", "{"));
    assert!(!same_ignore_case("@", "`"));
    assert!(!same_ignore_case("\u{c4}", "\u{e4}"));
    assert!(same_ignore_case("Z9-\u{e4}", "z9-\u{e4}"));
}

#[test]
fn form_request_carries_the_bytes_of_the_text() {
    let request = Request::form(Method::Put, "http://example.com/x", "k=\u{e9}");
    assert_eq!(request.method, Method::Put);
    assert_eq!(request.url, "http://example.com/x");
    assert_eq!(request.body, vec![b'k', b'=', 0xc3, 0xa9]);
    assert_eq!(request.headers.len(), 1);
}

#[test]
fn response_text_and_json_decode_the_body() {
    let mut response = Response::new(200);
    response.body = b"[1, 2, 3]".to_vec();
    assert_eq!(response.text(), Ok("[1, 2, 3]".to_string()));
    let value = response.json().unwrap();
    assert_eq!(value.as_array().map(|a| a.len()), Some(3));
    response.body = b"[1, 2,".to_vec();
    assert!(response.json().is_err());
    response.body = vec![0xc3];
    assert!(response.text().is_err());
    assert!(response.html().is_err());
}
