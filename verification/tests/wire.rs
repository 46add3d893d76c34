use tide_testing::cookie::Cookie;
use tide_testing::jar::CookieJar;
use tide_testing::wire::{format_set_cookie, parse_set_cookie};

fn pairs(cookies: &[Cookie]) -> Vec<(String, String)> {
    cookies.iter().map(|c| (c.name().to_string(), c.value().to_string())).collect()
}

fn pair(name: &str, value: &str) -> (String, String) {
    (name.to_string(), value.to_string())
}

#[test]
fn token_with_name_and_value() {
    let c = Cookie::parse("sid=abc123").unwrap();
    assert_eq!(c.name(), "sid");
    assert_eq!(c.value(), "abc123");
    assert_eq!(c.attributes(), "");
}

#[test]
fn token_keeps_attributes_verbatim() {
    let c = Cookie::parse("sid=abc123; Path=/; Domain=example.com; HttpOnly").unwrap();
    assert_eq!(c.name(), "sid");
    assert_eq!(c.value(), "abc123");
    assert_eq!(c.attributes(), "Path=/; Domain=example.com; HttpOnly");
}

#[test]
fn token_is_trimmed_around_name_and_value() {
    let c = Cookie::parse("  sid \t=  abc 123 ;  Path=/  ").unwrap();
    assert_eq!(c.name(), "sid");
    assert_eq!(c.value(), "abc 123");
    assert_eq!(c.attributes(), "Path=/");
}

#[test]
fn token_value_may_hold_equal_signs() {
    let c = Cookie::parse("data=a=b=c").unwrap();
    assert_eq!(c.name(), "data");
    assert_eq!(c.value(), "a=b=c");
}

#[test]
fn token_with_empty_value_is_a_deletion() {
    let c = Cookie::parse("sid=; Max-Age=0").unwrap();
    assert_eq!(c.name(), "sid");
    assert!(c.is_deletion());
    assert_eq!(c.attributes(), "Max-Age=0");
}

#[test]
fn token_without_equal_sign_is_malformed() {
    assert_eq!(Cookie::parse("garbage"), None);
    assert_eq!(Cookie::parse(""), None);
    assert_eq!(Cookie::parse("flag; a=1"), None);
}

#[test]
fn token_with_empty_name_is_malformed() {
    assert_eq!(Cookie::parse("=value"), None);
    assert_eq!(Cookie::parse("   =value"), None);
}

#[test]
fn header_with_two_tokens() {
    let cookies = CookieJar::from_response_header("[\"a=1\", \"b=2; Path=/\"]");
    assert_eq!(pairs(&cookies), vec![pair("a", "1"), pair("b", "2")]);
    assert_eq!(cookies[1].attributes(), "Path=/");
}

#[test]
fn header_with_one_token() {
    let cookies = CookieJar::from_response_header("[\"sid=abc123; Path=/; HttpOnly\"]");
    assert_eq!(cookies, vec![Cookie::with_attributes("sid", "abc123", "Path=/; HttpOnly")]);
}

#[test]
fn malformed_token_does_not_drop_the_others() {
    let cookies = CookieJar::from_response_header("[\"a=1\", \"no equal sign\", \"b=2\"]");
    assert_eq!(pairs(&cookies), vec![pair("a", "1"), pair("b", "2")]);
    let mut jar = CookieJar::new();
    jar.merge(cookies);
    assert_eq!(jar.render_header_value(), "a=1; b=2");
}

#[test]
fn malformed_item_does_not_drop_the_others() {
    let cookies = CookieJar::from_response_header("[\"a=1\", 17, , b=2, \"c=3\"]");
    assert_eq!(pairs(&cookies), vec![pair("a", "1"), pair("c", "3")]);
}

#[test]
fn item_with_stray_quote_is_malformed() {
    let cookies = CookieJar::from_response_header("[\"a=1\", \"b=\"2\"\", \"c=3\"]");
    assert_eq!(pairs(&cookies), vec![pair("a", "1"), pair("c", "3")]);
}

#[test]
fn comma_inside_quotes_does_not_split() {
    let cookies =
        CookieJar::from_response_header("[\"a=1; Expires=Wed, 21 Oct 2015 07:28:00 GMT\", \"b=2\"]");
    assert_eq!(pairs(&cookies), vec![pair("a", "1"), pair("b", "2")]);
    assert_eq!(cookies[0].attributes(), "Expires=Wed, 21 Oct 2015 07:28:00 GMT");
}

#[test]
fn escapes_are_resolved() {
    let cookies = CookieJar::from_response_header("[\"a=say \\\"hi\\\"\", \"b=back\\\\slash\"]");
    assert_eq!(pairs(&cookies), vec![pair("a", "say \"hi\""), pair("b", "back\\slash")]);
}

#[test]
fn blanks_around_brackets_and_items_are_ignored() {
    let cookies = CookieJar::from_response_header("  [  \"a=1\"  ,\t\"b=2\"  ]  ");
    assert_eq!(pairs(&cookies), vec![pair("a", "1"), pair("b", "2")]);
}

#[test]
fn empty_list_holds_no_cookie() {
    assert!(CookieJar::from_response_header("[]").is_empty());
    assert!(CookieJar::from_response_header("[   ]").is_empty());
}

#[test]
fn unparseable_header_holds_no_cookie() {
    assert!(CookieJar::from_response_header("").is_empty());
    assert!(CookieJar::from_response_header("a=1; Path=/").is_empty());
    assert!(CookieJar::from_response_header("[\"a=1\"").is_empty());
    assert!(CookieJar::from_response_header("\"a=1\"]").is_empty());
    assert!(CookieJar::from_response_header("{\"a\": 1}").is_empty());
    assert!(CookieJar::from_response_header("]").is_empty());
}

#[test]
fn unterminated_quote_swallows_the_rest() {
    let cookies = CookieJar::from_response_header("[\"a=1\", \"b=2, \"c=3\"]");
    assert_eq!(pairs(&cookies), vec![pair("a", "1")]);
}

#[test]
fn deletion_directive_in_header_is_kept_for_merge() {
    let cookies = parse_set_cookie("[\"sid=; Max-Age=0\", \"theme=dark\"]");
    assert_eq!(pairs(&cookies), vec![pair("sid", ""), pair("theme", "dark")]);
    let mut jar = CookieJar::new();
    jar.add(Cookie::new("sid", "abc"));
    jar.merge(cookies);
    assert_eq!(jar.lookup("sid"), None);
    assert_eq!(jar.render_header_value(), "theme=dark");
}

#[test]
fn non_ascii_text_is_kept() {
    let cookies = CookieJar::from_response_header("[\"name=J\u{fc}rgen \u{2603}\"]");
    assert_eq!(pairs(&cookies), vec![pair("name", "J\u{fc}rgen \u{2603}")]);
}

#[test]
fn format_writes_a_bracketed_list_of_quoted_tokens() {
    let tokens = vec!["a=1; Path=/".to_string(), "b=2".to_string()];
    assert_eq!(format_set_cookie(&tokens), "[\"a=1; Path=/\", \"b=2\"]");
    assert_eq!(format_set_cookie(&Vec::new()), "[]");
    assert_eq!(format_set_cookie(&vec!["x=y".to_string()]), "[\"x=y\"]");
}

#[test]
fn format_escapes_quotes_and_backslashes() {
    let tokens = vec!["a=\"q\"".to_string(), "b=c:\\d".to_string()];
    assert_eq!(format_set_cookie(&tokens), "[\"a=\\\"q\\\"\", \"b=c:\\\\d\"]");
}

#[test]
fn formatted_list_reads_back_without_its_malformed_tokens() {
    let tokens = vec![
        "a=1, 2, 3; Expires=Wed, 21 Oct 2015".to_string(),
        "no equal sign, \"quoted\" \\ ]".to_string(),
        "b=\"two\"".to_string(),
        "".to_string(),
        "c=back\\slash\\".to_string(),
        "=nameless".to_string(),
        "d=[1,2]".to_string(),
    ];
    let read = parse_set_cookie(&format_set_cookie(&tokens));
    assert_eq!(
        pairs(&read),
        vec![
            pair("a", "1, 2, 3"),
            pair("b", "\"two\""),
            pair("c", "back\\slash\\"),
            pair("d", "[1,2]"),
        ]
    );
    let direct: Vec<Cookie> = tokens.iter().filter_map(|t| Cookie::parse(t)).collect();
    assert_eq!(read, direct);
}
