use tide_testing::cookie::Cookie;
use tide_testing::jar::CookieJar;

fn names(jar: &CookieJar) -> Vec<String> {
    let mut out = Vec::new();
    let mut i = 0;
    while i < jar.len() {
        out.push(jar.get(i).name().to_string());
        i += 1;
    }
    out
}

#[test]
fn new_jar_is_empty() {
    let jar = CookieJar::new();
    assert!(jar.is_empty());
    assert_eq!(jar.len(), 0);
    assert_eq!(jar.render_header_value(), "");
}

#[test]
fn merged_cookie_is_found() {
    let mut jar = CookieJar::new();
    let c = Cookie::with_attributes("sid", "abc123", "Path=/; HttpOnly");
    jar.merge(vec![c.clone()]);
    assert_eq!(jar.lookup("sid"), Some(&c));
    assert_eq!(jar.len(), 1);
}

#[test]
fn empty_value_removes_cookie() {
    let mut jar = CookieJar::new();
    jar.add(Cookie::new("sid", "abc123"));
    assert!(jar.lookup("sid").is_some());
    jar.merge(vec![Cookie::new("sid", "")]);
    assert_eq!(jar.lookup("sid"), None);
    assert!(jar.is_empty());
}

#[test]
fn render_joins_pairs() {
    let mut jar = CookieJar::new();
    jar.merge(vec![Cookie::new("a", "1"), Cookie::new("b", "2")]);
    let text = jar.render_header_value();
    assert_eq!(text, "a=1; b=2");
    assert_eq!(text.matches("a=1").count(), 1);
    assert_eq!(text.matches("b=2").count(), 1);
    assert_eq!(text.matches("; ").count(), 1);
}

#[test]
fn render_single_cookie_has_no_separator() {
    let mut jar = CookieJar::new();
    jar.add(Cookie::new("only", "one"));
    assert_eq!(jar.render_header_value(), "only=one");
}

#[test]
fn render_leaves_attributes_out() {
    let mut jar = CookieJar::new();
    jar.add(Cookie::with_attributes("sid", "x", "Path=/; Secure"));
    jar.add(Cookie::new("theme", "dark"));
    jar.add(Cookie::new("lang", "en"));
    assert_eq!(jar.render_header_value(), "sid=x; theme=dark; lang=en");
}

#[test]
fn merge_is_idempotent() {
    let c = Cookie::new("a", "1");
    let mut once = CookieJar::new();
    once.add(Cookie::new("z", "26"));
    once.merge(vec![c.clone()]);
    let mut twice = CookieJar::new();
    twice.add(Cookie::new("z", "26"));
    twice.merge(vec![c.clone()]);
    twice.merge(vec![c.clone()]);
    assert_eq!(once.render_header_value(), twice.render_header_value());
    assert_eq!(names(&once), names(&twice));
    assert_eq!(twice.len(), 2);
    assert_eq!(twice.lookup("a"), Some(&c));
}

#[test]
fn add_replaces_same_name() {
    let mut jar = CookieJar::new();
    jar.add(Cookie::new("a", "1"));
    jar.add(Cookie::new("b", "2"));
    jar.add(Cookie::new("a", "3"));
    assert_eq!(jar.len(), 2);
    assert_eq!(jar.lookup("a").map(|c| c.value().to_string()), Some("3".to_string()));
    assert_eq!(names(&jar), vec!["b".to_string(), "a".to_string()]);
    assert_eq!(jar.render_header_value(), "b=2; a=3");
}

#[test]
fn remove_deletes_only_that_name() {
    let mut jar = CookieJar::new();
    jar.add(Cookie::new("a", "1"));
    jar.add(Cookie::new("b", "2"));
    jar.add(Cookie::new("c", "3"));
    jar.remove("b");
    assert_eq!(names(&jar), vec!["a".to_string(), "c".to_string()]);
    assert_eq!(jar.lookup("b"), None);
}

#[test]
fn remove_of_absent_name_changes_nothing() {
    let mut jar = CookieJar::new();
    jar.add(Cookie::new("a", "1"));
    jar.remove("missing");
    assert_eq!(jar.len(), 1);
    assert_eq!(jar.render_header_value(), "a=1");
}

#[test]
fn lookup_of_unknown_name_is_absent() {
    let mut jar = CookieJar::new();
    jar.add(Cookie::new("a", "1"));
    assert_eq!(jar.lookup("A"), None);
    assert_eq!(jar.lookup(""), None);
    assert_eq!(jar.lookup("b"), None);
}

#[test]
fn clear_then_set_in_one_batch_keeps_cookie() {
    let mut jar = CookieJar::new();
    jar.add(Cookie::new("sid", "old"));
    jar.merge(vec![Cookie::new("sid", ""), Cookie::new("sid", "new")]);
    assert_eq!(jar.lookup("sid").map(|c| c.value().to_string()), Some("new".to_string()));
    assert_eq!(jar.len(), 1);
}

#[test]
fn set_then_clear_in_one_batch_removes_cookie() {
    let mut jar = CookieJar::new();
    jar.merge(vec![Cookie::new("sid", "new"), Cookie::new("sid", "")]);
    assert_eq!(jar.lookup("sid"), None);
    assert!(jar.is_empty());
}

#[test]
fn deletion_of_absent_name_is_no_op() {
    let mut jar = CookieJar::new();
    jar.add(Cookie::new("a", "1"));
    jar.merge(vec![Cookie::new("b", "")]);
    assert_eq!(jar.render_header_value(), "a=1");
}

#[test]
fn apply_follows_value_emptiness() {
    let mut jar = CookieJar::new();
    jar.apply(Cookie::new("a", "1"));
    assert_eq!(jar.len(), 1);
    jar.apply(Cookie::new("a", ""));
    assert_eq!(jar.len(), 0);
}

#[test]
fn merge_of_empty_batch_changes_nothing() {
    let mut jar = CookieJar::new();
    jar.add(Cookie::new("a", "1"));
    jar.merge(Vec::new());
    assert_eq!(jar.render_header_value(), "a=1");
}

#[test]
fn jar_never_holds_a_name_twice() {
    let mut jar = CookieJar::new();
    jar.merge(vec![
        Cookie::new("a", "1"),
        Cookie::new("b", "2"),
        Cookie::new("a", "3"),
        Cookie::new("b", "4"),
        Cookie::new("a", "5"),
    ]);
    let mut seen = names(&jar);
    seen.sort();
    assert_eq!(seen, vec!["a".to_string(), "b".to_string()]);
    assert_eq!(jar.render_header_value(), "b=4; a=5");
}

#[test]
fn cookie_accessors_give_the_parts() {
    let c = Cookie::with_attributes("n", "v", "Path=/");
    assert_eq!(c.name(), "n");
    assert_eq!(c.value(), "v");
    assert_eq!(c.attributes(), "Path=/");
    assert_eq!(c.pair(), "n=v");
    assert!(!c.is_deletion());
    assert!(Cookie::new("n", "").is_deletion());
    assert_eq!(Cookie::new("n", "v").attributes(), "");
}
