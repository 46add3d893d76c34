//! A single cookie and the text form of one cookie-setting token.
//!
//! A token reads `name=value`, optionally followed by `;` and attributes
//! (path, domain, flags). The attributes are kept as written and never
//! interpreted.
use crate::text::{chars_of, find_char, index_of, text_of, trim, trim_span};
use vstd::prelude::*;

verus! {

/// What a cookie is, as plain text.
pub ghost struct CookieView {
    pub name: Seq<char>,
    pub value: Seq<char>,
    pub attributes: Seq<char>,
}

/// A name/value pair with the attributes it was set with. A cookie cannot
/// be changed once it is made.
#[derive(Debug, PartialEq, Eq)]
pub struct Cookie {
    name: String,
    value: String,
    attributes: String,
}

impl View for Cookie {
    type V = CookieView;

    closed spec fn view(&self) -> CookieView {
        CookieView { name: self.name@, value: self.value@, attributes: self.attributes@ }
    }
}

/// The cookie that a token stands for, or `None` for a malformed token:
/// one without `=` before its first `;`, or with an empty name.
pub open spec fn parse_token(s: Seq<char>) -> Option<CookieView> {
    let semi = index_of(s, ';');
    let head = s.take(semi);
    let eq = index_of(head, '=');
    let name = trim(head.take(eq));
    if eq == head.len() || name.len() == 0 {
        None
    } else {
        Some(
            CookieView {
                name,
                value: trim(head.skip(eq + 1)),
                attributes: if semi < s.len() {
                    trim(s.skip(semi + 1))
                } else {
                    Seq::empty()
                },
            },
        )
    }
}

/// The `name=value` form in which a cookie is sent back.
pub open spec fn pair_text(c: CookieView) -> Seq<char> {
    c.name + seq!['='] + c.value
}

/// Whether a cookie is a deletion directive: one with an empty value.
pub open spec fn is_deletion(c: CookieView) -> bool {
    c.value.len() == 0
}

impl Clone for Cookie {
    fn clone(&self) -> (r: Self)
        ensures
            r@ == self@,
    {
        Cookie {
            name: self.name.clone(),
            value: self.value.clone(),
            attributes: self.attributes.clone(),
        }
    }
}

impl Cookie {
    /// A cookie with the given name and value and no attributes.
    pub fn new(name: &str, value: &str) -> (c: Cookie)
        ensures
            c@ == (CookieView { name: name@, value: value@, attributes: Seq::empty() }),
    {
        Cookie { name: name.to_owned(), value: value.to_owned(), attributes: String::new() }
    }

    /// A cookie with the given name, value and attribute text.
    pub fn with_attributes(name: &str, value: &str, attributes: &str) -> (c: Cookie)
        ensures
            c@ == (CookieView { name: name@, value: value@, attributes: attributes@ }),
    {
        Cookie {
            name: name.to_owned(),
            value: value.to_owned(),
            attributes: attributes.to_owned(),
        }
    }

    pub fn name(&self) -> (r: &str)
        ensures
            r@ == self@.name,
    {
        self.name.as_str()
    }

    pub fn value(&self) -> (r: &str)
        ensures
            r@ == self@.value,
    {
        self.value.as_str()
    }

    /// The attribute text as it was written after the first `;`, or the
    /// empty text.
    pub fn attributes(&self) -> (r: &str)
        ensures
            r@ == self@.attributes,
    {
        self.attributes.as_str()
    }

    /// Whether the cookie asks for removal, that is, has an empty value.
    pub fn is_deletion(&self) -> (r: bool)
        ensures
            r == is_deletion(self@),
    {
        self.value.as_str().is_empty()
    }

    /// Reads one token. Returns `None` exactly for a malformed token.
    pub fn parse(token: &str) -> (r: Option<Cookie>)
        ensures
            match r {
                Some(c) => parse_token(token@) == Some(c@),
                None => parse_token(token@).is_none(),
            },
    {
        let v = chars_of(token);
        Cookie::parse_chars(&v)
    }

    /// Reads one token given as characters.
    pub(crate) fn parse_chars(v: &Vec<char>) -> (r: Option<Cookie>)
        ensures
            match r {
                Some(c) => parse_token(v@) == Some(c@),
                None => parse_token(v@).is_none(),
            },
    {
        let n = v.len();
        let semi = find_char(v, 0, n, ';');
        let eq = find_char(v, 0, semi, '=');
        proof {
            assert(v@.subrange(0, n as int) =~= v@);
            assert(v@.subrange(0, semi as int) =~= v@.take(semi as int));
        }
        let ghost head = v@.take(semi as int);
        let (a, b) = trim_span(v, 0, eq);
        proof {
            assert(v@.subrange(0, eq as int) =~= head.take(eq as int));
        }
        if eq == semi || a == b {
            return None;
        }
        let (c, d) = trim_span(v, eq + 1, semi);
        proof {
            assert(v@.subrange(eq as int + 1, semi as int) =~= head.skip(eq as int + 1));
        }
        let attributes = if semi < n {
            let (e, f) = trim_span(v, semi + 1, n);
            proof {
                assert(v@.subrange(semi as int + 1, n as int) =~= v@.skip(semi as int + 1));
            }
            text_of(v, e, f)
        } else {
            String::new()
        };
        Some(Cookie { name: text_of(v, a, b), value: text_of(v, c, d), attributes })
    }

    /// The `name=value` form of the cookie.
    pub fn pair(&self) -> (s: String)
        ensures
            s@ == pair_text(self@),
    {
        let mut s = self.name.clone();
        s.push('=');
        s.append(self.value.as_str());
        s
    }
}

} // verus!
