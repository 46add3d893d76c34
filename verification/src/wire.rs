//! The text form in which a response carries its cookie-setting tokens.
//!
//! The header value is one list: `[` item `,` item ... `]`, with optional
//! blanks around the brackets and the items. An item is a token between
//! double quotes, in which `\` makes the next character literal. Anything
//! else between two commas is a malformed item. A malformed item, or a
//! malformed token inside a well-formed item, is left out; the other items
//! of the list still count. A value that is no list at all holds no cookie.
use crate::cookie::{parse_token, Cookie, CookieView};
use crate::jar::views;
use crate::laws::law_listed_tokens_are_read;
use crate::text::{chars_of, trim, trim_span};
use vstd::prelude::*;

verus! {

/// Length of the first item of `s`: the number of characters before the
/// first comma that stands outside quotes, or `s.len()` if there is none.
/// `quoted` says whether `s` starts inside quotes.
pub open spec fn item_len(s: Seq<char>, quoted: bool) -> nat
    decreases s.len(),
{
    if s.len() == 0 {
        0
    } else if quoted {
        if s[0] == '\\' && s.len() >= 2 {
            2 + item_len(s.skip(2), true)
        } else if s[0] == '"' {
            1 + item_len(s.skip(1), false)
        } else {
            1 + item_len(s.skip(1), true)
        }
    } else {
        if s[0] == ',' {
            0
        } else if s[0] == '"' {
            1 + item_len(s.skip(1), true)
        } else {
            1 + item_len(s.skip(1), false)
        }
    }
}

/// The items of a list body, as written: the pieces between the commas
/// that stand outside quotes. There is always at least one piece.
pub open spec fn items(s: Seq<char>) -> Seq<Seq<char>>
    decreases s.len(),
{
    let n = item_len(s, false);
    if n < s.len() {
        seq![s.take(n as int)] + items(s.skip(n as int + 1))
    } else {
        seq![s]
    }
}

/// The text that stands between the quotes of an item, with each escape
/// replaced by the character it protects. `None` if a quote stands
/// unescaped in it or a `\` ends it.
pub open spec fn unescaped(s: Seq<char>) -> Option<Seq<char>>
    decreases s.len(),
{
    if s.len() == 0 {
        Some(Seq::empty())
    } else if s[0] == '"' {
        None
    } else if s[0] == '\\' {
        if s.len() >= 2 {
            match unescaped(s.skip(2)) {
                Some(r) => Some(seq![s[1]] + r),
                None => None,
            }
        } else {
            None
        }
    } else {
        match unescaped(s.skip(1)) {
            Some(r) => Some(seq![s[0]] + r),
            None => None,
        }
    }
}

/// The token that an item holds, or `None` for a malformed item.
pub open spec fn item_text(piece: Seq<char>) -> Option<Seq<char>> {
    let t = trim(piece);
    if t.len() >= 2 && t[0] == '"' && t.last() == '"' {
        unescaped(t.subrange(1, t.len() - 1))
    } else {
        None
    }
}

/// The cookie that an item stands for, or `None` if the item or its token
/// is malformed.
pub open spec fn item_cookie(piece: Seq<char>) -> Option<CookieView> {
    match item_text(piece) {
        Some(t) => parse_token(t),
        None => None,
    }
}

/// The cookies of a sequence of items, in order, the malformed items left
/// out.
pub open spec fn cookies_of_items(pieces: Seq<Seq<char>>) -> Seq<CookieView> {
    pieces.filter_map(|p: Seq<char>| item_cookie(p))
}

/// What stands between the brackets of a header value, or `None` if the
/// value is not a bracketed list.
pub open spec fn list_body(s: Seq<char>) -> Option<Seq<char>> {
    let t = trim(s);
    if t.len() >= 2 && t[0] == '[' && t.last() == ']' {
        Some(t.subrange(1, t.len() - 1))
    } else {
        None
    }
}

/// The cookies that a header value sets, in the order of the list.
pub open spec fn parse_header(s: Seq<char>) -> Seq<CookieView> {
    match list_body(s) {
        Some(body) => cookies_of_items(items(body)),
        None => Seq::empty(),
    }
}

/// The cookies of a sequence of tokens, in order, the malformed tokens left
/// out.
pub open spec fn cookies_of_tokens(tokens: Seq<Seq<char>>) -> Seq<CookieView> {
    tokens.filter_map(|t: Seq<char>| parse_token(t))
}

/// A token as it stands between the quotes of an item: with `\` before
/// each `"` and each `\`.
pub open spec fn escaped(t: Seq<char>) -> Seq<char>
    decreases t.len(),
{
    if t.len() == 0 {
        Seq::empty()
    } else if t[0] == '"' || t[0] == '\\' {
        seq!['\\', t[0]] + escaped(t.skip(1))
    } else {
        seq![t[0]] + escaped(t.skip(1))
    }
}

/// The item that holds the token `t`.
pub open spec fn quoted(t: Seq<char>) -> Seq<char> {
    seq!['"'] + escaped(t) + seq!['"']
}

/// The items of `tokens`, joined by a comma and a space.
pub open spec fn joined(tokens: Seq<Seq<char>>) -> Seq<char>
    decreases tokens.len(),
{
    if tokens.len() == 0 {
        Seq::empty()
    } else if tokens.len() == 1 {
        quoted(tokens[0])
    } else {
        quoted(tokens[0]) + seq![',', ' '] + joined(tokens.skip(1))
    }
}

/// The header value that lists `tokens`.
pub open spec fn listed(tokens: Seq<Seq<char>>) -> Seq<char> {
    seq!['['] + joined(tokens) + seq![']']
}

/// The texts of a sequence of strings, in order.
pub open spec fn texts(v: Seq<String>) -> Seq<Seq<char>> {
    v.map_values(|t: String| t@)
}

/// End of the item that starts at `from`: the index of the next comma
/// outside quotes, or `to`.
fn scan_item(v: &Vec<char>, from: usize, to: usize) -> (e: usize)
    requires
        from <= to <= v.len(),
    ensures
        from <= e <= to,
        e - from == item_len(v@.subrange(from as int, to as int), false),
{
    let mut i: usize = from;
    let mut quoted = false;
    loop
        invariant
            from <= i <= to <= v.len(),
            item_len(v@.subrange(from as int, to as int), false) == (i - from) + item_len(
                v@.subrange(i as int, to as int),
                quoted,
            ),
        ensures
            from <= i <= to,
            i - from == item_len(v@.subrange(from as int, to as int), false),
        decreases to - i,
    {
        if i >= to {
            break ;
        }
        let c = v[i];
        let ghost rest = v@.subrange(i as int, to as int);
        proof {
            assert(rest.skip(1) =~= v@.subrange(i as int + 1, to as int));
            assert(rest[0] == c);
        }
        if quoted {
            if c == '\\' && to - i >= 2 {
                proof {
                    assert(rest.skip(2) =~= v@.subrange(i as int + 2, to as int));
                }
                i += 2;
            } else {
                if c == '"' {
                    quoted = false;
                }
                i += 1;
            }
        } else {
            if c == ',' {
                break ;
            }
            if c == '"' {
                quoted = true;
            }
            i += 1;
        }
    }
    i
}

/// The text between the quotes at `from..to`, escapes resolved.
fn unescape(v: &Vec<char>, from: usize, to: usize) -> (r: Option<Vec<char>>)
    requires
        from <= to <= v.len(),
    ensures
        match r {
            Some(t) => unescaped(v@.subrange(from as int, to as int)) == Some(t@),
            None => unescaped(v@.subrange(from as int, to as int)).is_none(),
        },
{
    let ghost whole = v@.subrange(from as int, to as int);
    let mut out: Vec<char> = Vec::new();
    let mut i: usize = from;
    while i < to
        invariant
            from <= i <= to <= v.len(),
            whole == v@.subrange(from as int, to as int),
            match unescaped(v@.subrange(i as int, to as int)) {
                Some(r) => unescaped(whole) == Some(out@ + r),
                None => unescaped(whole).is_none(),
            },
        decreases to - i,
    {
        let c = v[i];
        let ghost rest = v@.subrange(i as int, to as int);
        proof {
            assert(rest.skip(1) =~= v@.subrange(i as int + 1, to as int));
            assert(rest[0] == c);
        }
        if c == '"' {
            return None;
        } else if c == '\\' {
            if to - i < 2 {
                return None;
            }
            proof {
                assert(rest.skip(2) =~= v@.subrange(i as int + 2, to as int));
                assert(rest[1] == v@[i as int + 1]);
                match unescaped(rest.skip(2)) {
                    Some(r) => {
                        assert(out@.push(rest[1]) + r =~= out@ + (seq![rest[1]] + r));
                    },
                    None => {},
                }
            }
            out.push(v[i + 1]);
            i += 2;
        } else {
            proof {
                match unescaped(rest.skip(1)) {
                    Some(r) => {
                        assert(out@.push(c) + r =~= out@ + (seq![c] + r));
                    },
                    None => {},
                }
            }
            out.push(c);
            i += 1;
        }
    }
    proof {
        assert(out@ + Seq::<char>::empty() =~= out@);
    }
    Some(out)
}

/// Reads the item at `from..to`.
fn parse_item(v: &Vec<char>, from: usize, to: usize) -> (r: Option<Cookie>)
    requires
        from <= to <= v.len(),
    ensures
        match r {
            Some(c) => item_cookie(v@.subrange(from as int, to as int)) == Some(c@),
            None => item_cookie(v@.subrange(from as int, to as int)).is_none(),
        },
{
    let (a, b) = trim_span(v, from, to);
    let ghost t = v@.subrange(a as int, b as int);
    if b - a >= 2 && v[a] == '"' && v[b - 1] == '"' {
        proof {
            assert(t.subrange(1, t.len() - 1) =~= v@.subrange(a as int + 1, b as int - 1));
        }
        match unescape(v, a + 1, b - 1) {
            Some(token) => Cookie::parse_chars(&token),
            None => None,
        }
    } else {
        None
    }
}

/// Bounds of what stands between the brackets of `v`.
fn list_span(v: &Vec<char>) -> (r: Option<(usize, usize)>)
    ensures
        match r {
            Some((a, b)) => a <= b <= v.len() && list_body(v@) == Some(
                v@.subrange(a as int, b as int),
            ),
            None => list_body(v@).is_none(),
        },
{
    let (a, b) = trim_span(v, 0, v.len());
    let ghost t = v@.subrange(a as int, b as int);
    proof {
        assert(v@.subrange(0, v.len() as int) =~= v@);
    }
    if b - a >= 2 && v[a] == '[' && v[b - 1] == ']' {
        proof {
            assert(t.subrange(1, t.len() - 1) =~= v@.subrange(a as int + 1, b as int - 1));
        }
        Some((a + 1, b - 1))
    } else {
        None
    }
}

/// Reads the cookies that a header value sets. Malformed entries are left
/// out; a value that is no list gives no cookie.
pub fn parse_set_cookie(raw: &str) -> (cookies: Vec<Cookie>)
    ensures
        views(cookies@) == parse_header(raw@),
{
    let v = chars_of(raw);
    let mut out: Vec<Cookie> = Vec::new();
    let (a, b) = match list_span(&v) {
        Some(span) => span,
        None => {
            assert(views(out@) =~= Seq::<CookieView>::empty());
            return out;
        },
    };
    let ghost body = v@.subrange(a as int, b as int);
    let ghost mut done: Seq<Seq<char>> = Seq::empty();
    let mut pos: usize = a;
    let mut more = true;
    proof {
        assert(done + items(body) =~= items(body));
        assert(views(out@) =~= cookies_of_items(done));
    }
    while more
        invariant
            a <= pos <= b <= v.len(),
            body == v@.subrange(a as int, b as int),
            more ==> items(body) == done + items(v@.subrange(pos as int, b as int)),
            !more ==> items(body) == done,
            views(out@) == cookies_of_items(done),
        decreases (b - pos) + (if more { 1int } else { 0int }),
    {
        let e = scan_item(&v, pos, b);
        let ghost rest = v@.subrange(pos as int, b as int);
        let ghost piece = v@.subrange(pos as int, e as int);
        let ghost before = done;
        let ghost held = views(out@);
        proof {
            assert(rest.take(e - pos) =~= piece);
            assert(before.push(piece).drop_last() =~= before);
        }
        match parse_item(&v, pos, e) {
            Some(c) => {
                proof {
                    assert(views(out@.push(c)) =~= held + seq![c@]);
                }
                out.push(c);
            },
            None => {},
        }
        proof {
            done = before.push(piece);
        }
        if e < b {
            proof {
                assert(rest.skip(e - pos + 1) =~= v@.subrange(e as int + 1, b as int));
                assert(before + (seq![piece] + items(v@.subrange(e as int + 1, b as int)))
                    =~= done + items(v@.subrange(e as int + 1, b as int)));
            }
            pos = e + 1;
        } else {
            proof {
                assert(rest =~= piece);
                assert(before + seq![piece] =~= done);
            }
            more = false;
        }
    }
    out
}

/// Appends the item that holds `token` to `out`.
fn push_quoted(out: &mut String, token: &str)
    ensures
        final(out)@ == old(out)@ + quoted(token@),
{
    let v = chars_of(token);
    out.push('"');
    let ghost start = out@;
    let mut i: usize = 0;
    proof {
        assert(v@.skip(0) =~= v@);
        assert(start + escaped(v@) =~= out@ + escaped(v@.skip(0)));
    }
    while i < v.len()
        invariant
            i <= v.len(),
            start + escaped(v@) == out@ + escaped(v@.skip(i as int)),
        decreases v.len() - i,
    {
        let c = v[i];
        let ghost rest = v@.skip(i as int);
        let ghost before = out@;
        proof {
            assert(rest.skip(1) =~= v@.skip(i as int + 1));
            assert(rest[0] == c);
        }
        if c == '"' || c == '\\' {
            out.push('\\');
            proof {
                assert(before.push('\\').push(c) + escaped(rest.skip(1)) =~= before + (seq![
                    '\\',
                    c,
                ] + escaped(rest.skip(1))));
            }
        } else {
            proof {
                assert(before.push(c) + escaped(rest.skip(1)) =~= before + (seq![c] + escaped(
                    rest.skip(1),
                )));
            }
        }
        out.push(c);
        i += 1;
    }
    out.push('"');
    proof {
        assert(escaped(v@.skip(v@.len() as int)) =~= Seq::<char>::empty());
        assert(out@ =~= old(out)@ + quoted(token@));
    }
}

/// Writes the header value that lists `tokens`: each token between double
/// quotes, the items joined by a comma and a space, the list in brackets.
/// Reading the value back gives the cookies of the well-formed tokens.
pub fn format_set_cookie(tokens: &Vec<String>) -> (s: String)
    ensures
        s@ == listed(texts(tokens@)),
        parse_header(s@) == cookies_of_tokens(texts(tokens@)),
{
    let ghost all = texts(tokens@);
    let mut out = String::new();
    out.push('[');
    let mut i: usize = 0;
    proof {
        assert(all.skip(0) =~= all);
    }
    while i < tokens.len()
        invariant
            i <= tokens.len(),
            all == texts(tokens@),
            seq!['['] + joined(all) == out@ + joined(all.skip(i as int)),
        decreases tokens.len() - i,
    {
        let ghost rest = all.skip(i as int);
        let ghost before = out@;
        proof {
            assert(rest.skip(1) =~= all.skip(i as int + 1));
            assert(rest[0] == tokens@[i as int]@);
        }
        push_quoted(&mut out, tokens[i].as_str());
        if tokens.len() - i >= 2 {
            out.push(',');
            out.push(' ');
            proof {
                assert(out@ + joined(rest.skip(1)) =~= before + (quoted(rest[0]) + seq![
                    ',',
                    ' ',
                ] + joined(rest.skip(1))));
            }
        } else {
            proof {
                assert(joined(rest.skip(1)) =~= Seq::<char>::empty());
                assert(out@ + joined(rest.skip(1)) =~= before + quoted(rest[0]));
            }
        }
        i += 1;
    }
    proof {
        assert(joined(all.skip(all.len() as int)) =~= Seq::<char>::empty());
        assert(out@.push(']') =~= listed(all));
        law_listed_tokens_are_read(all);
    }
    out.push(']');
    out
}

} // verus!
