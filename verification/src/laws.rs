//! Laws of the cookie jar and of the header format, stated over the spec
//! functions that the contracts of the library use.
use crate::cookie::{is_deletion, parse_token, CookieView};
use crate::jar::{
    applied, distinct_names, found, lemma_applied_distinct, lemma_found_at, lemma_found_none,
    lemma_named_without, lemma_without_absent, lemma_without_props, merged, named, with_cookie,
    without,
};
use crate::message::ResponseView;
use crate::session::absorbed;
use crate::text::{is_blank, trim, trim_start};
use crate::wire::{
    cookies_of_items, cookies_of_tokens, escaped, item_cookie, item_len, item_text, items,
    joined, list_body, listed, parse_header, quoted, unescaped,
};
use vstd::prelude::*;

verus! {

/// Adding is last-write-wins: after `c` was added, looking up its name
/// gives `c`, whatever the jar held before.
pub proof fn law_added_cookie_is_found(jar: Seq<CookieView>, c: CookieView)
    ensures
        found(with_cookie(jar, c), c.name) == Some(c),
{
    let kept = without(jar, c.name);
    lemma_without_props(jar, c.name);
    lemma_found_at(kept.push(c), c.name, kept.len() as int);
}

/// After a name was removed, looking it up gives nothing.
pub proof fn law_removed_cookie_is_absent(jar: Seq<CookieView>, name: Seq<char>)
    ensures
        found(without(jar, name), name).is_none(),
{
    lemma_without_props(jar, name);
    lemma_found_none(without(jar, name), name);
}

/// The name is the key: a directive for one name changes what is found
/// under no other name.
pub proof fn law_other_names_are_untouched(jar: Seq<CookieView>, c: CookieView, name: Seq<char>)
    requires
        name != c.name,
    ensures
        found(without(jar, c.name), name) == found(jar, name),
        found(with_cookie(jar, c), name) == found(jar, name),
        found(applied(jar, c), name) == found(jar, name),
{
    let kept = without(jar, c.name);
    lemma_named_without(jar, c.name, name);
    assert(named(kept.push(c), name) == named(kept, name)) by {
        reveal(Seq::filter);
        assert(kept.push(c).drop_last() =~= kept);
    }
}

/// The jar after a response depends on the jar before and on the headers
/// of the response, and on nothing else.
pub proof fn law_absorbing_is_determined(jar: Seq<CookieView>, a: ResponseView, b: ResponseView)
    requires
        a.headers == b.headers,
    ensures
        absorbed(jar, a) == absorbed(jar, b),
{
}

/// After a cookie with a non-empty value is merged into a jar, an empty one
/// in particular, looking up its name gives that cookie.
pub proof fn law_merged_cookie_is_found(jar: Seq<CookieView>, c: CookieView)
    requires
        !is_deletion(c),
    ensures
        found(merged(jar, seq![c]), c.name) == Some(c),
        found(merged(Seq::empty(), seq![c]), c.name) == Some(c),
{
    law_last_directive_wins(jar, Seq::empty(), c);
    law_last_directive_wins(Seq::empty(), Seq::empty(), c);
    assert(Seq::<CookieView>::empty().push(c) =~= seq![c]);
}

/// After a cookie was added, merging a cookie of the same name with an
/// empty value removes it: looking up the name gives nothing.
pub proof fn law_empty_value_removes(jar: Seq<CookieView>, c: CookieView, d: CookieView)
    requires
        d.name == c.name,
        is_deletion(d),
    ensures
        found(merged(with_cookie(jar, c), seq![d]), c.name).is_none(),
{
    law_last_directive_wins(with_cookie(jar, c), Seq::empty(), d);
    assert(Seq::<CookieView>::empty().push(d) =~= seq![d]);
}

/// Merging the same cookie with a non-empty value twice gives the jar that
/// merging it once gives.
pub proof fn law_merge_is_idempotent(jar: Seq<CookieView>, c: CookieView)
    requires
        !is_deletion(c),
    ensures
        merged(merged(jar, seq![c]), seq![c]) == merged(jar, seq![c]),
{
    let once = merged(jar, seq![c]);
    let kept = without(jar, c.name);
    assert(seq![c].drop_last() =~= Seq::<CookieView>::empty());
    assert(merged(jar, seq![c].drop_last()) == jar);
    assert(once == kept.push(c));
    assert(merged(once, seq![c].drop_last()) == once);
    assert(without(once, c.name) == kept) by {
        reveal(Seq::filter);
        assert(once.drop_last() =~= kept);
        lemma_without_props(jar, c.name);
        lemma_without_absent(kept, c.name);
    }
}

/// Directives are applied in order, so the last directive for a name
/// decides: after a batch that ends with `c`, the name of `c` is absent if
/// `c` has an empty value, and holds `c` otherwise.
pub proof fn law_last_directive_wins(jar: Seq<CookieView>, batch: Seq<CookieView>, c: CookieView)
    ensures
        found(merged(jar, batch.push(c)), c.name) == if is_deletion(c) {
            None
        } else {
            Some(c)
        },
{
    let before = merged(jar, batch);
    let kept = without(before, c.name);
    assert(batch.push(c).drop_last() =~= batch);
    assert(merged(jar, batch.push(c)) == applied(before, c));
    lemma_without_props(before, c.name);
    if is_deletion(c) {
        lemma_found_none(kept, c.name);
    } else {
        lemma_found_at(kept.push(c), c.name, kept.len() as int);
    }
}

/// A jar never holds two cookies of one name: merging any batch into a jar
/// with distinct names gives a jar with distinct names.
pub proof fn law_names_stay_distinct(jar: Seq<CookieView>, batch: Seq<CookieView>)
    requires
        distinct_names(jar),
    ensures
        distinct_names(merged(jar, batch)),
    decreases batch.len(),
{
    if batch.len() > 0 {
        law_names_stay_distinct(jar, batch.drop_last());
        lemma_applied_distinct(merged(jar, batch.drop_last()), batch.last());
    }
}

/// The cookies of two runs of items are those of the first run followed by
/// those of the second.
pub proof fn law_items_concat(a: Seq<Seq<char>>, b: Seq<Seq<char>>)
    ensures
        cookies_of_items(a + b) == cookies_of_items(a) + cookies_of_items(b),
    decreases b.len(),
{
    if b.len() == 0 {
        assert(a + b =~= a);
        assert(cookies_of_items(a) + cookies_of_items(b) =~= cookies_of_items(a));
    } else {
        law_items_concat(a, b.drop_last());
        assert((a + b).drop_last() =~= a + b.drop_last());
        assert((a + b).last() == b.last());
        match item_cookie(b.last()) {
            Some(c) => {
                assert(cookies_of_items(a) + (cookies_of_items(b.drop_last()) + seq![c])
                    =~= (cookies_of_items(a) + cookies_of_items(b.drop_last())) + seq![c]);
            },
            None => {},
        }
    }
}

/// A malformed item does not keep the items around it from counting: a
/// list with the item `m` between the runs `a` and `b` sets the cookies
/// that the list without `m` sets.
pub proof fn law_malformed_item_is_skipped(a: Seq<Seq<char>>, m: Seq<char>, b: Seq<Seq<char>>)
    requires
        item_cookie(m).is_none(),
    ensures
        cookies_of_items(a.push(m) + b) == cookies_of_items(a + b),
{
    law_items_concat(a.push(m), b);
    law_items_concat(a, b);
    assert(a.push(m).drop_last() =~= a);
}

/// Text that neither starts nor ends with a blank is its own trimmed form.
proof fn lemma_trim_tight(s: Seq<char>)
    requires
        s.len() > 0,
        !is_blank(s[0]),
        !is_blank(s.last()),
    ensures
        trim(s) == s,
{
}

/// Resolving the escapes of an escaped token gives the token back.
proof fn lemma_unescaped_escaped(t: Seq<char>)
    ensures
        unescaped(escaped(t)) == Some(t),
    decreases t.len(),
{
    if t.len() > 0 {
        let e = escaped(t);
        let rest = t.skip(1);
        lemma_unescaped_escaped(rest);
        if t[0] == '"' || t[0] == '\\' {
            assert(e.skip(2) =~= escaped(rest));
            assert(seq![e[1]] + rest =~= t);
        } else {
            assert(e.skip(1) =~= escaped(rest));
            assert(seq![e[0]] + rest =~= t);
        }
    } else {
        assert(Seq::<char>::empty() =~= t);
    }
}

/// A scan that starts inside quotes runs through an escaped token and its
/// closing quote, and goes on outside quotes.
proof fn lemma_scan_escaped(t: Seq<char>, rest: Seq<char>)
    ensures
        item_len(escaped(t) + seq!['"'] + rest, true) == escaped(t).len() + 1 + item_len(
            rest,
            false,
        ),
    decreases t.len(),
{
    let s = escaped(t) + seq!['"'] + rest;
    if t.len() == 0 {
        assert(s.skip(1) =~= rest);
    } else {
        let tail = t.skip(1);
        lemma_scan_escaped(tail, rest);
        if t[0] == '"' || t[0] == '\\' {
            assert(s[0] == '\\');
            assert(s.skip(2) =~= escaped(tail) + seq!['"'] + rest);
        } else {
            assert(s[0] == t[0]);
            assert(s.skip(1) =~= escaped(tail) + seq!['"'] + rest);
        }
    }
}

/// A scan runs through a whole item, with or without a blank before it,
/// and goes on outside quotes.
proof fn lemma_scan_quoted(lead: Seq<char>, t: Seq<char>, rest: Seq<char>)
    requires
        lead.len() == 0 || lead == seq![' '],
    ensures
        item_len(lead + quoted(t) + rest, false) == lead.len() + quoted(t).len() + item_len(
            rest,
            false,
        ),
{
    let q = quoted(t) + rest;
    assert(q[0] == '"');
    assert(q.skip(1) =~= escaped(t) + seq!['"'] + rest);
    lemma_scan_escaped(t, rest);
    assert(item_len(q, false) == quoted(t).len() + item_len(rest, false));
    if lead.len() == 0 {
        assert(lead + quoted(t) + rest =~= q);
    } else {
        let s = lead + quoted(t) + rest;
        assert(s[0] == ' ');
        assert(s.skip(1) =~= q);
    }
}

/// The items as they stand after the first one: each with a blank before.
spec fn spaced(tokens: Seq<Seq<char>>) -> Seq<Seq<char>> {
    tokens.map_values(|t: Seq<char>| seq![' '] + quoted(t))
}

/// Splitting the joined items of `tokens` gives the items back, one for
/// each token.
proof fn lemma_items_joined(lead: Seq<char>, tokens: Seq<Seq<char>>)
    requires
        tokens.len() >= 1,
        lead.len() == 0 || lead == seq![' '],
    ensures
        items(lead + joined(tokens)) == seq![lead + quoted(tokens[0])] + spaced(tokens.skip(1)),
    decreases tokens.len(),
{
    let s = lead + joined(tokens);
    let first = lead + quoted(tokens[0]);
    if tokens.len() == 1 {
        lemma_scan_quoted(lead, tokens[0], Seq::empty());
        assert(first + Seq::<char>::empty() =~= s);
        assert(seq![first] + spaced(tokens.skip(1)) =~= seq![s]);
    } else {
        let rest = tokens.skip(1);
        let tail = seq![',', ' '] + joined(rest);
        lemma_scan_quoted(lead, tokens[0], tail);
        assert(first + tail =~= s);
        let n = first.len();
        assert(item_len(s, false) == n);
        assert(s.take(n as int) =~= first);
        assert(s.skip(n as int + 1) =~= seq![' '] + joined(rest));
        lemma_items_joined(seq![' '], rest);
        assert(rest.skip(1) =~= tokens.skip(2));
        assert(seq![seq![' '] + quoted(rest[0])] + spaced(rest.skip(1)) =~= spaced(rest));
    }
}

/// An item holds the token that it was made of.
proof fn lemma_item_of_quoted(lead: Seq<char>, t: Seq<char>)
    requires
        lead.len() == 0 || lead == seq![' '],
    ensures
        item_text(lead + quoted(t)) == Some(t),
        item_cookie(lead + quoted(t)) == parse_token(t),
{
    let q = quoted(t);
    let p = lead + q;
    if lead.len() == 0 {
        assert(p =~= q);
    } else {
        assert(p.drop_first() =~= q);
    }
    assert(trim_start(p) == q);
    lemma_trim_tight(q);
    assert(trim(p) == q);
    assert(q.subrange(1, q.len() - 1) =~= escaped(t));
    lemma_unescaped_escaped(t);
}

/// Items that hold the tokens of `tokens`, one by one, set the cookies of
/// those tokens.
proof fn lemma_cookies_pointwise(pieces: Seq<Seq<char>>, tokens: Seq<Seq<char>>)
    requires
        pieces.len() == tokens.len(),
        forall|i: int| 0 <= i < pieces.len() ==> item_cookie(pieces[i]) == parse_token(tokens[i]),
    ensures
        cookies_of_items(pieces) == cookies_of_tokens(tokens),
    decreases pieces.len(),
{
    if pieces.len() > 0 {
        lemma_cookies_pointwise(pieces.drop_last(), tokens.drop_last());
    }
}

/// Reading a list gives the cookies of its well-formed tokens, in order: a
/// malformed token is left out and keeps no other token from counting.
pub proof fn law_listed_tokens_are_read(tokens: Seq<Seq<char>>)
    ensures
        parse_header(listed(tokens)) == cookies_of_tokens(tokens),
{
    let s = listed(tokens);
    lemma_trim_tight(s);
    assert(s.subrange(1, s.len() - 1) =~= joined(tokens));
    assert(list_body(s) == Some(joined(tokens)));
    if tokens.len() == 0 {
        let none = Seq::<char>::empty();
        assert(joined(tokens) =~= none);
        assert(items(none) =~= seq![none]);
        let nothing = Seq::<Seq<char>>::empty();
        assert(seq![none].drop_last() =~= nothing);
        assert(cookies_of_items(nothing) =~= Seq::<CookieView>::empty());
        assert(trim(none) =~= none);
        assert(item_cookie(none).is_none());
        assert(cookies_of_items(seq![none]) == cookies_of_items(seq![none].drop_last()));
        assert(cookies_of_items(seq![none]) =~= Seq::<CookieView>::empty());
    } else {
        let lead = Seq::<char>::empty();
        lemma_items_joined(lead, tokens);
        assert(lead + joined(tokens) =~= joined(tokens));
        let pieces = seq![lead + quoted(tokens[0])] + spaced(tokens.skip(1));
        assert forall|i: int| 0 <= i < pieces.len() implies item_cookie(pieces[i])
            == parse_token(tokens[i]) by {
            if i == 0 {
                lemma_item_of_quoted(lead, tokens[0]);
            } else {
                lemma_item_of_quoted(seq![' '], tokens[i]);
                assert(pieces[i] == seq![' '] + quoted(tokens[i]));
            }
        }
        lemma_cookies_pointwise(pieces, tokens);
    }
}

} // verus!
