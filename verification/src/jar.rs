//! The cookie jar: an ordered collection of cookies with at most one cookie
//! per name.
//!
//! The jar is modelled as a `Seq<CookieView>`. Every update is a function of
//! the sequence before it, given by the spec functions of this module.
use crate::cookie::{is_deletion, pair_text, Cookie, CookieView};
use crate::wire::{parse_header, parse_set_cookie};
use vstd::prelude::*;

verus! {

/// No two cookies of `s` share a name.
pub open spec fn distinct_names(s: Seq<CookieView>) -> bool {
    forall|i: int, j: int| 0 <= i < j < s.len() ==> s[i].name != s[j].name
}

/// The views of a sequence of cookies, in order.
pub open spec fn views(v: Seq<Cookie>) -> Seq<CookieView> {
    v.map_values(|c: Cookie| c@)
}

/// `s` without the cookies named `name`; the others keep their order.
pub open spec fn without(s: Seq<CookieView>, name: Seq<char>) -> Seq<CookieView> {
    s.filter(|c: CookieView| c.name != name)
}

/// `s` after `c` was added: any cookie of the same name is gone and `c`
/// stands last.
pub open spec fn with_cookie(s: Seq<CookieView>, c: CookieView) -> Seq<CookieView> {
    without(s, c.name).push(c)
}

/// `s` after one directive: a cookie with an empty value deletes, any other
/// one adds or replaces.
pub open spec fn applied(s: Seq<CookieView>, c: CookieView) -> Seq<CookieView> {
    if is_deletion(c) {
        without(s, c.name)
    } else {
        with_cookie(s, c)
    }
}

/// `s` after the directives of `incoming` were applied from first to last.
pub open spec fn merged(s: Seq<CookieView>, incoming: Seq<CookieView>) -> Seq<CookieView>
    decreases incoming.len(),
{
    if incoming.len() == 0 {
        s
    } else {
        applied(merged(s, incoming.drop_last()), incoming.last())
    }
}

/// The cookies of `s` named `name`, in order.
pub open spec fn named(s: Seq<CookieView>, name: Seq<char>) -> Seq<CookieView> {
    s.filter(|c: CookieView| c.name == name)
}

/// The cookie of `s` named `name`, the first one if there are several.
pub open spec fn found(s: Seq<CookieView>, name: Seq<char>) -> Option<CookieView> {
    let hits = named(s, name);
    if hits.len() > 0 {
        Some(hits[0])
    } else {
        None
    }
}

/// The request header value for `s`: the `name=value` pairs in order,
/// joined by `"; "`.
pub open spec fn rendered(s: Seq<CookieView>) -> Seq<char>
    decreases s.len(),
{
    if s.len() == 0 {
        Seq::empty()
    } else if s.len() == 1 {
        pair_text(s[0])
    } else {
        rendered(s.drop_last()) + seq![';', ' '] + pair_text(s.last())
    }
}

/// Removing a name that no cookie has changes nothing.
pub proof fn lemma_without_absent(s: Seq<CookieView>, name: Seq<char>)
    requires
        forall|k: int| 0 <= k < s.len() ==> s[k].name != name,
    ensures
        without(s, name) == s,
    decreases s.len(),
{
    reveal(Seq::filter);
    if s.len() > 0 {
        lemma_without_absent(s.drop_last(), name);
        assert(s.drop_last().push(s.last()) =~= s);
    }
}

/// In a jar with distinct names, removing a name removes the one cookie
/// that has it.
pub proof fn lemma_without_present(s: Seq<CookieView>, name: Seq<char>, i: int)
    requires
        distinct_names(s),
        0 <= i < s.len(),
        s[i].name == name,
    ensures
        without(s, name) == s.remove(i),
    decreases s.len(),
{
    reveal(Seq::filter);
    let t = s.drop_last();
    if i == s.len() - 1 {
        lemma_without_absent(t, name);
        assert(s.remove(i) =~= t);
    } else {
        lemma_without_present(t, name, i);
        assert(s.remove(i) =~= t.remove(i).push(s.last()));
    }
}

/// What `without` keeps: no cookie of that name, only cookies of `s`, in
/// an order that keeps names distinct where they were.
pub proof fn lemma_without_props(s: Seq<CookieView>, name: Seq<char>)
    ensures
        without(s, name).len() <= s.len(),
        forall|k: int|
            0 <= k < without(s, name).len() ==> (#[trigger] without(s, name)[k]).name != name,
        forall|k: int|
            0 <= k < without(s, name).len() ==> s.contains(#[trigger] without(s, name)[k]),
        distinct_names(s) ==> distinct_names(without(s, name)),
    decreases s.len(),
{
    reveal(Seq::filter);
    if s.len() > 0 {
        let t = s.drop_last();
        lemma_without_props(t, name);
        let w = without(s, name);
        let wt = without(t, name);
        assert forall|k: int| 0 <= k < w.len() implies s.contains(#[trigger] w[k]) by {
            if k < wt.len() {
                assert(t.contains(wt[k]));
                let j = choose|j: int| 0 <= j < t.len() && t[j] == wt[k];
                assert(s[j] == wt[k]);
            } else {
                assert(w[k] == s[s.len() - 1]);
            }
        }
        if distinct_names(s) {
            assert(distinct_names(t)) by {
                assert forall|i: int, j: int| 0 <= i < j < t.len() implies t[i].name
                    != t[j].name by {
                    assert(s[i].name != s[j].name);
                }
            }
            assert forall|i: int, j: int| 0 <= i < j < w.len() implies w[i].name
                != w[j].name by {
                if j == wt.len() {
                    assert(t.contains(wt[i]));
                    let a = choose|a: int| 0 <= a < t.len() && t[a] == wt[i];
                    assert(s[a].name != s[s.len() - 1].name);
                }
            }
        }
    }
}

/// Every update keeps names distinct.
pub proof fn lemma_applied_distinct(s: Seq<CookieView>, c: CookieView)
    requires
        distinct_names(s),
    ensures
        distinct_names(without(s, c.name)),
        distinct_names(with_cookie(s, c)),
        distinct_names(applied(s, c)),
{
    lemma_without_props(s, c.name);
}

/// Merging two batches one after the other is merging them as one batch.
pub proof fn lemma_merged_concat(s: Seq<CookieView>, a: Seq<CookieView>, b: Seq<CookieView>)
    ensures
        merged(s, a + b) == merged(merged(s, a), b),
    decreases b.len(),
{
    if b.len() == 0 {
        assert(a + b =~= a);
    } else {
        lemma_merged_concat(s, a, b.drop_last());
        assert((a + b).drop_last() =~= a + b.drop_last());
    }
}

/// An ordered collection of cookies that holds at most one cookie per name.
#[derive(Debug)]
pub struct CookieJar {
    cookies: Vec<Cookie>,
}

impl View for CookieJar {
    type V = Seq<CookieView>;

    closed spec fn view(&self) -> Seq<CookieView> {
        views(self.cookies@)
    }
}

impl CookieJar {
    #[verifier::type_invariant]
    spec fn names_are_distinct(&self) -> bool {
        distinct_names(views(self.cookies@))
    }

    /// An empty jar.
    pub fn new() -> (jar: CookieJar)
        ensures
            jar@ == Seq::<CookieView>::empty(),
    {
        let jar = CookieJar { cookies: Vec::new() };
        assert(jar@ =~= Seq::<CookieView>::empty());
        jar
    }

    /// The number of cookies held.
    pub fn len(&self) -> (n: usize)
        ensures
            n == self@.len(),
    {
        self.cookies.len()
    }

    /// Whether the jar holds no cookie.
    pub fn is_empty(&self) -> (r: bool)
        ensures
            r == (self@.len() == 0),
    {
        self.cookies.len() == 0
    }

    /// The cookie at position `i` of the current order.
    pub fn get(&self, i: usize) -> (c: &Cookie)
        requires
            i < self@.len(),
        ensures
            c@ == self@[i as int],
    {
        &self.cookies[i]
    }

    /// States the invariant of the type: at most one cookie per name.
    pub(crate) fn check_distinct(&self)
        ensures
            distinct_names(self@),
    {
        proof {
            use_type_invariant(self);
        }
    }

    /// Moves the cookies out and leaves the jar empty.
    fn take_all(&mut self) -> (v: Vec<Cookie>)
        ensures
            v@ == old(self).cookies@,
            final(self).cookies@.len() == 0,
    {
        let mut v: Vec<Cookie> = Vec::new();
        assert(distinct_names(views(v@)));
        core::mem::swap(&mut self.cookies, &mut v);
        v
    }

    /// Position of the cookie named `name`, if the jar holds one.
    fn position(&self, name: &str) -> (r: Option<usize>)
        ensures
            match r {
                Some(i) => {
                    &&& i < self@.len()
                    &&& self@[i as int].name == name@
                    &&& forall|k: int| 0 <= k < i ==> self@[k].name != name@
                },
                None => forall|k: int| 0 <= k < self@.len() ==> self@[k].name != name@,
            },
    {
        let mut i: usize = 0;
        while i < self.cookies.len()
            invariant
                i <= self.cookies.len(),
                forall|k: int| 0 <= k < i ==> self@[k].name != name@,
            decreases self.cookies.len() - i,
        {
            if self.cookies[i].name().eq(name) {
                return Some(i);
            }
            i += 1;
        }
        None
    }

    /// Deletes the cookie named `name`, if present; does nothing otherwise.
    pub fn remove(&mut self, name: &str)
        ensures
            final(self)@ == without(old(self)@, name@),
            distinct_names(final(self)@),
    {
        proof {
            use_type_invariant(&*self);
            lemma_without_props(self@, name@);
        }
        match self.position(name) {
            Some(i) => {
                proof {
                    lemma_without_present(self@, name@, i as int);
                    assert(views(self.cookies@.remove(i as int)) =~= self@.remove(i as int));
                }
                let mut v = self.take_all();
                let _ = v.remove(i);
                self.cookies = v;
            },
            None => {
                proof {
                    lemma_without_absent(self@, name@);
                }
            },
        }
    }

    /// Inserts `cookie`, replacing any cookie of the same name. The new
    /// cookie stands last.
    pub fn add(&mut self, cookie: Cookie)
        ensures
            final(self)@ == with_cookie(old(self)@, cookie@),
            distinct_names(final(self)@),
    {
        proof {
            use_type_invariant(&*self);
            lemma_applied_distinct(self@, cookie@);
        }
        self.remove(cookie.name());
        proof {
            assert(views(self.cookies@.push(cookie)) =~= self@.push(cookie@));
        }
        let mut v = self.take_all();
        v.push(cookie);
        self.cookies = v;
    }

    /// Applies one directive: a cookie with an empty value removes the
    /// cookie of that name, any other cookie is added.
    pub fn apply(&mut self, cookie: Cookie)
        ensures
            final(self)@ == applied(old(self)@, cookie@),
            distinct_names(final(self)@),
    {
        if cookie.is_deletion() {
            self.remove(cookie.name());
        } else {
            self.add(cookie);
        }
    }

    /// Applies the directives of `incoming` in the order in which they
    /// stand, so that a later directive for a name wins over an earlier one.
    pub fn merge(&mut self, incoming: Vec<Cookie>)
        ensures
            final(self)@ == merged(old(self)@, views(incoming@)),
            distinct_names(final(self)@),
    {
        proof {
            use_type_invariant(&*self);
        }
        let ghost all = views(incoming@);
        for cookie in it: incoming
            invariant
                all == views(it.seq()),
                self@ == merged(old(self)@, all.take(it.index() as int)),
                distinct_names(self@),
        {
            proof {
                let k = it.index() as int;
                assert(all.take(k + 1).drop_last() =~= all.take(k));
                assert(all.take(k + 1).last() == cookie@);
            }
            self.apply(cookie);
        }
        proof {
            assert(all.take(all.len() as int) =~= all);
        }
    }

    /// The cookie named `name`, or `None` if the jar holds none.
    pub fn lookup(&self, name: &str) -> (r: Option<&Cookie>)
        ensures
            match r {
                Some(c) => found(self@, name@) == Some(c@),
                None => found(self@, name@).is_none(),
            },
    {
        match self.position(name) {
            Some(i) => {
                proof {
                    lemma_found_at(self@, name@, i as int);
                }
                Some(&self.cookies[i])
            },
            None => {
                proof {
                    lemma_found_none(self@, name@);
                }
                None
            },
        }
    }

    /// Reads the cookies that the value of a response's cookie-setting
    /// header holds, in the order in which they stand. Malformed entries are
    /// left out; a value that cannot be read at all gives no cookie.
    pub fn from_response_header(raw_value: &str) -> (cookies: Vec<Cookie>)
        ensures
            views(cookies@) == parse_header(raw_value@),
    {
        parse_set_cookie(raw_value)
    }

    /// The value of the request header that replays the jar:
    /// `name1=value1; name2=value2; ...` in the current order, and the empty
    /// text for an empty jar.
    pub fn render_header_value(&self) -> (s: String)
        ensures
            s@ == rendered(self@),
    {
        let mut s = String::new();
        let mut i: usize = 0;
        while i < self.cookies.len()
            invariant
                i <= self.cookies.len(),
                s@ == rendered(self@.take(i as int)),
            decreases self.cookies.len() - i,
        {
            proof {
                assert(self@.take(i as int + 1).drop_last() =~= self@.take(i as int));
                reveal_strlit("; ");
                assert("; "@ =~= seq![';', ' ']);
            }
            if i > 0 {
                s.append("; ");
            }
            let pair = self.cookies[i].pair();
            s.append(pair.as_str());
            i += 1;
        }
        proof {
            assert(self@.take(self@.len() as int) =~= self@);
        }
        s
    }
}

/// With no cookie of that name, nothing is found.
pub proof fn lemma_found_none(s: Seq<CookieView>, name: Seq<char>)
    requires
        forall|k: int| 0 <= k < s.len() ==> s[k].name != name,
    ensures
        found(s, name).is_none(),
    decreases s.len(),
{
    reveal(Seq::filter);
    if s.len() > 0 {
        lemma_found_none(s.drop_last(), name);
    }
}

/// The first cookie of that name is the one found.
pub proof fn lemma_found_at(s: Seq<CookieView>, name: Seq<char>, i: int)
    requires
        0 <= i < s.len(),
        s[i].name == name,
        forall|k: int| 0 <= k < i ==> s[k].name != name,
    ensures
        found(s, name) == Some(s[i]),
    decreases s.len(),
{
    reveal(Seq::filter);
    let t = s.drop_last();
    if i == s.len() - 1 {
        lemma_found_none(t, name);
        assert(named(t, name).len() == 0);
    } else {
        lemma_found_at(t, name, i);
    }
}

/// Removing one name leaves the cookies of every other name as they were.
pub proof fn lemma_named_without(s: Seq<CookieView>, gone: Seq<char>, name: Seq<char>)
    requires
        gone != name,
    ensures
        named(without(s, gone), name) == named(s, name),
    decreases s.len(),
{
    reveal(Seq::filter);
    if s.len() > 0 {
        let t = s.drop_last();
        lemma_named_without(t, gone, name);
        if s.last().name != gone {
            assert(without(s, gone).drop_last() =~= without(t, gone));
        }
    }
}

} // verus!
