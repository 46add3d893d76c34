//! Requests and responses as plain values: a method, a URL, a list of
//! headers and a body. Header names are compared without regard to ASCII
//! letter case.
use crate::text::{eq_ignore_case, same_ignore_case};
use vstd::prelude::*;
use vstd::string::StringSliceAdditionalSpecFns;

verus! {

/// The request methods.
#[derive(Debug, Clone, Copy, PartialEq, Eq, Structural)]
pub enum Method {
    Get,
    Put,
    Post,
    Delete,
    Head,
    Connect,
    Options,
    Trace,
    Patch,
}

/// A header as plain text.
pub ghost struct HeaderView {
    pub name: Seq<char>,
    pub value: Seq<char>,
}

/// One header line.
#[derive(Debug, PartialEq, Eq)]
pub struct Header {
    pub name: String,
    pub value: String,
}

impl View for Header {
    type V = HeaderView;

    open spec fn view(&self) -> HeaderView {
        HeaderView { name: self.name@, value: self.value@ }
    }
}

/// The views of a list of headers, in order.
pub open spec fn header_views(v: Seq<Header>) -> Seq<HeaderView> {
    v.map_values(|h: Header| h@)
}

/// `h` without the headers named `name`.
pub open spec fn headers_without(h: Seq<HeaderView>, name: Seq<char>) -> Seq<HeaderView> {
    h.filter(|x: HeaderView| !eq_ignore_case(x.name, name))
}

/// `h` after the header `name` was set: every header of that name is gone
/// and the new one stands last.
pub open spec fn headers_with(h: Seq<HeaderView>, name: Seq<char>, value: Seq<char>) -> Seq<
    HeaderView,
> {
    headers_without(h, name).push(HeaderView { name, value })
}

/// The value of the first header named `name`.
pub open spec fn header_value(h: Seq<HeaderView>, name: Seq<char>) -> Option<Seq<char>> {
    let hits = h.filter(|x: HeaderView| eq_ignore_case(x.name, name));
    if hits.len() > 0 {
        Some(hits[0].value)
    } else {
        None
    }
}

/// A request as plain values.
pub ghost struct RequestView {
    pub method: Method,
    pub url: Seq<char>,
    pub headers: Seq<HeaderView>,
    pub body: Seq<u8>,
}

/// A request to the server under test.
#[derive(Debug, PartialEq, Eq)]
pub struct Request {
    pub method: Method,
    pub url: String,
    pub headers: Vec<Header>,
    pub body: Vec<u8>,
}

impl View for Request {
    type V = RequestView;

    open spec fn view(&self) -> RequestView {
        RequestView {
            method: self.method,
            url: self.url@,
            headers: header_views(self.headers@),
            body: self.body@,
        }
    }
}

/// A response as plain values.
pub ghost struct ResponseView {
    pub status: u16,
    pub headers: Seq<HeaderView>,
    pub body: Seq<u8>,
}

/// What the server under test answered.
#[derive(Debug, PartialEq, Eq)]
pub struct Response {
    pub status: u16,
    pub headers: Vec<Header>,
    pub body: Vec<u8>,
}

impl View for Response {
    type V = ResponseView;

    open spec fn view(&self) -> ResponseView {
        ResponseView {
            status: self.status,
            headers: header_views(self.headers@),
            body: self.body@,
        }
    }
}

/// The media type of a form-encoded body.
pub open spec fn form_media_type() -> Seq<char> {
    "application/x-www-form-urlencoded"@
}

/// The request that carries `body` as a form: the body bytes are those of
/// the text, unchanged, and the content type says that it is a form.
pub open spec fn form_request(method: Method, url: Seq<char>, body: Seq<u8>) -> RequestView {
    RequestView {
        method,
        url,
        headers: seq![HeaderView { name: "Content-Type"@, value: form_media_type() }],
        body,
    }
}

/// With no header of that name, nothing is found.
pub proof fn lemma_header_value_none(h: Seq<HeaderView>, name: Seq<char>)
    requires
        forall|k: int| 0 <= k < h.len() ==> !eq_ignore_case(h[k].name, name),
    ensures
        header_value(h, name).is_none(),
    decreases h.len(),
{
    reveal(Seq::filter);
    if h.len() > 0 {
        lemma_header_value_none(h.drop_last(), name);
    }
}

/// The first header of that name gives the value.
pub proof fn lemma_header_value_at(h: Seq<HeaderView>, name: Seq<char>, i: int)
    requires
        0 <= i < h.len(),
        eq_ignore_case(h[i].name, name),
        forall|k: int| 0 <= k < i ==> !eq_ignore_case(h[k].name, name),
    ensures
        header_value(h, name) == Some(h[i].value),
    decreases h.len(),
{
    reveal(Seq::filter);
    let t = h.drop_last();
    if i == h.len() - 1 {
        lemma_header_value_none(t, name);
        assert(t.filter(|x: HeaderView| eq_ignore_case(x.name, name)).len() == 0);
    } else {
        lemma_header_value_at(t, name, i);
    }
}

/// The value of the first header of `headers` named `name`.
fn find_header<'a>(headers: &'a Vec<Header>, name: &str) -> (r: Option<&'a str>)
    ensures
        match r {
            Some(v) => header_value(header_views(headers@), name@) == Some(v@),
            None => header_value(header_views(headers@), name@).is_none(),
        },
{
    let ghost h = header_views(headers@);
    let mut i: usize = 0;
    while i < headers.len()
        invariant
            i <= headers.len(),
            h == header_views(headers@),
            forall|k: int| 0 <= k < i ==> !eq_ignore_case(h[k].name, name@),
        decreases headers.len() - i,
    {
        if same_ignore_case(headers[i].name.as_str(), name) {
            proof {
                lemma_header_value_at(h, name@, i as int);
            }
            return Some(headers[i].value.as_str());
        }
        i += 1;
    }
    proof {
        lemma_header_value_none(h, name@);
    }
    None
}

/// Drops the headers named `name` from `headers`.
fn drop_header(headers: Vec<Header>, name: &str) -> (kept: Vec<Header>)
    ensures
        header_views(kept@) == headers_without(header_views(headers@), name@),
{
    let ghost all = header_views(headers@);
    let mut kept: Vec<Header> = Vec::new();
    proof {
        reveal(Seq::filter);
        assert(header_views(kept@) =~= headers_without(all.take(0), name@));
    }
    for h in it: headers
        invariant
            all == header_views(it.seq()),
            header_views(kept@) == headers_without(all.take(it.index() as int), name@),
    {
        let ghost before = header_views(kept@);
        proof {
            reveal(Seq::filter);
            let k = it.index() as int;
            assert(all.take(k + 1).drop_last() =~= all.take(k));
            assert(all.take(k + 1).last() == h@);
        }
        if !same_ignore_case(h.name.as_str(), name) {
            proof {
                assert(header_views(kept@.push(h)) =~= before.push(h@));
            }
            kept.push(h);
        }
    }
    proof {
        assert(all.take(all.len() as int) =~= all);
    }
    kept
}

impl Request {
    /// A request without headers and with an empty body.
    pub fn new(method: Method, url: &str) -> (r: Request)
        ensures
            r@ == (RequestView {
                method,
                url: url@,
                headers: Seq::empty(),
                body: Seq::empty(),
            }),
    {
        let r = Request { method, url: url.to_owned(), headers: Vec::new(), body: Vec::new() };
        assert(header_views(r.headers@) =~= Seq::<HeaderView>::empty());
        r
    }

    /// A request that carries `body`, unchanged, as a form-encoded payload.
    pub fn form(method: Method, url: &str, body: &str) -> (r: Request)
        ensures
            r@ == form_request(method, url@, body.spec_bytes()),
    {
        let mut headers: Vec<Header> = Vec::new();
        headers.push(
            Header {
                name: "Content-Type".to_owned(),
                value: "application/x-www-form-urlencoded".to_owned(),
            },
        );
        let r = Request { method, url: url.to_owned(), headers, body: body.as_bytes_vec() };
        assert(header_views(r.headers@) =~= form_request(
            method,
            url@,
            body.spec_bytes(),
        ).headers);
        r
    }

    /// Sets the header `name` to `value`, in place of every header of that
    /// name.
    pub fn set_header(&mut self, name: &str, value: &str)
        ensures
            final(self)@ == (RequestView {
                headers: headers_with(old(self)@.headers, name@, value@),
                ..old(self)@
            }),
    {
        let mut headers: Vec<Header> = Vec::new();
        core::mem::swap(&mut self.headers, &mut headers);
        let mut kept = drop_header(headers, name);
        let ghost before = header_views(kept@);
        let header = Header { name: name.to_owned(), value: value.to_owned() };
        proof {
            assert(header_views(kept@.push(header)) =~= before.push(header@));
        }
        kept.push(header);
        self.headers = kept;
    }

    /// The value of the first header named `name`.
    pub fn header(&self, name: &str) -> (r: Option<&str>)
        ensures
            match r {
                Some(v) => header_value(self@.headers, name@) == Some(v@),
                None => header_value(self@.headers, name@).is_none(),
            },
    {
        find_header(&self.headers, name)
    }
}

impl Response {
    /// A response without headers and with an empty body.
    pub fn new(status: u16) -> (r: Response)
        ensures
            r@ == (ResponseView { status, headers: Seq::empty(), body: Seq::empty() }),
    {
        let r = Response { status, headers: Vec::new(), body: Vec::new() };
        assert(header_views(r.headers@) =~= Seq::<HeaderView>::empty());
        r
    }

    /// Adds a header after those already there.
    pub fn append_header(&mut self, name: &str, value: &str)
        ensures
            final(self)@ == (ResponseView {
                headers: old(self)@.headers.push(HeaderView { name: name@, value: value@ }),
                ..old(self)@
            }),
    {
        let ghost before = header_views(self.headers@);
        let header = Header { name: name.to_owned(), value: value.to_owned() };
        proof {
            assert(header_views(self.headers@.push(header)) =~= before.push(header@));
        }
        self.headers.push(header);
    }

    /// The value of the first header named `name`.
    pub fn header(&self, name: &str) -> (r: Option<&str>)
        ensures
            match r {
                Some(v) => header_value(self@.headers, name@) == Some(v@),
                None => header_value(self@.headers, name@).is_none(),
            },
    {
        find_header(&self.headers, name)
    }
}

} // verus!
