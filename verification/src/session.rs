//! A session: one cookie jar, one server under test and one base URL.
//!
//! The server is a function from a request to a response or a failure,
//! called in process. Every request goes through three steps. The jar is
//! attached as the `Cookie` header; the server handles the request; the
//! cookies that the response sets are merged into the jar. A session is
//! borrowed mutably for the whole of an exchange, so no other exchange on
//! it can run between two of the steps.
//!
//! Nothing is assumed of the server but that it can be called on every
//! request. The contracts say what it was called on and that its answer is
//! passed on; through `call_ensures` they hand on to the caller whatever the
//! server itself promises.
use crate::cookie::CookieView;
use crate::decode::{is_json_of, is_text_of};
use crate::error::{Error, Failure};
use crate::jar::{distinct_names, lemma_merged_concat, merged, rendered, CookieJar};
use crate::message::{
    form_request, headers_with, HeaderView, Method, Request, RequestView, Response, ResponseView,
};
use crate::text::{eq_ignore_case, same_ignore_case};
use crate::url::{join_url, joined_url, parse_url, parsed_url};
use crate::wire::{parse_header, parse_set_cookie};
use vstd::prelude::*;
use vstd::string::StringSliceAdditionalSpecFns;

verus! {

/// What a session is: its server, the cookies of its jar in order, and its
/// base URL.
pub ghost struct SessionView<S> {
    pub server: S,
    pub jar: Seq<CookieView>,
    pub base_url: Seq<char>,
}

/// A browser-like client of one server under test.
pub struct Session<S: Fn(Request) -> Result<Response, Failure>> {
    server: S,
    jar: CookieJar,
    base_url: String,
}

impl<S: Fn(Request) -> Result<Response, Failure>> View for Session<S> {
    type V = SessionView<S>;

    closed spec fn view(&self) -> SessionView<S> {
        SessionView { server: self.server, jar: self.jar@, base_url: self.base_url@ }
    }
}

/// The base URL of a new session.
pub open spec fn default_base_url() -> Seq<char> {
    "http://example.com/"@
}

/// The request as it is handed to the server: the `Cookie` header holds
/// the rendering of the jar, in place of any such header that the request
/// came with.
pub open spec fn outgoing(jar: Seq<CookieView>, request: RequestView) -> RequestView {
    RequestView { headers: headers_with(request.headers, "Cookie"@, rendered(jar)), ..request }
}

/// The cookie directives of a response: those of each `Set-Cookie` header,
/// in the order of the headers.
pub open spec fn set_cookies(headers: Seq<HeaderView>) -> Seq<CookieView>
    decreases headers.len(),
{
    if headers.len() == 0 {
        Seq::empty()
    } else {
        let before = set_cookies(headers.drop_last());
        if eq_ignore_case(headers.last().name, "Set-Cookie"@) {
            before + parse_header(headers.last().value)
        } else {
            before
        }
    }
}

/// The jar after a response was received.
pub open spec fn absorbed(jar: Seq<CookieView>, response: ResponseView) -> Seq<CookieView> {
    merged(jar, set_cookies(response.headers))
}

/// Last step of an exchange. A response is handed on as it came, and its
/// cookies are merged into the jar; a failure is handed on as `ServerError`
/// and leaves the session as it was.
pub open spec fn settled<S>(
    pre: SessionView<S>,
    outcome: Result<Response, Failure>,
    post: SessionView<S>,
    r: Result<Response, Error>,
) -> bool {
    match outcome {
        Ok(response) => r == Ok::<Response, Error>(response) && post == (SessionView {
            jar: absorbed(pre.jar, response@),
            ..pre
        }),
        Err(failure) => r == Err::<Response, Error>(Error::ServerError(failure)) && post == pre,
    }
}

/// One exchange of `request` that ended with `r`: the server was called on
/// the request with the jar attached, and what it gave was settled.
pub open spec fn exchange<S: Fn(Request) -> Result<Response, Failure>>(
    pre: SessionView<S>,
    request: RequestView,
    post: SessionView<S>,
    r: Result<Response, Error>,
) -> bool {
    exists|ready: Request, outcome: Result<Response, Failure>|
        ready@ == outgoing(pre.jar, request) && #[trigger] call_ensures(
            pre.server,
            (ready,),
            outcome,
        ) && settled(pre, outcome, post, r)
}

/// The request that a verb method builds for the resolved URL `url`.
pub open spec fn built(method: Method, url: Seq<char>, body: Option<&str>) -> RequestView {
    match body {
        Some(b) => form_request(method, url, b.spec_bytes()),
        None => RequestView { method, url, headers: Seq::empty(), body: Seq::empty() },
    }
}

/// A verb method on `path` that ended with `r`: a path that does not
/// resolve against the base URL fails with `InvalidPath`, without a call of
/// the server and without a change; any other path leads to one exchange of
/// the request built for the resolved URL.
pub open spec fn sent<S: Fn(Request) -> Result<Response, Failure>>(
    pre: SessionView<S>,
    method: Method,
    path: Seq<char>,
    body: Option<&str>,
    post: SessionView<S>,
    r: Result<Response, Error>,
) -> bool {
    match joined_url(pre.base_url, path) {
        Some(u) => exchange(pre, built(method, u, body), post, r),
        None => r == Err::<Response, Error>(Error::InvalidPath) && post == pre,
    }
}

/// `r` is what decoding the outcome `got` of a request as text gives: an
/// error is passed on, the body of a response is decoded.
pub open spec fn text_of_outcome(got: Result<Response, Error>, r: Result<String, Error>) -> bool {
    match got {
        Ok(response) => is_text_of(response@.body, r),
        Err(e) => r == Err::<String, Error>(e),
    }
}

/// `r` is what decoding the outcome `got` of a request as JSON gives.
pub open spec fn json_of_outcome(
    got: Result<Response, Error>,
    r: Result<serde_json::Value, Error>,
) -> bool {
    match got {
        Ok(response) => is_json_of(response@.body, r),
        Err(e) => r == Err::<serde_json::Value, Error>(e),
    }
}

impl<S: Fn(Request) -> Result<Response, Failure>> Session<S> {
    #[verifier::type_invariant]
    spec fn server_takes_every_request(&self) -> bool {
        forall|request: Request| call_requires(self.server, (request,))
    }

    /// A session on `server` with an empty jar and the default base URL.
    /// The server must be callable on every request.
    pub fn new(server: S) -> (session: Session<S>)
        requires
            forall|request: Request| call_requires(server, (request,)),
        ensures
            session@ == (SessionView {
                server,
                jar: Seq::empty(),
                base_url: default_base_url(),
            }),
    {
        Session { server, jar: CookieJar::new(), base_url: "http://example.com/".to_owned() }
    }

    /// The jar as it stands.
    pub fn jar(&self) -> (jar: &CookieJar)
        ensures
            jar@ == self@.jar,
            distinct_names(jar@),
    {
        self.jar.check_distinct();
        &self.jar
    }

    /// The base URL against which paths are resolved.
    pub fn base_url(&self) -> (url: &str)
        ensures
            url@ == self@.base_url,
    {
        self.base_url.as_str()
    }

    /// Replaces the base URL. Fails with `InvalidBaseUrl`, and changes
    /// nothing, if `url` is not a well-formed absolute URL.
    pub fn set_base_url(&mut self, url: &str) -> (r: Result<(), Error>)
        ensures
            match parsed_url(url@) {
                Some(u) => r.is_ok() && final(self)@ == (SessionView {
                    base_url: u,
                    ..old(self)@
                }),
                None => r == Err::<(), Error>(Error::InvalidBaseUrl) && final(self)@ == old(
                    self,
                )@,
            },
    {
        proof {
            use_type_invariant(&*self);
        }
        match parse_url(url) {
            Some(u) => {
                self.base_url = u;
                Ok(())
            },
            None => Err(Error::InvalidBaseUrl),
        }
    }

    /// Builds the request for `path`: its URL is `path` resolved against
    /// the base URL, its body the form `body` if one is given. Fails with
    /// `InvalidPath` exactly if `path` does not resolve.
    pub fn request(&self, method: Method, path: &str, body: Option<&str>) -> (r: Result<
        Request,
        Error,
    >)
        ensures
            match joined_url(self@.base_url, path@) {
                Some(u) => r.is_ok() && r.unwrap()@ == built(method, u, body),
                None => r == Err::<Request, Error>(Error::InvalidPath),
            },
    {
        match join_url(self.base_url.as_str(), path) {
            Some(u) => match body {
                Some(b) => Ok(Request::form(method, u.as_str(), b)),
                None => Ok(Request::new(method, u.as_str())),
            },
            None => Err(Error::InvalidPath),
        }
    }

    /// First step of an exchange: attaches the jar to `request`.
    pub fn prepare(&self, request: Request) -> (r: Request)
        ensures
            r@ == outgoing(self@.jar, request@),
    {
        let mut request = request;
        let value = self.jar.render_header_value();
        request.set_header("Cookie", value.as_str());
        request
    }

    /// Moves the jar out and leaves an empty one.
    fn take_jar(&mut self) -> (jar: CookieJar)
        ensures
            jar@ == old(self)@.jar,
            distinct_names(jar@),
            final(self)@ == (SessionView { jar: Seq::empty(), ..old(self)@ }),
    {
        proof {
            use_type_invariant(&*self);
        }
        let mut jar = CookieJar::new();
        core::mem::swap(&mut self.jar, &mut jar);
        jar.check_distinct();
        jar
    }

    /// Last step of an exchange, for a response: merges the cookies that
    /// `response` sets into the jar.
    pub fn absorb(&mut self, response: &Response)
        ensures
            final(self)@ == (SessionView {
                jar: absorbed(old(self)@.jar, response@),
                ..old(self)@
            }),
            distinct_names(final(self)@.jar),
    {
        let ghost headers = response@.headers;
        let ghost start = self@.jar;
        proof {
            use_type_invariant(&*self);
        }
        let mut jar = self.take_jar();
        let mut i: usize = 0;
        while i < response.headers.len()
            invariant
                i <= response.headers.len(),
                headers == response@.headers,
                jar@ == merged(start, set_cookies(headers.take(i as int))),
                distinct_names(jar@),
            decreases response.headers.len() - i,
        {
            proof {
                assert(headers.take(i as int + 1).drop_last() =~= headers.take(i as int));
                assert(headers.take(i as int + 1).last() == response.headers@[i as int]@);
            }
            let header = &response.headers[i];
            if same_ignore_case(header.name.as_str(), "Set-Cookie") {
                let cookies = parse_set_cookie(header.value.as_str());
                proof {
                    lemma_merged_concat(
                        start,
                        set_cookies(headers.take(i as int)),
                        parse_header(header.value@),
                    );
                }
                jar.merge(cookies);
            }
            i += 1;
        }
        proof {
            assert(headers.take(headers.len() as int) =~= headers);
        }
        self.jar = jar;
    }

    /// Last step of an exchange, for whatever the server gave: a response
    /// is absorbed and handed on as it came; a failure is handed on as
    /// `ServerError` and leaves the session as it was.
    pub fn settle(&mut self, outcome: Result<Response, Failure>) -> (r: Result<Response, Error>)
        ensures
            settled(old(self)@, outcome, final(self)@, r),
            distinct_names(final(self)@.jar),
    {
        self.jar.check_distinct();
        match outcome {
            Ok(response) => {
                self.absorb(&response);
                Ok(response)
            },
            Err(failure) => Err(Error::ServerError(failure)),
        }
    }

    /// One exchange: attaches the jar to `request`, lets the server handle
    /// it, merges the cookies of the response into the jar and returns the
    /// response as it came. Never retries.
    pub fn respond(&mut self, request: Request) -> (r: Result<Response, Error>)
        ensures
            exchange(old(self)@, request@, final(self)@, r),
            distinct_names(final(self)@.jar),
    {
        proof {
            use_type_invariant(&*self);
        }
        let ready = self.prepare(request);
        let ghost handed = ready;
        let outcome = (self.server)(ready);
        let ghost given = outcome;
        let r = self.settle(outcome);
        assert(handed@ == outgoing(old(self)@.jar, request@) && call_ensures(
            old(self)@.server,
            (handed,),
            given,
        ) && settled(old(self)@, given, self@, r));
        r
    }

    /// Builds the request for `path` and exchanges it. Fails with
    /// `InvalidPath`, without calling the server, exactly if `path` does not
    /// resolve against the base URL.
    pub fn send(&mut self, method: Method, path: &str, body: Option<&str>) -> (r: Result<
        Response,
        Error,
    >)
        ensures
            sent(old(self)@, method, path@, body, final(self)@, r),
            distinct_names(final(self)@.jar),
    {
        self.jar.check_distinct();
        match self.request(method, path, body) {
            Ok(request) => self.respond(request),
            Err(e) => Err(e),
        }
    }

    /// `GET` of `path`.
    pub fn get(&mut self, path: &str) -> (r: Result<Response, Error>)
        ensures
            sent(old(self)@, Method::Get, path@, None, final(self)@, r),
    {
        self.send(Method::Get, path, None)
    }

    /// `HEAD` of `path`.
    pub fn head(&mut self, path: &str) -> (r: Result<Response, Error>)
        ensures
            sent(old(self)@, Method::Head, path@, None, final(self)@, r),
    {
        self.send(Method::Head, path, None)
    }

    /// `DELETE` of `path`.
    pub fn delete(&mut self, path: &str) -> (r: Result<Response, Error>)
        ensures
            sent(old(self)@, Method::Delete, path@, None, final(self)@, r),
    {
        self.send(Method::Delete, path, None)
    }

    /// `CONNECT` to `path`.
    pub fn connect(&mut self, path: &str) -> (r: Result<Response, Error>)
        ensures
            sent(old(self)@, Method::Connect, path@, None, final(self)@, r),
    {
        self.send(Method::Connect, path, None)
    }

    /// `OPTIONS` of `path`.
    pub fn options(&mut self, path: &str) -> (r: Result<Response, Error>)
        ensures
            sent(old(self)@, Method::Options, path@, None, final(self)@, r),
    {
        self.send(Method::Options, path, None)
    }

    /// `TRACE` of `path`.
    pub fn trace(&mut self, path: &str) -> (r: Result<Response, Error>)
        ensures
            sent(old(self)@, Method::Trace, path@, None, final(self)@, r),
    {
        self.send(Method::Trace, path, None)
    }

    /// `POST` to `path` with `body` as a form-encoded payload.
    pub fn post(&mut self, path: &str, body: &str) -> (r: Result<Response, Error>)
        ensures
            sent(old(self)@, Method::Post, path@, Some(body), final(self)@, r),
    {
        self.send(Method::Post, path, Some(body))
    }

    /// `PUT` to `path` with `body` as a form-encoded payload.
    pub fn put(&mut self, path: &str, body: &str) -> (r: Result<Response, Error>)
        ensures
            sent(old(self)@, Method::Put, path@, Some(body), final(self)@, r),
    {
        self.send(Method::Put, path, Some(body))
    }

    /// `PATCH` of `path` with `body` as a form-encoded payload.
    pub fn patch(&mut self, path: &str, body: &str) -> (r: Result<Response, Error>)
        ensures
            sent(old(self)@, Method::Patch, path@, Some(body), final(self)@, r),
    {
        self.send(Method::Patch, path, Some(body))
    }

    /// `GET` of `path`, then the body as text. Decoding comes after the
    /// exchange: the jar is updated also where decoding fails.
    pub fn get_string(&mut self, path: &str) -> (r: Result<String, Error>)
        ensures
            exists|got: Result<Response, Error>|
                #[trigger] sent(old(self)@, Method::Get, path@, None, final(self)@, got)
                    && text_of_outcome(got, r),
    {
        let got = self.get(path);
        let ghost seen = got;
        let r = match got {
            Ok(response) => response.text(),
            Err(e) => Err(e),
        };
        assert(sent(old(self)@, Method::Get, path@, None, self@, seen) && text_of_outcome(
            seen,
            r,
        ));
        r
    }

    /// `GET` of `path`, then the body as a JSON document.
    pub fn get_json(&mut self, path: &str) -> (r: Result<serde_json::Value, Error>)
        ensures
            exists|got: Result<Response, Error>|
                #[trigger] sent(old(self)@, Method::Get, path@, None, final(self)@, got)
                    && json_of_outcome(got, r),
    {
        let got = self.get(path);
        let ghost seen = got;
        let r = match got {
            Ok(response) => response.json(),
            Err(e) => Err(e),
        };
        assert(sent(old(self)@, Method::Get, path@, None, self@, seen) && json_of_outcome(
            seen,
            r,
        ));
        r
    }

    /// `GET` of `path`, then the body as the markup of an HTML document.
    pub fn get_html(&mut self, path: &str) -> (r: Result<String, Error>)
        ensures
            exists|got: Result<Response, Error>|
                #[trigger] sent(old(self)@, Method::Get, path@, None, final(self)@, got)
                    && text_of_outcome(got, r),
    {
        let got = self.get(path);
        let ghost seen = got;
        let r = match got {
            Ok(response) => response.html(),
            Err(e) => Err(e),
        };
        assert(sent(old(self)@, Method::Get, path@, None, self@, seen) && text_of_outcome(
            seen,
            r,
        ));
        r
    }
}

} // verus!
