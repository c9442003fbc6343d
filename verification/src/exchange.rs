//! The two sides of one exchange: the request as the server read it, and what
//! goes back.

use vstd::prelude::*;
use crate::cookie::{CookieJar, CookieView};
use crate::route::Method;
use crate::text::{head_of, split_once, tail_of};

verus! {

pub const OK: u16 = 200;

pub const ACCEPTED: u16 = 202;

pub const BAD_REQUEST: u16 = 400;

pub const UNAUTHORIZED: u16 = 401;

pub const NOT_FOUND: u16 = 404;

pub const UNPROCESSABLE_ENTITY: u16 = 422;

/// The status tells the client that the request was at fault.
pub open spec fn is_client_error(status: u16) -> bool {
    400 <= status <= 499
}

/// A request.
#[derive(Debug)]
pub struct Request {
    pub method: Method,
    /// The path as the client wrote it, escapes and all.
    pub path: String,
    /// What follows the `?` of the request target, if it has one.
    pub query: Option<String>,
    /// The cookies that came with the request, the private ones opened.
    pub cookies: CookieJar,
    pub body: String,
}

/// A request as plain values.
pub struct RequestView {
    pub method: Method,
    pub path: Seq<char>,
    pub query: Option<Seq<char>>,
    pub cookies: Seq<CookieView>,
    pub body: Seq<char>,
}

impl View for Request {
    type V = RequestView;

    open spec fn view(&self) -> RequestView {
        RequestView {
            method: self.method,
            path: self.path@,
            query: match self.query {
                Some(query) => Some(query@),
                None => None,
            },
            cookies: self.cookies@,
            body: self.body@,
        }
    }
}

/// The request for `target` that brings neither cookies nor a body. The
/// target's path ends at its first `?`, where its query begins.
pub open spec fn plain_request(method: Method, target: Seq<char>) -> RequestView {
    RequestView {
        method,
        path: head_of(target, '?'),
        query: tail_of(target, '?'),
        cookies: Seq::<CookieView>::empty(),
        body: Seq::<char>::empty(),
    }
}

impl Request {
    /// A request for `target`, without cookies and with an empty body.
    pub fn new(method: Method, target: &str) -> (request: Request)
        ensures
            request@ == plain_request(method, target@),
    {
        let (path, query) = split_once(target, '?');
        Request { method, path, query, cookies: CookieJar::new(), body: String::new() }
    }

    /// The same request with `body` for its body.
    pub fn with_body(self, body: String) -> (request: Request)
        ensures
            request@ == (RequestView { body: body@, ..self@ }),
    {
        Request {
            method: self.method,
            path: self.path,
            query: self.query,
            cookies: self.cookies,
            body,
        }
    }

    /// The same request with `cookies` for its cookies.
    pub fn with_cookies(self, cookies: CookieJar) -> (request: Request)
        ensures
            request@ == (RequestView { cookies: cookies@, ..self@ }),
    {
        Request {
            method: self.method,
            path: self.path,
            query: self.query,
            cookies,
            body: self.body,
        }
    }
}

/// A response.
#[derive(Debug)]
pub struct Response {
    pub status: u16,
    pub body: String,
    /// The cookies that the response sets.
    pub cookies: CookieJar,
}

/// A response as plain values.
pub struct ResponseView {
    pub status: u16,
    pub body: Seq<char>,
    pub cookies: Seq<CookieView>,
}

impl View for Response {
    type V = ResponseView;

    open spec fn view(&self) -> ResponseView {
        ResponseView { status: self.status, body: self.body@, cookies: self.cookies@ }
    }
}

/// A response of that status and body that sets no cookie.
pub open spec fn text_response(status: u16, body: Seq<char>) -> ResponseView {
    ResponseView { status, body, cookies: Seq::<CookieView>::empty() }
}

/// A response of that status with nothing in it.
pub open spec fn bare_response(status: u16) -> ResponseView {
    text_response(status, Seq::<char>::empty())
}

impl Response {
    /// A response of that status and body that sets no cookie.
    pub fn text(status: u16, body: String) -> (response: Response)
        ensures
            response@ == text_response(status, body@),
    {
        Response { status, body, cookies: CookieJar::new() }
    }

    /// A response of that status with nothing in it: what a failure answers.
    pub fn bare(status: u16) -> (response: Response)
        ensures
            response@ == bare_response(status),
    {
        Response { status, body: String::new(), cookies: CookieJar::new() }
    }
}

/// What the routes make of a request: a response, or the name of a file below
/// the static root whose contents are the response.
#[derive(Debug)]
pub enum Outcome {
    Respond(Response),
    ServeFile(String),
}

/// An outcome as plain values.
pub enum OutcomeView {
    Respond(ResponseView),
    ServeFile(Seq<char>),
}

impl View for Outcome {
    type V = OutcomeView;

    open spec fn view(&self) -> OutcomeView {
        match self {
            Outcome::Respond(response) => OutcomeView::Respond(response@),
            Outcome::ServeFile(file) => OutcomeView::ServeFile(file@),
        }
    }
}

/// The response for a file that was looked for below the static root: its
/// contents where it was found, not found otherwise.
pub open spec fn file_answer(contents: Option<Seq<char>>) -> ResponseView {
    match contents {
        Some(text) => text_response(OK, text),
        None => bare_response(NOT_FOUND),
    }
}

/// Answers with a file's contents, or with not found where there is no file.
pub fn file_response(contents: Option<String>) -> (response: Response)
    ensures
        response@ == file_answer(
            match contents {
                Some(text) => Some(text@),
                None => None,
            },
        ),
{
    match contents {
        Some(text) => Response::text(OK, text),
        None => Response::bare(NOT_FOUND),
    }
}

} // verus!
