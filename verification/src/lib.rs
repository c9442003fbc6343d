//! A small web site as a verified library: a table of routes, the dispatch of
//! requests over it, and handlers that answer with plain values.
//!
//! Nothing here reads a socket or a file. The server around the library turns
//! what it reads into a [`Request`], asks the [`Router`] for the [`Outcome`],
//! and sends that back.

pub mod answer;
pub mod cookie;
pub mod exchange;
pub mod form;
pub mod guarantees;
pub mod handlers;
pub mod json;
pub mod number;
pub mod pairs;
pub mod path;
pub mod percent;
pub mod route;
pub mod router;
pub mod site;
pub mod table;
pub mod text;

pub use crate::cookie::{Cookie, CookieJar};
pub use crate::exchange::{file_response, Outcome, Request, Response};
pub use crate::form::UserData;
pub use crate::handlers::{
    authenticate, continent, do_something, earth, few, form, get_cookie, index, page, pass_json,
    secured, set_cookie,
};
pub use crate::json::{JsonError, SomeJSON};
pub use crate::route::{Handler, Method, Route, Segment};
pub use crate::router::Router;
pub use crate::site::{routes, site};
