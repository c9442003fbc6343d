//! What a route answers to a request that it matched: the parameters are
//! bound and decoded, the handler is called, and what it gives is made a
//! response.

use vstd::prelude::*;
use vstd::string::StringExecFns;
use crate::cookie::{private_value, CookieJar, CookieView};
use crate::exchange::{
    bare_response, text_response, Outcome, OutcomeView, Request, RequestView, Response,
    ResponseView, ACCEPTED, BAD_REQUEST, NOT_FOUND, OK, UNAUTHORIZED, UNPROCESSABLE_ENTITY,
};
use crate::form::{decode_user_data, user_data_of};
use crate::handlers::{
    auth_text, authenticate, continent, continent_text, do_something, earth, few, few_text, form,
    form_text, get_cookie, index, json_text_of, page, page_text, pass_json, secured, secured_file,
    set_cookie, user_cookie, user_text,
};
use crate::json::{decode_some_json, decoded_record, json_parsed, JsonError};
use crate::number::{parse_unsigned, unsigned_of};
use crate::pairs::{find_value, pair_texts, value_of};
use crate::percent::{percent_decode, percent_decoded};
use crate::route::{
    lemma_param_named, param_index, param_named, pattern_view, route_matches, Handler, Route,
    RouteView, SegmentView,
};
use crate::table::route_ok;
use crate::text::texts;

verus! {

/// The segment that the pattern binds to the parameter of that name.
pub open spec fn bound_param(
    path: Seq<SegmentView>,
    segments: Seq<Seq<char>>,
    name: Seq<char>,
) -> Seq<char> {
    segments[param_named(path, name)->0]
}

/// The segments that the pattern's rest binds.
pub open spec fn bound_rest(path: Seq<SegmentView>, segments: Seq<Seq<char>>) -> Seq<Seq<char>> {
    segments.skip(path.len() - 1)
}

/// The segments percent-decoded one by one, if each decodes.
pub open spec fn decoded_all(segments: Seq<Seq<char>>) -> Option<Seq<Seq<char>>> {
    if forall|i: int| 0 <= i < segments.len() ==> percent_decoded(#[trigger] segments[i]) is Some {
        Some(Seq::new(segments.len(), |i: int| percent_decoded(segments[i])->0))
    } else {
        None
    }
}

/// The decoded value of a query parameter.
pub open spec fn query_value(pairs: Seq<(Seq<char>, Seq<char>)>, key: Seq<char>) -> Option<
    Seq<char>,
> {
    match value_of(pairs, key) {
        Some(raw) => percent_decoded(raw),
        None => None,
    }
}

/// A response that says that all went well.
pub open spec fn ok_text(body: Seq<char>) -> OutcomeView {
    OutcomeView::Respond(text_response(OK, body))
}

/// A response that says what went wrong, by its status alone.
pub open spec fn failure(status: u16) -> OutcomeView {
    OutcomeView::Respond(bare_response(status))
}

/// What a route answers to a request that it matched. A parameter that does
/// not decode means that there is nothing at this address; a body that does
/// not decode is the client's mistake.
pub open spec fn answer(
    route: RouteView,
    segments: Seq<Seq<char>>,
    pairs: Seq<(Seq<char>, Seq<char>)>,
    request: RequestView,
) -> OutcomeView {
    match route.handler {
        Handler::Index => ok_text("Hello World"@),
        Handler::Earth => ok_text("Hello Earth"@),
        Handler::Continent => ok_text(
            continent_text(bound_param(route.path, segments, "continent"@)),
        ),
        Handler::Page => match decoded_all(bound_rest(route.path, segments)) {
            Some(path) => ok_text(page_text(path)),
            None => failure(NOT_FOUND),
        },
        Handler::Secured => match decoded_all(bound_rest(route.path, segments)) {
            Some(path) => match secured_file(path) {
                Some(file) => OutcomeView::ServeFile(file),
                None => failure(NOT_FOUND),
            },
            None => failure(NOT_FOUND),
        },
        Handler::SetCookie => match percent_decoded(bound_param(route.path, segments, "id"@)) {
            Some(id) => OutcomeView::Respond(
                ResponseView {
                    status: OK,
                    body: "Cookie set"@,
                    cookies: seq![CookieView { name: user_cookie(), value: id, private: true }],
                },
            ),
            None => failure(NOT_FOUND),
        },
        Handler::GetCookie => match private_value(request.cookies, user_cookie()) {
            Some(id) => ok_text(user_text(id)),
            None => failure(UNAUTHORIZED),
        },
        Handler::Form => OutcomeView::ServeFile("index.html"@),
        Handler::DoSomething => match user_data_of(request.body) {
            Some(form) => ok_text(form_text(form)),
            None => failure(UNPROCESSABLE_ENTITY),
        },
        Handler::PassJson => match decoded_record(json_parsed(request.body)) {
            Ok(record) => ok_text(json_text_of(record)),
            Err(JsonError::Malformed) => failure(BAD_REQUEST),
            Err(JsonError::Shape) => failure(UNPROCESSABLE_ENTITY),
        },
        Handler::Authenticate => match (
            query_value(pairs, "username"@),
            query_value(pairs, "password"@),
        ) {
            (Some(username), Some(password)) => ok_text(auth_text(username, password)),
            _ => failure(NOT_FOUND),
        },
        Handler::Few => match unsigned_of(bound_param(route.path, segments, "id"@)) {
            Some(id) => OutcomeView::Respond(text_response(ACCEPTED, few_text(id as nat))),
            None => failure(NOT_FOUND),
        },
    }
}

/// Decodes the segments from the `from`-th on.
fn decode_rest(segments: &Vec<String>, from: usize) -> (r: Option<Vec<String>>)
    requires
        from <= segments.len(),
    ensures
        r is Some <==> decoded_all(texts(segments@).skip(from as int)) is Some,
        r matches Some(decoded) ==> decoded_all(texts(segments@).skip(from as int)) == Some(
            texts(decoded@),
        ),
{
    let ghost rest = texts(segments@).skip(from as int);
    let mut decoded: Vec<String> = Vec::new();
    let mut i: usize = from;
    while i < segments.len()
        invariant
            from <= i <= segments.len(),
            rest == texts(segments@).skip(from as int),
            decoded.len() == i - from,
            forall|k: int|
                0 <= k < i - from ==> percent_decoded(#[trigger] rest[k]) == Some(decoded[k]@),
        decreases segments.len() - i,
    {
        assert(rest[i - from] == segments[i as int]@);
        match percent_decode(segments[i].as_str()) {
            Some(text) => {
                decoded.push(text);
            },
            None => {
                return None;
            },
        }
        i = i + 1;
    }
    assert(texts(decoded@) == Seq::new(rest.len(), |k: int| percent_decoded(rest[k])->0));
    Some(decoded)
}

fn decode_query(pairs: &Vec<(String, String)>, key: &str) -> (r: Option<String>)
    ensures
        r is Some <==> query_value(pair_texts(pairs@), key@) is Some,
        r matches Some(value) ==> query_value(pair_texts(pairs@), key@) == Some(value@),
{
    match find_value(pairs, key) {
        Some(raw) => percent_decode(raw.as_str()),
        None => None,
    }
}

fn respond_ok(body: String) -> (out: Outcome)
    ensures
        out@ == ok_text(body@),
{
    Outcome::Respond(Response::text(OK, body))
}

fn fail(status: u16) -> (out: Outcome)
    ensures
        out@ == failure(status),
{
    Outcome::Respond(Response::bare(status))
}

/// Answers a request with the route that was selected for it.
pub(crate) fn answer_with(
    route: &Route,
    segments: &Vec<String>,
    pairs: &Vec<(String, String)>,
    request: &Request,
) -> (out: Outcome)
    requires
        route_ok(route@),
        route_matches(route@, request.method, texts(segments@), pair_texts(pairs@)),
    ensures
        out@ == answer(route@, texts(segments@), pair_texts(pairs@), request@),
{
    let ghost path = pattern_view(route.path@);
    proof {
        lemma_param_named(path, "continent"@);
        lemma_param_named(path, "id"@);
    }
    match route.handler {
        Handler::Index => respond_ok(String::from_str(index())),
        Handler::Earth => respond_ok(String::from_str(earth())),
        Handler::Continent => {
            let at = param_index(&route.path, "continent").unwrap();
            respond_ok(continent(segments[at].as_str()))
        },
        Handler::Page => {
            match decode_rest(segments, route.path.len() - 1) {
                Some(path) => respond_ok(page(&path)),
                None => fail(NOT_FOUND),
            }
        },
        Handler::Secured => {
            match decode_rest(segments, route.path.len() - 1) {
                Some(path) => match secured(&path) {
                    Some(file) => Outcome::ServeFile(file),
                    None => fail(NOT_FOUND),
                },
                None => fail(NOT_FOUND),
            }
        },
        Handler::SetCookie => {
            let at = param_index(&route.path, "id").unwrap();
            match percent_decode(segments[at].as_str()) {
                Some(id) => {
                    let mut cookies = CookieJar::new();
                    let body = set_cookie(id, &mut cookies);
                    Outcome::Respond(Response { status: OK, body, cookies })
                },
                None => fail(NOT_FOUND),
            }
        },
        Handler::GetCookie => match get_cookie(&request.cookies) {
            Some(text) => respond_ok(text),
            None => fail(UNAUTHORIZED),
        },
        Handler::Form => Outcome::ServeFile(String::from_str(form())),
        Handler::DoSomething => match decode_user_data(request.body.as_str()) {
            Some(param) => respond_ok(do_something(&param)),
            None => fail(UNPROCESSABLE_ENTITY),
        },
        Handler::PassJson => match decode_some_json(request.body.as_str()) {
            Ok(record) => respond_ok(pass_json(&record)),
            Err(JsonError::Malformed) => fail(BAD_REQUEST),
            Err(JsonError::Shape) => fail(UNPROCESSABLE_ENTITY),
        },
        Handler::Authenticate => {
            let username = decode_query(pairs, "username");
            let password = decode_query(pairs, "password");
            match (username, password) {
                (Some(username), Some(password)) => respond_ok(
                    authenticate(username.as_str(), password.as_str()),
                ),
                _ => fail(NOT_FOUND),
            }
        },
        Handler::Few => {
            let at = param_index(&route.path, "id").unwrap();
            match parse_unsigned(segments[at].as_str()) {
                Some(id) => Outcome::Respond(Response::text(ACCEPTED, few(id))),
                None => fail(NOT_FOUND),
            }
        },
    }
}

} // verus!
