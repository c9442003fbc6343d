//! What the site answers, proved for every request of a kind.

use vstd::prelude::*;
use crate::cookie::{lemma_latest_after_store, private_value, CookieView};
use crate::exchange::{
    is_client_error, plain_request, text_response, OutcomeView, RequestView, ACCEPTED,
    BAD_REQUEST, NOT_FOUND, OK, UNAUTHORIZED, UNPROCESSABLE_ENTITY,
};
use crate::form::user_data_of;
use crate::json::{decoded_record, json_parsed, record_of, JsonError, JsonTree};
use crate::handlers::{continent_text, few_text, page_text, user_cookie, user_text};
use crate::number::{decimal, is_digit, lemma_decimal_round_trip, unsigned_of};
use crate::pairs::{pairs_of, value_of};
use crate::path::{
    all_segments, inside_root, is_plain_name, is_segment, lemma_resolved_inside_root,
    lemma_segments_below, lemma_segments_of_path, path_of, relative_path, resolved, segments_of,
};
use crate::percent::{lemma_plain_text_decodes_to_itself, percent_decoded};
use crate::route::{
    is_static, lemma_param_named, route_matches, Method, RouteView, SegmentView,
};
use crate::answer::{
    answer, bound_param, bound_rest, decoded_all, failure, ok_text, query_value,
};
use crate::router::{lemma_first_match, query_pairs, respond, selected};
use crate::site::{lemma_standing, site_routes};
use crate::text::{
    join, lemma_join_split, lemma_occurs_at_end, lemma_split_concat, lemma_split_join,
    lemma_split_nonempty, lemma_split_plain, occurs_in, split,
};

verus! {

/// When the route at `j` of the site applies to a request.
pub open spec fn site_route_applies(
    j: int,
    method: Method,
    segments: Seq<Seq<char>>,
    pairs: Seq<(Seq<char>, Seq<char>)>,
) -> bool {
    if j == 0 {
        method == Method::Get && segments.len() == 0
    } else if j == 1 {
        method == Method::Get && segments.len() == 1 && segments[0] == "earth"@
    } else if j == 2 {
        method == Method::Get && segments.len() == 2 && segments[0] == "earth"@
            && segments[1].len() > 0
    } else if j == 3 {
        method == Method::Get && segments.len() >= 1 && segments[0] == "page"@
    } else if j == 4 {
        method == Method::Get && segments.len() >= 1 && segments[0] == "secured"@
    } else if j == 5 {
        method == Method::Get && segments.len() == 2 && segments[0] == "resource"@
            && segments[1].len() > 0
    } else if j == 6 {
        method == Method::Get && segments.len() == 1 && segments[0] == "resource"@
    } else if j == 7 {
        method == Method::Get && segments.len() == 1 && segments[0] == "form"@
    } else if j == 8 {
        method == Method::Post && segments.len() == 1 && segments[0] == "doSomething"@
    } else if j == 9 {
        method == Method::Post && segments.len() == 1 && segments[0] == "json"@
    } else if j == 10 {
        method == Method::Get && segments.len() == 1 && segments[0] == "auth"@ && value_of(
            pairs,
            "username"@,
        ) is Some && value_of(pairs, "password"@) is Some
    } else {
        method == Method::Post && segments.len() == 1 && segments[0].len() > 0
    }
}

/// Each route of the site applies exactly when `site_route_applies` says so.
pub proof fn lemma_site_route_applies(
    j: int,
    method: Method,
    segments: Seq<Seq<char>>,
    pairs: Seq<(Seq<char>, Seq<char>)>,
)
    requires
        0 <= j < site_routes().len(),
    ensures
        route_matches(site_routes()[j], method, segments, pairs) == site_route_applies(
            j,
            method,
            segments,
            pairs,
        ),
{
    let route = site_routes()[j];
    if j == 2 || j == 5 {
        assert(route.path[1] is Param);
    }
    if j == 3 || j == 4 {
        assert(route.path[1] is Rest);
    }
    if j == 10 {
        assert(route.query[0] == "username"@);
        assert(route.query[1] == "password"@);
    }
    if j == 11 {
        assert(route.path[0] is Param);
    }
    if j != 0 && j != 11 {
        assert(route.path[0] is Literal);
    }
}

/// The names that lead the routes of the site are told apart by their length
/// or by their first letter, and none of them holds a slash.
proof fn lemma_site_names()
    ensures
        "earth"@.len() == 5,
        "page"@.len() == 4,
        "secured"@.len() == 7,
        "resource"@.len() == 8,
        "form"@.len() == 4,
        "doSomething"@.len() == 11,
        "json"@.len() == 4,
        "auth"@.len() == 4,
        "page"@[0] == 'p',
        "form"@[0] == 'f',
        "json"@[0] == 'j',
        "auth"@[0] == 'a',
        "doSomething"@[0] == 'd',
        is_segment("earth"@),
        is_segment("page"@),
        is_segment("secured"@),
        is_segment("resource"@),
{
    reveal_strlit("earth");
    reveal_strlit("page");
    reveal_strlit("secured");
    reveal_strlit("resource");
    reveal_strlit("form");
    reveal_strlit("doSomething");
    reveal_strlit("json");
    reveal_strlit("auth");
}

/// A route that alone applies to a request is the one that answers it.
proof fn lemma_only_route(
    method: Method,
    segments: Seq<Seq<char>>,
    pairs: Seq<(Seq<char>, Seq<char>)>,
    k: int,
)
    requires
        0 <= k < site_routes().len(),
        forall|j: int|
            0 <= j < site_routes().len() ==> (#[trigger] site_route_applies(
                j,
                method,
                segments,
                pairs,
            ) <==> j == k),
    ensures
        selected(site_routes(), method, segments, pairs) == Some(k),
{
    let table = site_routes();
    lemma_first_match(table, true, method, segments, pairs);
    lemma_first_match(table, false, method, segments, pairs);
    assert forall|j: int| 0 <= j < table.len() implies (route_matches(
        #[trigger] table[j],
        method,
        segments,
        pairs,
    ) <==> j == k) by {
        lemma_site_route_applies(j, method, segments, pairs);
    }
}

/// A target without `?` is all path: the request has no query.
pub proof fn lemma_target_without_query(method: Method, target: Seq<char>)
    requires
        !target.contains('?'),
    ensures
        plain_request(method, target).path == target,
        plain_request(method, target).query is None,
{
    lemma_split_plain(target, '?');
}

/// Two texts one after the other hold a character only if one of them does.
proof fn lemma_concat_lacks(a: Seq<char>, b: Seq<char>, c: char)
    requires
        !a.contains(c),
        !b.contains(c),
    ensures
        !(a + b).contains(c),
{
    assert forall|i: int| 0 <= i < (a + b).len() implies (a + b)[i] != c by {
        if i < a.len() {
            assert(a[i] == (a + b)[i]);
        } else {
            assert(b[i - a.len()] == (a + b)[i]);
        }
    }
}

/// A join holds a character only if a piece does, or the separator is it.
proof fn lemma_join_lacks(pieces: Seq<Seq<char>>, sep: char, c: char)
    requires
        sep != c,
        forall|i: int| 0 <= i < pieces.len() ==> !(#[trigger] pieces[i]).contains(c),
    ensures
        !join(pieces, sep).contains(c),
    decreases pieces.len(),
{
    if pieces.len() == 1 {
        assert(!pieces[0].contains(c));
    } else if pieces.len() > 1 {
        let front = pieces.drop_last();
        assert forall|i: int| 0 <= i < front.len() implies !(#[trigger] front[i]).contains(c) by {
            assert(front[i] == pieces[i]);
        }
        lemma_join_lacks(front, sep, c);
        let head = join(front, sep).push(sep);
        assert(!head.contains(c)) by {
            assert forall|i: int| 0 <= i < head.len() implies head[i] != c by {
                if i < head.len() - 1 {
                    assert(head[i] == join(front, sep)[i]);
                }
            }
        }
        assert(!pieces.last().contains(c));
        lemma_concat_lacks(head, pieces.last(), c);
    }
}

/// `GET /earth/c` names `c` as it was written, escapes and all, whatever
/// single segment `c` is.
pub proof fn lemma_continent_is_named(c: Seq<char>)
    requires
        is_segment(c),
        !c.contains('?'),
    ensures
        respond(site_routes(), plain_request(Method::Get, "/earth/"@ + c)) == ok_text(
            continent_text(c),
        ),
        occurs_in(c, continent_text(c)),
{
    let target = "/earth/"@ + c;
    let segments = seq!["earth"@, c];
    let pairs = Seq::<(Seq<char>, Seq<char>)>::empty();
    lemma_site_names();
    reveal_strlit("/earth/");
    reveal_strlit("earth");
    assert("/earth/"@ == (seq!['/'] + "earth"@).push('/'));
    lemma_concat_lacks("/earth/"@, c, '?');
    lemma_target_without_query(Method::Get, target);
    assert(join(seq![c], '/') == c);
    lemma_segments_below("earth"@, seq![c]);
    assert(seq!["earth"@] + seq![c] == segments);
    assert forall|j: int| 0 <= j < site_routes().len() implies (#[trigger] site_route_applies(
        j,
        Method::Get,
        segments,
        pairs,
    ) <==> j == 2) by {}
    lemma_only_route(Method::Get, segments, pairs, 2);
    let path = site_routes()[2].path;
    lemma_param_named(path, "continent"@);
    assert(path[1] == SegmentView::Param("continent"@));
    assert(bound_param(path, segments, "continent"@) == c);
    lemma_occurs_at_end("Continent: "@, c);
}

/// `GET /page/p` names the path `p`, its segments joined by slashes, whatever
/// segments these are, none too, as long as decoding leaves each as it is.
pub proof fn lemma_page_is_named(p: Seq<Seq<char>>)
    requires
        all_segments(p),
        forall|i: int| 0 <= i < p.len() ==> !(#[trigger] p[i]).contains('?'),
        forall|i: int| 0 <= i < p.len() ==> percent_decoded(#[trigger] p[i]) == Some(p[i]),
    ensures
        respond(site_routes(), plain_request(Method::Get, "/page/"@ + join(p, '/'))) == ok_text(
            page_text(p),
        ),
        occurs_in(join(p, '/'), page_text(p)),
{
    let target = "/page/"@ + join(p, '/');
    let segments = seq!["page"@] + p;
    let pairs = Seq::<(Seq<char>, Seq<char>)>::empty();
    lemma_site_names();
    reveal_strlit("/page/");
    reveal_strlit("page");
    assert("/page/"@ == (seq!['/'] + "page"@).push('/'));
    lemma_join_lacks(p, '/', '?');
    lemma_concat_lacks("/page/"@, join(p, '/'), '?');
    lemma_target_without_query(Method::Get, target);
    lemma_segments_below("page"@, p);
    assert forall|j: int| 0 <= j < site_routes().len() implies (#[trigger] site_route_applies(
        j,
        Method::Get,
        segments,
        pairs,
    ) <==> j == 3) by {}
    lemma_only_route(Method::Get, segments, pairs, 3);
    let path = site_routes()[3].path;
    assert(bound_rest(path, segments) == p);
    assert(decoded_all(p) == Some(p)) by {
        assert(Seq::new(p.len(), |i: int| percent_decoded(p[i])->0) == p);
    }
    lemma_occurs_at_end("Page: "@, join(p, '/'));
}

/// `GET /page/p` names the path `p` for all segments without `%`: decoding
/// leaves these as they are.
pub proof fn lemma_plain_page_is_named(p: Seq<Seq<char>>)
    requires
        all_segments(p),
        forall|i: int| 0 <= i < p.len() ==> !(#[trigger] p[i]).contains('?'),
        forall|i: int| 0 <= i < p.len() ==> !(#[trigger] p[i]).contains('%'),
    ensures
        respond(site_routes(), plain_request(Method::Get, "/page/"@ + join(p, '/'))) == ok_text(
            page_text(p),
        ),
        occurs_in(join(p, '/'), page_text(p)),
{
    assert forall|i: int| 0 <= i < p.len() implies percent_decoded(#[trigger] p[i]) == Some(
        p[i],
    ) by {
        lemma_plain_text_decodes_to_itself(p[i]);
    }
    lemma_page_is_named(p);
}

/// Whatever the routes and whatever the request, a file that is answered with
/// lies below the static root: each name of its path is a plain name, so the
/// path neither begins at the top of the file system nor climbs with `..`.
pub proof fn lemma_served_file_is_inside(table: Seq<RouteView>, request: RequestView)
    ensures
        respond(table, request) matches OutcomeView::ServeFile(file) ==> inside_root(
            split(file, '/'),
        ),
{
    let segments = segments_of(request.path);
    let pairs = query_pairs(request.query);
    match selected(table, request.method, segments, pairs) {
        Some(i) => {
            let route = table[i];
            match answer(route, segments, pairs, request) {
                OutcomeView::ServeFile(file) => {
                    if file == "index.html"@ {
                        reveal_strlit("index.html");
                        reveal_strlit(".");
                        reveal_strlit("..");
                        lemma_split_plain(file, '/');
                        assert(is_plain_name(file));
                        assert(split(file, '/')[0] == file);
                    } else {
                        let path = decoded_all(bound_rest(route.path, segments))->0;
                        let location = resolved(path)->0;
                        lemma_resolved_inside_root(path);
                        assert(file == relative_path(location));
                        assert forall|k: int| 0 <= k < location.len() implies !(
                        #[trigger] location[k]).contains('/') by {
                            assert(is_plain_name(location[k]));
                        }
                        lemma_split_join(location, '/');
                    }
                },
                _ => {},
            }
        },
        None => {},
    }
}

/// Whatever the routes and whatever the request, the response is a success or
/// tells the client of its mistake: no request makes the server fail.
pub proof fn lemma_failures_are_client_errors(table: Seq<RouteView>, request: RequestView)
    ensures
        respond(table, request) matches OutcomeView::Respond(response) ==> response.status == OK
            || response.status == ACCEPTED || is_client_error(response.status),
{
}

/// `GET /resource/raw` sets a private cookie that holds the decoded segment,
/// and a later `GET /resource` that brings the cookies of that response names
/// what the cookie holds. Without such a cookie the later request is told that
/// it is not authorized.
pub proof fn lemma_cookie_round_trip(raw: Seq<char>, id: Seq<char>, later: RequestView)
    requires
        is_segment(raw),
        !raw.contains('?'),
        percent_decoded(raw) == Some(id),
        later.method == Method::Get,
        segments_of(later.path) == seq!["resource"@],
    ensures
        respond(site_routes(), plain_request(Method::Get, "/resource/"@ + raw))
            matches OutcomeView::Respond(first) && first.status == OK && first.body
            == "Cookie set"@ && first.cookies == seq![
            CookieView { name: user_cookie(), value: id, private: true },
        ] && (later.cookies == first.cookies ==> respond(site_routes(), later) == ok_text(
            user_text(id),
        )),
        private_value(later.cookies, user_cookie()) is None ==> respond(site_routes(), later)
            == failure(UNAUTHORIZED),
{
    lemma_site_names();
    let pairs = Seq::<(Seq<char>, Seq<char>)>::empty();
    let target = "/resource/"@ + raw;
    let segments = seq!["resource"@, raw];
    reveal_strlit("/resource/");
    reveal_strlit("resource");
    assert("/resource/"@ == (seq!['/'] + "resource"@).push('/'));
    lemma_concat_lacks("/resource/"@, raw, '?');
    lemma_target_without_query(Method::Get, target);
    assert(join(seq![raw], '/') == raw);
    lemma_segments_below("resource"@, seq![raw]);
    assert(seq!["resource"@] + seq![raw] == segments);
    assert forall|j: int| 0 <= j < site_routes().len() implies (#[trigger] site_route_applies(
        j,
        Method::Get,
        segments,
        pairs,
    ) <==> j == 5) by {}
    lemma_only_route(Method::Get, segments, pairs, 5);
    let path = site_routes()[5].path;
    lemma_param_named(path, "id"@);
    assert(path[1] == SegmentView::Param("id"@));
    assert(bound_param(path, segments, "id"@) == raw);

    let cookie = CookieView { name: user_cookie(), value: id, private: true };
    lemma_latest_after_store(Seq::<CookieView>::empty(), cookie, user_cookie());
    assert(Seq::<CookieView>::empty().push(cookie) == seq![cookie]);
    let later_pairs = query_pairs(later.query);
    assert forall|j: int| 0 <= j < site_routes().len() implies (#[trigger] site_route_applies(
        j,
        Method::Get,
        seq!["resource"@],
        later_pairs,
    ) <==> j == 6) by {}
    lemma_only_route(Method::Get, seq!["resource"@], later_pairs, 6);
}

/// `POST /n` greets the number `n` and is accepted, for every number that
/// the machine word holds.
pub proof fn lemma_number_is_greeted(n: nat)
    requires
        n <= usize::MAX,
    ensures
        respond(site_routes(), plain_request(Method::Post, seq!['/'] + decimal(n)))
            == OutcomeView::Respond(text_response(ACCEPTED, few_text(n))),
{
    lemma_site_names();
    lemma_decimal_round_trip(n);
    let digits = decimal(n);
    let target = seq!['/'] + digits;
    let segments = seq![digits];
    let pairs = Seq::<(Seq<char>, Seq<char>)>::empty();
    assert forall|i: int| 0 <= i < digits.len() implies digits[i] != '/' && digits[i] != '?' by {
        assert(is_digit(digits[i]));
    }
    lemma_concat_lacks(seq!['/'], digits, '?');
    lemma_target_without_query(Method::Post, target);
    assert(join(segments, '/') == digits);
    assert(all_segments(segments));
    lemma_segments_of_path(segments);
    assert(target == path_of(segments));
    assert(is_digit(digits[0]));
    assert forall|j: int| 0 <= j < site_routes().len() implies (#[trigger] site_route_applies(
        j,
        Method::Post,
        segments,
        pairs,
    ) <==> j == 11) by {}
    lemma_only_route(Method::Post, segments, pairs, 11);
    let path = site_routes()[11].path;
    lemma_param_named(path, "id"@);
    assert(path[0] == SegmentView::Param("id"@));
    assert(bound_param(path, segments, "id"@) == digits);
}

/// `POST /c` is never accepted where the segment `c` is no number; unless
/// another route takes the request, nothing is found there.
pub proof fn lemma_other_text_is_not_accepted(c: Seq<char>)
    requires
        is_segment(c),
        !c.contains('?'),
        unsigned_of(c) is None,
    ensures
        respond(site_routes(), plain_request(Method::Post, seq!['/'] + c))
            matches OutcomeView::Respond(response) && response.status != ACCEPTED,
        c != "json"@ && c != "doSomething"@ ==> respond(
            site_routes(),
            plain_request(Method::Post, seq!['/'] + c),
        ) == failure(NOT_FOUND),
{
    lemma_site_names();
    let target = seq!['/'] + c;
    let segments = seq![c];
    let pairs = Seq::<(Seq<char>, Seq<char>)>::empty();
    lemma_concat_lacks(seq!['/'], c, '?');
    lemma_target_without_query(Method::Post, target);
    assert(join(segments, '/') == c);
    assert(all_segments(segments));
    lemma_segments_of_path(segments);
    assert(target == path_of(segments));
    let k: int = if c == "json"@ {
        9
    } else if c == "doSomething"@ {
        8
    } else {
        11
    };
    lemma_first_match(site_routes(), true, Method::Post, segments, pairs);
    lemma_first_match(site_routes(), false, Method::Post, segments, pairs);
    assert forall|j: int| 0 <= j < site_routes().len() implies (route_matches(
        #[trigger] site_routes()[j],
        Method::Post,
        segments,
        pairs,
    ) <==> j == k || j == 11) by {
        lemma_site_route_applies(j, Method::Post, segments, pairs);
    }
    lemma_standing(8);
    lemma_standing(9);
    lemma_standing(11);
    assert(selected(site_routes(), Method::Post, segments, pairs) == Some(k));
    if k == 11 {
        let path = site_routes()[11].path;
        lemma_param_named(path, "id"@);
        assert(path[0] == SegmentView::Param("id"@));
        assert(bound_param(path, segments, "id"@) == c);
    }
}

/// A target with a query: the path ends at the first `?`, and the query is
/// all that follows it.
pub proof fn lemma_target_with_query(method: Method, path: Seq<char>, query: Seq<char>)
    requires
        !path.contains('?'),
    ensures
        plain_request(method, path.push('?') + query).path == path,
        plain_request(method, path.push('?') + query).query == Some(query),
{
    let target = path.push('?') + query;
    lemma_split_concat(path, query, '?');
    lemma_split_plain(path, '?');
    lemma_split_nonempty(query, '?');
    lemma_join_split(query, '?');
    assert(split(target, '?').drop_first() == split(query, '?'));
}

/// `POST /doSomething` says the form back where the body holds all four
/// fields and each decodes: their values stand in the answer in the order
/// name, age, email, password. Any other body is told to be unprocessable.
pub proof fn lemma_form_is_answered(request: RequestView)
    requires
        request.method == Method::Post,
        segments_of(request.path) == seq!["doSomething"@],
    ensures
        respond(site_routes(), request) == match user_data_of(request.body) {
            Some(form) => ok_text(
                "Name: "@ + form.name + ", Age: "@ + form.age + ", Email: "@ + form.email
                    + ", Password: "@ + form.password,
            ),
            None => failure(UNPROCESSABLE_ENTITY),
        },
{
    lemma_site_names();
    let segments = seq!["doSomething"@];
    let pairs = query_pairs(request.query);
    assert forall|j: int| 0 <= j < site_routes().len() implies (#[trigger] site_route_applies(
        j,
        Method::Post,
        segments,
        pairs,
    ) <==> j == 8 || j == 11) by {}
    lemma_static_route_goes_first(segments, pairs, 8);
}

/// A form that lacks one of its four fields is no form.
pub proof fn lemma_form_needs_every_field(body: Seq<char>, key: Seq<char>)
    requires
        key == "name"@ || key == "age"@ || key == "email"@ || key == "password"@,
        value_of(pairs_of(body), key) is None,
    ensures
        user_data_of(body) is None,
{
}

/// `POST /json` says the record back where the body holds one; a body that
/// is no JSON text is a bad request, and one that holds no record is
/// unprocessable.
pub proof fn lemma_json_is_answered(request: RequestView)
    requires
        request.method == Method::Post,
        segments_of(request.path) == seq!["json"@],
    ensures
        respond(site_routes(), request) == match decoded_record(json_parsed(request.body)) {
            Ok(record) => ok_text(
                "Name: "@ + record.name + ", Age: "@ + decimal(record.age as nat),
            ),
            Err(JsonError::Malformed) => failure(BAD_REQUEST),
            Err(JsonError::Shape) => failure(UNPROCESSABLE_ENTITY),
        },
{
    lemma_site_names();
    let segments = seq!["json"@];
    let pairs = query_pairs(request.query);
    assert forall|j: int| 0 <= j < site_routes().len() implies (#[trigger] site_route_applies(
        j,
        Method::Post,
        segments,
        pairs,
    ) <==> j == 9 || j == 11) by {}
    lemma_static_route_goes_first(segments, pairs, 9);
}

/// A document whose `age` is no integer between 0 and 255 holds no record.
pub proof fn lemma_age_out_of_range(doc: JsonTree)
    requires
        doc matches JsonTree::Object(members) && members.contains_key("age"@) && !(members["age"@]
            matches JsonTree::Number(Some(age)) && age <= u8::MAX),
    ensures
        record_of(doc) is None,
{
}

/// `GET /auth?query` says the credentials back where the query names a
/// `username` and a `password` and both decode. Where one is not named, or
/// does not decode, nothing is found.
pub proof fn lemma_credentials_are_answered(query: Seq<char>)
    ensures
        respond(site_routes(), plain_request(Method::Get, "/auth?"@ + query)) == match (
            query_value(pairs_of(query), "username"@),
            query_value(pairs_of(query), "password"@),
        ) {
            (Some(username), Some(password)) => ok_text(
                "Username: "@ + username + ", Password: "@ + password,
            ),
            _ => failure(NOT_FOUND),
        },
{
    lemma_site_names();
    reveal_strlit("/auth?");
    reveal_strlit("auth");
    let path = seq!['/'] + "auth"@;
    assert("/auth?"@ == path.push('?'));
    lemma_target_with_query(Method::Get, path, query);
    let segments = seq!["auth"@];
    assert(join(segments, '/') == "auth"@);
    assert(is_segment("auth"@));
    assert(all_segments(segments));
    lemma_segments_of_path(segments);
    assert(path == path_of(segments));
    let pairs = pairs_of(query);
    let table = site_routes();
    lemma_first_match(table, true, Method::Get, segments, pairs);
    lemma_first_match(table, false, Method::Get, segments, pairs);
    assert forall|j: int| 0 <= j < table.len() implies (route_matches(
        #[trigger] table[j],
        Method::Get,
        segments,
        pairs,
    ) <==> j == 10 && site_route_applies(10, Method::Get, segments, pairs)) by {
        lemma_site_route_applies(j, Method::Get, segments, pairs);
    }
    if site_route_applies(10, Method::Get, segments, pairs) {
        assert(is_static(table[10].path));
        assert(selected(table, Method::Get, segments, pairs) == Some(10int));
    }
}

/// Where route `k` of the site, made of literal segments, applies to a
/// `POST` of one segment, it answers, though the route for numbers applies too.
proof fn lemma_static_route_goes_first(
    segments: Seq<Seq<char>>,
    pairs: Seq<(Seq<char>, Seq<char>)>,
    k: int,
)
    requires
        k == 8 || k == 9,
        forall|j: int|
            0 <= j < site_routes().len() ==> (#[trigger] site_route_applies(
                j,
                Method::Post,
                segments,
                pairs,
            ) <==> j == k || j == 11),
    ensures
        selected(site_routes(), Method::Post, segments, pairs) == Some(k),
{
    let table = site_routes();
    lemma_first_match(table, true, Method::Post, segments, pairs);
    lemma_first_match(table, false, Method::Post, segments, pairs);
    lemma_standing(8);
    lemma_standing(9);
    lemma_standing(11);
    assert forall|j: int| 0 <= j < table.len() implies (route_matches(
        #[trigger] table[j],
        Method::Post,
        segments,
        pairs,
    ) <==> j == k || j == 11) by {
        lemma_site_route_applies(j, Method::Post, segments, pairs);
    }
}

} // verus!
