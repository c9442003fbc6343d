//! The routes of the site.

use vstd::prelude::*;
use vstd::string::StringExecFns;
use crate::route::{
    fixed_len, has_rest, is_static, lemma_param_named, pattern_view, table_view, Handler, Method,
    Route, RouteView, Segment, SegmentView,
};
use crate::router::Router;
use crate::table::{collide, route_ok, valid_table};
use crate::path::is_segment;
use crate::text::texts;

verus! {

/// A route without query parameters.
pub open spec fn plain_route(
    method: Method,
    path: Seq<SegmentView>,
    handler: Handler,
) -> RouteView {
    RouteView { method, path, query: Seq::<Seq<char>>::empty(), handler }
}

/// The routes of the site.
pub open spec fn site_routes() -> Seq<RouteView> {
    seq![
        plain_route(Method::Get, seq![], Handler::Index),
        plain_route(Method::Get, seq![SegmentView::Literal("earth"@)], Handler::Earth),
        plain_route(
            Method::Get,
            seq![SegmentView::Literal("earth"@), SegmentView::Param("continent"@)],
            Handler::Continent,
        ),
        plain_route(
            Method::Get,
            seq![SegmentView::Literal("page"@), SegmentView::Rest("path"@)],
            Handler::Page,
        ),
        plain_route(
            Method::Get,
            seq![SegmentView::Literal("secured"@), SegmentView::Rest("path"@)],
            Handler::Secured,
        ),
        plain_route(
            Method::Get,
            seq![SegmentView::Literal("resource"@), SegmentView::Param("id"@)],
            Handler::SetCookie,
        ),
        plain_route(Method::Get, seq![SegmentView::Literal("resource"@)], Handler::GetCookie),
        plain_route(Method::Get, seq![SegmentView::Literal("form"@)], Handler::Form),
        plain_route(
            Method::Post,
            seq![SegmentView::Literal("doSomething"@)],
            Handler::DoSomething,
        ),
        plain_route(Method::Post, seq![SegmentView::Literal("json"@)], Handler::PassJson),
        RouteView {
            method: Method::Get,
            path: seq![SegmentView::Literal("auth"@)],
            query: seq!["username"@, "password"@],
            handler: Handler::Authenticate,
        },
        plain_route(Method::Post, seq![SegmentView::Param("id"@)], Handler::Few),
    ]
}

fn literal(text: &str) -> (segment: Segment)
    ensures
        segment@ == SegmentView::Literal(text@),
{
    Segment::Literal(String::from_str(text))
}

fn param(name: &str) -> (segment: Segment)
    ensures
        segment@ == SegmentView::Param(name@),
{
    Segment::Param(String::from_str(name))
}

fn rest(name: &str) -> (segment: Segment)
    ensures
        segment@ == SegmentView::Rest(name@),
{
    Segment::Rest(String::from_str(name))
}

fn route(method: Method, path: Vec<Segment>, handler: Handler) -> (route: Route)
    ensures
        route@ == plain_route(method, pattern_view(path@), handler),
{
    let route = Route { method, path, query: Vec::new(), handler };
    assert(texts(route.query@) == Seq::<Seq<char>>::empty());
    route
}

/// Builds the routes of the site.
pub fn routes() -> (routes: Vec<Route>)
    ensures
        table_view(routes@) == site_routes(),
{
    let mut routes: Vec<Route> = Vec::new();
    let path: Vec<Segment> = Vec::new();
    assert(pattern_view(path@) == Seq::<SegmentView>::empty());
    routes.push(route(Method::Get, path, Handler::Index));
    let path = vec![literal("earth")];
    assert(pattern_view(path@) == seq![SegmentView::Literal("earth"@)]);
    routes.push(route(Method::Get, path, Handler::Earth));
    let path = vec![literal("earth"), param("continent")];
    assert(pattern_view(path@) == seq![SegmentView::Literal("earth"@), SegmentView::Param("continent"@)]);
    routes.push(route(Method::Get, path, Handler::Continent));
    let path = vec![literal("page"), rest("path")];
    assert(pattern_view(path@) == seq![SegmentView::Literal("page"@), SegmentView::Rest("path"@)]);
    routes.push(route(Method::Get, path, Handler::Page));
    let path = vec![literal("secured"), rest("path")];
    assert(pattern_view(path@) == seq![SegmentView::Literal("secured"@), SegmentView::Rest("path"@)]);
    routes.push(route(Method::Get, path, Handler::Secured));
    let path = vec![literal("resource"), param("id")];
    assert(pattern_view(path@) == seq![SegmentView::Literal("resource"@), SegmentView::Param("id"@)]);
    routes.push(route(Method::Get, path, Handler::SetCookie));
    let path = vec![literal("resource")];
    assert(pattern_view(path@) == seq![SegmentView::Literal("resource"@)]);
    routes.push(route(Method::Get, path, Handler::GetCookie));
    let path = vec![literal("form")];
    assert(pattern_view(path@) == seq![SegmentView::Literal("form"@)]);
    routes.push(route(Method::Get, path, Handler::Form));
    let path = vec![literal("doSomething")];
    assert(pattern_view(path@) == seq![SegmentView::Literal("doSomething"@)]);
    routes.push(route(Method::Post, path, Handler::DoSomething));
    let path = vec![literal("json")];
    assert(pattern_view(path@) == seq![SegmentView::Literal("json"@)]);
    routes.push(route(Method::Post, path, Handler::PassJson));
    let path = vec![literal("auth")];
    assert(pattern_view(path@) == seq![SegmentView::Literal("auth"@)]);
    let query = vec![String::from_str("username"), String::from_str("password")];
    assert(texts(query@) == seq!["username"@, "password"@]);
    routes.push(Route { method: Method::Get, path, query, handler: Handler::Authenticate });
    let path = vec![param("id")];
    assert(pattern_view(path@) == seq![SegmentView::Param("id"@)]);
    routes.push(route(Method::Post, path, Handler::Few));
    assert(table_view(routes@) == site_routes());
    routes
}

/// The routes of the site may serve: each is sound, and no two collide.
pub proof fn lemma_site_routes_valid()
    ensures
        valid_table(site_routes()),
{
    let table = site_routes();
    assert forall|i: int| 0 <= i < table.len() implies route_ok(#[trigger] table[i]) by {
        lemma_param_named(table[i].path, "continent"@);
        lemma_param_named(table[i].path, "id"@);
        if 1 <= i <= 10 {
            lemma_first_literal(i);
        }
        if i == 2 {
            assert(table[i].path[1] == SegmentView::Param("continent"@));
        }
        if i == 5 {
            assert(table[i].path[1] == SegmentView::Param("id"@));
        }
        if i == 11 {
            assert(table[i].path[0] == SegmentView::Param("id"@));
        }
        if i == 10 {
            assert(table[i].query[0] == "username"@);
            assert(table[i].query[1] == "password"@);
        }
    }
    assert forall|i: int, j: int| 0 <= i < j < table.len() implies !collide(
        #[trigger] table[i],
        #[trigger] table[j],
    ) by {
        let a = table[i];
        let b = table[j];
        if a.method == b.method && is_static(a.path) == is_static(b.path) {
            lemma_standing(i);
            lemma_standing(j);
            if fixed_len(a.path) > 0 && fixed_len(b.path) > 0 {
                assert(a.path[0] is Literal && b.path[0] is Literal);
                lemma_first_literal(i);
                lemma_first_literal(j);
                assert(a.path[0]->Literal_0 != b.path[0]->Literal_0);
            }
        }
    }
}

/// Which routes of the site are made of literal segments alone, and how long
/// the fixed part of each pattern is.
pub proof fn lemma_standing(i: int)
    requires
        0 <= i < site_routes().len(),
    ensures
        is_static(site_routes()[i].path) == (i == 0 || i == 1 || 6 <= i <= 10),
        has_rest(site_routes()[i].path) == (i == 3 || i == 4),
        fixed_len(site_routes()[i].path) == (if i == 0 {
            0int
        } else if i == 2 || i == 5 {
            2int
        } else {
            1int
        }),
{
    let path = site_routes()[i].path;
    if i == 2 || i == 5 {
        assert(path[1] is Param);
    }
    if i == 3 || i == 4 {
        assert(path[1] is Rest);
    }
    if i == 11 {
        assert(path[0] is Param);
    }
}

/// How long the literal is that leads a pattern of the site, and how it
/// begins.
proof fn lemma_first_literal(i: int)
    requires
        1 <= i <= 10,
    ensures
        site_routes()[i].path[0] matches SegmentView::Literal(text) && is_segment(text)
            && text.len() == (if i == 1 || i == 2 {
            5int
        } else if i == 3 || i == 7 || i == 9 || i == 10 {
            4int
        } else if i == 4 {
            7int
        } else if i == 5 || i == 6 {
            8int
        } else {
            11int
        }) && text[0] == (if i == 1 || i == 2 {
            'e'
        } else if i == 3 {
            'p'
        } else if i == 4 {
            's'
        } else if i == 5 || i == 6 {
            'r'
        } else if i == 7 {
            'f'
        } else if i == 8 {
            'd'
        } else if i == 9 {
            'j'
        } else {
            'a'
        }),
{
    reveal_strlit("earth");
    reveal_strlit("page");
    reveal_strlit("secured");
    reveal_strlit("resource");
    reveal_strlit("form");
    reveal_strlit("doSomething");
    reveal_strlit("json");
    reveal_strlit("auth");
}

/// The router of the site.
pub fn site() -> (router: Router)
    ensures
        router@ == site_routes(),
{
    proof {
        lemma_site_routes_valid();
    }
    Router::new(routes()).unwrap()
}

} // verus!
