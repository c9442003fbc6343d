//! What makes a table of routes fit to serve: each route sound by itself, and
//! no two of them claiming one request with equal right.
//!
//! A route made of literal segments alone goes before one with parameters, so
//! two routes collide only if they are of the same standing.

use vstd::prelude::*;
use crate::pairs::value_of;
use crate::path::all_segments;
use crate::route::{
    common_segments, ends_in_rest_named, is_static, is_static_path,
    lemma_overlap_has_common_match, literals_are_segments, literals_fit, param_index,
    param_named, paths_overlap, patterns_overlap, rest_is_last, rest_named, rest_only_last,
    route_matches, table_view, Handler, Route, RouteView, SegmentView,
};
use crate::text::has_text;

verus! {

/// The pattern and the query names supply what the handler takes, each under
/// the name by which the handler knows it.
pub open spec fn supplies(handler: Handler, path: Seq<SegmentView>, query: Seq<Seq<char>>) -> bool {
    match handler {
        Handler::Continent => param_named(path, "continent"@) is Some,
        Handler::SetCookie | Handler::Few => param_named(path, "id"@) is Some,
        Handler::Page | Handler::Secured => rest_named(path, "path"@),
        Handler::Authenticate => query.contains("username"@) && query.contains("password"@),
        _ => true,
    }
}

/// The route is sound by itself.
pub open spec fn route_ok(route: RouteView) -> bool {
    &&& rest_is_last(route.path)
    &&& literals_are_segments(route.path)
    &&& supplies(route.handler, route.path, route.query)
}

/// Two routes that could both claim one request with equal right.
pub open spec fn collide(a: RouteView, b: RouteView) -> bool {
    &&& a.method == b.method
    &&& is_static(a.path) == is_static(b.path)
    &&& paths_overlap(a.path, b.path)
}

/// No two routes of the table collide.
pub open spec fn unambiguous(table: Seq<RouteView>) -> bool {
    forall|i: int, j: int|
        #![trigger table[i], table[j]]
        0 <= i < j < table.len() ==> !collide(table[i], table[j])
}

/// The table may serve: each route is sound and no two collide.
pub open spec fn valid_table(table: Seq<RouteView>) -> bool {
    &&& forall|i: int| 0 <= i < table.len() ==> route_ok(#[trigger] table[i])
    &&& unambiguous(table)
}

/// Pairs that give each name of two lists a value, an empty one.
pub open spec fn pairs_naming(a: Seq<Seq<char>>, b: Seq<Seq<char>>) -> Seq<(Seq<char>, Seq<char>)> {
    Seq::new(
        a.len() + b.len(),
        |i: int|
            (
                if i < a.len() {
                    a[i]
                } else {
                    b[i - a.len()]
                },
                Seq::<char>::empty(),
            ),
    )
}

/// A key that stands among the pairs has a value there.
proof fn lemma_key_has_value(pairs: Seq<(Seq<char>, Seq<char>)>, i: int)
    requires
        0 <= i < pairs.len(),
    ensures
        value_of(pairs, pairs[i].0) is Some,
    decreases pairs.len(),
{
    if pairs[0].0 != pairs[i].0 {
        assert(pairs.drop_first()[i - 1] == pairs[i]);
        lemma_key_has_value(pairs.drop_first(), i - 1);
    }
}

/// Two sound routes that collide have a request in common: the check of a
/// table refuses none without need.
pub proof fn lemma_collision_is_real(a: RouteView, b: RouteView)
    requires
        route_ok(a),
        route_ok(b),
        collide(a, b),
    ensures
        route_matches(a, a.method, common_segments(a.path, b.path), pairs_naming(a.query, b.query)),
        route_matches(b, a.method, common_segments(a.path, b.path), pairs_naming(a.query, b.query)),
        all_segments(common_segments(a.path, b.path)),
{
    let pairs = pairs_naming(a.query, b.query);
    lemma_overlap_has_common_match(a.path, b.path);
    assert forall|k: int| 0 <= k < a.query.len() implies value_of(pairs, #[trigger] a.query[k])
        is Some by {
        assert(pairs[k].0 == a.query[k]);
        lemma_key_has_value(pairs, k);
    }
    assert forall|k: int| 0 <= k < b.query.len() implies value_of(pairs, #[trigger] b.query[k])
        is Some by {
        assert(pairs[a.query.len() + k].0 == b.query[k]);
        lemma_key_has_value(pairs, a.query.len() + k);
    }
}

/// Whether the route is sound by itself.
pub fn route_sound(route: &Route) -> (r: bool)
    ensures
        r == route_ok(route@),
{
    if !rest_only_last(&route.path) || !literals_fit(&route.path) {
        return false;
    }
    match route.handler {
        Handler::Continent => param_index(&route.path, "continent").is_some(),
        Handler::SetCookie | Handler::Few => param_index(&route.path, "id").is_some(),
        Handler::Page | Handler::Secured => ends_in_rest_named(&route.path, "path"),
        Handler::Authenticate => has_text(&route.query, "username") && has_text(
            &route.query,
            "password",
        ),
        _ => true,
    }
}

/// Whether two routes could both claim one request with equal right.
pub fn routes_collide(a: &Route, b: &Route) -> (r: bool)
    ensures
        r == collide(a@, b@),
{
    a.method == b.method && is_static_path(&a.path) == is_static_path(&b.path)
        && patterns_overlap(&a.path, &b.path)
}

fn collides_with_one_before(routes: &Vec<Route>, j: usize) -> (r: bool)
    requires
        j < routes.len(),
    ensures
        r == exists|i: int|
            0 <= i < j && collide(#[trigger] table_view(routes@)[i], routes[j as int]@),
{
    let mut i: usize = 0;
    while i < j
        invariant
            i <= j,
            j < routes.len(),
            forall|k: int|
                0 <= k < i ==> !collide(#[trigger] table_view(routes@)[k], routes[j as int]@),
        decreases j - i,
    {
        if routes_collide(&routes[i], &routes[j]) {
            assert(collide(table_view(routes@)[i as int], routes[j as int]@));
            return true;
        }
        i = i + 1;
    }
    false
}

/// Whether the table may serve.
pub fn table_is_valid(routes: &Vec<Route>) -> (r: bool)
    ensures
        r == valid_table(table_view(routes@)),
{
    let ghost table = table_view(routes@);
    let mut j: usize = 0;
    while j < routes.len()
        invariant
            j <= routes.len(),
            table == table_view(routes@),
            forall|k: int| 0 <= k < j ==> route_ok(#[trigger] table[k]),
            forall|a: int, b: int|
                #![trigger table[a], table[b]]
                0 <= a < b < j ==> !collide(table[a], table[b]),
        decreases routes.len() - j,
    {
        if !route_sound(&routes[j]) {
            assert(!route_ok(table[j as int]));
            return false;
        }
        if collides_with_one_before(routes, j) {
            let ghost i = choose|i: int|
                0 <= i < j && collide(#[trigger] table[i], routes[j as int]@);
            assert(collide(table[i], table[j as int]));
            return false;
        }
        j = j + 1;
    }
    true
}

} // verus!
