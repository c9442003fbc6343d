//! The router: a table of routes that was found fit to serve, and the
//! dispatch of requests over it.

use vstd::prelude::*;
use crate::answer::{answer, answer_with, failure};
use crate::exchange::{Outcome, OutcomeView, Request, RequestView, Response, NOT_FOUND};
use crate::pairs::{pair_texts, pairs_of, parse_pairs};
use crate::path::{path_segments, segments_of};
use crate::route::{
    is_static, is_static_path, lemma_common_match_overlaps, route_matches, table_view, Method,
    Route, RouteView,
};
use crate::table::{collide, table_is_valid, valid_table};
use crate::text::texts;

verus! {

/// The route is of the wanted standing and applies to the request.
pub open spec fn eligible(
    route: RouteView,
    want_static: bool,
    method: Method,
    segments: Seq<Seq<char>>,
    pairs: Seq<(Seq<char>, Seq<char>)>,
) -> bool {
    is_static(route.path) == want_static && route_matches(route, method, segments, pairs)
}

/// The first route of the table that is eligible.
pub open spec fn first_match(
    table: Seq<RouteView>,
    want_static: bool,
    method: Method,
    segments: Seq<Seq<char>>,
    pairs: Seq<(Seq<char>, Seq<char>)>,
) -> Option<int>
    decreases table.len(),
{
    if table.len() == 0 {
        None
    } else {
        match first_match(table.drop_last(), want_static, method, segments, pairs) {
            Some(i) => Some(i),
            None => if eligible(table.last(), want_static, method, segments, pairs) {
                Some(table.len() - 1)
            } else {
                None
            },
        }
    }
}

/// The route that answers the request: the first literal route that applies,
/// or else the first route with parameters that does.
pub open spec fn selected(
    table: Seq<RouteView>,
    method: Method,
    segments: Seq<Seq<char>>,
    pairs: Seq<(Seq<char>, Seq<char>)>,
) -> Option<int> {
    match first_match(table, true, method, segments, pairs) {
        Some(i) => Some(i),
        None => first_match(table, false, method, segments, pairs),
    }
}

/// The pairs of a request's query; none where it has no query.
pub open spec fn query_pairs(query: Option<Seq<char>>) -> Seq<(Seq<char>, Seq<char>)> {
    match query {
        Some(text) => pairs_of(text),
        None => Seq::<(Seq<char>, Seq<char>)>::empty(),
    }
}

/// What a table of routes makes of a request: not found where no route
/// applies, else the answer of the route that is selected.
pub open spec fn respond(table: Seq<RouteView>, request: RequestView) -> OutcomeView {
    let segments = segments_of(request.path);
    let pairs = query_pairs(request.query);
    match selected(table, request.method, segments, pairs) {
        Some(i) => answer(table[i], segments, pairs, request),
        None => failure(NOT_FOUND),
    }
}

/// What `first_match` finds is eligible and the first such route; where it
/// finds nothing, no route is eligible.
pub proof fn lemma_first_match(
    table: Seq<RouteView>,
    want_static: bool,
    method: Method,
    segments: Seq<Seq<char>>,
    pairs: Seq<(Seq<char>, Seq<char>)>,
)
    ensures
        match first_match(table, want_static, method, segments, pairs) {
            Some(i) => {
                &&& 0 <= i < table.len()
                &&& eligible(table[i], want_static, method, segments, pairs)
                &&& forall|j: int|
                    0 <= j < i ==> !eligible(
                        #[trigger] table[j],
                        want_static,
                        method,
                        segments,
                        pairs,
                    )
            },
            None => forall|j: int|
                0 <= j < table.len() ==> !eligible(
                    #[trigger] table[j],
                    want_static,
                    method,
                    segments,
                    pairs,
                ),
        },
    decreases table.len(),
{
    if table.len() > 0 {
        lemma_first_match(table.drop_last(), want_static, method, segments, pairs);
        assert forall|j: int| 0 <= j < table.len() - 1 implies table[j] == table.drop_last()[j] by {
        }
    }
}

/// The first eligible route is the route at `i` where that one is eligible
/// and none before it is.
pub proof fn lemma_first_match_is(
    table: Seq<RouteView>,
    want_static: bool,
    method: Method,
    segments: Seq<Seq<char>>,
    pairs: Seq<(Seq<char>, Seq<char>)>,
    i: int,
)
    requires
        0 <= i < table.len(),
        eligible(table[i], want_static, method, segments, pairs),
        forall|j: int|
            0 <= j < i ==> !eligible(#[trigger] table[j], want_static, method, segments, pairs),
    ensures
        first_match(table, want_static, method, segments, pairs) == Some(i),
{
    lemma_first_match(table, want_static, method, segments, pairs);
}

/// In a table that may serve, the route that answers a request is the only
/// route of its standing that applies to it: which route answers does not
/// depend on the order of the table.
pub proof fn lemma_selected_is_unique(
    table: Seq<RouteView>,
    method: Method,
    segments: Seq<Seq<char>>,
    pairs: Seq<(Seq<char>, Seq<char>)>,
    j: int,
)
    requires
        valid_table(table),
        0 <= j < table.len(),
        route_matches(table[j], method, segments, pairs),
    ensures
        selected(table, method, segments, pairs) matches Some(i) && (is_static(table[i].path)
            == is_static(table[j].path) ==> i == j) && (is_static(table[j].path) ==> is_static(
            table[i].path,
        )),
{
    lemma_first_match(table, true, method, segments, pairs);
    lemma_first_match(table, false, method, segments, pairs);
    let i = selected(table, method, segments, pairs)->0;
    if is_static(table[i].path) == is_static(table[j].path) && i != j {
        lemma_common_match_overlaps(table[i].path, table[j].path, segments);
        lemma_common_match_overlaps(table[j].path, table[i].path, segments);
        if i < j {
            assert(collide(table[i], table[j]));
        } else {
            assert(collide(table[j], table[i]));
        }
    }
}

/// A table of routes that was found fit to serve.
#[derive(Debug)]
pub struct Router {
    routes: Vec<Route>,
}

impl View for Router {
    type V = Seq<RouteView>;

    closed spec fn view(&self) -> Seq<RouteView> {
        table_view(self.routes@)
    }
}

impl Router {
    #[verifier::type_invariant]
    spec fn fit(self) -> bool {
        valid_table(table_view(self.routes@))
    }

    /// Checks the table and takes it into service: `None` where a route is
    /// unsound or two routes collide.
    pub fn new(routes: Vec<Route>) -> (r: Option<Router>)
        ensures
            r is Some <==> valid_table(table_view(routes@)),
            r matches Some(router) ==> router@ == table_view(routes@),
    {
        if table_is_valid(&routes) {
            Some(Router { routes })
        } else {
            None
        }
    }

    /// The routes in service.
    pub fn routes(&self) -> (routes: &Vec<Route>)
        ensures
            table_view(routes@) == self@,
            valid_table(self@),
    {
        proof {
            use_type_invariant(self);
        }
        &self.routes
    }

    fn first(
        &self,
        want_static: bool,
        method: Method,
        segments: &Vec<String>,
        pairs: &Vec<(String, String)>,
    ) -> (r: Option<usize>)
        ensures
            r is Some <==> first_match(
                self@,
                want_static,
                method,
                texts(segments@),
                pair_texts(pairs@),
            ) is Some,
            r matches Some(i) ==> first_match(
                self@,
                want_static,
                method,
                texts(segments@),
                pair_texts(pairs@),
            ) == Some(i as int),
    {
        let ghost table = self@;
        let ghost segs = texts(segments@);
        let ghost prs = pair_texts(pairs@);
        let mut i: usize = 0;
        while i < self.routes.len()
            invariant
                i <= self.routes.len(),
                table == table_view(self.routes@),
                segs == texts(segments@),
                prs == pair_texts(pairs@),
                forall|j: int|
                    0 <= j < i ==> !eligible(#[trigger] table[j], want_static, method, segs, prs),
            decreases self.routes.len() - i,
        {
            let route = &self.routes[i];
            assert(table[i as int] == route@);
            if is_static_path(&route.path) == want_static && route.matches(
                method,
                segments,
                pairs,
            ) {
                proof {
                    lemma_first_match_is(table, want_static, method, segs, prs, i as int);
                }
                return Some(i);
            }
            i = i + 1;
        }
        proof {
            lemma_first_match(table, want_static, method, segs, prs);
        }
        None
    }

    /// Selects the route that answers a request of that method, with those
    /// path segments and those query pairs.
    pub fn select(
        &self,
        method: Method,
        segments: &Vec<String>,
        pairs: &Vec<(String, String)>,
    ) -> (r: Option<usize>)
        ensures
            r is Some <==> selected(self@, method, texts(segments@), pair_texts(pairs@)) is Some,
            r matches Some(i) ==> i < self@.len() && selected(
                self@,
                method,
                texts(segments@),
                pair_texts(pairs@),
            ) == Some(i as int),
    {
        proof {
            lemma_first_match(self@, true, method, texts(segments@), pair_texts(pairs@));
            lemma_first_match(self@, false, method, texts(segments@), pair_texts(pairs@));
        }
        match self.first(true, method, segments, pairs) {
            Some(i) => Some(i),
            None => self.first(false, method, segments, pairs),
        }
    }

    /// Answers a request: not found where no route applies to it, else what
    /// the selected route answers.
    pub fn dispatch(&self, request: &Request) -> (out: Outcome)
        ensures
            out@ == respond(self@, request@),
    {
        let segments = path_segments(request.path.as_str());
        let pairs = match &request.query {
            Some(query) => parse_pairs(query.as_str()),
            None => Vec::new(),
        };
        assert(pair_texts(pairs@) == query_pairs(request@.query));
        let ghost segs = texts(segments@);
        let ghost prs = pair_texts(pairs@);
        match self.select(request.method, &segments, &pairs) {
            Some(i) => {
                proof {
                    use_type_invariant(self);
                    lemma_first_match(self@, true, request.method, segs, prs);
                    lemma_first_match(self@, false, request.method, segs, prs);
                }
                assert(self@[i as int] == self.routes[i as int]@);
                answer_with(&self.routes[i], &segments, &pairs, request)
            },
            None => Outcome::Respond(Response::bare(NOT_FOUND)),
        }
    }
}

} // verus!
