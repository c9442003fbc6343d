//! Routes and how a request is held against them.
//!
//! A route is a method, a path pattern and the names of the query parameters it
//! asks for. A pattern is a list of segments: literal ones, which a request
//! must spell out; named parameters, which stand for any one segment; and, at
//! the end only, a named rest, which stands for all the segments that are
//! left, however many.

use vstd::prelude::*;
use crate::pairs::{find_value, pair_texts, value_of};
use crate::path::{all_segments, is_segment};
use crate::text::{has_char, same_text, texts};

verus! {

/// The request methods that the routes know.
#[derive(Clone, Copy, Debug, PartialEq, Eq, Structural)]
pub enum Method {
    Get,
    Post,
}

/// What answers a request that a route has matched.
#[derive(Clone, Copy, Debug, PartialEq, Eq, Structural)]
pub enum Handler {
    Index,
    Earth,
    Continent,
    Page,
    Secured,
    SetCookie,
    GetCookie,
    Form,
    DoSomething,
    PassJson,
    Authenticate,
    Few,
}

/// One segment of a path pattern.
#[derive(Debug)]
pub enum Segment {
    /// A segment that the request must spell out.
    Literal(String),
    /// Any one segment, which is bound to the name.
    Param(String),
    /// All segments that are left, none too, which are bound to the name
    /// together.
    Rest(String),
}

/// A pattern segment as a plain value.
pub enum SegmentView {
    Literal(Seq<char>),
    Param(Seq<char>),
    Rest(Seq<char>),
}

impl View for Segment {
    type V = SegmentView;

    open spec fn view(&self) -> SegmentView {
        match self {
            Segment::Literal(text) => SegmentView::Literal(text@),
            Segment::Param(name) => SegmentView::Param(name@),
            Segment::Rest(name) => SegmentView::Rest(name@),
        }
    }
}

/// A route: where it applies and what answers there.
#[derive(Debug)]
pub struct Route {
    pub method: Method,
    pub path: Vec<Segment>,
    pub query: Vec<String>,
    pub handler: Handler,
}

/// A route as a plain value.
pub struct RouteView {
    pub method: Method,
    pub path: Seq<SegmentView>,
    pub query: Seq<Seq<char>>,
    pub handler: Handler,
}

/// The views of a pattern's segments, in order.
pub open spec fn pattern_view(path: Seq<Segment>) -> Seq<SegmentView> {
    Seq::new(path.len(), |i: int| path[i]@)
}

impl View for Route {
    type V = RouteView;

    open spec fn view(&self) -> RouteView {
        RouteView {
            method: self.method,
            path: pattern_view(self.path@),
            query: texts(self.query@),
            handler: self.handler,
        }
    }
}

/// The views of a list of routes, in order.
pub open spec fn table_view(routes: Seq<Route>) -> Seq<RouteView> {
    Seq::new(routes.len(), |i: int| routes[i]@)
}

/// The pattern ends in a rest segment.
pub open spec fn has_rest(path: Seq<SegmentView>) -> bool {
    path.len() > 0 && path.last() is Rest
}

/// How many segments of the pattern stand for exactly one segment each.
pub open spec fn fixed_len(path: Seq<SegmentView>) -> int {
    if has_rest(path) {
        path.len() - 1
    } else {
        path.len() as int
    }
}

/// One segment of a request meets one segment of a pattern. A rest segment
/// meets nothing here: it has its place at the end of a pattern only.
pub open spec fn segment_matches(pattern: SegmentView, segment: Seq<char>) -> bool {
    match pattern {
        SegmentView::Literal(text) => segment == text,
        SegmentView::Param(_) => segment.len() > 0,
        SegmentView::Rest(_) => false,
    }
}

/// The segments of a request meet a pattern: one for one as far as the
/// pattern's fixed part goes, and no further unless the pattern ends in a rest.
pub open spec fn path_matches(path: Seq<SegmentView>, segments: Seq<Seq<char>>) -> bool {
    &&& if has_rest(path) {
        segments.len() >= fixed_len(path)
    } else {
        segments.len() == fixed_len(path)
    }
    &&& forall|i: int|
        #![trigger path[i]]
        #![trigger segments[i]]
        0 <= i < fixed_len(path) ==> segment_matches(path[i], segments[i])
}

/// Every query parameter that the route asks for is among the pairs.
pub open spec fn query_present(query: Seq<Seq<char>>, pairs: Seq<(Seq<char>, Seq<char>)>) -> bool {
    forall|k: int| 0 <= k < query.len() ==> value_of(pairs, #[trigger] query[k]) is Some
}

/// The route applies to a request of that method, with those path segments
/// and those query pairs.
pub open spec fn route_matches(
    route: RouteView,
    method: Method,
    segments: Seq<Seq<char>>,
    pairs: Seq<(Seq<char>, Seq<char>)>,
) -> bool {
    &&& route.method == method
    &&& path_matches(route.path, segments)
    &&& query_present(route.query, pairs)
}

/// The pattern is made of literal segments alone.
pub open spec fn is_static(path: Seq<SegmentView>) -> bool {
    forall|i: int| 0 <= i < path.len() ==> #[trigger] path[i] is Literal
}

/// Where the pattern has its first parameter of that name, if it has one.
pub open spec fn param_named(path: Seq<SegmentView>, name: Seq<char>) -> Option<int>
    decreases path.len(),
{
    if path.len() == 0 {
        None
    } else {
        match param_named(path.drop_last(), name) {
            Some(i) => Some(i),
            None => if path.last() == SegmentView::Param(name) {
                Some(path.len() - 1)
            } else {
                None
            },
        }
    }
}

/// The pattern ends in a rest segment of that name.
pub open spec fn rest_named(path: Seq<SegmentView>, name: Seq<char>) -> bool {
    path.len() > 0 && path.last() == SegmentView::Rest(name)
}

/// A rest segment stands nowhere but at the end.
pub open spec fn rest_is_last(path: Seq<SegmentView>) -> bool {
    forall|i: int| 0 <= i < path.len() - 1 ==> !(#[trigger] path[i] is Rest)
}

/// Every literal of the pattern is a text that a request segment can be.
pub open spec fn literals_are_segments(path: Seq<SegmentView>) -> bool {
    forall|i: int|
        0 <= i < path.len() ==> (#[trigger] path[i] matches SegmentView::Literal(text)
            ==> is_segment(text))
}

/// Two pattern segments can meet the same request segment.
pub open spec fn segments_overlap(a: SegmentView, b: SegmentView) -> bool {
    match (a, b) {
        (SegmentView::Literal(x), SegmentView::Literal(y)) => x == y,
        _ => true,
    }
}

/// The smaller of two numbers.
pub open spec fn smaller(a: int, b: int) -> int {
    if a <= b {
        a
    } else {
        b
    }
}

/// Two patterns may both meet the segments of one request: their fixed parts
/// agree as far as both go, and where one ends the other ends too or the
/// shorter one takes the rest.
pub open spec fn paths_overlap(a: Seq<SegmentView>, b: Seq<SegmentView>) -> bool {
    &&& forall|i: int|
        #![trigger a[i]]
        #![trigger b[i]]
        0 <= i < smaller(fixed_len(a), fixed_len(b)) ==> segments_overlap(a[i], b[i])
    &&& if has_rest(a) {
        has_rest(b) || fixed_len(b) >= fixed_len(a)
    } else if has_rest(b) {
        fixed_len(a) >= fixed_len(b)
    } else {
        fixed_len(a) == fixed_len(b)
    }
}

/// Patterns that meet the segments of one request overlap.
pub proof fn lemma_common_match_overlaps(
    a: Seq<SegmentView>,
    b: Seq<SegmentView>,
    segments: Seq<Seq<char>>,
)
    requires
        path_matches(a, segments),
        path_matches(b, segments),
    ensures
        paths_overlap(a, b),
{
    assert forall|i: int| 0 <= i < smaller(fixed_len(a), fixed_len(b)) implies segments_overlap(
        a[i],
        b[i],
    ) by {
        assert(segment_matches(a[i], segments[i]));
        assert(segment_matches(b[i], segments[i]));
    }
}

/// Whether one request segment meets one pattern segment.
pub fn segment_meets(pattern: &Segment, segment: &str) -> (r: bool)
    ensures
        r == segment_matches(pattern@, segment@),
{
    match pattern {
        Segment::Literal(text) => same_text(segment, text.as_str()),
        Segment::Param(_) => segment.unicode_len() > 0,
        Segment::Rest(_) => false,
    }
}

/// Whether the pattern ends in a rest segment.
pub fn ends_in_rest(path: &Vec<Segment>) -> (r: bool)
    ensures
        r == has_rest(pattern_view(path@)),
{
    if path.len() == 0 {
        false
    } else {
        match path[path.len() - 1] {
            Segment::Rest(_) => true,
            _ => false,
        }
    }
}

/// The number of pattern segments that stand for one segment each.
pub fn fixed_length(path: &Vec<Segment>) -> (n: usize)
    ensures
        n == fixed_len(pattern_view(path@)),
{
    if ends_in_rest(path) {
        path.len() - 1
    } else {
        path.len()
    }
}

/// Whether the segments of a request meet the pattern.
pub fn path_meets(path: &Vec<Segment>, segments: &Vec<String>) -> (r: bool)
    ensures
        r == path_matches(pattern_view(path@), texts(segments@)),
{
    let fixed = fixed_length(path);
    if ends_in_rest(path) {
        if segments.len() < fixed {
            return false;
        }
    } else if segments.len() != fixed {
        return false;
    }
    let mut i: usize = 0;
    while i < fixed
        invariant
            i <= fixed,
            fixed == fixed_len(pattern_view(path@)),
            fixed <= path.len(),
            fixed <= segments.len(),
            forall|k: int|
                0 <= k < i ==> segment_matches(
                    #[trigger] pattern_view(path@)[k],
                    texts(segments@)[k],
                ),
        decreases fixed - i,
    {
        if !segment_meets(&path[i], segments[i].as_str()) {
            assert(!segment_matches(pattern_view(path@)[i as int], texts(segments@)[i as int]));
            return false;
        }
        i = i + 1;
    }
    true
}

/// Whether every name is a key among the pairs.
pub fn query_meets(query: &Vec<String>, pairs: &Vec<(String, String)>) -> (r: bool)
    ensures
        r == query_present(texts(query@), pair_texts(pairs@)),
{
    let mut i: usize = 0;
    while i < query.len()
        invariant
            i <= query.len(),
            forall|k: int|
                0 <= k < i ==> value_of(pair_texts(pairs@), #[trigger] texts(query@)[k]) is Some,
        decreases query.len() - i,
    {
        if find_value(pairs, query[i].as_str()).is_none() {
            assert(value_of(pair_texts(pairs@), texts(query@)[i as int]) is None);
            return false;
        }
        i = i + 1;
    }
    true
}

/// Whether the pattern is made of literal segments alone.
pub fn is_static_path(path: &Vec<Segment>) -> (r: bool)
    ensures
        r == is_static(pattern_view(path@)),
{
    let mut i: usize = 0;
    while i < path.len()
        invariant
            i <= path.len(),
            forall|k: int| 0 <= k < i ==> #[trigger] pattern_view(path@)[k] is Literal,
        decreases path.len() - i,
    {
        match path[i] {
            Segment::Literal(_) => {},
            _ => {
                assert(!(pattern_view(path@)[i as int] is Literal));
                return false;
            },
        }
        i = i + 1;
    }
    true
}

/// What `param_named` finds is a parameter of that name, and the first one;
/// where it finds nothing, the pattern has none.
pub proof fn lemma_param_named(path: Seq<SegmentView>, name: Seq<char>)
    ensures
        match param_named(path, name) {
            Some(i) => {
                &&& 0 <= i < path.len()
                &&& path[i] == SegmentView::Param(name)
                &&& forall|j: int| 0 <= j < i ==> #[trigger] path[j] != SegmentView::Param(name)
            },
            None => forall|j: int|
                0 <= j < path.len() ==> #[trigger] path[j] != SegmentView::Param(name),
        },
    decreases path.len(),
{
    if path.len() > 0 {
        lemma_param_named(path.drop_last(), name);
        assert forall|j: int| 0 <= j < path.len() - 1 implies path[j] == path.drop_last()[j] by {}
    }
}

/// Where the pattern has its first parameter of that name.
pub fn param_index(path: &Vec<Segment>, name: &str) -> (r: Option<usize>)
    ensures
        r is Some <==> param_named(pattern_view(path@), name@) is Some,
        r matches Some(i) ==> param_named(pattern_view(path@), name@) == Some(i as int),
{
    let mut i: usize = 0;
    while i < path.len()
        invariant
            i <= path.len(),
            forall|j: int|
                0 <= j < i ==> #[trigger] pattern_view(path@)[j] != SegmentView::Param(name@),
        decreases path.len() - i,
    {
        let found = match &path[i] {
            Segment::Param(own) => same_text(own.as_str(), name),
            _ => false,
        };
        assert(found == (pattern_view(path@)[i as int] == SegmentView::Param(name@)));
        if found {
            proof {
                lemma_param_named(pattern_view(path@), name@);
            }
            return Some(i);
        }
        i = i + 1;
    }
    proof {
        lemma_param_named(pattern_view(path@), name@);
    }
    None
}

/// Whether the pattern ends in a rest segment of that name.
pub fn ends_in_rest_named(path: &Vec<Segment>, name: &str) -> (r: bool)
    ensures
        r == rest_named(pattern_view(path@), name@),
{
    if path.len() == 0 {
        false
    } else {
        match &path[path.len() - 1] {
            Segment::Rest(own) => same_text(own.as_str(), name),
            _ => false,
        }
    }
}

/// Whether a rest segment stands nowhere but at the end.
pub fn rest_only_last(path: &Vec<Segment>) -> (r: bool)
    ensures
        r == rest_is_last(pattern_view(path@)),
{
    if path.len() == 0 {
        return true;
    }
    let last: usize = path.len() - 1;
    let mut i: usize = 0;
    while i < last
        invariant
            i <= last,
            last == path.len() - 1,
            forall|j: int| 0 <= j < i ==> !(#[trigger] pattern_view(path@)[j] is Rest),
        decreases last - i,
    {
        match path[i] {
            Segment::Rest(_) => {
                assert(pattern_view(path@)[i as int] is Rest);
                return false;
            },
            _ => {
                assert(!(pattern_view(path@)[i as int] is Rest));
            },
        }
        i = i + 1;
    }
    true
}

/// Whether every literal of the pattern is a text that a request segment can
/// be.
pub fn literals_fit(path: &Vec<Segment>) -> (r: bool)
    ensures
        r == literals_are_segments(pattern_view(path@)),
{
    let mut i: usize = 0;
    while i < path.len()
        invariant
            i <= path.len(),
            forall|k: int|
                0 <= k < i ==> (#[trigger] pattern_view(path@)[k] matches SegmentView::Literal(text)
                    ==> is_segment(text)),
        decreases path.len() - i,
    {
        match &path[i] {
            Segment::Literal(text) => {
                if text.as_str().unicode_len() == 0 || has_char(text.as_str(), '/') {
                    assert(pattern_view(path@)[i as int] == SegmentView::Literal(text@));
                    return false;
                }
            },
            _ => {},
        }
        i = i + 1;
    }
    true
}

/// The segments that meet both of two overlapping patterns: at each place the
/// literal that one of them asks for, or any text where neither asks for one.
pub open spec fn common_segments(a: Seq<SegmentView>, b: Seq<SegmentView>) -> Seq<Seq<char>> {
    Seq::new(
        (if fixed_len(a) >= fixed_len(b) {
            fixed_len(a)
        } else {
            fixed_len(b)
        }) as nat,
        |i: int|
            if i < fixed_len(a) && a[i] is Literal {
                a[i]->Literal_0
            } else if i < fixed_len(b) && b[i] is Literal {
                b[i]->Literal_0
            } else {
                seq!['x']
            },
    )
}

/// Patterns that overlap have a request in common: the check for overlap
/// refuses no pair of patterns without need.
pub proof fn lemma_overlap_has_common_match(a: Seq<SegmentView>, b: Seq<SegmentView>)
    requires
        rest_is_last(a),
        rest_is_last(b),
        literals_are_segments(a),
        literals_are_segments(b),
        paths_overlap(a, b),
    ensures
        path_matches(a, common_segments(a, b)),
        path_matches(b, common_segments(a, b)),
        all_segments(common_segments(a, b)),
{
    let segments = common_segments(a, b);
    assert forall|i: int| 0 <= i < fixed_len(a) implies segment_matches(a[i], segments[i]) by {
        if i < fixed_len(b) {
            assert(segments_overlap(a[i], b[i]));
        }
    }
    assert forall|i: int| 0 <= i < fixed_len(b) implies segment_matches(b[i], segments[i]) by {
        if i < fixed_len(a) {
            assert(segments_overlap(a[i], b[i]));
        }
    }
    assert forall|i: int| 0 <= i < segments.len() implies is_segment(#[trigger] segments[i]) by {
        if i < fixed_len(a) && a[i] is Literal {
        } else if i < fixed_len(b) && b[i] is Literal {
        } else {
            assert(seq!['x'][0] == 'x');
        }
    }
}

/// Whether two pattern segments can meet the same request segment.
pub fn segments_may_meet(a: &Segment, b: &Segment) -> (r: bool)
    ensures
        r == segments_overlap(a@, b@),
{
    match (a, b) {
        (Segment::Literal(x), Segment::Literal(y)) => same_text(x.as_str(), y.as_str()),
        _ => true,
    }
}

/// Whether two patterns may both meet the segments of one request.
pub fn patterns_overlap(a: &Vec<Segment>, b: &Vec<Segment>) -> (r: bool)
    ensures
        r == paths_overlap(pattern_view(a@), pattern_view(b@)),
{
    let fixed_a = fixed_length(a);
    let fixed_b = fixed_length(b);
    let lengths_agree = if ends_in_rest(a) {
        ends_in_rest(b) || fixed_b >= fixed_a
    } else if ends_in_rest(b) {
        fixed_a >= fixed_b
    } else {
        fixed_a == fixed_b
    };
    if !lengths_agree {
        return false;
    }
    let common: usize = if fixed_a <= fixed_b {
        fixed_a
    } else {
        fixed_b
    };
    let mut i: usize = 0;
    while i < common
        invariant
            i <= common,
            common == smaller(fixed_len(pattern_view(a@)), fixed_len(pattern_view(b@))),
            common <= a.len(),
            common <= b.len(),
            forall|k: int|
                0 <= k < i ==> segments_overlap(
                    #[trigger] pattern_view(a@)[k],
                    pattern_view(b@)[k],
                ),
        decreases common - i,
    {
        if !segments_may_meet(&a[i], &b[i]) {
            assert(!segments_overlap(pattern_view(a@)[i as int], pattern_view(b@)[i as int]));
            return false;
        }
        i = i + 1;
    }
    true
}

impl Route {
    /// Whether the route applies to a request of that method, with those path
    /// segments and those query pairs.
    pub fn matches(
        &self,
        method: Method,
        segments: &Vec<String>,
        pairs: &Vec<(String, String)>,
    ) -> (r: bool)
        ensures
            r == route_matches(self@, method, texts(segments@), pair_texts(pairs@)),
    {
        self.method == method && path_meets(&self.path, segments) && query_meets(
            &self.query,
            pairs,
        )
    }
}

} // verus!
