//! The configuration document: settings and the ordered route table, with
//! exact lookups, wildcard matching and the mutations that recording makes.
use vstd::prelude::*;

use crate::text::{
    ends_with, find, first_occurrence, has_prefix, has_suffix, same_text, starts_with,
};

verus! {

/// The HTTP method of a route.
#[derive(Clone, Copy, Debug, PartialEq, Eq, Structural)]
pub enum RouteMethod {
    GET,
    HEAD,
    POST,
    PUT,
    DELETE,
    CONNECT,
    OPTIONS,
    TRACE,
    PATCH,
}

/// Whether unknown requests are recorded (`Write`) or only forwarded (`Read`).
#[derive(Clone, Copy, Debug, PartialEq, Eq, Structural)]
pub enum BuildMode {
    Read,
    Write,
}

/// One known route: a method, a URI pattern and the fixture file behind it.
#[derive(Clone, Debug)]
pub struct Route {
    pub method: RouteMethod,
    pub path: String,
    pub resource: String,
}

/// The settings and the route table, in insertion order.
#[derive(Clone, Debug)]
pub struct Configuration {
    pub host: Option<String>,
    pub remote: Option<String>,
    pub build_mode: Option<BuildMode>,
    pub routes: Vec<Route>,
}

/// A route as plain values.
pub struct RouteView {
    pub method: RouteMethod,
    pub path: Seq<char>,
    pub resource: Seq<char>,
}

/// A configuration as plain values.
pub struct ConfigView {
    pub host: Option<Seq<char>>,
    pub remote: Option<Seq<char>>,
    pub build_mode: Option<BuildMode>,
    pub routes: Seq<RouteView>,
}

impl View for Route {
    type V = RouteView;

    open spec fn view(&self) -> RouteView {
        RouteView { method: self.method, path: self.path@, resource: self.resource@ }
    }
}

pub open spec fn opt_text(o: Option<String>) -> Option<Seq<char>> {
    match o {
        Some(s) => Some(s@),
        None => None,
    }
}

pub open spec fn route_views(rs: Seq<Route>) -> Seq<RouteView> {
    rs.map_values(|r: Route| r@)
}

impl View for Configuration {
    type V = ConfigView;

    open spec fn view(&self) -> ConfigView {
        ConfigView {
            host: opt_text(self.host),
            remote: opt_text(self.remote),
            build_mode: self.build_mode,
            routes: route_views(self.routes@),
        }
    }
}

/// The first index of `routes` whose entry satisfies `p`.
pub open spec fn first_index(routes: Seq<RouteView>, p: spec_fn(RouteView) -> bool) -> Option<int> {
    if exists|k: int| 0 <= k < routes.len() && p(routes[k]) {
        Some(
            choose|k: int|
                0 <= k < routes.len() && p(routes[k]) && forall|j: int| 0 <= j < k ==> !p(routes[j]),
        )
    } else {
        None
    }
}

pub(crate) proof fn lemma_first_index(routes: Seq<RouteView>, p: spec_fn(RouteView) -> bool, k: int)
    requires
        0 <= k < routes.len(),
        p(routes[k]),
        forall|j: int| 0 <= j < k ==> !p(routes[j]),
    ensures
        first_index(routes, p) == Some(k),
{
    let c = choose|c: int|
        0 <= c < routes.len() && p(routes[c]) && forall|j: int| 0 <= j < c ==> !p(routes[j]);
    if c < k {
        assert(!p(routes[c]));
    } else if c > k {
        assert(!p(routes[k]));
    }
}

/// The route recorded for exactly this `path` and method.
pub open spec fn path_is(path: Seq<char>, m: RouteMethod) -> spec_fn(RouteView) -> bool {
    |r: RouteView| r.path == path && r.method == m
}

/// The route whose fixture is exactly `resource`, for this method.
pub open spec fn resource_is(resource: Seq<char>, m: RouteMethod) -> spec_fn(RouteView) -> bool {
    |r: RouteView| r.resource == resource && r.method == m
}

/// The wildcard token of a route pattern.
pub open spec fn wildcard() -> Seq<char> {
    seq!['$', '$', '$']
}

/// Whether a request path is served by a route pattern: a pattern without
/// the token matches every path that ends with it; one with the token at `i`
/// matches every path that starts with what precedes it and ends with what
/// follows it.
#[verifier::opaque]
pub open spec fn pattern_matches(pattern: Seq<char>, path: Seq<char>) -> bool {
    match first_occurrence(pattern, wildcard()) {
        None => has_suffix(path, pattern),
        Some(i) => has_prefix(path, pattern.subrange(0, i)) && has_suffix(
            path,
            pattern.subrange(i + 3, pattern.len() as int),
        ),
    }
}

/// What the token of `pattern` stands for in `path`: the characters between
/// the prefix and the suffix, by position (empty where the two overlap).
#[verifier::opaque]
pub open spec fn captured(pattern: Seq<char>, path: Seq<char>) -> Option<Seq<char>> {
    match first_occurrence(pattern, wildcard()) {
        None => None,
        Some(i) => {
            let end = path.len() - (pattern.len() - (i + 3));
            Some(path.subrange(i, if end < i { i } else { end }))
        },
    }
}

/// The route serves `path` for method `m`.
pub open spec fn serves(path: Seq<char>, m: RouteMethod) -> spec_fn(RouteView) -> bool {
    |r: RouteView| r.method == m && pattern_matches(r.path, path)
}

/// The configuration used where none has been stored yet.
pub open spec fn initial_view() -> ConfigView {
    ConfigView {
        host: Some("127.0.0.1:8080"@),
        remote: Some("http://localhost"@),
        build_mode: Some(BuildMode::Write),
        routes: Seq::empty(),
    }
}

/// The configuration after recording `uri` for `m` with fixture `resource`:
/// a new route at the end, unless one for `(uri, m)` is already there.
pub open spec fn with_route(c: ConfigView, m: RouteMethod, uri: Seq<char>, resource: Seq<char>) -> ConfigView {
    if first_index(c.routes, path_is(uri, m)) is Some {
        c
    } else {
        ConfigView {
            routes: c.routes.push(RouteView { method: m, path: uri, resource }),
            ..c
        }
    }
}

/// The routes after moving every route whose fixture is `from` to `to`.
pub open spec fn repoint_one(routes: Seq<RouteView>, from: Seq<char>, to: Seq<char>) -> Seq<RouteView> {
    Seq::new(
        routes.len(),
        |k: int|
            if routes[k].resource == from {
                RouteView { resource: to, ..routes[k] }
            } else {
                routes[k]
            },
    )
}

/// The routes after each rename of `renames`, in order.
pub open spec fn repoint_all(routes: Seq<RouteView>, renames: Seq<(Seq<char>, Seq<char>)>) -> Seq<RouteView>
    decreases renames.len(),
{
    if renames.len() == 0 {
        routes
    } else {
        let last = renames.last();
        repoint_one(repoint_all(routes, renames.drop_last()), last.0, last.1)
    }
}

/// A pattern whose token stands between `prefix` and `suffix` serves every
/// path made of `prefix`, any text `x` and `suffix`, and captures `x` there.
pub proof fn lemma_wildcard_captures(prefix: Seq<char>, suffix: Seq<char>, x: Seq<char>)
    requires
        first_occurrence(prefix + wildcard() + suffix, wildcard()) == Some(prefix.len() as int),
    ensures
        pattern_matches(prefix + wildcard() + suffix, prefix + x + suffix),
        captured(prefix + wildcard() + suffix, prefix + x + suffix) == Some(x),
{
    let pattern = prefix + wildcard() + suffix;
    let path = prefix + x + suffix;
    let i = prefix.len() as int;
    assert(pattern.len() == i + 3 + suffix.len());
    assert(pattern.subrange(0, i) =~= prefix);
    assert(pattern.subrange(i + 3, pattern.len() as int) =~= suffix);
    assert(has_prefix(path, prefix)) by {
        assert(path.subrange(0, i) =~= prefix);
    }
    assert(has_suffix(path, suffix)) by {
        assert(path.subrange(path.len() - suffix.len(), path.len() as int) =~= suffix);
    }
    assert(pattern_matches(pattern, path)) by {
        reveal(pattern_matches);
    }
    assert(captured(pattern, path) == Some(x)) by {
        reveal(captured);
        assert(path.subrange(i, i + x.len()) =~= x);
    }
}

/// No two routes share a method and a pattern.
pub open spec fn unique_routes(routes: Seq<RouteView>) -> bool {
    forall|a: int, b: int|
        0 <= a < b < routes.len() ==> !(routes[a].method == routes[b].method && routes[a].path
            == routes[b].path)
}

/// Recording keeps the routes unique by method and pattern, and so do the
/// renames that promotion makes, which touch fixtures only.
pub proof fn lemma_routes_stay_unique(
    c: ConfigView,
    m: RouteMethod,
    uri: Seq<char>,
    resource: Seq<char>,
    renames: Seq<(Seq<char>, Seq<char>)>,
)
    requires
        unique_routes(c.routes),
    ensures
        unique_routes(with_route(c, m, uri, resource).routes),
        unique_routes(repoint_all(c.routes, renames)),
    decreases renames.len(),
{
    let rs = with_route(c, m, uri, resource).routes;
    if first_index(c.routes, path_is(uri, m)) is None {
        assert forall|a: int, b: int|
            0 <= a < b < rs.len() implies !(rs[a].method == rs[b].method && rs[a].path == rs[b].path) by {
            if b == rs.len() - 1 {
                if rs[a].method == rs[b].method && rs[a].path == rs[b].path {
                    assert((path_is(uri, m))(c.routes[a]));
                }
            }
        }
    }
    if renames.len() > 0 {
        lemma_routes_stay_unique(c, m, uri, resource, renames.drop_last());
        let before = repoint_all(c.routes, renames.drop_last());
        let after = repoint_all(c.routes, renames);
        assert forall|a: int, b: int|
            0 <= a < b < after.len() implies !(after[a].method == after[b].method && after[a].path
                == after[b].path) by {
            assert(after[a].method == before[a].method && after[a].path == before[a].path);
            assert(after[b].method == before[b].method && after[b].path == before[b].path);
        }
    }
}

pub open spec fn rename_views(rs: Seq<(String, String)>) -> Seq<(Seq<char>, Seq<char>)> {
    rs.map_values(|p: (String, String)| (p.0@, p.1@))
}


/// Whether `pattern` serves `path`, and what its token stands for there.
fn match_pattern<'a>(pattern: &str, path: &'a str) -> (r: (bool, Option<&'a str>))
    ensures
        r.0 == pattern_matches(pattern@, path@),
        r.0 ==> match r.1 {
            Some(c) => captured(pattern@, path@) == Some(c@),
            None => captured(pattern@, path@) is None,
        },
{
    proof {
        reveal_strlit("$$$");
        assert("$$$"@ =~= wildcard());
        reveal(pattern_matches);
        reveal(captured);
    }
    match find(pattern, "$$$") {
        None => (ends_with(path, pattern), None),
        Some(i) => {
            let plen = pattern.unicode_len();
            let n = path.unicode_len();
            let before = pattern.substring_char(0, i);
            let after = pattern.substring_char(i + 3, plen);
            assert(first_occurrence(pattern@, wildcard()) == Some(i as int));
            if starts_with(path, before) && ends_with(path, after) {
                let tail = plen - (i + 3);
                let end = if n - tail < i { i } else { n - tail };
                let c = path.substring_char(i, end);
                assert(captured(pattern@, path@) == Some(c@));
                (true, Some(c))
            } else {
                (false, None)
            }
        },
    }
}

/// The first route of `routes`, in table order, with method `method` whose
/// pattern serves `path`, and what the pattern's token stands for in `path`.
pub fn get_route<'a>(routes: &'a [Route], path: &'a str, method: &RouteMethod) -> (r: (
    Option<&'a Route>,
    Option<&'a str>,
))
    ensures
        match first_index(route_views(routes@), serves(path@, *method)) {
            Some(k) => r.0 is Some && r.0.unwrap()@ == routes@[k]@ && match r.1 {
                Some(c) => captured(routes@[k].path@, path@) == Some(c@),
                None => captured(routes@[k].path@, path@) is None,
            },
            None => r.0 is None && r.1 is None,
        },
{
    let ghost views = route_views(routes@);
    let mut i: usize = 0;
    while i < routes.len()
        invariant
            i <= routes@.len(),
            views == route_views(routes@),
            views.len() == routes@.len(),
            forall|j: int| 0 <= j < i ==> !(serves(path@, *method))(views[j]),
        decreases routes@.len() - i,
    {
        let route = &routes[i];
        assert(views[i as int] == route@);
        if route.method == *method {
            let (hit, capture) = match_pattern(route.path.as_str(), path);
            if hit {
                proof {
                    lemma_first_index(views, serves(path@, *method), i as int);
                }
                return (Some(route), capture);
            }
        }
        i = i + 1;
    }
    assert(!(exists|k: int| 0 <= k < views.len() && (serves(path@, *method))(views[k])));
    (None, None)
}

impl Configuration {
    /// The configuration used where none has been stored yet.
    pub fn initial() -> (r: Configuration)
        ensures
            r@ == initial_view(),
    {
        let r = Configuration {
            host: Some(String::from_str("127.0.0.1:8080")),
            remote: Some(String::from_str("http://localhost")),
            build_mode: Some(BuildMode::Write),
            routes: Vec::new(),
        };
        assert(r@.routes =~= Seq::<RouteView>::empty());
        r
    }

    /// The index of the first route whose entry satisfies the search.
    fn position(&self, key: &str, by_path: bool, method: &RouteMethod) -> (r: Option<usize>)
        ensures
            match r {
                Some(k) => k < self.routes@.len() && first_index(
                    self@.routes,
                    if by_path { path_is(key@, *method) } else { resource_is(key@, *method) },
                ) == Some(k as int),
                None => first_index(
                    self@.routes,
                    if by_path { path_is(key@, *method) } else { resource_is(key@, *method) },
                ) is None,
            },
    {
        let ghost p = if by_path { path_is(key@, *method) } else { resource_is(key@, *method) };
        let mut i: usize = 0;
        while i < self.routes.len()
            invariant
                i <= self.routes@.len(),
                p == (if by_path { path_is(key@, *method) } else { resource_is(key@, *method) }),
                forall|j: int| 0 <= j < i ==> !p(self@.routes[j]),
            decreases self.routes@.len() - i,
        {
            let route = &self.routes[i];
            assert(self@.routes[i as int] == route@);
            let text = if by_path { route.path.as_str() } else { route.resource.as_str() };
            if route.method == *method && same_text(text, key) {
                proof {
                    lemma_first_index(self@.routes, p, i as int);
                }
                return Some(i);
            }
            i = i + 1;
        }
        assert(!(exists|k: int| 0 <= k < self@.routes.len() && p(self@.routes[k])));
        None
    }

    /// The first route recorded for exactly `path` and `method`.
    pub fn get_route(&self, path: &str, method: &RouteMethod) -> (r: Option<&Route>)
        ensures
            match first_index(self@.routes, path_is(path@, *method)) {
                Some(k) => r is Some && r.unwrap()@ == self@.routes[k],
                None => r is None,
            },
    {
        match self.position(path, true, method) {
            Some(k) => Some(&self.routes[k]),
            None => None,
        }
    }

    /// The index of the first route of `method` whose fixture is `resource`.
    pub fn get_route_by_resource_mut(&mut self, resource: &str, method: &RouteMethod) -> (r: Option<usize>)
        ensures
            *final(self) == *old(self),
            match r {
                Some(k) => k < old(self).routes@.len() && first_index(old(self)@.routes, resource_is(resource@, *method)) == Some(k as int),
                None => first_index(old(self)@.routes, resource_is(resource@, *method)) is None,
            },
    {
        self.position(resource, false, method)
    }

    /// The index of the first route recorded for exactly `path` and `method`.
    pub fn get_route_by_path_mut(&mut self, path: &str, method: &RouteMethod) -> (r: Option<usize>)
        ensures
            *final(self) == *old(self),
            match r {
                Some(k) => k < old(self).routes@.len() && first_index(old(self)@.routes, path_is(path@, *method)) == Some(k as int),
                None => first_index(old(self)@.routes, path_is(path@, *method)) is None,
            },
    {
        self.position(path, true, method)
    }

    /// Records `uri` for `method` with fixture `resource`, unless a route for
    /// `(uri, method)` is already there. Returns whether a route was added,
    /// that is, whether the fixture still has to be written.
    pub fn record_route(&mut self, method: &RouteMethod, uri: &str, resource: String) -> (added: bool)
        ensures
            added == (first_index(old(self)@.routes, path_is(uri@, *method)) is None),
            final(self)@ == with_route(old(self)@, *method, uri@, resource@),
    {
        match self.position(uri, true, method) {
            Some(_) => false,
            None => {
                let route = Route { method: *method, path: String::from_str(uri), resource };
                self.routes.push(route);
                assert(self@.routes =~= old(self)@.routes.push(route@));
                true
            },
        }
    }

    /// Moves every route whose fixture is `from` to `to`.
    fn repoint(&mut self, from: &str, to: &String)
        ensures
            final(self)@ == (ConfigView { routes: repoint_one(old(self)@.routes, from@, to@), ..old(self)@ }),
    {
        let ghost start = self@.routes;
        let mut i: usize = 0;
        while i < self.routes.len()
            invariant
                i <= self.routes@.len(),
                self.routes@.len() == start.len(),
                start == old(self)@.routes,
                self.host == old(self).host,
                self.remote == old(self).remote,
                self.build_mode == old(self).build_mode,
                forall|k: int| 0 <= k < i ==> self.routes@[k]@ == repoint_one(start, from@, to@)[k],
                forall|k: int| i <= k < self.routes@.len() ==> self.routes@[k]@ == start[k],
            decreases self.routes@.len() - i,
        {
            assert(self@.routes[i as int] == self.routes@[i as int]@);
            if same_text(self.routes[i].resource.as_str(), from) {
                let route = Route {
                    method: self.routes[i].method,
                    path: self.routes[i].path.clone(),
                    resource: to.clone(),
                };
                assert(route@ == repoint_one(start, from@, to@)[i as int]);
                self.routes.set(i, route);
            }
            i = i + 1;
        }
        assert(self@.routes =~= repoint_one(start, from@, to@));
    }

    /// Moves, for each `(from, to)` of `renames` in order, every route whose
    /// fixture is `from` to `to`.
    pub fn apply_renames(&mut self, renames: &Vec<(String, String)>)
        ensures
            final(self)@ == (ConfigView { routes: repoint_all(old(self)@.routes, rename_views(renames@)), ..old(self)@ }),
    {
        let mut i: usize = 0;
        while i < renames.len()
            invariant
                i <= renames@.len(),
                self@ == (ConfigView {
                    routes: repoint_all(old(self)@.routes, rename_views(renames@).take(i as int)),
                    ..old(self)@
                }),
            decreases renames@.len() - i,
        {
            let pair = &renames[i];
            self.repoint(pair.0.as_str(), &pair.1);
            proof {
                let rs = rename_views(renames@);
                assert(rs.take(i + 1).drop_last() =~= rs.take(i as int));
            }
            i = i + 1;
        }
        assert(rename_views(renames@).take(renames@.len() as int) =~= rename_views(renames@));
    }
}

impl RouteMethod {
    /// The method's name as HTTP writes it.
    pub open spec fn name_of(self) -> Seq<char> {
        match self {
            RouteMethod::GET => "GET"@,
            RouteMethod::HEAD => "HEAD"@,
            RouteMethod::POST => "POST"@,
            RouteMethod::PUT => "PUT"@,
            RouteMethod::DELETE => "DELETE"@,
            RouteMethod::CONNECT => "CONNECT"@,
            RouteMethod::OPTIONS => "OPTIONS"@,
            RouteMethod::TRACE => "TRACE"@,
            RouteMethod::PATCH => "PATCH"@,
        }
    }

    /// The method's name as HTTP writes it.
    pub fn as_str(&self) -> (r: &'static str)
        ensures
            r@ == self.name_of(),
    {
        match self {
            RouteMethod::GET => "GET",
            RouteMethod::HEAD => "HEAD",
            RouteMethod::POST => "POST",
            RouteMethod::PUT => "PUT",
            RouteMethod::DELETE => "DELETE",
            RouteMethod::CONNECT => "CONNECT",
            RouteMethod::OPTIONS => "OPTIONS",
            RouteMethod::TRACE => "TRACE",
            RouteMethod::PATCH => "PATCH",
        }
    }

    /// The method named `s`; `Err(1)` where `s` names none of them.
    pub fn parse(s: &str) -> (r: Result<RouteMethod, u8>)
        ensures
            match r {
                Ok(m) => m.name_of() == s@,
                Err(e) => e == 1 && forall|m: RouteMethod| m.name_of() != s@,
            },
    {
        let all = [
            RouteMethod::GET,
            RouteMethod::HEAD,
            RouteMethod::POST,
            RouteMethod::PUT,
            RouteMethod::DELETE,
            RouteMethod::CONNECT,
            RouteMethod::OPTIONS,
            RouteMethod::TRACE,
            RouteMethod::PATCH,
        ];
        let mut i: usize = 0;
        while i < 9
            invariant
                i <= 9,
                all@ == seq![
                    RouteMethod::GET,
                    RouteMethod::HEAD,
                    RouteMethod::POST,
                    RouteMethod::PUT,
                    RouteMethod::DELETE,
                    RouteMethod::CONNECT,
                    RouteMethod::OPTIONS,
                    RouteMethod::TRACE,
                    RouteMethod::PATCH,
                ],
                forall|j: int| 0 <= j < i ==> all@[j].name_of() != s@,
            decreases 9 - i,
        {
            let m = all[i];
            if same_text(m.as_str(), s) {
                return Ok(m);
            }
            i = i + 1;
        }
        assert forall|m: RouteMethod| m.name_of() != s@ by {
            match m {
                RouteMethod::GET => assert(all@[0] == m),
                RouteMethod::HEAD => assert(all@[1] == m),
                RouteMethod::POST => assert(all@[2] == m),
                RouteMethod::PUT => assert(all@[3] == m),
                RouteMethod::DELETE => assert(all@[4] == m),
                RouteMethod::CONNECT => assert(all@[5] == m),
                RouteMethod::OPTIONS => assert(all@[6] == m),
                RouteMethod::TRACE => assert(all@[7] == m),
                RouteMethod::PATCH => assert(all@[8] == m),
            }
        }
        Err(1)
    }
}

impl std::str::FromStr for RouteMethod {
    type Err = u8;

    fn from_str(s: &str) -> Result<Self, Self::Err> {
        RouteMethod::parse(s)
    }
}

} // verus!
