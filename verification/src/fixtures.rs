//! Fixture definitions: canned responses keyed by request shape.
//!
//! A fixture book holds routes in declaration order. A request matches a
//! route when the paths are equal, the route's optional query filter equals
//! the request's query text, and — on a range-query path — each of the
//! route's optional start, end and step filters compares equal to the
//! request's value after both sides pass through the time resolver. The
//! first matching route wins.

use vstd::prelude::*;
use vstd::string::StringExecFns;

use crate::strutil::{chars_vec, str_eq, string_from_chars, subvec};
use crate::timeutil::{resolve_relative, resolved_payload, spec_resolve, ResolvedParam};

verus! {

/// The declared shape of `serde_json::Value`: fixture payloads are carried
/// through opaquely, never read by this crate.
#[verifier::external_type_specification]
#[verifier::external_body]
pub struct ExJsonValue(serde_json::Value);

/// A collection of fixture routes and their default settings.
#[derive(Debug)]
pub struct FixtureBook {
    /// Schema version of the fixture file.
    pub version: Option<u8>,
    /// Default settings for responses.
    pub defaults: Option<Defaults>,
    /// Route matchers and their responses, in declaration order.
    pub routes: Vec<Route>,
}

/// Default settings for fixture responses.
#[derive(Debug, PartialEq)]
pub struct Defaults {
    /// Default status (`success` when unset).
    pub status: Option<String>,
    /// Clock anchor for relative time resolution.
    pub clock_anchor: Option<String>,
}

/// A route definition: a request matcher and its response.
#[derive(Debug)]
pub struct Route {
    /// Request matcher criteria.
    pub matcher: Matcher,
    /// Response returned when matched.
    pub respond: Respond,
}

/// Request matching criteria for a fixture route.
#[derive(Debug)]
pub struct Matcher {
    /// Request path; the only required field.
    pub path: String,
    /// Query text to equal, if present.
    pub query: Option<String>,
    /// Start time filter for range queries.
    pub start: Option<String>,
    /// End time filter for range queries.
    pub end: Option<String>,
    /// Step filter for range queries, compared through the time resolver
    /// like start and end.
    pub step: Option<String>,
}

/// Response data for a matched fixture route.
#[derive(Debug)]
pub struct Respond {
    /// Response status (`success` or `error`), or the book's default.
    pub status: Option<String>,
    /// The response payload, carried through unread.
    pub data: serde_json::Value,
    /// Warning messages.
    pub warnings: Option<Vec<String>>,
    /// Error type for error responses.
    pub error_type: Option<String>,
    /// Error message for error responses.
    pub error: Option<String>,
}

/// Query parameters of a request, in unified form.
pub struct QueryParams {
    pub query: String,
    pub start: Option<String>,
    pub end: Option<String>,
    pub step: Option<String>,
}

/// The content of an optional string.
pub open spec fn opt_view(o: Option<String>) -> Option<Seq<char>> {
    match o {
        Some(s) => Some(s@),
        None => None,
    }
}

/// The content of a request's parameters.
pub type ParamsV = (Seq<char>, Option<Seq<char>>, Option<Seq<char>>, Option<Seq<char>>);

/// The content of a request's parameters: query, start, end, step.
pub open spec fn qp_view(p: QueryParams) -> ParamsV {
    (p.query@, opt_view(p.start), opt_view(p.end), opt_view(p.step))
}

/// Two time texts compare equal when both resolve to raw text, or both
/// resolve to instants — absolute and relative mix freely — and the resolved
/// payloads are equal text. A raw text never equals a resolved instant.
pub open spec fn spec_param_equal(expect: Seq<char>, got: Seq<char>, now: Option<i64>) -> bool {
    let a = spec_resolve(expect, now);
    let b = spec_resolve(got, now);
    if (a is Raw) == (b is Raw) {
        resolved_payload(a) == resolved_payload(b)
    } else {
        false
    }
}

/// Compare two time texts after resolving both sides, so that `now-1h` in a
/// fixture can equal a literal timestamp one hour before the reference
/// instant.
pub fn param_equal(expect: &str, got: &str, now: Option<i64>) -> (r: bool)
    ensures
        r == spec_param_equal(expect@, got@, now),
{
    let a = resolve_relative(expect, now);
    let b = resolve_relative(got, now);
    let a_raw = match &a {
        ResolvedParam::Raw(_) => true,
        ResolvedParam::Absolute(_) => false,
        ResolvedParam::Relative(_) => false,
    };
    let b_raw = match &b {
        ResolvedParam::Raw(_) => true,
        ResolvedParam::Absolute(_) => false,
        ResolvedParam::Relative(_) => false,
    };
    if a_raw != b_raw {
        return false;
    }
    let ap = match &a {
        ResolvedParam::Raw(s) => s,
        ResolvedParam::Absolute(s) => s,
        ResolvedParam::Relative(s) => s,
    };
    let bp = match &b {
        ResolvedParam::Raw(s) => s,
        ResolvedParam::Absolute(s) => s,
        ResolvedParam::Relative(s) => s,
    };
    str_eq(ap.as_str(), bp.as_str())
}

/// Whether a path names a range-query endpoint: it ends in `/query_range`.
pub open spec fn is_range_path(p: Seq<char>) -> bool {
    p.len() >= "/query_range"@.len() && p.skip(p.len() - "/query_range"@.len())
        == "/query_range"@
}

/// Whether a route's filter passes: a route without the filter accepts
/// anything; a route with it needs the request's value present and equal
/// under the time resolver. A missing request value disqualifies only the
/// routes that filter on it.
pub open spec fn spec_filter_matches(
    filter: Option<String>,
    got: Option<Seq<char>>,
    now: Option<i64>,
) -> bool {
    match filter {
        Some(e) => match got {
            Some(g) => spec_param_equal(e@, g, now),
            None => false,
        },
        None => true,
    }
}

/// Whether a route matches a request: equal path; equal query text when the
/// route filters on it; and, on a range-query path, each of the route's
/// start, end and step filters passes, all three compared through the time
/// resolver.
pub open spec fn spec_route_matches(
    r: Route,
    path: Seq<char>,
    q: ParamsV,
    now: Option<i64>,
) -> bool {
    &&& r.matcher.path@ == path
    &&& (match r.matcher.query {
        Some(mq) => q.0 == mq@,
        None => true,
    })
    &&& (is_range_path(path) ==> {
        &&& spec_filter_matches(r.matcher.start, q.1, now)
        &&& spec_filter_matches(r.matcher.end, q.2, now)
        &&& spec_filter_matches(r.matcher.step, q.3, now)
    })
}

/// The first route that matches the request, scanning in declaration order.
pub open spec fn spec_find_index(
    routes: Seq<Route>,
    path: Seq<char>,
    q: ParamsV,
    now: Option<i64>,
) -> Option<int>
    decreases routes.len(),
{
    if routes.len() == 0 {
        None
    } else if spec_route_matches(routes[0], path, q, now) {
        Some(0)
    } else {
        match spec_find_index(routes.drop_first(), path, q, now) {
            Some(i) => Some(i + 1),
            None => None,
        }
    }
}

/// Where a scan for the first matching route stops at `i`, `spec_find_index`
/// agrees.
proof fn lemma_find_index_at(
    routes: Seq<Route>,
    path: Seq<char>,
    q: ParamsV,
    now: Option<i64>,
    i: int,
)
    requires
        0 <= i <= routes.len(),
        forall|k: int| 0 <= k < i ==> !spec_route_matches(#[trigger] routes[k], path, q, now),
        i < routes.len() ==> spec_route_matches(routes[i], path, q, now),
    ensures
        i < routes.len() ==> spec_find_index(routes, path, q, now) == Some(i),
        i == routes.len() ==> spec_find_index(routes, path, q, now) is None,
    decreases i,
{
    if i > 0 {
        lemma_find_index_at(routes.drop_first(), path, q, now, i - 1);
    }
}

/// Whether the characters of `v` end with the characters of `suffix`.
fn ends_with_chars(v: &Vec<char>, suffix: &Vec<char>) -> (r: bool)
    ensures
        r == (v@.len() >= suffix@.len() && v@.skip(v@.len() - suffix@.len()) == suffix@),
{
    if v.len() < suffix.len() {
        return false;
    }
    let tail = subvec(v, v.len() - suffix.len(), v.len());
    let a = string_from_chars(&tail);
    let b = string_from_chars(suffix);
    let r = str_eq(a.as_str(), b.as_str());
    proof {
        assert(v@.subrange(v@.len() - suffix@.len(), v@.len() as int) =~= v@.skip(
            v@.len() - suffix@.len(),
        ));
    }
    r
}

/// Whether one route matches the request.
fn route_matches(r: &Route, path: &str, range_path: bool, params: &QueryParams, now: Option<i64>) -> (b:
    bool)
    requires
        range_path == is_range_path(path@),
    ensures
        b == spec_route_matches(*r, path@, qp_view(*params), now),
{
    if !str_eq(r.matcher.path.as_str(), path) {
        return false;
    }
    match &r.matcher.query {
        Some(mq) => {
            if !str_eq(params.query.as_str(), mq.as_str()) {
                return false;
            }
        },
        None => {},
    }
    if range_path {
        if !filter_matches(&r.matcher.start, &params.start, now) {
            return false;
        }
        if !filter_matches(&r.matcher.end, &params.end, now) {
            return false;
        }
        if !filter_matches(&r.matcher.step, &params.step, now) {
            return false;
        }
    }
    true
}

/// Check one time filter of a route against the request's value.
fn filter_matches(filter: &Option<String>, got: &Option<String>, now: Option<i64>) -> (b: bool)
    ensures
        b == spec_filter_matches(*filter, opt_view(*got), now),
{
    match filter {
        Some(e) => match got {
            Some(g) => param_equal(e.as_str(), g.as_str(), now),
            None => false,
        },
        None => true,
    }
}

/// What the effective status of a response is: the response's own status,
/// else the book's default status, else `success`.
pub open spec fn spec_effective_status(book: FixtureBook, resp: Respond) -> Seq<char> {
    match resp.status {
        Some(s) => s@,
        None => match book.defaults {
            Some(d) => match d.status {
                Some(s) => s@,
                None => "success"@,
            },
            None => "success"@,
        },
    }
}

impl FixtureBook {
    /// Find the first route matching the given request, scanning routes in
    /// declaration order; absence is a normal outcome, not an error.
    pub fn find_match<'a>(
        &'a self,
        path: &str,
        params: &QueryParams,
        now: Option<i64>,
    ) -> (r: Option<&'a Respond>)
        ensures
            match spec_find_index(self.routes@, path@, qp_view(*params), now) {
                Some(i) => r matches Some(resp) && *resp == self.routes@[i].respond,
                None => r is None,
            },
    {
        let pv = chars_vec(path);
        let suffix = chars_vec("/query_range");
        let range_path = ends_with_chars(&pv, &suffix);
        let mut i: usize = 0;
        while i < self.routes.len()
            invariant
                i <= self.routes@.len(),
                range_path == is_range_path(path@),
                forall|k: int|
                    0 <= k < i ==> !spec_route_matches(
                        #[trigger] self.routes@[k],
                        path@,
                        qp_view(*params),
                        now,
                    ),
            decreases self.routes@.len() - i,
        {
            if route_matches(&self.routes[i], path, range_path, params, now) {
                proof {
                    lemma_find_index_at(self.routes@, path@, qp_view(*params), now, i as int);
                }
                return Some(&self.routes[i].respond);
            }
            i += 1;
        }
        proof {
            lemma_find_index_at(self.routes@, path@, qp_view(*params), now, self.routes@.len() as int);
        }
        None
    }

    /// The effective status of a response: its own status, else the book's
    /// default, else `success`.
    pub fn effective_status<'a>(&'a self, resp: &'a Respond) -> (r: &'a str)
        ensures
            r@ == spec_effective_status(*self, *resp),
    {
        match &resp.status {
            Some(s) => s.as_str(),
            None => match &self.defaults {
                Some(d) => match &d.status {
                    Some(s) => s.as_str(),
                    None => "success",
                },
                None => "success",
            },
        }
    }

    /// Settle the default status after a book is loaded: a book without
    /// defaults gets `success`, and defaults without a status get `success`,
    /// while everything else stays as it is.
    pub fn apply_default_status(&mut self)
        ensures
            final(self).version == old(self).version,
            final(self).routes == old(self).routes,
            final(self).defaults matches Some(d) && d.status matches Some(st) && ({
                &&& st@ == match old(self).defaults {
                    Some(od) => match od.status {
                        Some(os) => os@,
                        None => "success"@,
                    },
                    None => "success"@,
                }
                &&& d.clock_anchor == match old(self).defaults {
                    Some(od) => od.clock_anchor,
                    None => None::<String>,
                }
            }),
    {
        let needs_defaults = self.defaults.is_none();
        if needs_defaults {
            self.defaults = Some(
                Defaults { status: Some(String::from_str("success")), clock_anchor: None },
            );
        } else {
            let d = match &mut self.defaults {
                Some(d) => d,
                None => {
                    return ;
                },
            };
            if d.status.is_none() {
                d.status = Some(String::from_str("success"));
            }
        }
    }
}

impl Default for FixtureBook {
    /// An empty book: no version, no defaults, no routes.
    fn default() -> (r: FixtureBook)
        ensures
            r.version is None,
            r.defaults is None,
            r.routes@ == Seq::<Route>::empty(),
    {
        FixtureBook { version: None, defaults: None, routes: Vec::new() }
    }
}

} // verus!
