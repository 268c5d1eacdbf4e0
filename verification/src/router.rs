//! Routing: which handler answers a path. The routes stand in a table, and
//! the first rule of the table that accepts the path decides.

use crate::text::{chars_of, equal, matches_at, occurs_at};
use vstd::prelude::*;
use vstd::string::*;

verus! {

/// The handlers that a path can lead to.
#[derive(Clone, Copy, Debug, PartialEq, Eq, Structural)]
pub enum Route {
    /// The root: an empty answer.
    Root,
    /// Answers with the user agent that the request names.
    UserAgent,
    /// Answers with the rest of the path.
    Echo,
    /// Reads or writes the file that the rest of the path names.
    Files,
    /// No rule accepts the path.
    NotFound,
}

/// How a rule accepts a path.
#[derive(Clone, Copy, Debug)]
pub enum Matcher {
    /// The path is this text.
    Exact(&'static str),
    /// The path begins with this text.
    Prefix(&'static str),
}

impl Matcher {
    /// The matcher accepts `path`.
    pub open spec fn accepts(self, path: Seq<char>) -> bool {
        match self {
            Matcher::Exact(pattern) => path == pattern@,
            Matcher::Prefix(pattern) => occurs_at(path, pattern@, 0),
        }
    }

    /// Whether the matcher accepts `path`.
    pub fn matches(&self, path: &[char]) -> (out: bool)
        ensures
            out == self.accepts(path@),
    {
        match self {
            Matcher::Exact(pattern) => {
                let wanted = chars_of(pattern);
                equal(path, wanted.as_slice())
            },
            Matcher::Prefix(pattern) => {
                let wanted = chars_of(pattern);
                matches_at(path, wanted.as_slice(), 0)
            },
        }
    }
}

/// One line of the routing table.
#[derive(Clone, Copy, Debug)]
pub struct Rule {
    pub matcher: Matcher,
    pub route: Route,
}

/// The routing table, in the order in which its rules are tried.
pub open spec fn table() -> Seq<Rule> {
    seq![
        Rule { matcher: Matcher::Exact("/"), route: Route::Root },
        Rule { matcher: Matcher::Exact("/user-agent"), route: Route::UserAgent },
        Rule { matcher: Matcher::Prefix("/echo/"), route: Route::Echo },
        Rule { matcher: Matcher::Prefix("/files/"), route: Route::Files },
    ]
}

/// The route of the first rule that accepts `path`; `NotFound` where none does.
pub open spec fn first_match(rules: Seq<Rule>, path: Seq<char>) -> Route
    decreases rules.len(),
{
    if rules.len() == 0 {
        Route::NotFound
    } else if rules[0].matcher.accepts(path) {
        rules[0].route
    } else {
        first_match(rules.drop_first(), path)
    }
}

/// The route that the routing table gives to `path`.
pub open spec fn route_of(path: Seq<char>) -> Route {
    first_match(table(), path)
}

/// The routing table says, rule by rule: the root, then the user agent,
/// then the echo prefix, then the files prefix, and `NotFound` for
/// anything else.
pub proof fn lemma_route_order(path: Seq<char>)
    ensures
        route_of(path) == if path == "/"@ {
            Route::Root
        } else if path == "/user-agent"@ {
            Route::UserAgent
        } else if occurs_at(path, "/echo/"@, 0) {
            Route::Echo
        } else if occurs_at(path, "/files/"@, 0) {
            Route::Files
        } else {
            Route::NotFound
        },
{
    let t0 = table();
    let t1 = t0.drop_first();
    let t2 = t1.drop_first();
    let t3 = t2.drop_first();
    let t4 = t3.drop_first();
    assert(t4.len() == 0);
    assert(first_match(t3, path) == if t3[0].matcher.accepts(path) {
        t3[0].route
    } else {
        first_match(t4, path)
    });
    assert(first_match(t2, path) == if t2[0].matcher.accepts(path) {
        t2[0].route
    } else {
        first_match(t3, path)
    });
    assert(first_match(t1, path) == if t1[0].matcher.accepts(path) {
        t1[0].route
    } else {
        first_match(t2, path)
    });
}

/// The routing table.
pub fn routing_table() -> (out: Vec<Rule>)
    ensures
        out@ == table(),
{
    let out = vec![
        Rule { matcher: Matcher::Exact("/"), route: Route::Root },
        Rule { matcher: Matcher::Exact("/user-agent"), route: Route::UserAgent },
        Rule { matcher: Matcher::Prefix("/echo/"), route: Route::Echo },
        Rule { matcher: Matcher::Prefix("/files/"), route: Route::Files },
    ];
    proof {
        assert(out@ =~= table());
    }
    out
}

/// The route of the first rule of `rules` that accepts `path`.
pub fn resolve(rules: &Vec<Rule>, path: &str) -> (out: Route)
    ensures
        out == first_match(rules@, path@),
{
    let wanted = chars_of(path);
    let mut i: usize = 0;
    proof {
        assert(rules@.subrange(0, rules@.len() as int) =~= rules@);
    }
    while i < rules.len()
        invariant
            i <= rules.len(),
            wanted@ == path@,
            first_match(rules@, path@) == first_match(
                rules@.subrange(i as int, rules@.len() as int),
                path@,
            ),
        decreases rules.len() - i,
    {
        let ghost rest = rules@.subrange(i as int, rules@.len() as int);
        proof {
            assert(rest[0] == rules@[i as int]);
            assert(rest.drop_first() =~= rules@.subrange(i + 1, rules@.len() as int));
        }
        if rules[i].matcher.matches(wanted.as_slice()) {
            return rules[i].route;
        }
        i += 1;
    }
    Route::NotFound
}

/// The route that the routing table gives to `path`.
pub fn route(path: &str) -> (out: Route)
    ensures
        out == route_of(path@),
{
    let rules = routing_table();
    resolve(&rules, path)
}

} // verus!
