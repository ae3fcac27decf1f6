//! The read-only metrics surface: parsing a request line and routing a
//! path to one of the two endpoints. The runtime around it only moves
//! bytes; which endpoint answers, and with which id, is decided here.

use crate::label::str_eq;
use vstd::prelude::*;

verus! {

/// Where a request path leads.
#[derive(Debug, PartialEq)]
pub enum Route {
    /// `/metrics`: the full snapshot.
    Metrics,
    /// `/logs/{id}`: the log queues of one channel; the id text is kept as
    /// given and parsed later.
    Logs(String),
    /// Anything else.
    NotFound,
}

/// Mathematical image of a `Route`.
pub enum RouteV {
    Metrics,
    Logs(Seq<char>),
    NotFound,
}

impl View for Route {
    type V = RouteV;

    open spec fn view(&self) -> RouteV {
        match *self {
            Route::Metrics => RouteV::Metrics,
            Route::Logs(ref id) => RouteV::Logs(id@),
            Route::NotFound => RouteV::NotFound,
        }
    }
}

/// Where a path routes: `/metrics`, `/logs/{id}`, or nowhere.
pub open spec fn spec_route(path: Seq<char>) -> RouteV {
    if path == "/metrics"@ {
        RouteV::Metrics
    } else if path.len() > "/logs/"@.len() && path.take("/logs/"@.len() as int) == "/logs/"@ {
        RouteV::Logs(path.skip("/logs/"@.len() as int))
    } else {
        RouteV::NotFound
    }
}

/// See `spec_route`.
pub fn parse_route(path: &str) -> (r: Route)
    ensures
        r@ == spec_route(path@),
{
    proof {
        reveal_strlit("/logs/");
    }
    if str_eq(path, "/metrics") {
        return Route::Metrics;
    }
    let n = path.unicode_len();
    if n <= 6 {
        return Route::NotFound;
    }
    let prefix = path.substring_char(0, 6);
    proof {
        assert(prefix@ =~= path@.take(6));
    }
    if !str_eq(prefix, "/logs/") {
        return Route::NotFound;
    }
    let id = path.substring_char(6, n);
    proof {
        assert(id@ =~= path@.skip(6));
    }
    Route::Logs(id.to_owned())
}

/// First occurrence of `c` in `s`, if any.
pub open spec fn find_first(s: Seq<char>, c: char) -> Option<int>
    decreases s.len(),
{
    if s.len() == 0 {
        None
    } else if s[0] == c {
        Some(0int)
    } else {
        match find_first(s.drop_first(), c) {
            Some(i) => Some(i + 1),
            None => None,
        }
    }
}

/// The first occurrence is one, and nothing earlier is.
pub proof fn lemma_find_first_props(s: Seq<char>, c: char)
    ensures
        match find_first(s, c) {
            Some(i) => 0 <= i < s.len() && s[i] == c && forall|j: int| 0 <= j < i ==> s[j] != c,
            None => forall|j: int| 0 <= j < s.len() ==> s[j] != c,
        },
    decreases s.len(),
{
    if s.len() > 0 && s[0] != c {
        lemma_find_first_props(s.drop_first(), c);
        match find_first(s.drop_first(), c) {
            Some(i) => {
                assert(s.drop_first()[i] == s[i + 1]);
                assert forall|j: int| 0 <= j < i + 1 implies s[j] != c by {
                    if j > 0 {
                        assert(s.drop_first()[j - 1] == s[j]);
                    }
                }
            },
            None => {
                assert forall|j: int| 0 <= j < s.len() implies s[j] != c by {
                    if j > 0 {
                        assert(s.drop_first()[j - 1] == s[j]);
                    }
                }
            },
        }
    }
}

/// First occurrence of `c`, scanning from the front.
fn find_first_char(s: &str, c: char) -> (r: Option<usize>)
    ensures
        match r {
            Some(i) => find_first(s@, c) == Some(i as int),
            None => find_first(s@, c) is None,
        },
{
    let n = s.unicode_len();
    let mut i: usize = 0;
    while i < n
        invariant
            i <= n,
            n == s@.len(),
            forall|j: int| 0 <= j < i ==> s@[j] != c,
        decreases n - i,
    {
        if s.get_char(i) == c {
            proof {
                lemma_find_first_props(s@, c);
                if let Some(k) = find_first(s@, c) {
                    if k < i {
                        assert(s@[k] != c);
                    }
                } else {
                    assert(s@[i as int] != c);
                }
            }
            return Some(i);
        }
        i = i + 1;
    }
    proof {
        lemma_find_first_props(s@, c);
    }
    None
}

/// The path of a GET request line (`GET <path> <version>`), if the line
/// has that shape.
pub open spec fn spec_request_path(line: Seq<char>) -> Option<Seq<char>> {
    match find_first(line, ' ') {
        None => None,
        Some(i) => if line.take(i) == "GET"@ {
            let rest = line.skip(i + 1);
            match find_first(rest, ' ') {
                None => None,
                Some(j) => Some(rest.take(j)),
            }
        } else {
            None
        },
    }
}

/// See `spec_request_path`.
pub fn parse_request_path(line: &str) -> (r: Option<String>)
    ensures
        match r {
            Some(p) => spec_request_path(line@) == Some(p@),
            None => spec_request_path(line@) is None,
        },
{
    let i = match find_first_char(line, ' ') {
        Some(i) => i,
        None => {
            return None;
        },
    };
    proof {
        lemma_find_first_props(line@, ' ');
    }
    let method = line.substring_char(0, i);
    proof {
        assert(method@ =~= line@.take(i as int));
    }
    if !str_eq(method, "GET") {
        return None;
    }
    let n = line.unicode_len();
    let rest = line.substring_char(i + 1, n);
    proof {
        assert(rest@ =~= line@.skip(i + 1));
    }
    let j = match find_first_char(rest, ' ') {
        Some(j) => j,
        None => {
            return None;
        },
    };
    proof {
        lemma_find_first_props(rest@, ' ');
    }
    let path = rest.substring_char(0, j);
    proof {
        assert(path@ =~= rest@.take(j as int));
    }
    Some(path.to_owned())
}

} // verus!
