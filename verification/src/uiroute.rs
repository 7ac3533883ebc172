//! How the local UI answers a request: which page, API call or refusal a
//! method and target select, once the request's origin has been checked.

use vstd::prelude::*;
use crate::error::{ErrorCode, RaftError};
use crate::http::{parse_unsigned, parse_usize, query_param, query_panics, query_value, split_http_target, target_parts};
use crate::text::{chars_of, str_eq};
use crate::util::{id_valid, invalid_id_message, validate_id};

verus! {

/// The write endpoints of the UI.
pub enum UiPost {
    Send,
    Open,
    Channel,
    Join,
}

/// What the UI does with a request.
pub enum UiRoute {
    /// The connection carried no request; nothing is answered.
    Ignore,
    /// 403 with the refusal.
    Forbidden(String),
    /// 200 with the page.
    Page,
    /// 200 with the snapshot of `agent`, showing up to `limit` messages per
    /// conversation.
    Snapshot(String, usize),
    /// 200 `ok`.
    Health,
    /// 204.
    Favicon,
    /// 404.
    NotFound,
    /// A write, answered 200 or 400 by the endpoint.
    Post(UiPost),
    /// 405.
    MethodNotAllowed,
    /// The request is dropped with this error.
    Failed(RaftError),
}

/// A route as values.
pub enum RouteView {
    Ignore,
    Forbidden(Seq<char>),
    Page,
    Snapshot(Seq<char>, usize),
    Health,
    Favicon,
    NotFound,
    Post(UiPost),
    MethodNotAllowed,
    Failed(ErrorCode, Seq<char>),
}

impl View for UiRoute {
    type V = RouteView;

    open spec fn view(&self) -> RouteView {
        match self {
            UiRoute::Ignore => RouteView::Ignore,
            UiRoute::Forbidden(m) => RouteView::Forbidden(m@),
            UiRoute::Page => RouteView::Page,
            UiRoute::Snapshot(a, n) => RouteView::Snapshot(a@, *n),
            UiRoute::Health => RouteView::Health,
            UiRoute::Favicon => RouteView::Favicon,
            UiRoute::NotFound => RouteView::NotFound,
            UiRoute::Post(p) => RouteView::Post(*p),
            UiRoute::MethodNotAllowed => RouteView::MethodNotAllowed,
            UiRoute::Failed(e) => RouteView::Failed(e.code, e.message@),
        }
    }
}

/// The agent a snapshot is for: the `agent` query value, else the UI's own.
pub open spec fn snapshot_agent(query: Option<Seq<char>>, default_agent: Seq<char>) -> Seq<char> {
    match query_value(query, "agent"@) {
        Some(a) => a,
        None => default_agent,
    }
}

/// Messages per conversation in a snapshot: the `limit` query value when it
/// is a number, else the default, kept between 1 and 500.
pub open spec fn snapshot_limit(query: Option<Seq<char>>, default_limit: usize) -> usize {
    let asked: int = match query_value(query, "limit"@) {
        Some(l) => match parse_unsigned(l) {
            Some(n) => if n <= usize::MAX { n as int } else { default_limit as int },
            None => default_limit as int,
        },
        None => default_limit as int,
    };
    if asked < 1 {
        1
    } else if asked > 500 {
        500
    } else {
        asked as usize
    }
}

/// The route of a request with `method` and `target`, given why the origin
/// check refused it (`None` when it passed).
pub open spec fn route_of(
    method: Seq<char>,
    target: Seq<char>,
    refusal: Option<Seq<char>>,
    default_agent: Seq<char>,
    default_limit: usize,
) -> RouteView {
    let path = target_parts(target).0;
    let query = target_parts(target).1;
    if method.len() == 0 {
        RouteView::Ignore
    } else if refusal is Some {
        RouteView::Forbidden(refusal->0)
    } else if method == "GET"@ {
        if path == "/"@ || path == "/index.html"@ {
            RouteView::Page
        } else if path == "/api/snapshot"@ {
            let agent = snapshot_agent(query, default_agent);
            if id_valid(agent) {
                RouteView::Snapshot(agent, snapshot_limit(query, default_limit))
            } else {
                RouteView::Failed(ErrorCode::Error, invalid_id_message("agent id"@, agent))
            }
        } else if path == "/health"@ {
            RouteView::Health
        } else if path == "/favicon.ico"@ {
            RouteView::Favicon
        } else {
            RouteView::NotFound
        }
    } else if method == "POST"@ {
        if path == "/api/send"@ {
            RouteView::Post(UiPost::Send)
        } else if path == "/api/open"@ {
            RouteView::Post(UiPost::Open)
        } else if path == "/api/channel"@ {
            RouteView::Post(UiPost::Channel)
        } else if path == "/api/join"@ {
            RouteView::Post(UiPost::Join)
        } else {
            RouteView::NotFound
        }
    } else {
        RouteView::MethodNotAllowed
    }
}

/// Whether routing would panic: decoding the snapshot's query values slices
/// inside a character.
pub open spec fn route_panics(method: Seq<char>, target: Seq<char>, refusal: Option<Seq<char>>, default_agent: Seq<char>) -> bool {
    let path = target_parts(target).0;
    let query = target_parts(target).1;
    &&& method.len() > 0
    &&& refusal is None
    &&& method == "GET"@
    &&& path == "/api/snapshot"@
    &&& (query_panics(query, "agent"@) || (id_valid(snapshot_agent(query, default_agent)) && query_panics(
        query,
        "limit"@,
    )))
}

fn opt_str(o: &Option<String>) -> (r: Option<&str>)
    ensures
        match r {
            Some(s) => o matches Some(t) && s@ == t@,
            None => o is None,
        },
{
    match o {
        Some(s) => Some(s.as_str()),
        None => None,
    }
}

/// Decide how the UI answers a request. `refusal` is what the origin check
/// said (`None` when it passed).
pub fn ui_route(
    method: &str,
    target: &str,
    refusal: Option<String>,
    default_agent: &str,
    default_limit: usize,
) -> (r: UiRoute)
    requires
        !route_panics(method@, target@, match refusal {
            Some(m) => Some(m@),
            None => None,
        }, default_agent@),
    ensures
        r@ == route_of(method@, target@, match refusal {
            Some(m) => Some(m@),
            None => None,
        }, default_agent@, default_limit),
{
    if method.unicode_len() == 0 {
        return UiRoute::Ignore;
    }
    if let Some(m) = refusal {
        return UiRoute::Forbidden(m);
    }
    let (path, query) = split_http_target(target);
    let p = path.as_str();
    let q = opt_str(&query);
    if str_eq(method, "GET") {
        if str_eq(p, "/") || str_eq(p, "/index.html") {
            return UiRoute::Page;
        }
        if str_eq(p, "/api/snapshot") {
            let agent = match query_param(q, "agent") {
                Some(a) => a,
                None => String::from_str(default_agent),
            };
            let agent = match validate_id(agent.as_str(), "agent id") {
                Ok(a) => a,
                Err(e) => {
                    return UiRoute::Failed(e);
                },
            };
            let asked: usize = match query_param(q, "limit") {
                Some(l) => {
                    let lc = chars_of(l.as_str());
                    match parse_usize(lc.as_slice()) {
                        Some(n) => n,
                        None => default_limit,
                    }
                },
                None => default_limit,
            };
            let limit: usize = if asked < 1 {
                1
            } else if asked > 500 {
                500
            } else {
                asked
            };
            return UiRoute::Snapshot(agent, limit);
        }
        if str_eq(p, "/health") {
            return UiRoute::Health;
        }
        if str_eq(p, "/favicon.ico") {
            return UiRoute::Favicon;
        }
        return UiRoute::NotFound;
    }
    if str_eq(method, "POST") {
        if str_eq(p, "/api/send") {
            return UiRoute::Post(UiPost::Send);
        }
        if str_eq(p, "/api/open") {
            return UiRoute::Post(UiPost::Open);
        }
        if str_eq(p, "/api/channel") {
            return UiRoute::Post(UiPost::Channel);
        }
        if str_eq(p, "/api/join") {
            return UiRoute::Post(UiPost::Join);
        }
        return UiRoute::NotFound;
    }
    UiRoute::MethodNotAllowed
}

/// Whether [`ui_route`] would panic on this request.
pub fn ui_route_would_panic(method: &str, target: &str, refusal: &Option<String>, default_agent: &str) -> (r: bool)
    ensures
        r == route_panics(method@, target@, match *refusal {
            Some(m) => Some(m@),
            None => None,
        }, default_agent@),
{
    if method.unicode_len() == 0 || refusal.is_some() || !str_eq(method, "GET") {
        return false;
    }
    let (path, query) = split_http_target(target);
    if !str_eq(path.as_str(), "/api/snapshot") {
        return false;
    }
    let q = opt_str(&query);
    if crate::http::query_would_panic(q, "agent") {
        return true;
    }
    let agent = match query_param(q, "agent") {
        Some(a) => a,
        None => String::from_str(default_agent),
    };
    if validate_id(agent.as_str(), "agent id").is_err() {
        return false;
    }
    crate::http::query_would_panic(q, "limit")
}

} // verus!
