//! The reverse proxy's decisions for one request: serve the docs page or
//! pick a route, pick the upstream server, and rewrite the forwarded request.
use vstd::prelude::*;
use crate::text::{chars_of, chars_start_with_at, has_prefix, string_of, push_char};
use crate::gateway::route::{
    Route, find_route, route_matches, count_true, health_flags, round_robin_pick, next_counter,
};

verus! {

/// Per-request state: the route picked for the request, by position.
#[derive(Debug)]
pub struct Ctx {
    pub route: Option<usize>,
}

/// The proxy itself; the routes it serves are handed to each call.
#[derive(Debug)]
pub struct Gateway;

/// Why a request cannot be forwarded.
#[derive(Debug)]
pub enum ProxyError {
    /// No route takes the path (which it holds).
    NoRoute(String),
    /// The route (whose name it holds) has no healthy server.
    AllUnhealthy(String),
    /// The request reached the rewrite step without a route.
    NoMatchedRoute,
}

impl ProxyError {
    /// The HTTP status answered for this error.
    pub fn status(&self) -> (code: u16)
        ensures
            code == match self {
                ProxyError::NoRoute(_) => 404u16,
                ProxyError::AllUnhealthy(_) => 503u16,
                ProxyError::NoMatchedRoute => 500u16,
            },
    {
        match self {
            ProxyError::NoRoute(_) => 404,
            ProxyError::AllUnhealthy(_) => 503,
            ProxyError::NoMatchedRoute => 500,
        }
    }
}

/// The request line and headers sent upstream.
#[derive(Debug)]
pub struct UpstreamRewrite {
    /// The new request URI.
    pub uri: String,
    /// `X-Original-URI`: the path and query as received.
    pub original_uri: String,
    /// `X-Original-Path`: the path as received.
    pub original_path: String,
    /// `X-Forwarded-Prefix`: the prefix that was removed, or empty.
    pub forwarded_prefix: String,
}

pub open spec fn docs_path(path: Seq<char>) -> bool {
    path == seq!['/', 'd', 'o', 'c', 's'] || path == seq!['/', 'd', 'o', 'c', 's', '/']
}

/// Only the exact paths `/docs` and `/docs/` are the docs page: a path with
/// anything in front of them, or after them, is not.
pub proof fn lemma_docs_path_is_exact(front: Seq<char>, back: Seq<char>)
    ensures
        docs_path(seq!['/', 'd', 'o', 'c', 's']),
        docs_path(seq!['/', 'd', 'o', 'c', 's', '/']),
        front.len() > 0 ==> !docs_path(front + seq!['/', 'd', 'o', 'c', 's']),
        front.len() > 0 ==> !docs_path(front + seq!['/', 'd', 'o', 'c', 's', '/']),
        back.len() > 0 && back != seq!['/'] ==> !docs_path(seq!['/', 'd', 'o', 'c', 's'] + back),
{
    let d = seq!['/', 'd', 'o', 'c', 's'];
    let d2 = seq!['/', 'd', 'o', 'c', 's', '/'];
    if front.len() > 0 {
        let a = front + d;
        let b = front + d2;
        if a == d2 {
            assert(a[a.len() - 1] == 's');
        }
        assert(a.len() > 5);
        assert(b.len() > 6);
    }
    if back.len() > 0 && back != seq!['/'] {
        let a = d + back;
        if a == d2 {
            assert(back =~= a.skip(5));
            assert(a.skip(5) =~= seq!['/']);
        }
        assert(a.len() > 5);
    }
}

/// `r` is what route lookup gives for `path`: the first route taking it.
pub open spec fn is_route_lookup(routes: Seq<Route>, path: Seq<char>, r: Option<usize>) -> bool {
    match r {
        Some(i) => i < routes.len() && route_matches(routes[i as int].prefix@, path)
            && forall|j: int| 0 <= j < i ==> !route_matches(#[trigger] routes[j].prefix@, path),
        None => forall|j: int| 0 <= j < routes.len() ==> !route_matches(#[trigger] routes[j].prefix@, path),
    }
}

/// A path with its query string, if there is one.
pub open spec fn with_query(path: Seq<char>, query: Seq<char>) -> Seq<char> {
    if query.len() == 0 {
        path
    } else {
        path + seq!['?'] + query
    }
}

/// The path without the route's prefix; `"/"` when nothing is left or the
/// prefix is absent.
pub open spec fn stripped_path(path: Seq<char>, prefix: Seq<char>) -> Seq<char> {
    if has_prefix(path, prefix) && path.len() > prefix.len() {
        path.skip(prefix.len() as int)
    } else {
        seq!['/']
    }
}

/// The path forwarded upstream by a route.
pub open spec fn forwarded_path(route: Route, path: Seq<char>) -> Seq<char> {
    if route.strip_prefix {
        stripped_path(path, route.prefix@)
    } else {
        path
    }
}

/// The `X-Forwarded-Prefix` of a route.
pub open spec fn forwarded_prefix(route: Route) -> Seq<char> {
    if route.strip_prefix {
        route.prefix@
    } else {
        Seq::empty()
    }
}

/// Whether `path` asks for the gateway's own API docs page.
pub fn is_docs_path(path: &str) -> (b: bool)
    ensures
        b == docs_path(path@),
        b == (path@ == "/docs"@ || path@ == "/docs/"@),
{
    proof {
        reveal_strlit("/docs");
        reveal_strlit("/docs/");
        assert("/docs"@ =~= seq!['/', 'd', 'o', 'c', 's']);
        assert("/docs/"@ =~= seq!['/', 'd', 'o', 'c', 's', '/']);
    }
    let v = chars_of(path);
    let docs = vec!['/', 'd', 'o', 'c', 's'];
    assert(docs@ =~= seq!['/', 'd', 'o', 'c', 's']);
    assert(v@.skip(0) =~= v@);
    if !chars_start_with_at(&v, 0, &docs) {
        assert(v@ != seq!['/', 'd', 'o', 'c', 's'] && v@ != seq!['/', 'd', 'o', 'c', 's', '/']) by {
            if v@.len() >= 5 {
                assert(v@.take(5) != docs@);
            }
            if v@ == seq!['/', 'd', 'o', 'c', 's', '/'] {
                assert(v@.take(5) =~= docs@);
            }
        }
        return false;
    }
    if v.len() == 5 {
        assert(v@ =~= docs@);
        return true;
    }
    if v.len() == 6 && v[5] == '/' {
        assert(v@ =~= docs@.push('/'));
        assert(docs@.push('/') =~= seq!['/', 'd', 'o', 'c', 's', '/']);
        return true;
    }
    false
}

/// `path` followed, when `query` is not empty, by `'?'` and `query`.
fn join_query(path_text: String, query: &str) -> (r: String)
    ensures
        r@ == with_query(path_text@, query@),
{
    if query.is_empty() {
        path_text
    } else {
        let mut r = path_text;
        push_char(&mut r, '?');
        r.append(query);
        r
    }
}

/// The forwarded prefix followed by the forwarded path is the path that was
/// received, whenever the route takes the path and, if it strips its
/// prefix, something follows the prefix.
pub proof fn lemma_forwarded_path_restores_original(route: Route, path: Seq<char>)
    requires
        route_matches(route.prefix@, path),
        route.strip_prefix ==> path.len() > route.prefix@.len(),
    ensures
        forwarded_prefix(route) + forwarded_path(route, path) == path,
{
    let prefix = route.prefix@;
    if route.strip_prefix {
        assert(path.take(prefix.len() as int) == prefix);
        assert(prefix + path.skip(prefix.len() as int) =~= path);
    } else {
        assert(Seq::<char>::empty() + path =~= path);
    }
}

impl Gateway {
    /// A fresh per-request state, with no route.
    pub fn new_ctx(&self) -> (ctx: Ctx)
        ensures
            ctx.route is None,
    {
        Ctx { route: None }
    }

    /// First look at a request: `true` when it asks for the docs page, which
    /// is then answered here; otherwise the route taking the path (if any)
    /// is recorded in `ctx`.
    pub fn request_filter(&self, routes: &Vec<Route>, path: &str, ctx: &mut Ctx) -> (answered: bool)
        ensures
            answered == docs_path(path@),
            answered == (path@ == "/docs"@ || path@ == "/docs/"@),
            answered ==> final(ctx).route == old(ctx).route,
            !answered ==> is_route_lookup(routes@, path@, final(ctx).route),
    {
        if is_docs_path(path) {
            return true;
        }
        ctx.route = find_route(routes, path);
        false
    }

    /// The server to forward the request to: 404 without a route, 503 when
    /// the route has no healthy server, else the route's round-robin pick.
    pub fn upstream_peer(&self, routes: &mut Vec<Route>, path: &str, ctx: &Ctx) -> (r: Result<(String, u16), ProxyError>)
        requires
            ctx.route matches Some(i) ==> i < old(routes)@.len(),
        ensures
            final(routes)@.len() == old(routes)@.len(),
            match ctx.route {
                None => {
                    &&& final(routes)@ == old(routes)@
                    &&& r matches Err(ProxyError::NoRoute(p)) && p@ == path@
                },
                Some(i) => {
                    let before = old(routes)@[i as int];
                    let after = final(routes)@[i as int];
                    let f = health_flags(before.servers@);
                    &&& forall|j: int| 0 <= j < old(routes)@.len() && j != i ==> #[trigger] final(routes)@[j] == old(routes)@[j]
                    &&& after.name == before.name && after.prefix == before.prefix
                    &&& after.strip_prefix == before.strip_prefix && after.servers@ == before.servers@
                    &&& after.health_check == before.health_check
                    &&& if count_true(f) == 0 {
                        &&& after.rr_counter == before.rr_counter
                        &&& r matches Err(ProxyError::AllUnhealthy(name)) && name@ == before.name@
                    } else {
                        let k = round_robin_pick(f, before.rr_counter as int);
                        &&& after.rr_counter == next_counter(before.rr_counter)
                        &&& r matches Ok((host, port)) && host@ == before.servers@[k].host@
                            && port == before.servers@[k].port
                    }
                },
            },
    {
        match ctx.route {
            None => Err(ProxyError::NoRoute(path.to_owned())),
            Some(i) => {
                let route = &mut routes[i];
                let picked = route.next_server();
                let name = route.name.clone();
                match picked {
                    Some(peer) => Ok(peer),
                    None => Err(ProxyError::AllUnhealthy(name)),
                }
            },
        }
    }

    /// The request sent upstream: the path, without the route's prefix when
    /// the route strips it (`"/"` when nothing is left), with the query
    /// string; and the headers recording what was received.
    pub fn upstream_request_filter(&self, routes: &Vec<Route>, path: &str, query: &str, ctx: &Ctx) -> (r: Result<UpstreamRewrite, ProxyError>)
        requires
            ctx.route matches Some(i) ==> i < routes@.len(),
        ensures
            match ctx.route {
                None => r matches Err(ProxyError::NoMatchedRoute),
                Some(i) => r matches Ok(rw) && {
                    let route = routes@[i as int];
                    &&& rw.uri@ == with_query(forwarded_path(route, path@), query@)
                    &&& rw.original_uri@ == with_query(path@, query@)
                    &&& rw.original_path@ == path@
                    &&& rw.forwarded_prefix@ == forwarded_prefix(route)
                },
            },
    {
        let original_uri = join_query(path.to_owned(), query);
        let i = match ctx.route {
            None => {
                return Err(ProxyError::NoMatchedRoute);
            },
            Some(i) => i,
        };
        let route = &routes[i];
        let (prefix, new_path) = if route.strip_prefix {
            let v = chars_of(path);
            let pre = chars_of(route.prefix.as_str());
            assert(v@.skip(0) =~= v@);
            let new_path = if chars_start_with_at(&v, 0, &pre) && v.len() > pre.len() {
                string_of(&v, pre.len(), v.len())
            } else {
                let mut s = String::new();
                push_char(&mut s, '/');
                assert(s@ =~= seq!['/']);
                s
            };
            proof {
                if has_prefix(v@, pre@) && v@.len() > pre@.len() {
                    assert(v@.subrange(pre@.len() as int, v@.len() as int) =~= v@.skip(pre@.len() as int));
                }
            }
            (route.prefix.clone(), new_path)
        } else {
            (String::new(), path.to_owned())
        };
        let uri = join_query(new_path, query);
        Ok(UpstreamRewrite { uri, original_uri, original_path: path.to_owned(), forwarded_prefix: prefix })
    }
}

} // verus!
