//! The route table: an exact-match mapping from (method, path) to a
//! handler, built once by chained registration calls and then consulted,
//! read-only, by `handle`.
use crate::http::{HttpMethod, HttpRequest, RequestModel};
use crate::response::{
    byte_len, default_headers, fresh_model, json_model, set_header_spec, HttpResponse,
    ResponseModel,
};
use crate::text::{dec_digits, str_eq};
use vstd::prelude::*;

verus! {

/// A capability that turns a request into a response. Handlers run
/// concurrently on every worker, so an implementation carries no mutable
/// state; what it returns is pinned by its `response_model`.
pub trait Handler: Sized {
    /// The response this handler produces for a given request.
    spec fn response_model(&self, req: RequestModel) -> ResponseModel;

    /// What the handler requires of its own fields.
    spec fn wf(&self) -> bool;

    /// Produces the response for `req`.
    fn call(&self, req: &HttpRequest) -> (r: HttpResponse)
        requires
            self.wf(),
        ensures
            r@ == self.response_model(req@),
            r.wf(),
    ;
}

/// Index of the first route entry for the given method and path, if any.
pub open spec fn find_route<H>(
    rs: Seq<(HttpMethod, Seq<char>, H)>,
    method: HttpMethod,
    path: Seq<char>,
) -> Option<int>
    decreases rs.len(),
{
    if rs.len() == 0 {
        None
    } else if rs[0].0 == method && rs[0].1 == path {
        Some(0)
    } else {
        match find_route(rs.drop_first(), method, path) {
            Some(i) => Some(i + 1),
            None => None,
        }
    }
}

pub proof fn lemma_find_route_props<H>(
    rs: Seq<(HttpMethod, Seq<char>, H)>,
    method: HttpMethod,
    path: Seq<char>,
)
    ensures
        match find_route(rs, method, path) {
            Some(i) => 0 <= i < rs.len() && rs[i].0 == method && rs[i].1 == path && (forall|
                j: int,
            |
                0 <= j < i ==> !(rs[j].0 == method && rs[j].1 == path)),
            None => forall|j: int|
                0 <= j < rs.len() ==> !(rs[j].0 == method && rs[j].1 == path),
        },
    decreases rs.len(),
{
    if rs.len() > 0 && !(rs[0].0 == method && rs[0].1 == path) {
        let tail = rs.drop_first();
        lemma_find_route_props(tail, method, path);
        assert(forall|j: int| 0 <= j < tail.len() ==> tail[j] == rs[j + 1]);
        assert(forall|j: int| 1 <= j < rs.len() ==> rs[j] == tail[j - 1]);
    }
}

/// At most one entry per (method, path) key.
pub open spec fn unique_routes<H>(rs: Seq<(HttpMethod, Seq<char>, H)>) -> bool {
    forall|i: int, j: int|
        0 <= i < j < rs.len() ==> !(rs[i].0 == rs[j].0 && rs[i].1 == rs[j].1)
}

/// The route table after registering a handler: an entry with the same key
/// is overwritten (the last registration wins), a new key is appended.
pub open spec fn register_spec<H>(
    rs: Seq<(HttpMethod, Seq<char>, H)>,
    method: HttpMethod,
    path: Seq<char>,
    handler: H,
) -> Seq<(HttpMethod, Seq<char>, H)> {
    match find_route(rs, method, path) {
        Some(i) => rs.update(i, (method, path, handler)),
        None => rs.push((method, path, handler)),
    }
}

/// Model of the response served when no handler is registered for the
/// request's method and path.
pub open spec fn not_found_model() -> ResponseModel {
    ResponseModel {
        status: 404,
        status_text: "NOT FOUND"@,
        headers: set_header_spec(
            default_headers(),
            "Content-Length"@,
            dec_digits(byte_len("<h1>404 - Page Not Found</h1>"@)),
        ),
        body: "<h1>404 - Page Not Found</h1>"@,
    }
}

/// What `Router::handle` returns: the registered handler's response on a
/// hit, the fixed not-found response on a miss.
pub open spec fn dispatch_model<H: Handler>(
    rs: Seq<(HttpMethod, Seq<char>, H)>,
    req: RequestModel,
) -> ResponseModel {
    match find_route(rs, req.method, req.path) {
        Some(i) => rs[i].2.response_model(req),
        None => not_found_model(),
    }
}

/// Every request whose method and path match no registered entry is
/// answered with the fixed not-found response, whatever else the table
/// holds.
pub proof fn lemma_dispatch_miss<H: Handler>(
    rs: Seq<(HttpMethod, Seq<char>, H)>,
    req: RequestModel,
)
    requires
        find_route(rs, req.method, req.path) is None,
    ensures
        dispatch_model(rs, req) == not_found_model(),
{
}

/// The route table. Registration happens during the build phase; once the
/// table is shared with the workers it is only read.
pub struct Router<H> {
    routes: Vec<(HttpMethod, String, H)>,
}

/// The entries of the backing vector, with each path read as its character
/// sequence.
pub open spec fn routes_view<H>(rs: Seq<(HttpMethod, String, H)>) -> Seq<
    (HttpMethod, Seq<char>, H),
> {
    Seq::new(rs.len(), |i: int| (rs[i].0, rs[i].1@, rs[i].2))
}

/// Registration on a table with unique keys and well-formed handlers
/// leaves both properties standing, whether it overwrites or appends.
pub proof fn lemma_register_wf<H: Handler>(
    rs: Seq<(HttpMethod, Seq<char>, H)>,
    method: HttpMethod,
    path: Seq<char>,
    handler: H,
)
    requires
        unique_routes(rs),
        forall|i: int| 0 <= i < rs.len() ==> (#[trigger] rs[i].2).wf(),
        handler.wf(),
    ensures
        unique_routes(register_spec(rs, method, path, handler)),
        forall|i: int|
            0 <= i < register_spec(rs, method, path, handler).len() ==> (#[trigger] register_spec(
                rs,
                method,
                path,
                handler,
            )[i].2).wf(),
{
    lemma_find_route_props(rs, method, path);
    let out = register_spec(rs, method, path, handler);
    match find_route(rs, method, path) {
        Some(i) => {
            assert(forall|k: int| 0 <= k < out.len() && k != i ==> out[k] == rs[k]);
            assert(out[i] == (method, path, handler));
            assert(rs[i].0 == method && rs[i].1 == path);
            assert(forall|a: int, b: int|
                0 <= a < b < out.len() ==> !(out[a].0 == out[b].0 && out[a].1 == out[b].1)) by {
                assert(forall|k: int| 0 <= k < out.len() ==> out[k].0 == rs[k].0 && out[k].1
                    == rs[k].1);
            }
        },
        None => {
            assert(forall|k: int| 0 <= k < rs.len() ==> out[k] == rs[k]);
            assert(out[rs.len() as int] == (method, path, handler));
        },
    }
}

/// Overwrites the entry with the given key, or appends one.
fn upsert_route<H>(
    routes: &mut Vec<(HttpMethod, String, H)>,
    method: HttpMethod,
    path: String,
    handler: H,
)
    ensures
        routes_view(final(routes)@) == register_spec(
            routes_view(old(routes)@),
            method,
            path@,
            handler,
        ),
{
    let ghost rdv = routes_view(old(routes)@);
    let mut idx: usize = 0;
    while idx < routes.len()
        invariant
            idx <= routes@.len(),
            routes@ == old(routes)@,
            rdv == routes_view(routes@),
            forall|k: int| 0 <= k < idx ==> !(rdv[k].0 == method && rdv[k].1 == path@),
        decreases routes@.len() - idx,
    {
        proof {
            assert(rdv[idx as int] == (routes@[idx as int].0, routes@[idx as int].1@,
            routes@[idx as int].2));
        }
        let hit = routes[idx].0 == method && str_eq(routes[idx].1.as_str(), path.as_str());
        if hit {
            proof {
                lemma_find_route_props(rdv, method, path@);
                assert(find_route(rdv, method, path@) == Some(idx as int));
            }
            routes.remove(idx);
            routes.insert(idx, (method, path, handler));
            proof {
                assert(routes_view(routes@) =~= rdv.update(idx as int, (method, path@, handler)));
            }
            return ;
        }
        idx += 1;
    }
    proof {
        lemma_find_route_props(rdv, method, path@);
        assert(find_route(rdv, method, path@) is None);
    }
    routes.push((method, path, handler));
    proof {
        assert(routes_view(routes@) =~= rdv.push((method, path@, handler)));
    }
}

impl<H> View for Router<H> {
    type V = Seq<(HttpMethod, Seq<char>, H)>;

    closed spec fn view(&self) -> Seq<(HttpMethod, Seq<char>, H)> {
        routes_view(self.routes@)
    }
}

impl<H: Handler> Router<H> {
    /// Route keys are unique and every registered handler is well-formed.
    pub open spec fn wf(&self) -> bool {
        unique_routes(self@) && forall|i: int| 0 <= i < self@.len() ==> (#[trigger] self@[i].2).wf()
    }

    /// An empty route table: every request misses.
    pub fn new() -> (r: Self)
        ensures
            r@ == Seq::<(HttpMethod, Seq<char>, H)>::empty(),
            r.wf(),
    {
        let r = Router { routes: Vec::new() };
        proof {
            assert(r@ =~= Seq::<(HttpMethod, Seq<char>, H)>::empty());
        }
        r
    }

    /// Registers `handler` for `method` and the exact path `path`; a later
    /// registration for the same key replaces the earlier one.
    fn register(self, method: HttpMethod, path: &str, handler: H) -> (r: Self)
        ensures
            r@ == register_spec(self@, method, path@, handler),
            self.wf() && handler.wf() ==> r.wf(),
    {
        let ghost handler0 = handler;
        let mut s = self;
        upsert_route(&mut s.routes, method, String::from_str(path), handler);
        proof {
            if self.wf() && handler0.wf() {
                lemma_register_wf(self@, method, path@, handler0);
            }
        }
        s
    }

    /// Registers a handler for GET requests on the exact path.
    pub fn get(self, path: &str, handler: H) -> (r: Self)
        ensures
            r@ == register_spec(self@, HttpMethod::GET, path@, handler),
            self.wf() && handler.wf() ==> r.wf(),
    {
        self.register(HttpMethod::GET, path, handler)
    }

    /// Registers a handler for POST requests on the exact path.
    pub fn post(self, path: &str, handler: H) -> (r: Self)
        ensures
            r@ == register_spec(self@, HttpMethod::POST, path@, handler),
            self.wf() && handler.wf() ==> r.wf(),
    {
        self.register(HttpMethod::POST, path, handler)
    }

    /// Registers a handler for PUT requests on the exact path.
    pub fn put(self, path: &str, handler: H) -> (r: Self)
        ensures
            r@ == register_spec(self@, HttpMethod::PUT, path@, handler),
            self.wf() && handler.wf() ==> r.wf(),
    {
        self.register(HttpMethod::PUT, path, handler)
    }

    /// Registers a handler for DELETE requests on the exact path.
    pub fn delete(self, path: &str, handler: H) -> (r: Self)
        ensures
            r@ == register_spec(self@, HttpMethod::DELETE, path@, handler),
            self.wf() && handler.wf() ==> r.wf(),
    {
        self.register(HttpMethod::DELETE, path, handler)
    }

    /// Looks the request's (method, path) up with exact string equality;
    /// on a hit runs the handler, on a miss serves the fixed not-found
    /// response.
    pub fn handle(&self, request: &HttpRequest) -> (r: HttpResponse)
        requires
            self.wf(),
        ensures
            r@ == dispatch_model(self@, request@),
            r.wf(),
    {
        let ghost rdv = self@;
        let mut idx: usize = 0;
        while idx < self.routes.len()
            invariant
                idx <= self.routes@.len(),
                rdv == self@,
                self.wf(),
                forall|k: int|
                    0 <= k < idx ==> !(rdv[k].0 == request.method && rdv[k].1 == request.path@),
            decreases self.routes@.len() - idx,
        {
            proof {
                assert(rdv[idx as int] == (self.routes@[idx as int].0,
                self.routes@[idx as int].1@, self.routes@[idx as int].2));
            }
            let entry = &self.routes[idx];
            if entry.0 == request.method && str_eq(entry.1.as_str(), request.path.as_str()) {
                proof {
                    lemma_find_route_props(rdv, request.method, request.path@);
                    assert(find_route(rdv, request.method, request.path@) == Some(idx as int));
                    assert(rdv[idx as int].2.wf());
                }
                return entry.2.call(request);
            }
            idx += 1;
        }
        proof {
            lemma_find_route_props(rdv, request.method, request.path@);
            assert(find_route(rdv, request.method, request.path@) is None);
        }
        let r = HttpResponse::not_found().with_body(
            String::from_str("<h1>404 - Page Not Found</h1>"),
        );
        proof {
            assert(r@ == not_found_model());
        }
        r
    }
}

/// The stock handler: serves one fixed body under a fixed status line,
/// with an HTML or JSON content type.
pub struct StaticHandler {
    pub status_code: u16,
    pub status_text: String,
    /// Announce the body as `application/json` instead of `text/html`.
    pub json: bool,
    pub body: String,
}

impl Handler for StaticHandler {
    open spec fn response_model(&self, req: RequestModel) -> ResponseModel {
        let base = if self.json {
            json_model(self.status_code as int, self.status_text@)
        } else {
            fresh_model(self.status_code as int, self.status_text@)
        };
        ResponseModel {
            status: base.status,
            status_text: base.status_text,
            headers: set_header_spec(
                base.headers,
                "Content-Length"@,
                dec_digits(byte_len(self.body@)),
            ),
            body: self.body@,
        }
    }

    open spec fn wf(&self) -> bool {
        true
    }

    fn call(&self, req: &HttpRequest) -> (r: HttpResponse) {
        let base = if self.json {
            HttpResponse::json(self.status_code, self.status_text.as_str())
        } else {
            HttpResponse::new(self.status_code, self.status_text.as_str())
        };
        let r = base.with_body(self.body.clone());
        proof {
            assert(r@ == self.response_model(req@));
        }
        r
    }
}

} // verus!
