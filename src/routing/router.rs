use vstd::prelude::*;
use crate::http::headers::HeaderMap;
use crate::http::method::Method;
use crate::http::request::Request;
use crate::http::response::{Response, ResponseView};
use crate::http::status_code::StatusCode;
use crate::table::{
    keys_unique, lemma_table_absent, lemma_table_find, lemma_table_push, lemma_table_push_unique,
    lemma_table_update, table_of,
};

verus! {

/// The response for a request that no route matches.
pub open spec fn not_found_view() -> ResponseView {
    ResponseView {
        status: StatusCode::NotFound,
        headers: Map::empty(),
        body: Some("Not Found"@),
    }
}

/// Route entries as ((method, path), handler) pairs.
pub open spec fn route_pairs<H>(v: Seq<(Method, String, H)>) -> Seq<((Method, Seq<char>), H)> {
    v.map_values(|e: (Method, String, H)| ((e.0, e.1@), e.2))
}

/// A table from exact (method, path) pairs to handlers.
pub struct Router<H> {
    routes: Vec<(Method, String, H)>,
}

impl<H> Router<H> {
    /// Each (method, path) pair has one entry.
    #[verifier::type_invariant]
    spec fn keys_unique(&self) -> bool {
        keys_unique(route_pairs(self.routes@))
    }

    /// The table: which handler each registered (method, path) has.
    pub closed spec fn view(&self) -> Map<(Method, Seq<char>), H> {
        table_of(route_pairs(self.routes@))
    }

    /// An empty table.
    pub fn new() -> (r: Router<H>)
        ensures
            r.view() == Map::<(Method, Seq<char>), H>::empty(),
    {
        let r = Router { routes: Vec::new() };
        assert(route_pairs(r.routes@) =~= Seq::<((Method, Seq<char>), H)>::empty());
        r
    }

    /// Index of the entry for (`method`, `path`), if there is one.
    fn position(&self, method: Method, path: &String) -> (r: Option<usize>)
        ensures
            match r {
                Some(i) => i < self.routes@.len() && route_pairs(self.routes@)[i as int].0 == (
                method,
                path@,
                ),
                None => forall|j: int|
                    0 <= j < self.routes@.len() ==> route_pairs(self.routes@)[j].0 != (
                    method,
                    path@,
                    ),
            },
    {
        let mut i: usize = 0;
        while i < self.routes.len()
            invariant
                i <= self.routes@.len(),
                forall|j: int| 0 <= j < i ==> route_pairs(self.routes@)[j].0 != (method, path@),
            decreases self.routes@.len() - i,
        {
            if self.routes[i].0 == method && self.routes[i].1 == *path {
                return Some(i);
            }
            i = i + 1;
        }
        None
    }

    /// Registers `handler` for (`method`, `path`), replacing an earlier one.
    pub fn add_route(&mut self, method: Method, path: &str, handler: H)
        ensures
            final(self).view() == old(self).view().insert((method, path@), handler),
    {
        proof {
            use_type_invariant(&*self);
        }
        let key = path.to_owned();
        let found = self.position(method, &key);
        let ghost before = route_pairs(self.routes@);
        let mut routes: Vec<(Method, String, H)> = Vec::new();
        std::mem::swap(&mut routes, &mut self.routes);
        match found {
            Some(i) => {
                proof {
                    lemma_table_update(before, i as int, handler);
                }
                routes.set(i, (method, key, handler));
                assert(route_pairs(routes@) =~= before.update(i as int, (before[i as int].0, handler)));
            },
            None => {
                proof {
                    lemma_table_push(before, ((method, path@), handler));
                    lemma_table_push_unique(before, ((method, path@), handler));
                }
                routes.push((method, key, handler));
                assert(route_pairs(routes@) =~= before.push(((method, path@), handler)));
            },
        }
        self.routes = routes;
    }

    /// The handler registered for (`method`, `path`), if any.
    pub fn handler(&self, method: Method, path: &str) -> (r: Option<&H>)
        ensures
            match r {
                Some(h) => self.view().contains_key((method, path@)) && *h == self.view()[(
                method,
                path@,
                )],
                None => !self.view().contains_key((method, path@)),
            },
    {
        proof {
            use_type_invariant(self);
        }
        let key = path.to_owned();
        match self.position(method, &key) {
            Some(i) => {
                proof {
                    lemma_table_find(route_pairs(self.routes@), i as int);
                }
                Some(&self.routes[i].2)
            },
            None => {
                proof {
                    lemma_table_absent(route_pairs(self.routes@), (method, path@));
                }
                None
            },
        }
    }
}

/// Registering the same (method, path) twice leaves only the second
/// handler in the table, and routing a request for that pair reaches it.
pub proof fn lemma_reregister_keeps_last<H: Fn(&Request) -> Response>(
    r0: Router<H>,
    r1: Router<H>,
    r2: Router<H>,
    method: Method,
    path: Seq<char>,
    first: H,
    second: H,
    request: &Request,
    r: Response,
)
    requires
        r1.view() == r0.view().insert((method, path), first),
        r2.view() == r1.view().insert((method, path), second),
    ensures
        r2.view() == r0.view().insert((method, path), second),
        r2.view()[(method, path)] == second,
        request@.method == method && request@.path == path ==> (r2.routed(request, r)
            <==> call_ensures(second, (request,), r)),
{
    assert(r2.view() =~= r0.view().insert((method, path), second));
}

/// The 404 response: no headers, a fixed plain-text body.
pub fn not_found() -> (r: Response)
    ensures
        r@ == not_found_view(),
{
    Response::new(StatusCode::NotFound, HeaderMap::new(), Some("Not Found".to_owned()))
}

impl<H: Fn(&Request) -> Response> Router<H> {
    /// The handler for the request's (method, path) may be called with it.
    pub open spec fn accepts(&self, request: &Request) -> bool {
        self.view().contains_key((request@.method, request@.path)) ==> call_requires(
            self.view()[(request@.method, request@.path)],
            (request,),
        )
    }

    /// `r` is what routing `request` gives: a response of the handler
    /// registered for its exact (method, path), or the 404 response.
    pub open spec fn routed(&self, request: &Request, r: Response) -> bool {
        match self.view().get((request@.method, request@.path)) {
            Some(h) => call_ensures(h, (request,), r),
            None => r@ == not_found_view(),
        }
    }

    /// A request whose (method, path) no route names is answered with the
    /// 404 response, whatever its method.
    pub proof fn lemma_miss_is_not_found(&self, request: &Request, r: Response)
        requires
            !self.view().contains_key((request@.method, request@.path)),
            self.routed(request, r),
        ensures
            r@ == not_found_view(),
            r@.status == StatusCode::NotFound,
    {
    }

    /// Hands the request to the handler registered for its exact method and
    /// path and returns what it returns; without one, a 404 response.
    pub fn route(&self, request: &Request) -> (r: Response)
        requires
            self.accepts(request),
        ensures
            self.routed(request, r),
    {
        match self.handler(*request.method(), request.path()) {
            Some(h) => h(request),
            None => not_found(),
        }
    }
}

} // verus!
