use vstd::prelude::*;
use std::sync::Arc;
use crate::http::parse_error::{ParseError, ParseErrorView};
use crate::http::request::{parse_request, Request};
use crate::http::response::Response;
use crate::http::text::lossy_text;
use crate::middleware::{all_accept, passed_before, MiddlewareStack};
use crate::routing::router::Router;

verus! {

/// How many bytes a connection reads for its one request; a longer request
/// is cut off at this length.
pub const READ_BUFFER_SIZE: usize = 1024;

/// A server's configuration: the address to listen on, and the routes and
/// checks that every connection shares, fixed before the first connection.
pub struct Server<H, M> {
    address: String,
    router: Arc<Router<H>>,
    middleware_stack: Arc<MiddlewareStack<M>>,
}

impl<H, M> Server<H, M> {
    /// The listening address.
    pub closed spec fn address_view(&self) -> Seq<char> {
        self.address@
    }

    /// The shared routing table.
    pub closed spec fn routes(&self) -> Router<H> {
        *self.router
    }

    /// The shared checks.
    pub closed spec fn stack(&self) -> MiddlewareStack<M> {
        *self.middleware_stack
    }

    /// A server for `address` with a fixed routing table and checks.
    pub fn new(address: &str, router: Router<H>, middleware_stack: MiddlewareStack<M>) -> (r: Server<
        H,
        M,
    >)
        ensures
            r.address_view() == address@,
            r.routes() == router,
            r.stack() == middleware_stack,
    {
        Server {
            address: address.to_owned(),
            router: Arc::new(router),
            middleware_stack: Arc::new(middleware_stack),
        }
    }

    /// The `host:port` to listen on.
    pub fn address(&self) -> (r: &str)
        ensures
            r@ == self.address_view(),
    {
        self.address.as_str()
    }
}

impl<H: Fn(&Request) -> Response, M: Fn(&Request) -> Result<(), Response>> Server<H, M> {
    /// The checks and the matching handler may be called with `request`.
    pub open spec fn serves(&self, request: &Request) -> bool {
        all_accept(self.stack().checks(), request) && self.routes().accepts(request)
    }

    /// `r` answers `request`: the response of the first check that stopped
    /// it, or, where every check let it pass, what routing gives.
    pub open spec fn answers(&self, request: &Request, r: Response) -> bool {
        let checks = self.stack().checks();
        (exists|k: int|
            0 <= k < checks.len() && passed_before(checks, request, k) && #[trigger] call_ensures(
                checks[k],
                (request,),
                Err::<(), Response>(r),
            )) || (passed_before(checks, request, checks.len() as int) && self.routes().routed(
            request,
            r,
        ))
    }

    /// Runs the checks, then, if they all pass, the router.
    pub fn dispatch(&self, request: &Request) -> (r: Response)
        requires
            self.serves(request),
        ensures
            self.answers(request, r),
    {
        match self.middleware_stack.handle(request) {
            Ok(()) => self.router.route(request),
            Err(response) => response,
        }
    }

    /// Parses one request buffer and answers it; a buffer that does not
    /// parse gets no response, only the error.
    pub fn respond(&self, buffer: &[u8]) -> (r: Result<Response, ParseError>)
        requires
            forall|request: &Request| #[trigger] self.serves(request),
        ensures
            match r {
                Ok(response) => exists|request: Request|
                    #![trigger request@]
                    parse_request(lossy_text(buffer@)) == Ok::<_, ParseErrorView>(request@)
                        && self.answers(&request, response),
                Err(e) => parse_request(lossy_text(buffer@)) is Err && parse_request(
                    lossy_text(buffer@),
                )->Err_0 == e@,
            },
    {
        match Request::from_raw(buffer) {
            Ok(request) => {
                let response = self.dispatch(&request);
                assert(parse_request(lossy_text(buffer@)) == Ok::<_, ParseErrorView>(request@));
                assert(self.answers(&request, response));
                Ok(response)
            },
            Err(e) => Err(e),
        }
    }
}

} // verus!
