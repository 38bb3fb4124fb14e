use vstd::prelude::*;
use crate::http::request::Request;
use crate::http::response::Response;

verus! {

/// Checks that run, in the order they were added, before a request is routed.
/// Each check lets the request pass (`Ok(())`) or answers it (`Err(response)`).
pub struct MiddlewareStack<M> {
    middlewares: Vec<M>,
}

impl<M> MiddlewareStack<M> {
    /// The checks in registration order.
    pub closed spec fn checks(&self) -> Seq<M> {
        self.middlewares@
    }

    /// A stack with no checks.
    pub fn new() -> (r: MiddlewareStack<M>)
        ensures
            r.checks() == Seq::<M>::empty(),
    {
        MiddlewareStack { middlewares: Vec::new() }
    }

    /// Appends a check; it runs after every check added before it.
    pub fn add(&mut self, middleware: M)
        ensures
            final(self).checks() == old(self).checks().push(middleware),
    {
        self.middlewares.push(middleware);
    }
}

/// Every check in `checks` may be called with `request`.
pub open spec fn all_accept<M: Fn(&Request) -> Result<(), Response>>(
    checks: Seq<M>,
    request: &Request,
) -> bool {
    forall|i: int| 0 <= i < checks.len() ==> call_requires(#[trigger] checks[i], (request,))
}

/// The checks before position `k` let `request` pass.
pub open spec fn passed_before<M: Fn(&Request) -> Result<(), Response>>(
    checks: Seq<M>,
    request: &Request,
    k: int,
) -> bool {
    forall|i: int| 0 <= i < k ==> call_ensures(#[trigger] checks[i], (request,), Ok(()))
}

impl<M: Fn(&Request) -> Result<(), Response>> MiddlewareStack<M> {
    /// Runs the checks in order and stops at the first that answers the
    /// request, returning its response; `Ok(())` when every check passed.
    pub fn handle(&self, request: &Request) -> (r: Result<(), Response>)
        requires
            all_accept(self.checks(), request),
        ensures
            match r {
                Ok(()) => passed_before(self.checks(), request, self.checks().len() as int),
                Err(_) => exists|k: int|
                    0 <= k < self.checks().len() && passed_before(self.checks(), request, k)
                        && #[trigger] call_ensures(self.checks()[k], (request,), r),
            },
    {
        let mut i: usize = 0;
        while i < self.middlewares.len()
            invariant
                i <= self.middlewares@.len(),
                all_accept(self.checks(), request),
                passed_before(self.checks(), request, i as int),
            decreases self.middlewares@.len() - i,
        {
            let check = &self.middlewares[i];
            let outcome = check(request);
            if outcome.is_err() {
                return outcome;
            }
            assert(outcome is Ok);
            assert(outcome->Ok_0 == ());
            assert(outcome == Ok::<(), Response>(()));
            i = i + 1;
        }
        Ok(())
    }
}

} // verus!
