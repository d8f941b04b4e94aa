//! The request-filtering middleware: a decorator around the dispatch path.
//! A handler is anything with the one-method call interface below; the
//! filter wraps one handler and a predicate, forwards the requests the
//! predicate accepts, and rejects the rest with a `Filtered` error without
//! ever invoking the inner handler. Filters compose: a filter is itself a
//! handler, so instances stack.

use vstd::prelude::*;

use crate::api::{err_msg, err_view, res_view, ErrV, Request, Response, RespV, ServiceError,
    SvcView};

verus! {

/// The dispatch interface the middleware wraps: one method, handle a
/// request and answer or fail. The spec functions fix each implementation's
/// observable behaviour: `st` is its state as seen through the service's
/// two maps, `next_st` the state after a request, `out` the outcome.
pub trait Handler: Sized {
    /// The implementation's well-formedness.
    spec fn wf(&self) -> bool;

    /// The observable state.
    spec fn st(&self) -> SvcView;

    /// The observable state after handling one request.
    spec fn next_st(&self, req: Request) -> SvcView;

    /// The outcome of one request.
    spec fn out(&self, req: Request) -> Result<RespV, ErrV>;

    /// Handle one request.
    fn call(&mut self, req: &Request) -> (r: Result<Response, ServiceError>)
        requires
            old(self).wf(),
        ensures
            final(self).wf(),
            final(self).st() == old(self).next_st(*req),
            res_view(r) == old(self).out(*req),
    ;
}

/// A pure accept/reject rule over inbound requests, supplied when the
/// service is put together.
pub trait Predicate: Sized {
    /// Which requests pass.
    spec fn allows(&self, req: Request) -> bool;

    /// Evaluate the rule on one request.
    fn check(&self, req: &Request) -> (b: bool)
        ensures
            b == self.allows(*req),
    ;
}

/// A predicate that lets every request through.
pub struct AllowAll;

impl Predicate for AllowAll {
    open spec fn allows(&self, req: Request) -> bool {
        true
    }

    fn check(&self, req: &Request) -> (b: bool) {
        true
    }
}

/// A predicate that rejects every ping and lets everything else through.
pub struct RejectPing;

impl Predicate for RejectPing {
    open spec fn allows(&self, req: Request) -> bool {
        !(req is Ping)
    }

    fn check(&self, req: &Request) -> (b: bool) {
        match req {
            Request::Ping(_) => false,
            _ => true,
        }
    }
}

/// The diagnostic a rejected request comes back with.
pub open spec fn rejected_msg() -> Seq<char> {
    "request filtered"@
}

fn rejected_message() -> (m: String)
    ensures
        m@ == rejected_msg(),
{
    "request filtered".to_owned()
}

/// A handler wrapped with a predicate: requests the predicate rejects never
/// reach the inner handler and fail as `Filtered`; the rest are forwarded,
/// a success passing through unchanged and an inner failure converted to
/// the rejection kind with its diagnostic message preserved.
pub struct FilterService<H, P> {
    /// The handler wrapped.
    pub inner: H,
    /// The rule applied to every inbound request.
    pub pred: P,
}

impl<H: Handler, P: Predicate> FilterService<H, P> {
    /// Wrap a handler with a predicate.
    pub fn new(inner: H, pred: P) -> (s: FilterService<H, P>)
        ensures
            s.inner == inner,
            s.pred == pred,
    {
        FilterService { inner, pred }
    }
}

impl<H: Handler, P: Predicate> Handler for FilterService<H, P> {
    open spec fn wf(&self) -> bool {
        self.inner.wf()
    }

    open spec fn st(&self) -> SvcView {
        self.inner.st()
    }

    open spec fn next_st(&self, req: Request) -> SvcView {
        if self.pred.allows(req) {
            self.inner.next_st(req)
        } else {
            self.inner.st()
        }
    }

    open spec fn out(&self, req: Request) -> Result<RespV, ErrV> {
        if self.pred.allows(req) {
            match self.inner.out(req) {
                Ok(v) => Ok(v),
                Err(e) => Err(ErrV::Filtered(err_msg(e))),
            }
        } else {
            Err(ErrV::Filtered(rejected_msg()))
        }
    }

    fn call(&mut self, req: &Request) -> (r: Result<Response, ServiceError>) {
        if self.pred.check(req) {
            match self.inner.call(req) {
                Ok(v) => Ok(v),
                Err(e) => Err(ServiceError::Filtered(e.message())),
            }
        } else {
            Err(ServiceError::Filtered(rejected_message()))
        }
    }
}

/// A factory for one filtering layer: holds the predicate and wraps any
/// handler with it.
pub struct FilterLayer<P> {
    /// The rule the layer applies.
    pub pred: P,
}

impl<P: Predicate> FilterLayer<P> {
    /// A layer applying the given rule.
    pub fn new(pred: P) -> (l: FilterLayer<P>)
        ensures
            l.pred == pred,
    {
        FilterLayer { pred }
    }

    /// Wrap a handler with this layer's rule.
    pub fn layer<H: Handler>(self, inner: H) -> (s: FilterService<H, P>)
        ensures
            s.inner == inner,
            s.pred == self.pred,
    {
        FilterService::new(inner, self.pred)
    }
}

} // verus!
