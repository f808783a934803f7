//! The two extension points of the dispatch pipeline: handlers, which
//! answer requests, and middleware, which transform them around a handler.
use vstd::prelude::*;
use crate::http::Method;
use crate::http::Request;
use crate::http::Response;
use crate::error::Error;

verus! {

/// A request handler: the route table asks it whether it matches a path
/// and method, and the dispatcher hands it the request once it does.
///
/// A word to implementers outside the verified world: the `ensures`
/// clauses below are stated against the `spec` functions of this trait,
/// and an implementation written in plain Rust inherits their defaults
/// (`spec_matches` false, `spec_result_ok` trivial) and is never checked
/// against the clauses. What the dispatcher's contracts say of the
/// pipeline therefore holds as stated only for verified implementations.
pub trait Handler {
    /// Whether this handler answers the given path and method. An
    /// implementation outside the verified world inherits the default,
    /// which promises nothing.
    open spec fn spec_matches(&self, path: Seq<char>, method: Method) -> bool {
        false
    }

    /// The pattern text this handler was registered under.
    open spec fn spec_pattern(&self) -> Seq<char> {
        Seq::<char>::empty()
    }

    /// What this handler promises of its outcome for a given request. The
    /// default promises nothing; a verified handler overrides it to pin
    /// its response down, and the dispatcher threads the promise through
    /// to its own result.
    open spec fn spec_result_ok(&self, req: Request, r: Result<Response, Error>) -> bool {
        true
    }

    /// Decides whether the handler answers this path and method.
    fn matches(&self, path: &str, method: &Method) -> (r: bool)
        ensures
            r == self.spec_matches(path@, *method),
    ;

    /// The pattern text this handler was registered under.
    fn path_pattern(&self) -> (r: &str)
        ensures
            r@ == self.spec_pattern(),
    ;

    /// Answers the request. A well-formed response carries a header map
    /// without duplicate keys, and the outcome satisfies the handler's
    /// own promise.
    fn handle(&self, req: Request) -> (r: Result<Response, Error>)
        ensures
            r matches Ok(resp) ==> resp.wf(),
            self.spec_result_ok(req, r),
    ;
}

/// A request/response transformer applied around the matched handler: the
/// pre-step may rewrite the request before the handler runs, the post-step
/// the response after it.
pub trait Middleware {
    /// Transforms the request before the handler runs; an error
    /// short-circuits the chain.
    fn pre_process(&self, req: Request) -> (r: Result<Request, Error>)
        ensures
            r matches Ok(q) ==> q.wf(),
    ;

    /// Transforms the response after the handler ran; an error replaces
    /// the response with that error's standard representation.
    fn post_process(&self, res: Response) -> (r: Result<Response, Error>)
        ensures
            r matches Ok(q) ==> q.wf(),
    ;
}

} // verus!
