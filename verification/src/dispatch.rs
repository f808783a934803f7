//! The dispatcher: match a route, run the pre-middleware chain, invoke the
//! handler, run the post-middleware chain, and turn every outcome of the
//! supervised execution into a final response.
use vstd::prelude::*;
use vstd::utf8::encode_utf8;
use vstd::string::StringExecFns;
use crate::RunBridge;
use crate::spec_find_handler;
use crate::http::Request;
use crate::http::Response;
use crate::http::spec_default_headers;
use crate::http::spec_error_message;
use crate::http::spec_error_response;
use crate::error::Error;
use crate::error::spec_status_code;
use crate::kvseq::kv_insert;

verus! {

/// Runs one request through the pipeline: the first matching handler is
/// looked up; each middleware's pre-step runs in registration order, and
/// the first error among them short-circuits everything after it,
/// including the handler; a handler error becomes its standard response
/// and still passes through the post-steps; a post-step error replaces the
/// in-flight response and the remaining post-steps continue on the
/// replacement. With no matching route the result is `RouteNotFound`.
#[verifier::loop_isolation(false)]
pub fn process_request(app: &RunBridge, request: Request) -> (r: Result<Response, Error>)
    requires
        request.wf(),
    ensures
        r matches Ok(resp) ==> resp.wf(),
        spec_find_handler(app.handlers@, request.path@, request.method) is None ==> (r matches Err(
            e,
        ) && e is RouteNotFound),
        spec_find_handler(app.handlers@, request.path@, request.method) is Some
            && app.middlewares@.len() == 0 ==> r is Ok,
        ({
            let k = spec_find_handler(app.handlers@, request.path@, request.method);
            app.middlewares@.len() == 0 && k is Some ==> (r matches Ok(resp) && (
            app.handlers@[k.unwrap()].handler.spec_result_ok(request, Ok(resp)) || (exists|
                e: Error,
            |
                (#[trigger] app.handlers@[k.unwrap()].handler.spec_result_ok(request, Err(e)))
                    && spec_error_response(&resp) && resp.status == spec_status_code(&e))))
        }),
{
    let handler = match app.find_handler(request.path.as_str(), &request.method) {
        Some(h) => h,
        None => {
            let mut at = request.method.as_str().to_owned();
            at.append(" ");
            at.append(request.path.as_str());
            return Err(Error::RouteNotFound(at));
        },
    };
    let mut processed = request;
    let mut i: usize = 0;
    while i < app.middlewares.len()
        invariant
            i <= app.middlewares@.len(),
            processed.wf(),
            app.middlewares@.len() == 0 ==> processed == request,
        decreases app.middlewares@.len() - i,
    {
        match app.middlewares[i].pre_process(processed) {
            Ok(q) => {
                processed = q;
            },
            Err(e) => {
                return Err(e);
            },
        }
        i = i + 1;
    }
    let handler_result = handler.handle(processed);
    let mut response = match handler_result {
        Ok(res) => res,
        Err(e) => {
            let resp = Response::from_error(&e);
            proof {
                if app.middlewares@.len() == 0 {
                    assert(handler.spec_result_ok(request, Err(e)));
                }
            }
            resp
        },
    };
    let ghost first = response;
    let mut i: usize = 0;
    while i < app.middlewares.len()
        invariant
            i <= app.middlewares@.len(),
            response.wf(),
            app.middlewares@.len() == 0 ==> response == first,
        decreases app.middlewares@.len() - i,
    {
        match app.middlewares[i].post_process(response) {
            Ok(p) => {
                response = p;
            },
            Err(e) => {
                response = Response::from_error(&e);
            },
        }
        i = i + 1;
    }
    Ok(response)
}

/// How one supervised dispatch ended: the pipeline completed with a result,
/// or the unit of execution terminated abnormally.
pub enum DispatchOutcome {
    /// The pipeline ran to completion.
    Completed(Result<Response, Error>),
    /// The supervised unit terminated abnormally (a fault inside a handler
    /// or middleware, as opposed to a reported error).
    Faulted,
}

/// The response written for one supervised dispatch: a completed response
/// stands as it is; a reported error becomes its standard fixed-body
/// response; an abnormal termination always becomes a generic 500 with a
/// fixed body, whatever its cause, so no internal diagnostic text reaches
/// the caller.
pub fn respond_to_outcome(outcome: DispatchOutcome) -> (r: Response)
    requires
        outcome matches DispatchOutcome::Completed(Ok(resp)) ==> resp.wf(),
    ensures
        r.wf(),
        match outcome {
            DispatchOutcome::Completed(Ok(resp)) => r == resp,
            DispatchOutcome::Completed(Err(e)) => r.status == spec_status_code(&e) && r.headers@
                == kv_insert(spec_default_headers(), "Content-Type"@, "text/plain"@) && (
            r.body matches Some(b) && b@ == encode_utf8(spec_error_message(spec_status_code(&e)))),
            DispatchOutcome::Faulted => r.status == 500 && r.headers@ == kv_insert(
                spec_default_headers(),
                "Content-Type"@,
                "text/plain"@,
            ) && (r.body matches Some(b) && b@ == encode_utf8("Internal Server Error"@)),
        },
{
    match outcome {
        DispatchOutcome::Completed(Ok(resp)) => resp,
        DispatchOutcome::Completed(Err(e)) => Response::from_error(&e),
        DispatchOutcome::Faulted => {
            let r = Response::from_error(
                &Error::InternalServerError("abnormal termination in supervised dispatch".to_string()),
            );
            assert(spec_error_message(500) == "Internal Server Error"@);
            r
        },
    }
}

} // verus!
