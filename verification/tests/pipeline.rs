// The dispatch pipeline end to end: route lookup with deepest-path
// priority, the middleware chain, outcome translation, and the built-in
// handlers.
use std::cell::Cell;
use std::rc::Rc;
use runbridge::RunBridge;
use runbridge::RouteEntry;
use runbridge::dispatch::process_request;
use runbridge::dispatch::respond_to_outcome;
use runbridge::dispatch::DispatchOutcome;
use runbridge::http::Method;
use runbridge::http::Request;
use runbridge::http::Response;
use runbridge::traits::Handler;
use runbridge::traits::Middleware;
use runbridge::error::Error;
use runbridge::sample_handler::HelloHandler;
use runbridge::sample_handler::EchoHandler;
use runbridge::cgi_frame::write_response_to;
use runbridge::cgi_ingest::build_request;
use runbridge::strmap::StringMap;
use runbridge::pattern::RouteHandler;

struct FixedHandler {
    path: &'static str,
    body: &'static [u8],
    ran: Rc<Cell<bool>>,
}

impl Handler for FixedHandler {
    fn matches(&self, path: &str, method: &Method) -> bool {
        path == self.path && *method == Method::GET
    }

    fn path_pattern(&self) -> &str {
        self.path
    }

    fn handle(&self, _req: Request) -> Result<Response, Error> {
        self.ran.set(true);
        Ok(Response::ok().with_body(self.body.to_vec()))
    }
}

struct FailingPreMiddleware {}

impl Middleware for FailingPreMiddleware {
    fn pre_process(&self, _req: Request) -> Result<Request, Error> {
        Err(Error::AuthenticationError("no credentials".to_string()))
    }

    fn post_process(&self, res: Response) -> Result<Response, Error> {
        Ok(res)
    }
}

struct TaggingMiddleware {
    name: &'static str,
}

impl Middleware for TaggingMiddleware {
    fn pre_process(&self, mut req: Request) -> Result<Request, Error> {
        req.headers.insert("x-middleware".to_string(), self.name.to_string());
        Ok(req)
    }

    fn post_process(&self, mut res: Response) -> Result<Response, Error> {
        res.headers.insert("X-Middleware-Response".to_string(), self.name.to_string());
        Ok(res)
    }
}

fn entry(h: impl Handler + 'static) -> RouteEntry {
    RouteEntry { handler: Box::new(h) }
}

#[test]
fn pre_middleware_error_prevents_handler() {
    // A failing pre-step short-circuits the chain: the handler must not
    // run at all, and the error is reported to the caller.
    let ran = Rc::new(Cell::new(false));
    let app = RunBridge::builder()
        .middleware(Box::new(FailingPreMiddleware {}))
        .handler(entry(FixedHandler { path: "/x", body: b"never", ran: ran.clone() }))
        .build();

    let req = Request::new(Method::GET, "/x".to_string());
    let result = process_request(&app, req);

    assert!(matches!(result, Err(Error::AuthenticationError(_))));
    assert!(!ran.get(), "handler side effect must be absent");
}

#[test]
fn post_middleware_runs_in_registration_order() {
    let ran = Rc::new(Cell::new(false));
    let app = RunBridge::builder()
        .middleware(Box::new(TaggingMiddleware { name: "first" }))
        .middleware(Box::new(TaggingMiddleware { name: "second" }))
        .handler(entry(FixedHandler { path: "/t", body: b"ok", ran: ran.clone() }))
        .build();

    let req = Request::new(Method::GET, "/t".to_string());
    let res = process_request(&app, req).unwrap();
    assert!(ran.get());
    // Post-steps run in the same order as pre-steps; the later one wins.
    assert_eq!(res.headers.get("X-Middleware-Response"), Some(&"second".to_string()));
}

#[test]
fn test_path_nesting_priority() {
    // The deeper pattern wins no matter the registration order.
    let r1 = Rc::new(Cell::new(false));
    let r2 = Rc::new(Cell::new(false));
    let app = RunBridge::builder()
        .handler(entry(FixedHandler { path: "/test", body: b"Shallow Handler Response", ran: r1 }))
        .handler(entry(FixedHandler {
            path: "/test/deep",
            body: b"Deep Handler Response",
            ran: r2,
        }))
        .build();

    let req_deep = Request::new(Method::GET, "/test/deep".to_string());
    let handler = app.find_handler(&req_deep.path, &req_deep.method).expect("deep route missing");
    let res = handler.handle(req_deep).unwrap();
    assert_eq!(res.status, 200);
    assert_eq!(res.body.unwrap(), b"Deep Handler Response".to_vec());

    let req_shallow = Request::new(Method::GET, "/test".to_string());
    let handler = app.find_handler(&req_shallow.path, &req_shallow.method).expect("shallow route");
    let res = handler.handle(req_shallow).unwrap();
    assert_eq!(res.status, 200);
    assert_eq!(res.body.unwrap(), b"Shallow Handler Response".to_vec());
}

#[test]
fn test_nonexistent_route() {
    let ran = Rc::new(Cell::new(false));
    let app = RunBridge::builder()
        .handler(entry(FixedHandler { path: "/items", body: b"x", ran }))
        .build();

    let req = Request::new(Method::GET, "/nonexistent".to_string());
    assert!(app.find_handler(&req.path, &req.method).is_none());
}

#[test]
fn scenario_root_greeting() {
    // REQUEST_METHOD=GET, PATH_INFO=/, no query string: status 200, a
    // JSON content type, and a greeting field in the body.
    let app = RunBridge::builder().handler(entry2(HelloHandler::new())).build();

    let env = StringMap::new();
    let path = "/".to_string();
    let req = build_request("GET", Some(&path), None, &env, None).unwrap();
    let res = process_request(&app, req).unwrap();

    assert_eq!(res.status, 200);
    assert_eq!(res.headers.get("Content-Type"), Some(&"application/json".to_string()));
    let body = String::from_utf8(res.body.clone().unwrap()).unwrap();
    assert!(body.contains("\"message\""));

    let mut out: Vec<u8> = Vec::new();
    write_response_to(res, &mut out);
    let text = String::from_utf8(out).unwrap();
    assert!(text.starts_with("Status: 200 OK\r\n"));
    assert!(text.contains("Content-Type: application/json\r\n"));
}

fn entry2(h: HelloHandler) -> RouteEntry {
    RouteEntry { handler: Box::new(h) }
}

#[test]
fn scenario_unknown_path_is_not_found() {
    // REQUEST_METHOD=GET, PATH_INFO=/not-exists: a 404 response.
    let app = RunBridge::builder().handler(entry2(HelloHandler::new())).build();

    let env = StringMap::new();
    let path = "/not-exists".to_string();
    let req = build_request("GET", Some(&path), None, &env, None).unwrap();
    let outcome = DispatchOutcome::Completed(process_request(&app, req));
    let res = respond_to_outcome(outcome);

    assert_eq!(res.status, 404);
    assert_eq!(String::from_utf8(res.body.unwrap()).unwrap(), "Not Found");
}

#[test]
fn scenario_fault_becomes_fixed_500() {
    // An abnormal termination in the supervised unit always surfaces as a
    // generic 500 with a fixed plain-text body.
    let res = respond_to_outcome(DispatchOutcome::Faulted);
    assert_eq!(res.status, 500);
    assert_eq!(res.headers.get("Content-Type"), Some(&"text/plain".to_string()));
    assert_eq!(String::from_utf8(res.body.unwrap()).unwrap(), "Internal Server Error");
}

#[test]
fn echo_handler_reflects_request_line() {
    let h = EchoHandler::new();
    assert!(h.matches("/echo", &Method::GET));
    assert!(h.matches("/echo", &Method::POST));
    assert!(!h.matches("/echo", &Method::PUT));
    assert!(!h.matches("/other", &Method::GET));

    let req = Request::new(Method::POST, "/echo".to_string());
    let res = h.handle(req).unwrap();
    assert_eq!(res.status, 200);
    let body = String::from_utf8(res.body.unwrap()).unwrap();
    assert_eq!(body, "{\"method\":\"POST\",\"path\":\"/echo\"}");
}

#[test]
fn hello_handler_matching() {
    let handler = HelloHandler::new();
    assert!(handler.matches("/", &Method::GET));
    assert!(!handler.matches("/", &Method::POST));
    assert!(!handler.matches("/other", &Method::GET));

    let req = Request::new(Method::GET, "/".to_string());
    let res = handler.handle(req).unwrap();
    assert_eq!(res.status, 200);
    assert_eq!(res.headers.get("Content-Type"), Some(&"application/json".to_string()));
    assert!(res.body.is_some());
}

struct ItemHandler {}

impl Handler for ItemHandler {
    fn matches(&self, _path: &str, _method: &Method) -> bool {
        false
    }

    fn path_pattern(&self) -> &str {
        ""
    }

    fn handle(&self, _req: Request) -> Result<Response, Error> {
        Ok(Response::ok().with_body(b"item".to_vec()))
    }
}

#[test]
fn route_handler_matches_method_and_anchored_pattern() {
    // A pattern-backed route entry: method equality plus a full anchored
    // regex match, fail closed on an uncompilable pattern.
    let route = RouteHandler::try_new(Method::GET, r"/items/\d+", Box::new(ItemHandler {})).unwrap();
    assert_eq!(route.path_pattern(), r"^/items/\d+$");
    assert!(route.matches("/items/7", &Method::GET));
    assert!(!route.matches("/items/7", &Method::POST));
    assert!(!route.matches("/items/7/extra", &Method::GET));
    assert!(!route.matches("/items/x", &Method::GET));

    assert!(RouteHandler::try_new(Method::GET, "", Box::new(ItemHandler {})).is_err());

    let broken = RouteHandler::try_new(Method::GET, "^[$", Box::new(ItemHandler {})).unwrap();
    assert!(!broken.matches("/anything", &Method::GET));
}

#[test]
fn route_handler_dispatches_through_the_table() {
    let route = RouteHandler::try_new(Method::GET, r"/items/\d+", Box::new(ItemHandler {})).unwrap();
    let app = RunBridge::builder().handler(RouteEntry { handler: Box::new(route) }).build();

    let req = Request::new(Method::GET, "/items/42".to_string());
    let res = process_request(&app, req).unwrap();
    assert_eq!(res.status, 200);
    assert_eq!(res.body.unwrap(), b"item".to_vec());

    let miss = Request::new(Method::GET, "/items/x".to_string());
    assert!(matches!(process_request(&app, miss), Err(Error::RouteNotFound(_))));
}
