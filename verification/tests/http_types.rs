// The basic HTTP vocabulary: methods, status codes, requests, responses,
// and the response builder.
use runbridge::http::Method;
use runbridge::http::Request;
use runbridge::http::Response;
use runbridge::http::ResponseBuilder;
use runbridge::http::StatusCode;
use runbridge::error::Error;
use runbridge::context::CtxValue;
use runbridge::http::is_json_like_content_type;

#[test]
fn test_method_from_str() {
    assert_eq!(Method::from_str("GET"), Some(Method::GET));
    assert_eq!(Method::from_str("get"), Some(Method::GET));
    assert_eq!(Method::from_str("POST"), Some(Method::POST));
    assert_eq!(Method::from_str("PUT"), Some(Method::PUT));
    assert_eq!(Method::from_str("DELETE"), Some(Method::DELETE));
    assert_eq!(Method::from_str("PATCH"), Some(Method::PATCH));
    assert_eq!(Method::from_str("HEAD"), Some(Method::HEAD));
    assert_eq!(Method::from_str("OPTIONS"), Some(Method::OPTIONS));
    assert_eq!(Method::from_str("INVALID"), None);
}

#[test]
fn test_request_builder() {
    let req = Request::new(Method::GET, "/test".to_string())
        .with_query_param("key1", "value1")
        .with_query_param("key2", "value2")
        .with_header("Content-Type", "application/json")
        .with_body(b"test body".to_vec());

    assert_eq!(req.method, Method::GET);
    assert_eq!(req.path, "/test");
    assert_eq!(req.query_params.get("key1"), Some(&"value1".to_string()));
    assert_eq!(req.query_params.get("key2"), Some(&"value2".to_string()));
    // Request header keys are stored lower-cased.
    assert_eq!(req.headers.get("content-type"), Some(&"application/json".to_string()));
    assert_eq!(req.body.as_ref().unwrap(), &b"test body".to_vec());
}

#[test]
fn test_response_builder() {
    let res = Response::ok()
        .with_header("Content-Type", "text/plain")
        .with_body(b"Hello, world!".to_vec());

    assert_eq!(res.status, 200);
    assert_eq!(res.headers.get("Content-Type"), Some(&"text/plain".to_string()));
    assert_eq!(res.body.as_ref().unwrap(), &b"Hello, world!".to_vec());
}

#[test]
fn test_header_value_validation_rejects_crlf() {
    let req = Request::new(Method::GET, "/".to_string())
        .with_header("X-Test", "ok-value")
        .with_header("X-Bad", "bad\r\ninjected: 1");
    assert_eq!(req.headers.get("x-test"), Some(&"ok-value".to_string()));
    assert!(req.headers.get("x-bad").is_none());

    let res = Response::ok()
        .with_header("X-Good", "value")
        .with_header("X-Evil", "evil\nvalue");
    assert_eq!(res.headers.get("X-Good"), Some(&"value".to_string()));
    assert!(res.headers.get("X-Evil").is_none());

    let built = ResponseBuilder::new(200)
        .header("A", "v1")
        .header("B", "bad\rvalue")
        .build();
    assert_eq!(built.headers.get("A"), Some(&"v1".to_string()));
    assert!(built.headers.get("B").is_none());
}

#[test]
fn test_from_error_payload_too_large() {
    let err = Error::PayloadTooLarge("exceeds".to_string());
    let res = Response::from_error(&err);
    assert_eq!(res.status, 413);
    let body = String::from_utf8(res.body.unwrap()).unwrap();
    assert_eq!(body, "Payload Too Large");
}

#[test]
fn test_status_code() {
    assert_eq!(StatusCode::OK.as_u16(), 200);
    assert_eq!(StatusCode::Created.as_u16(), 201);
    assert_eq!(StatusCode::BadRequest.as_u16(), 400);
    assert_eq!(StatusCode::Unauthorized.as_u16(), 401);
    assert_eq!(StatusCode::InternalServerError.as_u16(), 500);

    assert_eq!(StatusCode::OK.reason_phrase(), "OK");
    assert_eq!(StatusCode::Created.reason_phrase(), "Created");
    assert_eq!(StatusCode::BadRequest.reason_phrase(), "Bad Request");
    assert_eq!(StatusCode::Unauthorized.reason_phrase(), "Unauthorized");
    assert_eq!(StatusCode::InternalServerError.reason_phrase(), "Internal Server Error");

    assert!(StatusCode::OK.is_success());
    assert!(!StatusCode::BadRequest.is_success());
    assert!(StatusCode::BadRequest.is_client_error());
    assert!(StatusCode::InternalServerError.is_server_error());
}

#[test]
fn test_response_builder_methods() {
    let response = ResponseBuilder::with_status(StatusCode::Created)
        .security_headers()
        .header("X-Test", "test-value")
        .text("Hello")
        .build();

    assert_eq!(response.status, StatusCode::Created.as_u16());
    assert!(response.headers.contains_key("X-Content-Type-Options"));
    assert_eq!(response.headers.get("X-Test"), Some(&"test-value".to_string()));
    assert_eq!(
        response.headers.get("Content-Type"),
        Some(&"text/plain; charset=utf-8".to_string())
    );
    assert_eq!(String::from_utf8(response.body.unwrap()).unwrap(), "Hello");
}

#[test]
fn test_headers_case_sensitive_in_response() {
    // A Response does not normalize outgoing header case.
    let response = Response::ok()
        .with_header("Header1", "Value1")
        .with_header("Header2", "Value2")
        .with_header("Header3", "Value3");

    assert_eq!(response.headers.get("Header1"), Some(&"Value1".to_string()));
    assert_eq!(response.headers.get("Header2"), Some(&"Value2".to_string()));
    assert_eq!(response.headers.get("Header3"), Some(&"Value3".to_string()));
}

#[test]
fn test_request_clone_without_context() {
    let mut req = Request::new(Method::POST, "/test".to_string())
        .with_query_param("key1", "value1")
        .with_header("Content-Type", "application/json")
        .with_body(b"test body".to_vec());

    req.context_mut().set("user_id", CtxValue::Uint(123));
    req.context_mut().set("session", CtxValue::Text("abc123".to_string()));

    assert!(req.context().contains_key("user_id"));
    assert!(req.context().contains_key("session"));

    let cloned = req.clone_without_context();

    assert_eq!(cloned.method, req.method);
    assert_eq!(cloned.path, req.path);
    assert_eq!(cloned.query_params, req.query_params);
    assert_eq!(cloned.headers, req.headers);
    assert_eq!(cloned.body, req.body);

    assert!(cloned.context().is_empty());
    assert!(!cloned.context().contains_key("user_id"));
    assert!(!cloned.context().contains_key("session"));

    assert!(req.context().contains_key("user_id"));
    assert!(req.context().contains_key("session"));
}

#[test]
fn response_has_default_security_headers() {
    let res = Response::ok();
    assert_default_security_headers(&res);
}

#[test]
fn response_with_status_has_default_security_headers() {
    let res = Response::with_status(StatusCode::Created);
    assert_default_security_headers(&res);
}

#[test]
fn response_allows_overrides() {
    let res = Response::ok()
        .with_header("X-Frame-Options", "SAMEORIGIN")
        .with_header("Content-Security-Policy", "default-src 'self' https:");

    assert_eq!(res.headers.get("X-Frame-Options").map(|s| s.as_str()), Some("SAMEORIGIN"));
    assert_eq!(
        res.headers.get("Content-Security-Policy").map(|s| s.as_str()),
        Some("default-src 'self' https:")
    );
}

#[test]
fn response_builder_has_default_security_headers() {
    let res = ResponseBuilder::new(200).build();
    assert_default_security_headers(&res);
}

#[test]
fn response_builder_allows_overrides() {
    let res = ResponseBuilder::with_status(StatusCode::OK)
        .header("X-Frame-Options", "SAMEORIGIN")
        .build();
    assert_eq!(res.headers.get("X-Frame-Options").map(|s| s.as_str()), Some("SAMEORIGIN"));
    assert_eq!(res.headers.get("X-Content-Type-Options").map(|s| s.as_str()), Some("nosniff"));
}

fn assert_default_security_headers(res: &Response) {
    assert_eq!(res.headers.get("X-Content-Type-Options").map(|s| s.as_str()), Some("nosniff"));
    assert_eq!(res.headers.get("X-Frame-Options").map(|s| s.as_str()), Some("DENY"));
    assert_eq!(res.headers.get("X-XSS-Protection").map(|s| s.as_str()), Some("1; mode=block"));
    assert_eq!(
        res.headers.get("Referrer-Policy").map(|s| s.as_str()),
        Some("strict-origin-when-cross-origin")
    );
    assert_eq!(
        res.headers.get("Content-Security-Policy").map(|s| s.as_str()),
        Some("default-src 'self'")
    );
}

#[test]
fn response_html_builder_sets_content_type() {
    let res = ResponseBuilder::new(200).html("<p>hi</p>").build();
    assert_eq!(
        res.headers.get("Content-Type"),
        Some(&"text/html; charset=utf-8".to_string())
    );
    assert_eq!(String::from_utf8(res.body.unwrap()).unwrap(), "<p>hi</p>");
}

#[test]
fn response_convenience_constructors() {
    assert_eq!(Response::created().status, 201);
    assert_eq!(Response::no_content().status, 204);
    assert_eq!(Response::bad_request().status, 400);
    assert_eq!(Response::unauthorized().status, 401);
    assert_eq!(Response::forbidden().status, 403);
    assert_eq!(Response::not_found().status, 404);
    assert_eq!(Response::internal_server_error().status, 500);
}

#[test]
fn error_status_codes() {
    assert_eq!(Error::RouteNotFound("x".to_string()).status_code(), 404);
    assert_eq!(Error::InvalidRequestBody("x".to_string()).status_code(), 400);
    assert_eq!(Error::ResponseSerializationError("x".to_string()).status_code(), 500);
    assert_eq!(Error::MiddlewareError("x".to_string()).status_code(), 500);
    assert_eq!(Error::InternalServerError("x".to_string()).status_code(), 500);
    assert_eq!(Error::ConfigurationError("x".to_string()).status_code(), 500);
    assert_eq!(Error::ExternalServiceError("x".to_string()).status_code(), 502);
    assert_eq!(Error::AuthenticationError("x".to_string()).status_code(), 401);
    assert_eq!(Error::AuthorizationError("x".to_string()).status_code(), 403);
    assert_eq!(Error::PayloadTooLarge("x".to_string()).status_code(), 413);
    assert_eq!(Error::InvalidHeader("x".to_string()).status_code(), 400);
    assert_eq!(Error::InvalidCookie("x".to_string()).status_code(), 400);
}

#[test]
fn is_json_like_content_type_accepts_and_rejects() {
    assert!(is_json_like_content_type("application/json"));
    assert!(is_json_like_content_type("application/json; charset=utf-8"));
    assert!(is_json_like_content_type("Application/JSON"));
    assert!(is_json_like_content_type("application/ld+json; charset=utf-8"));
    assert!(is_json_like_content_type("application/json-seq"));
    assert!(!is_json_like_content_type("text/plain"));
    assert!(!is_json_like_content_type("application/xml"));
}
