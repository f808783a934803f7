// The CGI ingestor: header derivation from environment variables, the
// body-size gate, the configured ceiling, pattern normalization, and the
// redacted panic context.
use runbridge::cgi_ingest::get_cgi_headers;
use runbridge::cgi_ingest::plan_request_body;
use runbridge::cgi_ingest::build_request;
use runbridge::cgi_ingest::BodyPlan;
use runbridge::query::get_max_body_size;
use runbridge::query::DEFAULT_MAX_BODY_SIZE;
use runbridge::redact::gather_cgi_panic_context;
use runbridge::strmap::StringMap;
use runbridge::pattern::ensure_safe_pattern;
use runbridge::pattern::RoutePattern;
use runbridge::http::Method;
use runbridge::http::Response;
use runbridge::error::Error;

fn env_of(pairs: &[(&str, &str)]) -> StringMap {
    let mut m = StringMap::new();
    for (k, v) in pairs {
        m.insert(k.to_string(), v.to_string());
    }
    m
}

#[test]
fn cgi_test_get_cgi_headers() {
    let env = env_of(&[
        ("HTTP_CONTENT_TYPE", "application/json"),
        ("HTTP_X_CUSTOM_HEADER", "test value"),
        ("HTTP_X_AUTH_TOKEN", "secret-token"),
        ("CONTENT_LENGTH", "123"),
        ("UNRELATED_VAR", "should not be included"),
    ]);
    let headers = get_cgi_headers(&env);

    assert_eq!(headers.get("Content-Type"), Some(&"application/json".to_string()));
    assert_eq!(headers.get("X-Custom-Header"), Some(&"test value".to_string()));
    assert_eq!(headers.get("X-Auth-Token"), Some(&"secret-token".to_string()));
    assert_eq!(headers.get("Content-Length"), Some(&"123".to_string()));
    assert_eq!(headers.get("UNRELATED_VAR"), None);
}

#[test]
fn tests_test_get_cgi_headers() {
    let env = env_of(&[
        ("HTTP_CONTENT_TYPE", "application/json"),
        ("HTTP_X_CUSTOM_HEADER", "test value"),
        ("HTTP_X_AUTH_TOKEN", "secret-token"),
        ("CONTENT_LENGTH", "123"),
        ("UNRELATED_VAR", "should not be included"),
    ]);
    let headers = get_cgi_headers(&env);

    assert_eq!(headers.get("Content-Type"), Some(&"application/json".to_string()));
    assert_eq!(headers.get("X-Custom-Header"), Some(&"test value".to_string()));
    assert_eq!(headers.get("X-Auth-Token"), Some(&"secret-token".to_string()));
    assert_eq!(headers.get("Content-Length"), Some(&"123".to_string()));
    assert_eq!(headers.get("UNRELATED_VAR"), None);
}

#[test]
fn cgi_headers_reject_invalid_values() {
    let env = env_of(&[
        ("HTTP_X_GOOD", "fine"),
        ("HTTP_X_EVIL", "bad\r\nSet-Cookie: oops"),
    ]);
    let headers = get_cgi_headers(&env);
    assert_eq!(headers.get("X-Good"), Some(&"fine".to_string()));
    assert_eq!(headers.get("X-Evil"), None);
}

#[test]
fn cgi_test_get_max_body_size_default() {
    assert_eq!(get_max_body_size(None), 5 * 1024 * 1024);
    assert_eq!(DEFAULT_MAX_BODY_SIZE, 5 * 1024 * 1024);
}

#[test]
fn tests_test_get_max_body_size_default() {
    assert_eq!(get_max_body_size(None), 5 * 1024 * 1024);
}

#[test]
fn cgi_test_get_max_body_size_custom() {
    let configured = "1048576".to_string();
    assert_eq!(get_max_body_size(Some(&configured)), 1048576);
}

#[test]
fn tests_test_get_max_body_size_custom() {
    let configured = "1048576".to_string();
    assert_eq!(get_max_body_size(Some(&configured)), 1048576);
}

#[test]
fn cgi_test_get_max_body_size_invalid_env() {
    let configured = "invalid".to_string();
    assert_eq!(get_max_body_size(Some(&configured)), 5 * 1024 * 1024);
}

#[test]
fn tests_test_get_max_body_size_invalid_env() {
    let configured = "invalid".to_string();
    assert_eq!(get_max_body_size(Some(&configured)), 5 * 1024 * 1024);
}

#[test]
fn scenario_oversized_declaration_reads_nothing() {
    // CONTENT_LENGTH beyond the ceiling: the plan refuses the body before
    // standard input would be touched, and the answer is a 413.
    let declared = "6000000".to_string();
    let plan = plan_request_body(Some(&declared), DEFAULT_MAX_BODY_SIZE);
    assert!(matches!(plan, BodyPlan::TooLarge));

    let res = Response::from_error(&Error::PayloadTooLarge("declared too large".to_string()));
    assert_eq!(res.status, 413);
    assert_eq!(String::from_utf8(res.body.unwrap()).unwrap(), "Payload Too Large");
}

#[test]
fn body_plan_cases() {
    let small = "10".to_string();
    assert!(matches!(plan_request_body(Some(&small), 100), BodyPlan::ReadExactly(10)));
    let zero = "0".to_string();
    assert!(matches!(plan_request_body(Some(&zero), 100), BodyPlan::NoBody));
    let junk = "ten".to_string();
    assert!(matches!(plan_request_body(Some(&junk), 100), BodyPlan::NoBody));
    assert!(matches!(plan_request_body(None, 100), BodyPlan::NoBody));
    let edge = "100".to_string();
    assert!(matches!(plan_request_body(Some(&edge), 100), BodyPlan::ReadExactly(100)));
    let over = "101".to_string();
    assert!(matches!(plan_request_body(Some(&over), 100), BodyPlan::TooLarge));
}

#[test]
fn build_request_normalizes_and_defaults() {
    let env = env_of(&[("HTTP_X_AUTH_TOKEN", "tok"), ("CONTENT_TYPE", "application/json")]);
    let qs = "a=1&b=%20".to_string();
    let req = build_request("post", None, Some(&qs), &env, Some(b"{}".to_vec())).unwrap();

    assert_eq!(req.method, Method::POST);
    assert_eq!(req.path, "/");
    assert_eq!(req.query_params.get("a"), Some(&"1".to_string()));
    assert_eq!(req.query_params.get("b"), Some(&" ".to_string()));
    // Header keys arrive lower-cased inside the core.
    assert_eq!(req.headers.get("x-auth-token"), Some(&"tok".to_string()));
    assert_eq!(req.headers.get("content-type"), Some(&"application/json".to_string()));
    assert_eq!(req.body.unwrap(), b"{}".to_vec());

    let bad = build_request("TELEPORT", None, None, &env, None);
    assert!(matches!(bad, Err(Error::InvalidRequestBody(_))));
}

#[test]
fn cgi_test_gather_cgi_panic_context() {
    let env = env_of(&[
        ("QUERY_STRING", "name=test&token=secret"),
        ("CONTENT_TYPE", "application/json"),
        ("CONTENT_LENGTH", "123"),
        ("SERVER_NAME", "example.com"),
        ("HTTP_HOST", "example.com"),
        ("HTTP_USER_AGENT", "TestAgent/1.0"),
        ("HTTP_AUTHORIZATION", "Bearer secret-token"),
        ("HTTP_COOKIE", "session=abc123"),
    ]);
    let context = gather_cgi_panic_context("POST", "/api/test", &env);

    assert!(context.contains("CGI panic context:"));
    assert!(context.contains("REQUEST_METHOD=POST"));
    assert!(context.contains("PATH_INFO=/api/test"));

    assert!(context.contains("QUERY_STRING=name=test&token=***redacted***"));
    assert!(context.contains("CONTENT_TYPE=application/json"));
    assert!(context.contains("CONTENT_LENGTH=123"));
    assert!(context.contains("SERVER_NAME=example.com"));

    assert!(context.contains("HTTP headers:"));
    assert!(context.contains("HTTP_HOST=example.com"));
    assert!(context.contains("HTTP_USER_AGENT=TestAgent/1.0"));

    assert!(context.contains("HTTP_AUTHORIZATION=***redacted***"));
    assert!(context.contains("HTTP_COOKIE=***redacted***"));
    assert!(!context.contains("Bearer secret-token"));
    assert!(!context.contains("session=abc123"));
}

#[test]
fn tests_test_gather_cgi_panic_context() {
    let env = env_of(&[
        ("QUERY_STRING", "name=test&token=secret"),
        ("HTTP_AUTHORIZATION", "Bearer secret-token"),
        ("HTTP_COOKIE", "session=abc123"),
    ]);
    let context = gather_cgi_panic_context("POST", "/api/test", &env);

    assert!(context.contains("CGI panic context:"));
    assert!(context.contains("REQUEST_METHOD=POST"));
    assert!(context.contains("PATH_INFO=/api/test"));
    assert!(context.contains("QUERY_STRING=name=test&token=***redacted***"));
    assert!(context.contains("HTTP_AUTHORIZATION=***redacted***"));
    assert!(context.contains("HTTP_COOKIE=***redacted***"));
}

#[test]
fn cgi_test_gather_cgi_panic_context_no_headers() {
    let env = env_of(&[("CONTENT_TYPE", "text/plain")]);
    let context = gather_cgi_panic_context("GET", "/", &env);

    assert!(context.contains("HTTP headers:"));
    assert!(context.contains("(none)"));
}

#[test]
fn tests_test_gather_cgi_panic_context_no_headers() {
    let env = env_of(&[("CONTENT_TYPE", "text/plain")]);
    let context = gather_cgi_panic_context("GET", "/", &env);

    assert!(context.contains("HTTP headers:"));
    assert!(context.contains("(none)"));
}

#[test]
fn test_empty_pattern_rejection() {
    assert!(ensure_safe_pattern("").is_err());
}

#[test]
fn test_anchor_normalization() {
    // A pattern without anchors gains both; partial anchors are replaced
    // by one fresh pair.
    assert_eq!(ensure_safe_pattern("/test").unwrap(), "^/test$");
    assert_eq!(ensure_safe_pattern("^/partial").unwrap(), "^/partial$");
    assert_eq!(ensure_safe_pattern("/partial$").unwrap(), "^/partial$");
    assert_eq!(ensure_safe_pattern("^/both$").unwrap(), "^/both$");

    let p = RoutePattern::new(ensure_safe_pattern("/test").unwrap());
    assert!(p.is_match("/test"));
    assert!(!p.is_match("/test/extra"));
    assert!(!p.is_match("/prefix/test"));
    assert!(!p.is_match("test"));
}

#[test]
fn test_invalid_regex_pattern_fail_closed() {
    // A pattern the regex crate rejects can never match.
    let p = RoutePattern::new("^[$".to_string());
    assert!(!p.is_match("/test"));
    assert!(!p.is_match("["));
    assert!(!p.is_match("/anything"));
    assert!(!p.is_match(""));
}

#[test]
fn test_regex_path_pattern() {
    let p = RoutePattern::new(ensure_safe_pattern(r"^/items/\d+$").unwrap());
    assert!(p.is_match("/items/123"));
    assert!(p.is_match("/items/456"));
    assert!(!p.is_match("/items/abc"));
    assert!(!p.is_match("/items/"));
}
