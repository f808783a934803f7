// The CGI codec pieces: query decoding, header and cookie validation,
// redaction, the Set-Cookie splitter, and the response framer.
use runbridge::query::parse_query_string;
use runbridge::query::percent_decode;
use runbridge::validate::is_header_value_valid;
use runbridge::validate::is_header_name_valid;
use runbridge::validate::is_cookie_name_valid;
use runbridge::validate::is_cookie_value_valid;
use runbridge::validate::is_valid_header_name;
use runbridge::validate::is_valid_header_value;
use runbridge::redact::redact_value_for_log;
use runbridge::redact::is_sensitive_key_like;
use runbridge::redact::redact_query_string;
use runbridge::cgi_frame::split_set_cookie_header;
use runbridge::cgi_frame::write_response_to;
use runbridge::http::Response;

#[test]
fn cgi_test_parse_query_string() {
    let query = "name=John&age=30&city=Tokyo";
    let params = parse_query_string(query);

    assert_eq!(params.get("name"), Some(&"John".to_string()));
    assert_eq!(params.get("age"), Some(&"30".to_string()));
    assert_eq!(params.get("city"), Some(&"Tokyo".to_string()));
}

#[test]
fn tests_test_parse_query_string() {
    let query = "name=John&age=30&city=Tokyo";
    let params = parse_query_string(query);

    assert_eq!(params.get("name"), Some(&"John".to_string()));
    assert_eq!(params.get("age"), Some(&"30".to_string()));
    assert_eq!(params.get("city"), Some(&"Tokyo".to_string()));
}

#[test]
fn utils_test_parse_query_string() {
    let query = "name=John&age=30&city=Tokyo";
    let params = parse_query_string(query);

    assert_eq!(params.get("name"), Some(&"John".to_string()));
    assert_eq!(params.get("age"), Some(&"30".to_string()));
    assert_eq!(params.get("city"), Some(&"Tokyo".to_string()));
}

#[test]
fn cgi_test_parse_query_string_url_encoding() {
    let query = "name=%E3%81%82%E3%81%84%E3%81%86%E3%81%88%E3%81%8A&city=Tokyo%20Station&lang=ja%2Den";
    let params = parse_query_string(query);

    assert_eq!(params.get("name"), Some(&"あいうえお".to_string()));
    assert_eq!(params.get("city"), Some(&"Tokyo Station".to_string()));
    assert_eq!(params.get("lang"), Some(&"ja-en".to_string()));
}

#[test]
fn tests_test_parse_query_string_url_encoding() {
    let query = "name=%E3%81%82%E3%81%84%E3%81%86%E3%81%88%E3%81%8A&city=Tokyo%20Station&lang=ja%2Den";
    let params = parse_query_string(query);

    assert_eq!(params.get("name"), Some(&"あいうえお".to_string()));
    assert_eq!(params.get("city"), Some(&"Tokyo Station".to_string()));
    assert_eq!(params.get("lang"), Some(&"ja-en".to_string()));
}

#[test]
fn utils_test_parse_query_string_url_encoding() {
    let query = "name=%E3%81%82%E3%81%84%E3%81%86%E3%81%88%E3%81%8A&city=Tokyo%20Station&lang=ja%2Den";
    let params = parse_query_string(query);

    assert_eq!(params.get("name"), Some(&"あいうえお".to_string()));
    assert_eq!(params.get("city"), Some(&"Tokyo Station".to_string()));
    assert_eq!(params.get("lang"), Some(&"ja-en".to_string()));
}

#[test]
fn test_percent_decode() {
    assert_eq!(percent_decode("Hello%20World"), "Hello World");
    assert_eq!(percent_decode("test%2Bvalue"), "test+value");
    assert_eq!(percent_decode("normal"), "normal");
    assert_eq!(percent_decode("plus+space"), "plus space");
    assert_eq!(percent_decode("%E3%81%82%E3%81%84%E3%81%86%E3%81%88%E3%81%8A"), "あいうえお");
}

#[test]
fn header_value_rejects_crlf_and_ctl() {
    assert!(is_header_value_valid("normal-Value_123"));
    assert!(!is_header_value_valid("bad\rvalue"));
    assert!(!is_header_value_valid("bad\nvalue"));
    assert!(!is_header_value_valid("bad\x07bell"));
}

#[test]
fn header_value_rule_is_tab_space_printable_ascii() {
    // The value rule admits horizontal tab and space and nothing else
    // outside printable ASCII.
    assert!(is_header_value_valid("a\tb"));
    assert!(is_header_value_valid(""));
    assert!(is_header_value_valid(" ~!"));
    assert!(!is_header_value_valid("caf\u{e9}"));
    assert!(!is_header_value_valid("\u{7f}"));
    assert!(!is_header_value_valid("\u{a0}"));
}

#[test]
fn cookie_name_and_value_validation() {
    assert!(is_cookie_name_valid("SESSIONID"));
    assert!(!is_cookie_name_valid("bad name"));
    assert!(!is_cookie_name_valid("bad;name"));

    assert!(is_cookie_value_valid("abcDEF123-_.:~"));
    assert!(!is_cookie_value_valid("bad;value"));
    assert!(!is_cookie_value_valid("bad,value"));
    assert!(!is_cookie_value_valid("bad\nvalue"));
}

#[test]
fn cookie_name_rejects_equals_sign() {
    // `=` is a separator and may not stand in a cookie name.
    assert!(!is_cookie_name_valid("="));
    assert!(!is_cookie_name_valid("bad=name"));
    assert!(is_cookie_name_valid("good-name"));
}

#[test]
fn header_name_token_rule() {
    assert!(is_header_name_valid("Content-Type"));
    assert!(is_header_name_valid("x-custom_1~"));
    assert!(!is_header_name_valid(""));
    assert!(!is_header_name_valid("bad name"));
    assert!(!is_header_name_valid("bad:name"));
}

#[test]
fn cgi_test_is_valid_header_name() {
    assert!(is_valid_header_name("Content-Type"));
    assert!(is_valid_header_name("X-Custom-Header"));
    assert!(is_valid_header_name("User-Agent"));
    assert!(is_valid_header_name("Accept"));

    assert!(!is_valid_header_name(""));
    assert!(!is_valid_header_name("Content\rType"));
    assert!(!is_valid_header_name("Content\nType"));
    assert!(!is_valid_header_name("Content Type"));
    assert!(!is_valid_header_name("Content:Type"));
    assert!(!is_valid_header_name("Content=Type"));
}

#[test]
fn tests_test_is_valid_header_name() {
    assert!(is_valid_header_name("Content-Type"));
    assert!(is_valid_header_name("X-Custom-Header"));
    assert!(is_valid_header_name("User-Agent"));
    assert!(is_valid_header_name("Accept"));

    assert!(!is_valid_header_name(""));
    assert!(!is_valid_header_name("Content\rType"));
    assert!(!is_valid_header_name("Content\nType"));
    assert!(!is_valid_header_name("Content Type"));
    assert!(!is_valid_header_name("Content:Type"));
    assert!(!is_valid_header_name("Content=Type"));
}

#[test]
fn cgi_test_is_valid_header_value() {
    assert!(is_valid_header_value("text/html"));
    assert!(is_valid_header_value("application/json; charset=utf-8"));
    assert!(is_valid_header_value("Bearer token123"));
    assert!(is_valid_header_value(""));
    assert!(is_valid_header_value("value\twith\ttab"));

    assert!(!is_valid_header_value("text/html\r\nSet-Cookie: malicious"));
    assert!(!is_valid_header_value("text/html\nX-Evil: attack"));
    assert!(!is_valid_header_value("text/html\rX-Evil: attack"));
    assert!(!is_valid_header_value("value\x00with\x01control"));
}

#[test]
fn tests_test_is_valid_header_value() {
    assert!(is_valid_header_value("text/html"));
    assert!(is_valid_header_value("application/json; charset=utf-8"));
    assert!(is_valid_header_value("Bearer token123"));
    assert!(is_valid_header_value(""));
    assert!(is_valid_header_value("value\twith\ttab"));

    assert!(!is_valid_header_value("text/html\r\nSet-Cookie: malicious"));
    assert!(!is_valid_header_value("text/html\nX-Evil: attack"));
    assert!(!is_valid_header_value("text/html\rX-Evil: attack"));
    assert!(!is_valid_header_value("value\x00with\x01control"));
}

#[test]
fn cgi_test_split_set_cookie_header_simple_multiple() {
    let h = "a=1; Path=/, b=2; Path=/; Secure";
    let parts = split_set_cookie_header(h);
    assert_eq!(parts.len(), 2);
    assert!(parts[0].starts_with("a=1"));
    assert!(parts[1].starts_with("b=2"));
}

#[test]
fn tests_test_split_set_cookie_header_simple_multiple() {
    let h = "a=1; Path=/, b=2; Path=/; Secure";
    let parts = split_set_cookie_header(h);
    assert_eq!(parts.len(), 2);
    assert!(parts[0].starts_with("a=1"));
    assert!(parts[1].starts_with("b=2"));
}

#[test]
fn cgi_test_split_set_cookie_header_with_expires() {
    let h = "a=1; Expires=Tue, 31 Dec 2024 23:59:59 GMT; Path=/, b=2; Path=/";
    let parts = split_set_cookie_header(h);
    assert_eq!(parts.len(), 2);
    assert!(parts[0].contains("Expires=Tue, 31 Dec 2024 23:59:59 GMT"));
    assert!(parts[1].starts_with("b=2"));
}

#[test]
fn tests_test_split_set_cookie_header_with_expires() {
    let h = "a=1; Expires=Tue, 31 Dec 2024 23:59:59 GMT; Path=/, b=2; Path=/";
    let parts = split_set_cookie_header(h);
    assert_eq!(parts.len(), 2);
    assert!(parts[0].contains("Expires=Tue, 31 Dec 2024 23:59:59 GMT"));
    assert!(parts[1].starts_with("b=2"));
}

#[test]
fn cgi_test_write_response_multiple_set_cookie_lines() {
    let response = Response::new(200)
        .with_header(
            "Set-Cookie",
            "a=1; Path=/, b=2; Path=/; Secure, c=3; Expires=Tue, 31 Dec 2024 23:59:59 GMT; Path=/",
        )
        .with_header("Content-Type", "text/plain")
        .with_body(b"ok".to_vec());

    let mut buf: Vec<u8> = Vec::new();
    write_response_to(response, &mut buf);
    let out = String::from_utf8(buf).expect("utf8");

    assert!(out.contains("Status: 200 OK"));

    let set_cookie_lines: Vec<&str> = out.lines().filter(|l| l.starts_with("Set-Cookie:")).collect();
    assert_eq!(set_cookie_lines.len(), 3, "expected 3 Set-Cookie lines:\n{}", out);
    assert!(out.contains("Set-Cookie: a=1; Path=/"));
    assert!(out.contains("Set-Cookie: b=2; Path=/; Secure"));
    assert!(out.contains("Set-Cookie: c=3; Expires=Tue, 31 Dec 2024 23:59:59 GMT; Path=/"));

    assert!(out.contains("Content-Length: 2\r"));
    assert!(out.ends_with("\r\nok"));
}

#[test]
fn tests_test_write_response_multiple_set_cookie_lines() {
    let response = Response::new(200)
        .with_header(
            "Set-Cookie",
            "a=1; Path=/, b=2; Path=/; Secure, c=3; Expires=Tue, 31 Dec 2024 23:59:59 GMT; Path=/",
        )
        .with_header("Content-Type", "text/plain")
        .with_body(b"ok".to_vec());

    let mut buf: Vec<u8> = Vec::new();
    write_response_to(response, &mut buf);
    let out = String::from_utf8(buf).expect("utf8");

    assert!(out.contains("Status: 200 OK"));

    let set_cookie_lines: Vec<&str> = out.lines().filter(|l| l.starts_with("Set-Cookie:")).collect();
    assert_eq!(set_cookie_lines.len(), 3, "expected 3 Set-Cookie lines:\n{}", out);
    assert!(out.contains("Set-Cookie: a=1; Path=/"));
    assert!(out.contains("Set-Cookie: b=2; Path=/; Secure"));
    assert!(out.contains("Set-Cookie: c=3; Expires=Tue, 31 Dec 2024 23:59:59 GMT; Path=/"));

    assert!(out.contains("Content-Length: 2\r"));
    assert!(out.ends_with("\r\nok"));
}

#[test]
fn framer_replaces_response_with_invalid_header() {
    // A header value that slipped past construction is caught at the
    // final check and the whole response is replaced by a fixed 400.
    let mut response = Response::new(200);
    // Build an invalid value through a raw insert on the public map.
    response.headers.insert("X-Bad".to_string(), "evil\u{7f}value".to_string());
    response.body = Some(b"secret".to_vec());

    let mut buf: Vec<u8> = Vec::new();
    write_response_to(response, &mut buf);
    let out = String::from_utf8(buf).expect("utf8");

    assert!(out.contains("Status: 400 Bad Request"));
    assert!(out.contains("Bad Request: Invalid header"));
    assert!(!out.contains("secret"));
    assert!(!out.contains("X-Bad"));
}

#[test]
fn cgi_test_redact_value_for_log() {
    assert_eq!(redact_value_for_log("CONTENT_TYPE", "application/json"), "application/json");
    assert_eq!(redact_value_for_log("HTTP_HOST", "example.com"), "example.com");

    assert_eq!(redact_value_for_log("HTTP_AUTHORIZATION", "Bearer token123"), "***redacted***");
    assert_eq!(redact_value_for_log("HTTP_COOKIE", "session=abc123"), "***redacted***");
    assert_eq!(redact_value_for_log("HTTP_X_API_KEY", "secret-key"), "***redacted***");

    assert_eq!(
        redact_value_for_log("QUERY_STRING", "name=john&token=secret123"),
        "name=john&token=***redacted***"
    );

    let long_value = "a".repeat(250);
    let result = redact_value_for_log("HTTP_USER_AGENT", &long_value);
    assert!(result.ends_with("...[truncated]"));
    assert_eq!(result.len(), 200 + "...[truncated]".len());
}

#[test]
fn tests_test_redact_value_for_log() {
    assert_eq!(redact_value_for_log("CONTENT_TYPE", "application/json"), "application/json");
    assert_eq!(redact_value_for_log("HTTP_HOST", "example.com"), "example.com");

    assert_eq!(redact_value_for_log("HTTP_AUTHORIZATION", "Bearer token123"), "***redacted***");
    assert_eq!(redact_value_for_log("HTTP_COOKIE", "session=abc123"), "***redacted***");
    assert_eq!(redact_value_for_log("HTTP_X_API_KEY", "secret-key"), "***redacted***");

    assert_eq!(
        redact_value_for_log("QUERY_STRING", "name=john&token=secret123"),
        "name=john&token=***redacted***"
    );

    let long_value = "a".repeat(250);
    let result = redact_value_for_log("HTTP_USER_AGENT", &long_value);
    assert!(result.ends_with("...[truncated]"));
    assert_eq!(result.len(), 200 + "...[truncated]".len());
}

#[test]
fn cgi_test_is_sensitive_key_like() {
    assert!(is_sensitive_key_like("authorization"));
    assert!(is_sensitive_key_like("http_authorization"));
    assert!(is_sensitive_key_like("cookie"));
    assert!(is_sensitive_key_like("http_cookie"));
    assert!(is_sensitive_key_like("token"));
    assert!(is_sensitive_key_like("access_token"));
    assert!(is_sensitive_key_like("secret"));
    assert!(is_sensitive_key_like("password"));
    assert!(is_sensitive_key_like("api_key"));
    assert!(is_sensitive_key_like("x-api-key"));
    assert!(is_sensitive_key_like("jwt"));
    assert!(is_sensitive_key_like("session"));
    assert!(is_sensitive_key_like("csrf"));
    assert!(is_sensitive_key_like("private"));

    assert!(!is_sensitive_key_like("content_type"));
    assert!(!is_sensitive_key_like("host"));
    assert!(!is_sensitive_key_like("user_agent"));
    assert!(!is_sensitive_key_like("accept"));
    assert!(!is_sensitive_key_like("content_length"));
}

#[test]
fn tests_test_is_sensitive_key_like() {
    assert!(is_sensitive_key_like("authorization"));
    assert!(is_sensitive_key_like("http_authorization"));
    assert!(is_sensitive_key_like("cookie"));
    assert!(is_sensitive_key_like("http_cookie"));
    assert!(is_sensitive_key_like("token"));
    assert!(is_sensitive_key_like("access_token"));
    assert!(is_sensitive_key_like("secret"));
    assert!(is_sensitive_key_like("password"));
    assert!(is_sensitive_key_like("api_key"));
    assert!(is_sensitive_key_like("x-api-key"));
    assert!(is_sensitive_key_like("jwt"));
    assert!(is_sensitive_key_like("session"));
    assert!(is_sensitive_key_like("csrf"));
    assert!(is_sensitive_key_like("private"));

    assert!(!is_sensitive_key_like("content_type"));
    assert!(!is_sensitive_key_like("host"));
    assert!(!is_sensitive_key_like("user_agent"));
    assert!(!is_sensitive_key_like("accept"));
    assert!(!is_sensitive_key_like("content_length"));
}

#[test]
fn cgi_test_redact_query_string() {
    assert_eq!(redact_query_string(""), "");

    assert_eq!(redact_query_string("name=john&age=30"), "name=john&age=30");

    assert_eq!(redact_query_string("name=john&token=secret123"), "name=john&token=***redacted***");
    assert_eq!(redact_query_string("api_key=secret&user=admin"), "api_key=***redacted***&user=admin");

    assert_eq!(
        redact_query_string("token=abc&password=123&name=john"),
        "token=***redacted***&password=***redacted***&name=john"
    );

    assert_eq!(
        redact_query_string("secret=encoded%20value&name=test"),
        "secret=***redacted***&name=test"
    );

    assert_eq!(redact_query_string("token=&name=john"), "token=***redacted***&name=john");
}

#[test]
fn tests_test_redact_query_string() {
    assert_eq!(redact_query_string(""), "");

    assert_eq!(redact_query_string("name=john&age=30"), "name=john&age=30");

    assert_eq!(redact_query_string("name=john&token=secret123"), "name=john&token=***redacted***");
    assert_eq!(redact_query_string("api_key=secret&user=admin"), "api_key=***redacted***&user=admin");

    assert_eq!(
        redact_query_string("token=abc&password=123&name=john"),
        "token=***redacted***&password=***redacted***&name=john"
    );

    assert_eq!(
        redact_query_string("secret=encoded%20value&name=test"),
        "secret=***redacted***&name=test"
    );

    assert_eq!(redact_query_string("token=&name=john"), "token=***redacted***&name=john");
}
