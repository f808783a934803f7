// Cookies and their Set-Cookie serialization.
use runbridge::cookie::Cookie;
use runbridge::cookie::HttpDate;
use runbridge::cookie::SameSite;
use runbridge::cookie::extract_cookies;
use runbridge::cookie::set_cookie;
use runbridge::cookie::set_cookies;
use runbridge::http::Response;

#[test]
fn test_cookie_basic() {
    let cookie = Cookie::new("session_id", "abc123");

    assert_eq!(cookie.name, "session_id");
    assert_eq!(cookie.value, "abc123");
    assert_eq!(cookie.path, None);
    assert_eq!(cookie.domain, None);
    assert!(!cookie.secure);
    assert!(!cookie.http_only);
    assert_eq!(cookie.same_site, None);
}

#[test]
fn test_cookie_builder() {
    let cookie = Cookie::new("auth_token", "xyz789")
        .with_path("/")
        .with_domain("example.com")
        .secure(true)
        .http_only(true)
        .with_same_site(SameSite::Strict);

    assert_eq!(cookie.path, Some("/".to_string()));
    assert_eq!(cookie.domain, Some("example.com".to_string()));
    assert!(cookie.secure);
    assert!(cookie.http_only);
    assert_eq!(cookie.same_site, Some(SameSite::Strict));
}

#[test]
fn test_cookie_header_value() {
    let cookie = Cookie::new("test", "value")
        .with_path("/app")
        .with_domain("test.com")
        .secure(true)
        .http_only(true)
        .with_same_site(SameSite::Lax);

    let header_value = cookie.to_header_value();

    assert!(header_value.contains("test=value"));
    assert!(header_value.contains("Path=/app"));
    assert!(header_value.contains("Domain=test.com"));
    assert!(header_value.contains("Secure"));
    assert!(header_value.contains("HttpOnly"));
    assert!(header_value.contains("SameSite=Lax"));
}

#[test]
fn test_cookie_with_expires() {
    let expires = HttpDate { year: 2024, month: 12, day: 31, hour: 23, minute: 59, second: 59 };
    let cookie = Cookie::new("expires_test", "value").with_expires(expires);

    let header_value = cookie.to_header_value();
    assert!(header_value.contains("Expires=Tue, 31 Dec 2024 23:59:59 GMT"));
}

#[test]
fn test_cookie_with_max_age() {
    let cookie = Cookie::new("max_age_test", "value").with_max_age(3600);

    let header_value = cookie.to_header_value();
    assert!(header_value.contains("Max-Age=3600"));
}

#[test]
fn test_same_site_display() {
    assert_eq!(SameSite::Strict.as_str(), "Strict");
    assert_eq!(SameSite::Lax.as_str(), "Lax");
    assert_eq!(SameSite::Omit.as_str(), "None");
}

#[test]
fn test_cookie_try_new_validation() {
    let ok = Cookie::try_new("SID", "abcDEF123-_.:~").unwrap();
    assert_eq!(ok.name, "SID");
    assert_eq!(ok.value, "abcDEF123-_.:~");

    assert!(Cookie::try_new("SID", "bad;value").is_err());
    assert!(Cookie::try_new("SID", "bad,value").is_err());
    assert!(Cookie::try_new("SID", "bad\nvalue").is_err());

    assert!(Cookie::try_new("bad name", "v").is_err());
    assert!(Cookie::try_new("bad;name", "v").is_err());
}

#[test]
fn test_cookie_to_header_skips_invalid_attrs() {
    let mut c = Cookie::try_new("A", "B").unwrap();
    c.path = Some("/ok".into());
    c.domain = Some("bad\r\ndomain".into());
    let hv = c.to_header_value();
    assert!(hv.contains("A=B"));
    assert!(hv.contains("Path=/ok"));
    assert!(!hv.contains("Domain=bad"));
}

#[test]
fn cookie_new_replaces_invalid_pair() {
    let c = Cookie::new("bad name", "v");
    assert_eq!(c.name, "invalid");
    assert_eq!(c.value, "");
}

#[test]
fn http_date_formats_known_days() {
    // One date for each day of the week.
    let mk = |y: u16, m: u8, d: u8| HttpDate { year: y, month: m, day: d, hour: 0, minute: 0, second: 0 };
    let hv = |date: HttpDate| Cookie::new("d", "1").with_expires(date).to_header_value();
    assert!(hv(mk(2024, 12, 30)).contains("Expires=Mon, 30 Dec 2024"));
    assert!(hv(mk(2024, 12, 31)).contains("Expires=Tue, 31 Dec 2024"));
    assert!(hv(mk(2025, 1, 1)).contains("Expires=Wed, 01 Jan 2025"));
    assert!(hv(mk(2025, 1, 2)).contains("Expires=Thu, 02 Jan 2025"));
    assert!(hv(mk(2025, 1, 3)).contains("Expires=Fri, 03 Jan 2025"));
    assert!(hv(mk(2025, 1, 4)).contains("Expires=Sat, 04 Jan 2025"));
    assert!(hv(mk(2025, 1, 5)).contains("Expires=Sun, 05 Jan 2025"));
    // Leap-day handling.
    assert!(hv(mk(2024, 2, 29)).contains("Expires=Thu, 29 Feb 2024"));
}

#[test]
fn test_cgi_utils_mock() {
    let header = "session=abc123; user_id=456".to_string();
    let cookies = extract_cookies(Some(&header));
    assert_eq!(cookies.get("session"), Some(&"abc123".to_string()));
    assert_eq!(cookies.get("user_id"), Some(&"456".to_string()));

    let none = extract_cookies(None);
    assert!(none.is_empty());

    let odd = "plain; a=1".to_string();
    let cookies = extract_cookies(Some(&odd));
    assert_eq!(cookies.get("plain"), None);
    assert_eq!(cookies.get("a"), Some(&"1".to_string()));
}

#[test]
fn test_set_cookie_response() {
    let mut response = Response::new(200);
    let cookie = Cookie::new("test_cookie", "test_value").with_path("/").secure(true);

    set_cookie(&mut response, &cookie);

    let set_cookie_header = response.headers.get("Set-Cookie");
    assert!(set_cookie_header.is_some());

    let header_value = set_cookie_header.unwrap();
    assert!(header_value.contains("test_cookie=test_value"));
    assert!(header_value.contains("Path=/"));
    assert!(header_value.contains("Secure"));
}

#[test]
fn set_cookies_keeps_last_value() {
    let mut response = Response::new(200);
    let cookies = vec![Cookie::new("a", "1"), Cookie::new("b", "2")];
    set_cookies(&mut response, &cookies);
    assert_eq!(response.headers.get("Set-Cookie"), Some(&"b=2".to_string()));
}
