//! The header and cookie sanitizer: every byte the library forwards has
//! passed one of these checks, which close the CRLF-injection and
//! header-splitting vectors.
use vstd::prelude::*;
use vstd::string::StringSliceAdditionalSpecFns;
use vstd::string::StrSliceExecFns;
use crate::error::Error;

verus! {

/// A character allowed in a header value: horizontal tab, space, or
/// printable ASCII (0x21 through 0x7E). This excludes CR, LF, every other
/// control character, and anything beyond ASCII.
pub open spec fn spec_header_value_char_ok(c: char) -> bool {
    c == '\t' || c == ' ' || (0x21 <= (c as u32) && (c as u32) <= 0x7e)
}

pub open spec fn spec_header_value_valid(s: Seq<char>) -> bool {
    forall|i: int| 0 <= i < s.len() ==> spec_header_value_char_ok(#[trigger] s[i])
}

/// Accepts a header value exactly when every character is tab, space, or
/// printable ASCII. The empty value is accepted.
#[verifier::loop_isolation(false)]
pub fn is_header_value_valid(value: &str) -> (r: bool)
    ensures
        r == spec_header_value_valid(value@),
{
    let n = value.unicode_len();
    let mut i: usize = 0;
    while i < n
        invariant
            i <= n == value@.len(),
            forall|j: int| 0 <= j < i ==> spec_header_value_char_ok(#[trigger] value@[j]),
        decreases n - i,
    {
        let c = value.get_char(i);
        let code = (c as u32);
        if !(c == '\t' || c == ' ' || (0x21 <= code && code <= 0x7e)) {
            return false;
        }
        i = i + 1;
    }
    true
}

/// A token character of a header name: ASCII letter, digit, or one of
/// `!#$%&'*+-.^_`|~`.
pub open spec fn spec_tchar(c: char) -> bool {
    ('a' <= c && c <= 'z') || ('A' <= c && c <= 'Z') || ('0' <= c && c <= '9') || c == '!' || c
        == '#' || c == '$' || c == '%' || c == '&' || c == '\'' || c == '*' || c == '+' || c == '-'
        || c == '.' || c == '^' || c == '_' || c == '`' || c == '|' || c == '~'
}

pub open spec fn spec_header_name_valid(s: Seq<char>) -> bool {
    s.len() > 0 && forall|i: int| 0 <= i < s.len() ==> spec_tchar(#[trigger] s[i])
}

/// Accepts a header name exactly when it is a non-empty HTTP token.
#[verifier::loop_isolation(false)]
pub fn is_header_name_valid(name: &str) -> (r: bool)
    ensures
        r == spec_header_name_valid(name@),
{
    let n = name.unicode_len();
    if n == 0 {
        return false;
    }
    let mut i: usize = 0;
    while i < n
        invariant
            i <= n == name@.len(),
            forall|j: int| 0 <= j < i ==> spec_tchar(#[trigger] name@[j]),
        decreases n - i,
    {
        let c = name.get_char(i);
        if !(('a' <= c && c <= 'z') || ('A' <= c && c <= 'Z') || ('0' <= c && c <= '9') || c == '!'
            || c == '#' || c == '$' || c == '%' || c == '&' || c == '\'' || c == '*' || c == '+'
            || c == '-' || c == '.' || c == '^' || c == '_' || c == '`' || c == '|' || c == '~') {
            return false;
        }
        i = i + 1;
    }
    true
}

/// A character allowed in a cookie name: printable ASCII that is neither a
/// separator (`()<>@,;:\\"/[]?={}`) nor whitespace.
pub open spec fn spec_cookie_name_char_ok(c: char) -> bool {
    (c as u32) <= 0x7f && !((c as u32) < 0x20 || (c as u32) == 0x7f) && c != '(' && c != ')' && c != '<'
        && c != '>' && c != '@' && c != ',' && c != ';' && c != ':' && c != '\\' && c != '"' && c
        != '/' && c != '[' && c != ']' && c != '?' && c != '=' && c != '{' && c != '}' && c != ' '
        && c != '\t' && c != '\r' && c != '\n'
}

pub open spec fn spec_cookie_name_valid(s: Seq<char>) -> bool {
    s.len() > 0 && forall|i: int| 0 <= i < s.len() ==> spec_cookie_name_char_ok(#[trigger] s[i])
}

/// Accepts a cookie name exactly when it is a non-empty run of printable
/// ASCII without separators or whitespace.
#[verifier::loop_isolation(false)]
pub fn is_cookie_name_valid(name: &str) -> (r: bool)
    ensures
        r == spec_cookie_name_valid(name@),
{
    let n = name.unicode_len();
    if n == 0 {
        return false;
    }
    let mut i: usize = 0;
    while i < n
        invariant
            i <= n == name@.len(),
            forall|j: int| 0 <= j < i ==> spec_cookie_name_char_ok(#[trigger] name@[j]),
        decreases n - i,
    {
        let c = name.get_char(i);
        let code = (c as u32);
        if !(code <= 0x7f && !(code < 0x20 || code == 0x7f) && c != '(' && c != ')' && c != '<' && c
            != '>' && c != '@' && c != ',' && c != ';' && c != ':' && c != '\\' && c != '"' && c
            != '/' && c != '[' && c != ']' && c != '?' && c != '=' && c != '{' && c != '}' && c
            != ' ' && c != '\t' && c != '\r' && c != '\n') {
            return false;
        }
        i = i + 1;
    }
    true
}

/// A cookie-octet of RFC 6265: 0x21, 0x23-0x2B, 0x2D-0x3A, 0x3C-0x5B, or
/// 0x5D-0x7E; this excludes the comma, semicolon, backslash, double quote,
/// and every control character.
pub open spec fn spec_cookie_value_char_ok(c: char) -> bool {
    (c as u32) == 0x21 || (0x23 <= (c as u32) && (c as u32) <= 0x2b) || (0x2d <= (c as u32) && (c as u32)
        <= 0x3a) || (0x3c <= (c as u32) && (c as u32) <= 0x5b) || (0x5d <= (c as u32) && (c as u32) <= 0x7e)
}

pub open spec fn spec_cookie_value_valid(s: Seq<char>) -> bool {
    forall|i: int| 0 <= i < s.len() ==> spec_cookie_value_char_ok(#[trigger] s[i])
}

/// Accepts a cookie value exactly when every character is an RFC 6265
/// cookie-octet. The empty value is accepted.
#[verifier::loop_isolation(false)]
pub fn is_cookie_value_valid(value: &str) -> (r: bool)
    ensures
        r == spec_cookie_value_valid(value@),
{
    let n = value.unicode_len();
    let mut i: usize = 0;
    while i < n
        invariant
            i <= n == value@.len(),
            forall|j: int| 0 <= j < i ==> spec_cookie_value_char_ok(#[trigger] value@[j]),
        decreases n - i,
    {
        let c = value.get_char(i);
        let b = (c as u32);
        if !(b == 0x21 || (0x23 <= b && b <= 0x2b) || (0x2d <= b && b <= 0x3a) || (0x3c <= b && b
            <= 0x5b) || (0x5d <= b && b <= 0x7e)) {
            return false;
        }
        i = i + 1;
    }
    true
}

/// Rejects an invalid header value with an `InvalidHeader` error.
pub fn validate_header_value(value: &str) -> (r: Result<(), Error>)
    ensures
        r is Ok <==> spec_header_value_valid(value@),
        !spec_header_value_valid(value@) ==> (r matches Err(e) && e is InvalidHeader),
{
    if is_header_value_valid(value) {
        Ok(())
    } else {
        Err(
            Error::InvalidHeader(
                "header value contains control/CRLF or invalid chars".to_string(),
            ),
        )
    }
}

/// Rejects an invalid cookie name or value with an `InvalidCookie` error;
/// the name is checked first.
pub fn validate_cookie_name_value(name: &str, value: &str) -> (r: Result<(), Error>)
    ensures
        r is Ok <==> (spec_cookie_name_valid(name@) && spec_cookie_value_valid(value@)),
        !spec_cookie_name_valid(name@) ==> (r matches Err(e) && e is InvalidCookie),
        spec_cookie_name_valid(name@) && !spec_cookie_value_valid(value@) ==> (r matches Err(e)
            && e is InvalidCookie),
{
    if !is_cookie_name_valid(name) {
        return Err(Error::InvalidCookie("cookie name contains invalid characters".to_string()));
    }
    if !is_cookie_value_valid(value) {
        return Err(Error::InvalidCookie("cookie value contains invalid characters".to_string()));
    }
    Ok(())
}

/// A byte allowed in a CGI header name: ASCII letter, digit, or hyphen.
pub open spec fn spec_cgi_name_byte_ok(b: u8) -> bool {
    (97 <= b && b <= 122) || (65 <= b && b <= 90) || (48 <= b && b <= 57) || b == 45
}

pub open spec fn spec_cgi_header_name_valid(b: Seq<u8>) -> bool {
    b.len() > 0 && forall|i: int| 0 <= i < b.len() ==> spec_cgi_name_byte_ok(#[trigger] b[i])
}

/// Accepts a header name on the CGI boundary exactly when it is non-empty
/// and made of ASCII letters, digits, and hyphens.
#[verifier::loop_isolation(false)]
pub fn is_valid_header_name(name: &str) -> (r: bool)
    ensures
        r == spec_cgi_header_name_valid(name.spec_bytes()),
{
    let bytes = name.as_bytes();
    if bytes.len() == 0 {
        return false;
    }
    let mut i: usize = 0;
    while i < bytes.len()
        invariant
            i <= bytes@.len(),
            forall|j: int| 0 <= j < i ==> spec_cgi_name_byte_ok(#[trigger] bytes@[j]),
        decreases bytes@.len() - i,
    {
        let b = bytes[i];
        if !((97 <= b && b <= 122) || (65 <= b && b <= 90) || (48 <= b && b <= 57) || b == 45) {
            return false;
        }
        i = i + 1;
    }
    true
}

/// A byte allowed in a header value on the CGI boundary: horizontal tab,
/// space, or printable ASCII (0x21 through 0x7E).
pub open spec fn spec_cgi_value_byte_ok(b: u8) -> bool {
    b == 9 || b == 32 || (0x21 <= b && b <= 0x7e)
}

pub open spec fn spec_cgi_header_value_valid(b: Seq<u8>) -> bool {
    forall|i: int| 0 <= i < b.len() ==> spec_cgi_value_byte_ok(#[trigger] b[i])
}

/// Accepts a header value on the CGI boundary exactly when every byte is
/// tab, space, or printable ASCII.
#[verifier::loop_isolation(false)]
pub fn is_valid_header_value(value: &str) -> (r: bool)
    ensures
        r == spec_cgi_header_value_valid(value.spec_bytes()),
{
    let bytes = value.as_bytes();
    let mut i: usize = 0;
    while i < bytes.len()
        invariant
            i <= bytes@.len(),
            forall|j: int| 0 <= j < i ==> spec_cgi_value_byte_ok(#[trigger] bytes@[j]),
        decreases bytes@.len() - i,
    {
        let b = bytes[i];
        if !(b == 9 || b == 32 || (0x21 <= b && b <= 0x7e)) {
            return false;
        }
        i = i + 1;
    }
    true
}

} // verus!
