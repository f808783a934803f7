//! The basic HTTP vocabulary: status codes, request methods, and the
//! Request / Response pair that flows through the dispatch pipeline.
use vstd::prelude::*;
use vstd::utf8::encode_utf8;
use crate::text::upper_bytes;
use crate::text::str_bytes;
use crate::text::upper_bytes_in_place;
use crate::text::lower_bytes_in_place;
use crate::text::lower_key;
use crate::text::bytes_to_string;
use crate::strmap::StringMap;
use crate::context::RequestContext;
use crate::kvseq::kv_contains_key;
use crate::kvseq::kv_insert;
use crate::kvseq::kv_lookup;
use crate::error::Error;
use crate::error::spec_status_code;
use crate::validate::is_header_value_valid;
use crate::validate::spec_header_value_valid;
use crate::text::lower_bytes;
use crate::text::bytes_eq;
use crate::gzip::gunzip;
use crate::gzip::gunzip_bounded;
use crate::kvseq::kv_key_index;

verus! {

/// The HTTP status codes this library hands out by name.
#[derive(Debug, Clone, Copy, PartialEq, Eq, Structural)]
pub enum StatusCode {
    OK,
    Created,
    NoContent,
    BadRequest,
    Unauthorized,
    Forbidden,
    NotFound,
    MethodNotAllowed,
    Conflict,
    UnprocessableEntity,
    Locked,
    TooManyRequests,
    InternalServerError,
    NotImplemented,
    BadGateway,
    ServiceUnavailable,
}

pub open spec fn spec_status_as_u16(s: StatusCode) -> u16 {
    match s {
        StatusCode::OK => 200,
        StatusCode::Created => 201,
        StatusCode::NoContent => 204,
        StatusCode::BadRequest => 400,
        StatusCode::Unauthorized => 401,
        StatusCode::Forbidden => 403,
        StatusCode::NotFound => 404,
        StatusCode::MethodNotAllowed => 405,
        StatusCode::Conflict => 409,
        StatusCode::UnprocessableEntity => 422,
        StatusCode::Locked => 423,
        StatusCode::TooManyRequests => 429,
        StatusCode::InternalServerError => 500,
        StatusCode::NotImplemented => 501,
        StatusCode::BadGateway => 502,
        StatusCode::ServiceUnavailable => 503,
    }
}

impl StatusCode {
    /// The numeric status code.
    pub fn as_u16(&self) -> (r: u16)
        ensures
            r == spec_status_as_u16(*self),
    {
        match self {
            StatusCode::OK => 200,
            StatusCode::Created => 201,
            StatusCode::NoContent => 204,
            StatusCode::BadRequest => 400,
            StatusCode::Unauthorized => 401,
            StatusCode::Forbidden => 403,
            StatusCode::NotFound => 404,
            StatusCode::MethodNotAllowed => 405,
            StatusCode::Conflict => 409,
            StatusCode::UnprocessableEntity => 422,
            StatusCode::Locked => 423,
            StatusCode::TooManyRequests => 429,
            StatusCode::InternalServerError => 500,
            StatusCode::NotImplemented => 501,
            StatusCode::BadGateway => 502,
            StatusCode::ServiceUnavailable => 503,
        }
    }

    /// The standard reason phrase of the status code.
    pub fn reason_phrase(&self) -> (r: &'static str)
        ensures
            r@ == spec_status_reason(*self),
    {
        match self {
            StatusCode::OK => "OK",
            StatusCode::Created => "Created",
            StatusCode::NoContent => "No Content",
            StatusCode::BadRequest => "Bad Request",
            StatusCode::Unauthorized => "Unauthorized",
            StatusCode::Forbidden => "Forbidden",
            StatusCode::NotFound => "Not Found",
            StatusCode::MethodNotAllowed => "Method Not Allowed",
            StatusCode::Conflict => "Conflict",
            StatusCode::UnprocessableEntity => "Unprocessable Entity",
            StatusCode::Locked => "Locked",
            StatusCode::TooManyRequests => "Too Many Requests",
            StatusCode::InternalServerError => "Internal Server Error",
            StatusCode::NotImplemented => "Not Implemented",
            StatusCode::BadGateway => "Bad Gateway",
            StatusCode::ServiceUnavailable => "Service Unavailable",
        }
    }

    /// True of the 2xx codes.
    pub fn is_success(&self) -> (r: bool)
        ensures
            r == (200 <= spec_status_as_u16(*self) < 300),
    {
        let code = self.as_u16();
        200 <= code && code < 300
    }

    /// True of the 4xx codes.
    pub fn is_client_error(&self) -> (r: bool)
        ensures
            r == (400 <= spec_status_as_u16(*self) < 500),
    {
        let code = self.as_u16();
        400 <= code && code < 500
    }

    /// True of the 5xx codes.
    pub fn is_server_error(&self) -> (r: bool)
        ensures
            r == (500 <= spec_status_as_u16(*self) < 600),
    {
        let code = self.as_u16();
        500 <= code && code < 600
    }
}

pub open spec fn spec_status_reason(s: StatusCode) -> Seq<char> {
    match s {
        StatusCode::OK => "OK"@,
        StatusCode::Created => "Created"@,
        StatusCode::NoContent => "No Content"@,
        StatusCode::BadRequest => "Bad Request"@,
        StatusCode::Unauthorized => "Unauthorized"@,
        StatusCode::Forbidden => "Forbidden"@,
        StatusCode::NotFound => "Not Found"@,
        StatusCode::MethodNotAllowed => "Method Not Allowed"@,
        StatusCode::Conflict => "Conflict"@,
        StatusCode::UnprocessableEntity => "Unprocessable Entity"@,
        StatusCode::Locked => "Locked"@,
        StatusCode::TooManyRequests => "Too Many Requests"@,
        StatusCode::InternalServerError => "Internal Server Error"@,
        StatusCode::NotImplemented => "Not Implemented"@,
        StatusCode::BadGateway => "Bad Gateway"@,
        StatusCode::ServiceUnavailable => "Service Unavailable"@,
    }
}

/// The HTTP request methods the dispatcher can route.
#[derive(Debug, Clone, Copy, PartialEq, Eq, Structural)]
pub enum Method {
    GET,
    POST,
    PUT,
    DELETE,
    PATCH,
    HEAD,
    OPTIONS,
}

/// Which method a byte token names, after ASCII upper-casing.
pub open spec fn spec_method_token(u: Seq<u8>) -> Option<Method> {
    if u == seq![('G' as u8), ('E' as u8), ('T' as u8)] {
        Some(Method::GET)
    } else if u == seq![('P' as u8), ('O' as u8), ('S' as u8), ('T' as u8)] {
        Some(Method::POST)
    } else if u == seq![('P' as u8), ('U' as u8), ('T' as u8)] {
        Some(Method::PUT)
    } else if u == seq![('D' as u8), ('E' as u8), ('L' as u8), ('E' as u8), ('T' as u8), ('E' as u8)] {
        Some(Method::DELETE)
    } else if u == seq![('P' as u8), ('A' as u8), ('T' as u8), ('C' as u8), ('H' as u8)] {
        Some(Method::PATCH)
    } else if u == seq![('H' as u8), ('E' as u8), ('A' as u8), ('D' as u8)] {
        Some(Method::HEAD)
    } else if u == seq![('O' as u8), ('P' as u8), ('T' as u8), ('I' as u8), ('O' as u8), ('N' as u8), ('S' as u8)] {
        Some(Method::OPTIONS)
    } else {
        None
    }
}

/// The method a string names, case-insensitively.
pub open spec fn spec_method_from_str(s: Seq<char>) -> Option<Method> {
    spec_method_token(upper_bytes(encode_utf8(s)))
}

impl Method {
    /// Parses a method name, accepting any letter case.
    pub fn from_str(method: &str) -> (r: Option<Method>)
        ensures
            r == spec_method_from_str(method@),
    {
        let mut v = str_bytes(method);
        upper_bytes_in_place(&mut v);
        let n = v.len();
        if n == 3 && v[0] == ('G' as u8) && v[1] == ('E' as u8) && v[2] == ('T' as u8) {
            assert(v@ =~= seq![('G' as u8), ('E' as u8), ('T' as u8)]);
            Some(Method::GET)
        } else if n == 4 && v[0] == ('P' as u8) && v[1] == ('O' as u8) && v[2] == ('S' as u8) && v[3] == ('T' as u8) {
            assert(v@ =~= seq![('P' as u8), ('O' as u8), ('S' as u8), ('T' as u8)]);
            Some(Method::POST)
        } else if n == 3 && v[0] == ('P' as u8) && v[1] == ('U' as u8) && v[2] == ('T' as u8) {
            assert(v@ =~= seq![('P' as u8), ('U' as u8), ('T' as u8)]);
            Some(Method::PUT)
        } else if n == 6 && v[0] == ('D' as u8) && v[1] == ('E' as u8) && v[2] == ('L' as u8) && v[3] == ('E' as u8) && v[4]
            == ('T' as u8) && v[5] == ('E' as u8) {
            assert(v@ =~= seq![('D' as u8), ('E' as u8), ('L' as u8), ('E' as u8), ('T' as u8), ('E' as u8)]);
            Some(Method::DELETE)
        } else if n == 5 && v[0] == ('P' as u8) && v[1] == ('A' as u8) && v[2] == ('T' as u8) && v[3] == ('C' as u8) && v[4]
            == ('H' as u8) {
            assert(v@ =~= seq![('P' as u8), ('A' as u8), ('T' as u8), ('C' as u8), ('H' as u8)]);
            Some(Method::PATCH)
        } else if n == 4 && v[0] == ('H' as u8) && v[1] == ('E' as u8) && v[2] == ('A' as u8) && v[3] == ('D' as u8) {
            assert(v@ =~= seq![('H' as u8), ('E' as u8), ('A' as u8), ('D' as u8)]);
            Some(Method::HEAD)
        } else if n == 7 && v[0] == ('O' as u8) && v[1] == ('P' as u8) && v[2] == ('T' as u8) && v[3] == ('I' as u8) && v[4]
            == ('O' as u8) && v[5] == ('N' as u8) && v[6] == ('S' as u8) {
            assert(v@ =~= seq![('O' as u8), ('P' as u8), ('T' as u8), ('I' as u8), ('O' as u8), ('N' as u8), ('S' as u8)]);
            Some(Method::OPTIONS)
        } else {
            None
        }
    }

    /// The canonical upper-case name of the method.
    pub fn as_str(&self) -> (r: &'static str)
        ensures
            r@ == spec_method_name(*self),
    {
        match self {
            Method::GET => "GET",
            Method::POST => "POST",
            Method::PUT => "PUT",
            Method::DELETE => "DELETE",
            Method::PATCH => "PATCH",
            Method::HEAD => "HEAD",
            Method::OPTIONS => "OPTIONS",
        }
    }
}

pub open spec fn spec_method_name(m: Method) -> Seq<char> {
    match m {
        Method::GET => "GET"@,
        Method::POST => "POST"@,
        Method::PUT => "PUT"@,
        Method::DELETE => "DELETE"@,
        Method::PATCH => "PATCH"@,
        Method::HEAD => "HEAD"@,
        Method::OPTIONS => "OPTIONS"@,
    }
}


/// One conditional default: the pair is appended only when the key is absent.
pub open spec fn push_default(
    m: Seq<(Seq<char>, Seq<char>)>,
    k: Seq<char>,
    v: Seq<char>,
) -> Seq<(Seq<char>, Seq<char>)> {
    if kv_contains_key(m, k) {
        m
    } else {
        m.push((k, v))
    }
}

/// The default security headers, injected wherever the caller has not set
/// the key: content-type-sniffing protection, frame denial, XSS protection,
/// referrer policy, and a content-security policy.
pub open spec fn spec_inject_defaults(m: Seq<(Seq<char>, Seq<char>)>) -> Seq<
    (Seq<char>, Seq<char>),
> {
    push_default(
        push_default(
            push_default(
                push_default(
                    push_default(m, "X-Content-Type-Options"@, "nosniff"@),
                    "X-Frame-Options"@,
                    "DENY"@,
                ),
                "X-XSS-Protection"@,
                "1; mode=block"@,
            ),
            "Referrer-Policy"@,
            "strict-origin-when-cross-origin"@,
        ),
        "Content-Security-Policy"@,
        "default-src 'self'"@,
    )
}

/// The headers a fresh response starts with.
pub open spec fn spec_default_headers() -> Seq<(Seq<char>, Seq<char>)> {
    spec_inject_defaults(Seq::<(Seq<char>, Seq<char>)>::empty())
}

/// Appends each default security header whose key the map does not hold yet.
pub fn inject_default_security_headers(map: &mut StringMap)
    requires
        old(map).wf(),
    ensures
        final(map).wf(),
        final(map)@ == spec_inject_defaults(old(map)@),
{
    if !map.contains_key("X-Content-Type-Options") {
        map.insert("X-Content-Type-Options".to_string(), "nosniff".to_string());
    }
    if !map.contains_key("X-Frame-Options") {
        map.insert("X-Frame-Options".to_string(), "DENY".to_string());
    }
    if !map.contains_key("X-XSS-Protection") {
        map.insert("X-XSS-Protection".to_string(), "1; mode=block".to_string());
    }
    if !map.contains_key("Referrer-Policy") {
        map.insert("Referrer-Policy".to_string(), "strict-origin-when-cross-origin".to_string());
    }
    if !map.contains_key("Content-Security-Policy") {
        map.insert("Content-Security-Policy".to_string(), "default-src 'self'".to_string());
    }
}

/// An HTTP request as the dispatcher sees it. Header keys are lower-cased
/// on the way in, so lookups inside the core are case-insensitive.
#[derive(Debug)]
pub struct Request {
    /// The request method.
    pub method: Method,
    /// The request path.
    pub path: String,
    /// Decoded query parameters, key unique, last write wins.
    pub query_params: StringMap,
    /// Request headers; keys are stored lower-cased.
    pub headers: StringMap,
    /// The request body, if one arrived.
    pub body: Option<Vec<u8>>,
    /// The per-request context used for middleware-to-handler metadata.
    pub context: RequestContext,
}

impl Request {
    /// The maps and the context hold each key once.
    pub open spec fn wf(&self) -> bool {
        self.query_params.wf() && self.headers.wf() && self.context.wf()
    }

    /// Creates a request with the given method and path and nothing else.
    pub fn new(method: Method, path: String) -> (r: Request)
        ensures
            r.method == method,
            r.path == path,
            r.query_params@ == Seq::<(Seq<char>, Seq<char>)>::empty(),
            r.headers@ == Seq::<(Seq<char>, Seq<char>)>::empty(),
            r.body is None,
            r.context@ == Seq::<(Seq<char>, crate::context::CtxValue)>::empty(),
            r.wf(),
    {
        Request {
            method,
            path,
            query_params: StringMap::new(),
            headers: StringMap::new(),
            body: None,
            context: RequestContext::new(),
        }
    }

    /// Adds a query parameter, overwriting an earlier value of the key.
    pub fn with_query_param(self, key: &str, value: &str) -> (r: Request)
        requires
            self.wf(),
        ensures
            r.wf(),
            r.method == self.method,
            r.path == self.path,
            r.headers == self.headers,
            r.body == self.body,
            r.context == self.context,
            r.query_params@ == kv_insert(self.query_params@, key@, value@),
    {
        let mut s = self;
        s.query_params.insert(key.to_string(), value.to_string());
        s
    }

    /// Adds a header. The key is lower-cased on the way in; a value that
    /// fails the sanitizer is dropped and the request is returned unchanged.
    pub fn with_header(self, key: &str, value: &str) -> (r: Request)
        requires
            self.wf(),
        ensures
            r.wf(),
            r.method == self.method,
            r.path == self.path,
            r.query_params == self.query_params,
            r.body == self.body,
            r.context == self.context,
            r.headers@ == if spec_header_value_valid(value@) {
                kv_insert(self.headers@, lower_key(key@), value@)
            } else {
                self.headers@
            },
    {
        if !is_header_value_valid(value) {
            return self;
        }
        let mut v = str_bytes(key);
        lower_bytes_in_place(&mut v);
        let lk = bytes_to_string(&v);
        assert(lk@ == lower_key(key@));
        let mut s = self;
        s.headers.insert(lk, value.to_string());
        s
    }

    /// Sets the request body.
    pub fn with_body(self, body: Vec<u8>) -> (r: Request)
        ensures
            r.method == self.method,
            r.path == self.path,
            r.query_params == self.query_params,
            r.headers == self.headers,
            r.context == self.context,
            r.body matches Some(b) && b@ == body@,
            self.wf() ==> r.wf(),
    {
        let mut s = self;
        s.body = Some(body);
        s
    }

    /// The per-request context, read-only.
    pub fn context(&self) -> (r: &RequestContext)
        ensures
            *r == self.context,
    {
        &self.context
    }

    /// The per-request context, for middleware to write into.
    pub fn context_mut(&mut self) -> (r: &mut RequestContext)
        ensures
            *r == old(self).context,
            final(self).method == old(self).method,
            final(self).path == old(self).path,
            final(self).query_params == old(self).query_params,
            final(self).headers == old(self).headers,
            final(self).body == old(self).body,
            final(self).context == *final(r),
    {
        &mut self.context
    }

    /// Replaces the per-request context.
    pub fn with_context(self, context: RequestContext) -> (r: Request)
        ensures
            r.method == self.method,
            r.path == self.path,
            r.query_params == self.query_params,
            r.headers == self.headers,
            r.body == self.body,
            r.context == context,
    {
        let mut s = self;
        s.context = context;
        s
    }

    /// A copy of the request with a fresh, empty context: everything a
    /// handler may read is duplicated, middleware metadata is not.
    pub fn clone_without_context(&self) -> (r: Request)
        ensures
            r.method == self.method,
            r.path@ == self.path@,
            r.query_params@ == self.query_params@,
            r.headers@ == self.headers@,
            match (&r.body, &self.body) {
                (Some(b), Some(a)) => b@ == a@,
                (None, None) => true,
                _ => false,
            },
            r.context@ == Seq::<(Seq<char>, crate::context::CtxValue)>::empty(),
            self.wf() ==> r.wf(),
    {
        Request {
            method: self.method,
            path: self.path.clone(),
            query_params: self.query_params.clone(),
            headers: self.headers.clone(),
            body: clone_body(&self.body),
            context: RequestContext::new(),
        }
    }
}

/// A copy of an optional body with the same bytes.
fn clone_body(b: &Option<Vec<u8>>) -> (r: Option<Vec<u8>>)
    ensures
        match (&r, b) {
            (Some(x), Some(a)) => x@ == a@,
            (None, None) => true,
            _ => false,
        },
{
    match b {
        Some(v) => {
            let mut c: Vec<u8> = Vec::new();
            c.extend_from_slice(v.as_slice());
            assert(c@ =~= v@);
            Some(c)
        },
        None => None,
    }
}

/// An HTTP response. Header keys keep the case the caller supplied; the
/// default security headers are present from construction unless the caller
/// overrode them.
#[derive(Debug)]
pub struct Response {
    /// The numeric status code.
    pub status: u16,
    /// Response headers, key unique.
    pub headers: StringMap,
    /// The response body, if any.
    pub body: Option<Vec<u8>>,
}

impl Response {
    /// The header map holds each key once.
    pub open spec fn wf(&self) -> bool {
        self.headers.wf()
    }

    /// A response with the given status, the default security headers, and
    /// no body.
    pub fn new(status: u16) -> (r: Response)
        ensures
            r.status == status,
            r.headers@ == spec_default_headers(),
            r.body is None,
            r.wf(),
    {
        let mut headers = StringMap::new();
        inject_default_security_headers(&mut headers);
        Response { status, headers, body: None }
    }

    /// A response from a named status code.
    pub fn with_status(status: StatusCode) -> (r: Response)
        ensures
            r.status == spec_status_as_u16(status),
            r.headers@ == spec_default_headers(),
            r.body is None,
            r.wf(),
    {
        let code = status.as_u16();
        Response::new(code)
    }

    /// Adds a header as supplied; a value that fails the sanitizer is
    /// dropped and the response is returned unchanged.
    pub fn with_header(self, key: &str, value: &str) -> (r: Response)
        requires
            self.wf(),
        ensures
            r.wf(),
            r.status == self.status,
            r.body == self.body,
            r.headers@ == if spec_header_value_valid(value@) {
                kv_insert(self.headers@, key@, value@)
            } else {
                self.headers@
            },
    {
        if !is_header_value_valid(value) {
            return self;
        }
        let mut s = self;
        s.headers.insert(key.to_string(), value.to_string());
        s
    }

    /// Sets the response body.
    pub fn with_body(self, body: Vec<u8>) -> (r: Response)
        ensures
            r.status == self.status,
            r.headers == self.headers,
            r.body matches Some(b) && b@ == body@,
            self.wf() ==> r.wf(),
    {
        let mut s = self;
        s.body = Some(body);
        s
    }

    /// A 200 response.
    pub fn ok() -> (r: Response)
        ensures
            r.status == 200,
            r.headers@ == spec_default_headers(),
            r.body is None,
            r.wf(),
    {
        Response::new(200)
    }

    /// A 201 response.
    pub fn created() -> (r: Response)
        ensures
            r.status == 201,
            r.headers@ == spec_default_headers(),
            r.body is None,
            r.wf(),
    {
        Response::new(201)
    }

    /// A 204 response.
    pub fn no_content() -> (r: Response)
        ensures
            r.status == 204,
            r.headers@ == spec_default_headers(),
            r.body is None,
            r.wf(),
    {
        Response::new(204)
    }

    /// A 400 response.
    pub fn bad_request() -> (r: Response)
        ensures
            r.status == 400,
            r.headers@ == spec_default_headers(),
            r.body is None,
            r.wf(),
    {
        Response::new(400)
    }

    /// A 401 response.
    pub fn unauthorized() -> (r: Response)
        ensures
            r.status == 401,
            r.headers@ == spec_default_headers(),
            r.body is None,
            r.wf(),
    {
        Response::new(401)
    }

    /// A 403 response.
    pub fn forbidden() -> (r: Response)
        ensures
            r.status == 403,
            r.headers@ == spec_default_headers(),
            r.body is None,
            r.wf(),
    {
        Response::new(403)
    }

    /// A 404 response.
    pub fn not_found() -> (r: Response)
        ensures
            r.status == 404,
            r.headers@ == spec_default_headers(),
            r.body is None,
            r.wf(),
    {
        Response::new(404)
    }

    /// A 500 response.
    pub fn internal_server_error() -> (r: Response)
        ensures
            r.status == 500,
            r.headers@ == spec_default_headers(),
            r.body is None,
            r.wf(),
    {
        Response::new(500)
    }

    /// The response an error is reported as: the error's status code, a
    /// plain-text content type, and a short fixed body keyed off the status
    /// alone, so no internal detail reaches the caller.
    pub fn from_error(error: &Error) -> (r: Response)
        ensures
            r.wf(),
            r.status == spec_status_code(error),
            r.headers@ == kv_insert(
                spec_default_headers(),
                "Content-Type"@,
                "text/plain"@,
            ),
            r.body matches Some(b) && b@ == encode_utf8(spec_error_message(spec_status_code(error))),
    {
        let status = error.status_code();
        let message: &str = if status == 400 {
            "Bad Request"
        } else if status == 401 {
            "Unauthorized"
        } else if status == 403 {
            "Forbidden"
        } else if status == 404 {
            "Not Found"
        } else if status == 413 {
            "Payload Too Large"
        } else if status == 500 || status == 502 {
            "Internal Server Error"
        } else {
            "Error"
        };
        let mut r = Response::new(status);
        r.headers.insert("Content-Type".to_string(), "text/plain".to_string());
        r.body = Some(str_bytes(message));
        r
    }
}

/// The observable shape of every error-translated response: the default
/// security headers plus a plain-text content type, and the short fixed
/// body that belongs to its status code.
pub open spec fn spec_error_response(resp: &Response) -> bool {
    &&& resp.headers@ == kv_insert(spec_default_headers(), "Content-Type"@, "text/plain"@)
    &&& (resp.body matches Some(b) && b@ == encode_utf8(spec_error_message(resp.status)))
}

/// The fixed body text of an error response with the given status.
pub open spec fn spec_error_message(status: u16) -> Seq<char> {
    if status == 400 {
        "Bad Request"@
    } else if status == 401 {
        "Unauthorized"@
    } else if status == 403 {
        "Forbidden"@
    } else if status == 404 {
        "Not Found"@
    } else if status == 413 {
        "Payload Too Large"@
    } else if status == 500 || status == 502 {
        "Internal Server Error"@
    } else {
        "Error"@
    }
}


/// A builder for responses: collects status, headers, and body, and stamps
/// in the default security headers at construction and again at build time.
#[derive(Debug)]
pub struct ResponseBuilder {
    /// The numeric status code.
    pub status: u16,
    /// Headers collected so far.
    pub headers: StringMap,
    /// The body, once set.
    pub body: Option<Vec<u8>>,
}

impl ResponseBuilder {
    /// The header map holds each key once.
    pub open spec fn wf(&self) -> bool {
        self.headers.wf()
    }

    /// A builder with the given status and the default security headers.
    pub fn new(status: u16) -> (r: ResponseBuilder)
        ensures
            r.status == status,
            r.headers@ == spec_default_headers(),
            r.body is None,
            r.wf(),
    {
        let mut headers = StringMap::new();
        inject_default_security_headers(&mut headers);
        ResponseBuilder { status, headers, body: None }
    }

    /// A builder from a named status code.
    pub fn with_status(status: StatusCode) -> (r: ResponseBuilder)
        ensures
            r.status == spec_status_as_u16(status),
            r.headers@ == spec_default_headers(),
            r.body is None,
            r.wf(),
    {
        let code = status.as_u16();
        ResponseBuilder::new(code)
    }

    /// A builder that starts from an existing response.
    pub fn from(response: Response) -> (r: ResponseBuilder)
        ensures
            r.status == response.status,
            r.headers == response.headers,
            r.body == response.body,
            response.wf() ==> r.wf(),
    {
        ResponseBuilder { status: response.status, headers: response.headers, body: response.body }
    }

    /// Adds a header as supplied; a value that fails the sanitizer is
    /// dropped and the builder is returned unchanged.
    pub fn header(self, key: &str, value: &str) -> (r: ResponseBuilder)
        requires
            self.wf(),
        ensures
            r.wf(),
            r.status == self.status,
            r.body == self.body,
            r.headers@ == if spec_header_value_valid(value@) {
                kv_insert(self.headers@, key@, value@)
            } else {
                self.headers@
            },
    {
        if !is_header_value_valid(value) {
            return self;
        }
        let mut s = self;
        s.headers.insert(key.to_string(), value.to_string());
        s
    }

    /// Folds a whole header map in, overwriting values of shared keys.
    pub fn headers(self, headers: StringMap) -> (r: ResponseBuilder)
        requires
            self.wf(),
        ensures
            r.wf(),
            r.status == self.status,
            r.body == self.body,
            r.headers@ == crate::kvseq::kv_extend(self.headers@, headers@),
    {
        let mut s = self;
        s.headers.extend(&headers);
        s
    }

    /// Sets all five standard security headers, overwriting earlier values.
    pub fn security_headers(self) -> (r: ResponseBuilder)
        requires
            self.wf(),
        ensures
            r.wf(),
            r.status == self.status,
            r.body == self.body,
            r.headers@ == kv_insert(
                kv_insert(
                    kv_insert(
                        kv_insert(
                            kv_insert(self.headers@, "X-Content-Type-Options"@, "nosniff"@),
                            "X-Frame-Options"@,
                            "DENY"@,
                        ),
                        "X-XSS-Protection"@,
                        "1; mode=block"@,
                    ),
                    "Referrer-Policy"@,
                    "strict-origin-when-cross-origin"@,
                ),
                "Content-Security-Policy"@,
                "default-src 'self'"@,
            ),
    {
        let mut s = self;
        s.headers.insert("X-Content-Type-Options".to_string(), "nosniff".to_string());
        s.headers.insert("X-Frame-Options".to_string(), "DENY".to_string());
        s.headers.insert("X-XSS-Protection".to_string(), "1; mode=block".to_string());
        s.headers.insert(
            "Referrer-Policy".to_string(),
            "strict-origin-when-cross-origin".to_string(),
        );
        s.headers.insert("Content-Security-Policy".to_string(), "default-src 'self'".to_string());
        s
    }

    /// Sets the body.
    pub fn body(self, body: Vec<u8>) -> (r: ResponseBuilder)
        ensures
            r.status == self.status,
            r.headers == self.headers,
            r.body matches Some(b) && b@ == body@,
            self.wf() ==> r.wf(),
    {
        let mut s = self;
        s.body = Some(body);
        s
    }

    /// Sets a plain-text body and the matching content type.
    pub fn text(self, text: &str) -> (r: ResponseBuilder)
        requires
            self.wf(),
        ensures
            r.wf(),
            r.status == self.status,
            r.headers@ == kv_insert(self.headers@, "Content-Type"@, "text/plain; charset=utf-8"@),
            r.body matches Some(b) && b@ == encode_utf8(text@),
    {
        let mut s = self;
        s.headers.insert("Content-Type".to_string(), "text/plain; charset=utf-8".to_string());
        s.body = Some(str_bytes(text));
        s
    }

    /// Sets an HTML body and the matching content type.
    pub fn html(self, html: &str) -> (r: ResponseBuilder)
        requires
            self.wf(),
        ensures
            r.wf(),
            r.status == self.status,
            r.headers@ == kv_insert(self.headers@, "Content-Type"@, "text/html; charset=utf-8"@),
            r.body matches Some(b) && b@ == encode_utf8(html@),
    {
        let mut s = self;
        s.headers.insert("Content-Type".to_string(), "text/html; charset=utf-8".to_string());
        s.body = Some(str_bytes(html));
        s
    }

    /// Builds the response, topping up any missing default security header.
    pub fn build(self) -> (r: Response)
        requires
            self.wf(),
        ensures
            r.wf(),
            r.status == self.status,
            r.headers@ == spec_inject_defaults(self.headers@),
            r.body == self.body,
    {
        let mut headers = self.headers;
        inject_default_security_headers(&mut headers);
        Response { status: self.status, headers, body: self.body }
    }
}


/// Whether a request declares a gzip-compressed body: it carries a
/// `content-encoding` header whose value is `gzip` in any letter case.
pub open spec fn spec_is_gzip_encoded(headers: Seq<(Seq<char>, Seq<char>)>) -> bool {
    match kv_lookup(headers, "content-encoding"@) {
        Some(v) => lower_bytes(encode_utf8(v)) == encode_utf8("gzip"@),
        None => false,
    }
}

impl Request {
    /// Decompresses a gzip-encoded body in place, bounded by the given
    /// ceiling. With a `content-encoding: gzip` header and a body present,
    /// the body is replaced by its decompressed form and the header is
    /// removed; decompression past the ceiling aborts with
    /// `PayloadTooLarge` and a malformed stream with `InvalidRequestBody`,
    /// both leaving the request untouched. Any other request passes through
    /// unchanged.
    pub fn decompress_gzip_body(&mut self, max_body_size: usize) -> (r: Result<(), Error>)
        requires
            old(self).wf(),
        ensures
            final(self).wf(),
            final(self).method == old(self).method,
            final(self).path == old(self).path,
            final(self).query_params == old(self).query_params,
            final(self).context == old(self).context,
            ({
                let gz = spec_is_gzip_encoded(old(self).headers@);
                if gz && old(self).body is Some {
                    let data = old(self).body.unwrap()@;
                    match r {
                        Ok(_) => gunzip(data) matches Some(full) && full.len() <= max_body_size
                            && (final(self).body matches Some(b) && b@ == full) && final(self).headers@ == old(self).headers@.remove(
                            kv_key_index(old(self).headers@, "content-encoding"@),
                        ),
                        Err(e) => final(self).body == old(self).body && final(self).headers@ == old(self).headers@ && (e matches Error::PayloadTooLarge(_) ==> (gunzip(
                            data,
                        ) matches Some(full) ==> full.len() > max_body_size)) && (
                        e matches Error::InvalidRequestBody(_) ==> gunzip(data) is None) && (
                        e is PayloadTooLarge || e is InvalidRequestBody),
                    }
                } else {
                    r is Ok && final(self).body == old(self).body && final(self).headers@
                        == old(self).headers@
                }
            }),
            (spec_is_gzip_encoded(old(self).headers@) && (old(self).body matches Some(b)
                && (gunzip(b@) matches Some(full) && full.len() <= max_body_size))) ==> r is Ok,
    {
        let is_gzip = match self.headers.get("content-encoding") {
            Some(enc) => {
                let mut eb = str_bytes(enc.as_str());
                lower_bytes_in_place(&mut eb);
                let gzname = str_bytes("gzip");
                bytes_eq(eb.as_slice(), gzname.as_slice())
            },
            None => false,
        };
        if !is_gzip {
            return Ok(());
        }
        let decoded = match &self.body {
            Some(data) => Some(gunzip_bounded(data, max_body_size)),
            None => None,
        };
        match decoded {
            Some(Ok(out)) => {
                self.body = Some(out);
                proof {
                    crate::kvseq::lemma_kv_lookup_contains(self.headers@, "content-encoding"@);
                }
                self.headers.remove("content-encoding");
                Ok(())
            },
            Some(Err(e)) => Err(e),
            None => Ok(()),
        }
    }
}


/// The media type of a content-type value: what stands before the first
/// `;`, trimmed of surrounding whitespace and folded to lower case.
pub open spec fn spec_media_type(ct: Seq<char>) -> Seq<u8> {
    let b = encode_utf8(ct);
    let e = crate::text::find_byte(b, 59);
    let first = if e == -1 {
        b
    } else {
        b.take(e)
    };
    lower_bytes(crate::cgi_frame::trim_bytes(first))
}

/// Whether a content type is parsed as JSON: `application/json`, any
/// `*+json` suffix type, or `application/json-seq`.
pub open spec fn spec_is_json_like(ct: Seq<char>) -> bool {
    let mt = spec_media_type(ct);
    ||| mt == encode_utf8("application/json"@)
    ||| (mt.len() >= 5 && mt.subrange(mt.len() - 5, mt.len() as int) == encode_utf8("+json"@))
    ||| mt == encode_utf8("application/json-seq"@)
}

/// Decides whether a content-type value names a JSON-like media type:
/// `application/json`, any `*+json` type, or `application/json-seq`,
/// compared case-insensitively on the part before any `;` parameter.
#[verifier::loop_isolation(false)]
pub fn is_json_like_content_type(ct: &str) -> (r: bool)
    ensures
        r == spec_is_json_like(ct@),
{
    let bytes = str_bytes(ct);
    let mut e: usize = 0;
    let mut found = false;
    while e < bytes.len() && !found
        invariant
            e <= bytes@.len(),
            !found ==> forall|j: int| 0 <= j < e ==> bytes@[j] != 59,
            found ==> e < bytes@.len() && bytes@[e as int] == 59 && forall|j: int|
                0 <= j < e ==> bytes@[j] != 59,
        decreases bytes@.len() - e + (if found {
            0int
        } else {
            1int
        }),
    {
        if bytes[e] == 59 {
            found = true;
        } else {
            e = e + 1;
        }
    }
    proof {
        if found {
            crate::text::lemma_find_byte_at(bytes@, 59, e as int);
        } else {
            crate::text::lemma_find_byte_none(bytes@, 59);
        }
    }
    let first = if found {
        vstd::slice::slice_subrange(bytes.as_slice(), 0, e)
    } else {
        vstd::slice::slice_subrange(bytes.as_slice(), 0, bytes.len())
    };
    assert(!found ==> first@ =~= bytes@);
    let mut mt = crate::cgi_frame::trim_ws(first);
    lower_bytes_in_place(&mut mt);
    let aj = str_bytes("application/json");
    if bytes_eq(mt.as_slice(), aj.as_slice()) {
        return true;
    }
    let js = str_bytes("application/json-seq");
    if bytes_eq(mt.as_slice(), js.as_slice()) {
        return true;
    }
    if mt.len() >= 5 {
        let suffix = vstd::slice::slice_subrange(mt.as_slice(), mt.len() - 5, mt.len());
        let pj = str_bytes("+json");
        if bytes_eq(suffix, pj.as_slice()) {
            return true;
        }
    }
    false
}

} // verus!
