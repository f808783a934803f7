//! Two small built-in handlers: a greeting endpoint at `/` and an echo
//! endpoint that reflects the request line back as JSON.
use vstd::prelude::*;
use vstd::utf8::encode_utf8;
use crate::http::Method;
use crate::http::Request;
use crate::http::Response;
use crate::traits::Handler;
use crate::error::Error;
use crate::text::str_eq;
use crate::text::str_bytes;
use crate::http::spec_method_name;
use crate::http::spec_default_headers;
use crate::validate::spec_header_value_valid;
use crate::kvseq::kv_lookup;
use crate::kvseq::lemma_kv_insert_lookup;

verus! {

/// One byte of JSON string content: quote and backslash are escaped,
/// control bytes become `\u00XX`, everything else stands as it is.
pub open spec fn spec_json_escape_byte(x: u8) -> Seq<u8> {
    if x == 34 {
        seq![92u8, 34u8]
    } else if x == 92 {
        seq![92u8, 92u8]
    } else if x < 32 {
        seq![92u8, 117u8, 48u8, 48u8, spec_hex_digit(x / 16), spec_hex_digit(x % 16)]
    } else {
        seq![x]
    }
}

pub open spec fn spec_hex_digit(n: u8) -> u8 {
    if n < 10 {
        (48 + n) as u8
    } else {
        (87 + n) as u8
    }
}

/// A byte sequence escaped for use inside a JSON string literal.
pub open spec fn spec_json_escape(b: Seq<u8>) -> Seq<u8>
    decreases b.len(),
{
    if b.len() == 0 {
        Seq::<u8>::empty()
    } else {
        spec_json_escape(b.drop_last()) + spec_json_escape_byte(b.last())
    }
}

/// Escapes the bytes of a string for a JSON string literal.
#[verifier::loop_isolation(false)]
fn json_escape(s: &str, out: &mut Vec<u8>)
    ensures
        final(out)@ == old(out)@ + spec_json_escape(encode_utf8(s@)),
{
    let bytes = str_bytes(s);
    let mut i: usize = 0;
    proof {
        assert(bytes@.take(0) =~= Seq::<u8>::empty());
        assert(out@ =~= old(out)@ + spec_json_escape(bytes@.take(0)));
    }
    while i < bytes.len()
        invariant
            i <= bytes@.len(),
            out@ == old(out)@ + spec_json_escape(bytes@.take(i as int)),
        decreases bytes@.len() - i,
    {
        let ghost pre = out@;
        let x = bytes[i];
        if x == 34 {
            out.push(92);
            out.push(34);
        } else if x == 92 {
            out.push(92);
            out.push(92);
        } else if x < 32 {
            out.push(92);
            out.push(117);
            out.push(48);
            out.push(48);
            out.push(if x / 16 < 10 {
                48 + x / 16
            } else {
                87 + x / 16
            });
            out.push(if x % 16 < 10 {
                48 + x % 16
            } else {
                87 + x % 16
            });
        } else {
            out.push(x);
        }
        proof {
            assert(out@ =~= pre + spec_json_escape_byte(bytes@[i as int]));
            assert(bytes@.take(i + 1).drop_last() =~= bytes@.take(i as int));
            assert(bytes@.take(i + 1).last() == bytes@[i as int]);
        }
        i = i + 1;
    }
    proof {
        assert(bytes@.take(bytes@.len() as int) =~= bytes@);
    }
}

/// The greeting handler: answers `GET /` with a fixed JSON body carrying
/// a greeting under the `message` field.
pub struct HelloHandler {}

impl HelloHandler {
    /// Creates the handler.
    pub fn new() -> (r: HelloHandler) {
        HelloHandler {  }
    }
}

impl Handler for HelloHandler {
    open spec fn spec_matches(&self, path: Seq<char>, method: Method) -> bool {
        path == "/"@ && method == Method::GET
    }

    open spec fn spec_pattern(&self) -> Seq<char> {
        "/"@
    }

    /// The greeting handler always succeeds with status 200, a JSON
    /// content type, and the fixed greeting body.
    open spec fn spec_result_ok(&self, req: Request, r: Result<Response, Error>) -> bool {
        match r {
            Ok(resp) => resp.status == 200 && kv_lookup(resp.headers@, "Content-Type"@) == Some(
                "application/json"@,
            ) && (resp.body matches Some(b) && b@ == encode_utf8(
                "{\"message\":\"Hello from RunBridge CGI\"}"@,
            )),
            Err(_) => false,
        }
    }

    fn matches(&self, path: &str, method: &Method) -> (r: bool) {
        str_eq(path, "/") && *method == Method::GET
    }

    fn path_pattern(&self) -> (r: &str) {
        "/"
    }

    /// Answers with status 200, a JSON content type, and a fixed greeting
    /// body.
    fn handle(&self, req: Request) -> (r: Result<Response, Error>) {
        let body = str_bytes("{\"message\":\"Hello from RunBridge CGI\"}");
        let resp = Response::ok().with_header("Content-Type", "application/json").with_body(body);
        proof {
            assert(spec_header_value_valid("application/json"@)) by {
                reveal_strlit("application/json");
            }
            lemma_kv_insert_lookup(
                spec_default_headers(),
                "Content-Type"@,
                "application/json"@,
                "Content-Type"@,
            );
        }
        Ok(resp)
    }
}

/// The echo handler: answers `GET /echo` and `POST /echo` with a JSON
/// body reflecting the request method and path.
pub struct EchoHandler {}

impl EchoHandler {
    /// Creates the handler.
    pub fn new() -> (r: EchoHandler) {
        EchoHandler {  }
    }
}

/// The echo body of a request line: method and path under fixed keys,
/// the path escaped for JSON.
pub open spec fn spec_echo_body(method: Method, path: Seq<char>) -> Seq<u8> {
    encode_utf8("{\"method\":\""@) + encode_utf8(spec_method_name(method)) + encode_utf8(
        "\",\"path\":\""@,
    ) + spec_json_escape(encode_utf8(path)) + encode_utf8("\"}"@)
}

impl Handler for EchoHandler {
    open spec fn spec_matches(&self, path: Seq<char>, method: Method) -> bool {
        path == "/echo"@ && (method == Method::GET || method == Method::POST)
    }

    open spec fn spec_pattern(&self) -> Seq<char> {
        "/echo"@
    }

    /// The echo handler always succeeds with status 200, a JSON content
    /// type, and the reflected request line as its body.
    open spec fn spec_result_ok(&self, req: Request, r: Result<Response, Error>) -> bool {
        match r {
            Ok(resp) => resp.status == 200 && kv_lookup(resp.headers@, "Content-Type"@) == Some(
                "application/json"@,
            ) && (resp.body matches Some(b) && b@ == spec_echo_body(req.method, req.path@)),
            Err(_) => false,
        }
    }

    fn matches(&self, path: &str, method: &Method) -> (r: bool) {
        str_eq(path, "/echo") && (*method == Method::GET || *method == Method::POST)
    }

    fn path_pattern(&self) -> (r: &str) {
        "/echo"
    }

    /// Answers with status 200 and a JSON body reflecting the request
    /// method and path.
    fn handle(&self, req: Request) -> (r: Result<Response, Error>) {
        let mut body: Vec<u8> = Vec::new();
        let ghost base = body@;
        let p1 = str_bytes("{\"method\":\"");
        body.extend_from_slice(p1.as_slice());
        let p2 = str_bytes(req.method.as_str());
        body.extend_from_slice(p2.as_slice());
        assert(body@ =~= encode_utf8("{\"method\":\""@) + encode_utf8(spec_method_name(
            req.method,
        )));
        let p3 = str_bytes("\",\"path\":\"");
        body.extend_from_slice(p3.as_slice());
        assert(body@ =~= encode_utf8("{\"method\":\""@) + encode_utf8(spec_method_name(
            req.method,
        )) + encode_utf8("\",\"path\":\""@));
        json_escape(req.path.as_str(), &mut body);
        let p4 = str_bytes("\"}");
        body.extend_from_slice(p4.as_slice());
        assert(body@ =~= spec_echo_body(req.method, req.path@));
        let resp = Response::ok().with_header("Content-Type", "application/json").with_body(body);
        proof {
            assert(spec_header_value_valid("application/json"@)) by {
                reveal_strlit("application/json");
            }
            lemma_kv_insert_lookup(
                spec_default_headers(),
                "Content-Type"@,
                "application/json"@,
                "Content-Type"@,
            );
        }
        Ok(resp)
    }
}

} // verus!
