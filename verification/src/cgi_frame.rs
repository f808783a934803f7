//! The CGI response framer: the Set-Cookie splitter and the serializer
//! that turns a Response into the CGI output grammar.
use vstd::prelude::*;
use vstd::string::StringSliceAdditionalSpecFns;
use vstd::utf8::encode_utf8;
use crate::text::bytes_to_string;
use crate::text::lossy_view;
use crate::text::str_bytes;
use crate::text::to_lower_byte;
use crate::text::lower_bytes;
use crate::text::lower_bytes_in_place;
use crate::text::bytes_eq;
use crate::text::dec_bytes;
use crate::text::push_decimal;
use crate::http::Response;
use crate::http::spec_default_headers;
use crate::strmap::StringMap;
use crate::kvseq::kv_insert;
use crate::validate::is_valid_header_name;
use crate::validate::is_valid_header_value;
use crate::validate::spec_cgi_header_name_valid;
use crate::validate::spec_cgi_header_value_valid;

verus! {

/// ASCII whitespace as `str::trim` strips it from sanitized header text.
pub open spec fn is_ws_byte(b: u8) -> bool {
    b == 32 || b == 9 || b == 10 || b == 13
}

/// The sequence without its leading whitespace.
pub open spec fn trim_front(b: Seq<u8>) -> Seq<u8>
    decreases b.len(),
{
    if b.len() > 0 && is_ws_byte(b[0]) {
        trim_front(b.drop_first())
    } else {
        b
    }
}

/// The sequence without its trailing whitespace.
pub open spec fn trim_back(b: Seq<u8>) -> Seq<u8>
    decreases b.len(),
{
    if b.len() > 0 && is_ws_byte(b.last()) {
        trim_back(b.drop_last())
    } else {
        b
    }
}

/// The sequence without leading and trailing whitespace.
pub open spec fn trim_bytes(b: Seq<u8>) -> Seq<u8> {
    trim_back(trim_front(b))
}

/// A whitespace-free boundary pins `trim_front` down.
proof fn lemma_trim_front_at(b: Seq<u8>, s: int)
    requires
        0 <= s <= b.len(),
        forall|j: int| 0 <= j < s ==> is_ws_byte(b[j]),
        s < b.len() ==> !is_ws_byte(b[s]),
    ensures
        trim_front(b) == b.skip(s),
    decreases s,
{
    if s == 0 {
        assert(b.skip(0) =~= b);
    } else {
        let t = b.drop_first();
        assert(is_ws_byte(b[0]));
        assert forall|j: int| 0 <= j < s - 1 implies is_ws_byte(t[j]) by {
            assert(t[j] == b[j + 1]);
        }
        assert(s - 1 < t.len() ==> !is_ws_byte(t[s - 1]));
        lemma_trim_front_at(t, s - 1);
        assert(t.skip(s - 1) =~= b.skip(s));
    }
}

/// A whitespace-free boundary pins `trim_back` down.
proof fn lemma_trim_back_at(b: Seq<u8>, e: int)
    requires
        0 <= e <= b.len(),
        forall|j: int| e <= j < b.len() ==> is_ws_byte(b[j]),
        e > 0 ==> !is_ws_byte(b[e - 1]),
    ensures
        trim_back(b) == b.take(e),
    decreases b.len() - e,
{
    if e == b.len() {
        if b.len() > 0 && is_ws_byte(b.last()) {
            assert(false);
        }
        assert(b.take(e) =~= b);
    } else {
        let t = b.drop_last();
        assert(is_ws_byte(b.last()));
        assert forall|j: int| e <= j < t.len() implies is_ws_byte(t[j]) by {
            assert(t[j] == b[j]);
        }
        lemma_trim_back_at(t, e);
        assert(t.take(e) =~= b.take(e));
    }
}

/// Strips ASCII whitespace from both ends of a byte slice.
#[verifier::loop_isolation(false)]
pub(crate) fn trim_ws(v: &[u8]) -> (r: Vec<u8>)
    ensures
        r@ == trim_bytes(v@),
{
    let n = v.len();
    let mut s: usize = 0;
    while s < n && (v[s] == 32 || v[s] == 9 || v[s] == 10 || v[s] == 13)
        invariant
            s <= n == v@.len(),
            forall|j: int| 0 <= j < s ==> is_ws_byte(v@[j]),
        decreases n - s,
    {
        s = s + 1;
    }
    proof {
        lemma_trim_front_at(v@, s as int);
    }
    let mut e: usize = n;
    while e > s && (v[e - 1] == 32 || v[e - 1] == 9 || v[e - 1] == 10 || v[e - 1] == 13)
        invariant
            s <= e <= n,
            forall|j: int| e <= j < n ==> is_ws_byte(v@[j]),
        decreases e,
    {
        e = e - 1;
    }
    let ghost f = v@.skip(s as int);
    proof {
        assert forall|j: int| e - s <= j < f.len() implies is_ws_byte(f[j]) by {
            assert(f[j] == v@[j + s]);
        }
        if e > s {
            assert(f[e - s - 1] == v@[e - 1]);
        }
        lemma_trim_back_at(f, e - s as int);
    }
    let mut out: Vec<u8> = Vec::new();
    let mut i: usize = s;
    while i < e
        invariant
            s <= i <= e,
            out@ =~= v@.subrange(s as int, i as int),
        decreases e - i,
    {
        out.push(v[i]);
        assert(out@ =~= v@.subrange(s as int, i + 1));
        i = i + 1;
    }
    assert(out@ =~= f.take(e - s as int));
    out
}

/// The position after a run of spaces starting at `j`.
pub open spec fn skip_spaces(b: Seq<u8>, j: int) -> int
    decreases b.len() - j,
{
    if j < b.len() && b[j] == 32 {
        skip_spaces(b, j + 1)
    } else {
        j
    }
}

/// Skipping spaces never moves backwards and stays in bounds.
proof fn lemma_skip_spaces_bounds(b: Seq<u8>, j: int)
    requires
        0 <= j <= b.len(),
    ensures
        j <= skip_spaces(b, j) <= b.len(),
    decreases b.len() - j,
{
    if j < b.len() && b[j] == 32 {
        lemma_skip_spaces_bounds(b, j + 1);
    }
}

/// Whether, scanning from `k`, a `=` appears before any `;` or `,`:
/// the mark of an upcoming cookie-pair after a comma.
pub open spec fn lookahead_eq(b: Seq<u8>, k: int) -> bool
    decreases b.len() - k,
{
    if k < 0 || k >= b.len() {
        false
    } else if b[k] == 59 || b[k] == 44 {
        false
    } else if b[k] == 61 {
        true
    } else {
        lookahead_eq(b, k + 1)
    }
}

/// Whether the seven bytes after position `i` spell `xpires=`, ASCII
/// case-insensitively: together with an `E` or `e` at `i`, an `Expires=`
/// attribute begins here.
pub open spec fn expires_ahead(b: Seq<u8>, i: int) -> bool {
    &&& i + 7 < b.len()
    &&& to_lower_byte(b[i + 1]) == 120
    &&& to_lower_byte(b[i + 2]) == 112
    &&& to_lower_byte(b[i + 3]) == 105
    &&& to_lower_byte(b[i + 4]) == 114
    &&& to_lower_byte(b[i + 5]) == 101
    &&& to_lower_byte(b[i + 6]) == 115
    &&& to_lower_byte(b[i + 7]) == 61
}

/// One piece closed out of the buffer: nothing when only whitespace is left.
pub open spec fn close_piece(buf: Seq<u8>) -> Seq<Seq<u8>> {
    if trim_bytes(buf).len() > 0 {
        seq![trim_bytes(buf)]
    } else {
        Seq::<Seq<u8>>::empty()
    }
}

/// The cookie pieces produced from position `i` on, with `buf` the open
/// piece and `in_exp` whether an `Expires=` attribute is in scope: `;` ends
/// the attribute scope; a `,` inside `Expires=` is literal; a `,` outside
/// it separates cookies exactly when, after skipping spaces, a `=` appears
/// before the next `;` or `,`; the spaces after a separating or literal
/// comma are dropped either way.
pub open spec fn split_rest(b: Seq<u8>, i: int, buf: Seq<u8>, in_exp: bool) -> Seq<Seq<u8>>
    decreases b.len() - i, 1int
        via split_rest_decreases
{
    if i < 0 || i >= b.len() {
        close_piece(buf)
    } else if b[i] == 59 {
        split_rest(b, i + 1, buf.push(59), false)
    } else if b[i] == 44 && in_exp {
        split_rest(b, i + 1, buf.push(44), true)
    } else if b[i] == 44 {
        let j = skip_spaces(b, i + 1);
        if lookahead_eq(b, j) {
            close_piece(buf) + split_rest(b, j, Seq::<u8>::empty(), false)
        } else {
            split_rest(b, j, buf.push(44), false)
        }
    } else if (b[i] == 69 || b[i] == 101) && expires_ahead(b, i) {
        split_rest(b, i + 1, buf.push(b[i]), true)
    } else {
        split_rest(b, i + 1, buf.push(b[i]), in_exp)
    }
}

#[via_fn]
proof fn split_rest_decreases(b: Seq<u8>, i: int, buf: Seq<u8>, in_exp: bool) {
    if 0 <= i < b.len() {
        lemma_skip_spaces_bounds(b, i + 1);
    }
}

/// The pieces a concatenated Set-Cookie value splits into.
pub open spec fn spec_split_set_cookie(b: Seq<u8>) -> Seq<Seq<u8>> {
    split_rest(b, 0, Seq::<u8>::empty(), false)
}

/// Splits a concatenated Set-Cookie header value into one string per
/// cookie, leaving commas inside an `Expires=` attribute untouched.
#[verifier::loop_isolation(false)]
pub fn split_set_cookie_header(value: &str) -> (r: Vec<String>)
    ensures
        r@.len() == spec_split_set_cookie(encode_utf8(value@)).len(),
        forall|i: int|
            0 <= i < r@.len() ==> (#[trigger] r@[i])@ == lossy_view(
                spec_split_set_cookie(encode_utf8(value@))[i],
            ),
{
    let bytes = str_bytes(value);
    let ghost all = bytes@;
    let ghost pieces = spec_split_set_cookie(all);
    let mut out: Vec<String> = Vec::new();
    let mut buf: Vec<u8> = Vec::new();
    let mut in_expires = false;
    let mut i: usize = 0;
    let ghost done = Seq::<Seq<u8>>::empty();
    proof {
        assert(done + split_rest(all, 0, buf@, false) =~= pieces);
    }
    while i < bytes.len()
        invariant
            i <= bytes@.len(),
            bytes@ == all,
            pieces =~= done + split_rest(all, i as int, buf@, in_expires),
            out@.len() == done.len(),
            forall|k: int| 0 <= k < done.len() ==> (#[trigger] out@[k])@ == lossy_view(done[k]),
        decreases bytes@.len() - i,
    {
        let c = bytes[i];
        if c == 59 {
            buf.push(59);
            in_expires = false;
            i = i + 1;
        } else if c == 44 && in_expires {
            buf.push(44);
            i = i + 1;
        } else if c == 44 {
            let ghost j0 = skip_spaces(all, i as int + 1);
            let mut j: usize = i + 1;
            while j < bytes.len() && bytes[j] == 32
                invariant
                    i < j <= bytes@.len(),
                    skip_spaces(all, j as int) == j0,
                decreases bytes@.len() - j,
            {
                j = j + 1;
            }
            assert(j as int == j0);
            let ghost la = lookahead_eq(all, j as int);
            let mut k: usize = j;
            let mut seen_eq = false;
            let mut stop = false;
            while k < bytes.len() && !seen_eq && !stop
                invariant
                    j <= k <= bytes@.len(),
                    !seen_eq && !stop ==> lookahead_eq(all, k as int) == la,
                    seen_eq ==> la,
                    stop ==> !la,
                decreases bytes@.len() - k + (if seen_eq || stop {
                    0int
                } else {
                    1int
                }),
            {
                let d = bytes[k];
                if d == 59 || d == 44 {
                    stop = true;
                } else if d == 61 {
                    seen_eq = true;
                } else {
                    k = k + 1;
                }
            }
            assert(seen_eq == la);
            if seen_eq {
                let trimmed = trim_ws(buf.as_slice());
                if trimmed.len() > 0 {
                    let piece = bytes_to_string(&trimmed);
                    out.push(piece);
                    proof {
                        done = done.push(trim_bytes(buf@));
                    }
                }
                buf = Vec::new();
            } else {
                buf.push(44);
            }
            i = j;
        } else if (c == 69 || c == 101) && bytes.len() - i >= 8 {
            let x1 = bytes[i + 1];
            let x2 = bytes[i + 2];
            let x3 = bytes[i + 3];
            let x4 = bytes[i + 4];
            let x5 = bytes[i + 5];
            let x6 = bytes[i + 6];
            let x7 = bytes[i + 7];
            let is_exp = lower_eq(x1, 120) && lower_eq(x2, 112) && lower_eq(x3, 105) && lower_eq(
                x4,
                114,
            ) && lower_eq(x5, 101) && lower_eq(x6, 115) && lower_eq(x7, 61);
            if is_exp {
                in_expires = true;
            }
            buf.push(c);
            i = i + 1;
        } else {
            assert(!((c == 69 || c == 101) && expires_ahead(all, i as int)));
            buf.push(c);
            i = i + 1;
        }
    }
    let trimmed = trim_ws(buf.as_slice());
    if trimmed.len() > 0 {
        let piece = bytes_to_string(&trimmed);
        out.push(piece);
        proof {
            done = done.push(trim_bytes(buf@));
        }
    }
    proof {
        assert(pieces =~= done);
    }
    out
}

/// Whether the ASCII lower-casing of a byte is the given code.
fn lower_eq(b: u8, code: u8) -> (r: bool)
    ensures
        r == (to_lower_byte(b) == code),
{
    let l = if 65 <= b && b <= 90 {
        b + 32
    } else {
        b
    };
    l == code
}


/// The bytes of an optional body.
pub open spec fn opt_bytes(b: &Option<Vec<u8>>) -> Option<Seq<u8>> {
    match b {
        Some(v) => Some(v@),
        None => None,
    }
}

/// The CRLF line ending of the CGI output grammar.
pub open spec fn crlf() -> Seq<u8> {
    seq![13u8, 10u8]
}

/// The reason phrase written next to a raw status code; codes the framer
/// does not know are written as `Unknown`.
pub open spec fn spec_reason_text(status: u16) -> Seq<char> {
    if status == 200 {
        "OK"@
    } else if status == 201 {
        "Created"@
    } else if status == 204 {
        "No Content"@
    } else if status == 400 {
        "Bad Request"@
    } else if status == 401 {
        "Unauthorized"@
    } else if status == 403 {
        "Forbidden"@
    } else if status == 404 {
        "Not Found"@
    } else if status == 413 {
        "Payload Too Large"@
    } else if status == 500 {
        "Internal Server Error"@
    } else {
        "Unknown"@
    }
}

/// The `Status:` line.
pub open spec fn spec_status_line(status: u16) -> Seq<u8> {
    encode_utf8("Status: "@) + dec_bytes(status as int) + seq![32u8] + encode_utf8(
        spec_reason_text(status),
    ) + crlf()
}

/// A header the framer owns and never copies out: `Status` and
/// `Content-Length`, compared ASCII case-insensitively.
pub open spec fn is_reserved_header(n: Seq<char>) -> bool {
    lower_bytes(encode_utf8(n)) == encode_utf8("status"@) || lower_bytes(encode_utf8(n))
        == encode_utf8("content-length"@)
}

/// Whether the header is a `Set-Cookie` header, ASCII case-insensitively.
pub open spec fn is_set_cookie_header(n: Seq<char>) -> bool {
    lower_bytes(encode_utf8(n)) == encode_utf8("set-cookie"@)
}

/// Whether a header passes the final byte-level check before writing.
pub open spec fn spec_header_writable(n: Seq<char>, v: Seq<char>) -> bool {
    spec_cgi_header_name_valid(encode_utf8(n)) && spec_cgi_header_value_valid(encode_utf8(v))
}

/// Whether every non-reserved header of the response may be written.
pub open spec fn spec_headers_ok(hs: Seq<(Seq<char>, Seq<char>)>) -> bool {
    forall|i: int|
        0 <= i < hs.len() ==> is_reserved_header((#[trigger] hs[i]).0) || spec_header_writable(
            hs[i].0,
            hs[i].1,
        )
}

/// The ordinary header lines: every header except the reserved ones and
/// `Set-Cookie`, in map order.
pub open spec fn spec_normal_header_bytes(hs: Seq<(Seq<char>, Seq<char>)>) -> Seq<u8>
    decreases hs.len(),
{
    if hs.len() == 0 {
        Seq::<u8>::empty()
    } else {
        spec_normal_header_bytes(hs.drop_last()) + (if is_reserved_header(hs.last().0)
            || is_set_cookie_header(hs.last().0) {
            Seq::<u8>::empty()
        } else {
            encode_utf8(hs.last().0) + seq![58u8, 32u8] + encode_utf8(hs.last().1) + crlf()
        })
    }
}

/// One `Set-Cookie:` line for one split piece, read back as text.
pub open spec fn spec_cookie_piece_line(p: Seq<u8>) -> Seq<u8> {
    encode_utf8("Set-Cookie: "@) + encode_utf8(lossy_view(p)) + crlf()
}

pub open spec fn spec_pieces_lines(ps: Seq<Seq<u8>>) -> Seq<u8>
    decreases ps.len(),
{
    if ps.len() == 0 {
        Seq::<u8>::empty()
    } else {
        spec_pieces_lines(ps.drop_last()) + spec_cookie_piece_line(ps.last())
    }
}

/// The `Set-Cookie:` lines of one concatenated value: one line per split
/// piece, or the value as a single line when the split yields nothing.
pub open spec fn spec_cookie_value_lines(v: Seq<char>) -> Seq<u8> {
    let pieces = spec_split_set_cookie(encode_utf8(v));
    if pieces.len() == 0 {
        encode_utf8("Set-Cookie: "@) + encode_utf8(v) + crlf()
    } else {
        spec_pieces_lines(pieces)
    }
}

/// All `Set-Cookie:` lines of the response, in map order.
pub open spec fn spec_cookie_header_bytes(hs: Seq<(Seq<char>, Seq<char>)>) -> Seq<u8>
    decreases hs.len(),
{
    if hs.len() == 0 {
        Seq::<u8>::empty()
    } else {
        spec_cookie_header_bytes(hs.drop_last()) + (if !is_reserved_header(hs.last().0)
            && is_set_cookie_header(hs.last().0) {
            spec_cookie_value_lines(hs.last().1)
        } else {
            Seq::<u8>::empty()
        })
    }
}

/// What follows the header block: the framer's own `Content-Length` when a
/// body is present, the blank separator line, and the body bytes.
pub open spec fn spec_frame_tail(body: Option<Seq<u8>>) -> Seq<u8> {
    match body {
        Some(b) => encode_utf8("Content-Length: "@) + dec_bytes(b.len() as int) + crlf() + crlf()
            + b,
        None => crlf(),
    }
}

/// The full CGI frame of a response whose headers all passed the check.
pub open spec fn spec_frame_ok(
    status: u16,
    hs: Seq<(Seq<char>, Seq<char>)>,
    body: Option<Seq<u8>>,
) -> Seq<u8> {
    spec_status_line(status) + spec_normal_header_bytes(hs) + spec_cookie_header_bytes(hs)
        + spec_frame_tail(body)
}

/// The headers of the fixed replacement response written when any header
/// fails the final check.
pub open spec fn spec_bad_header_headers() -> Seq<(Seq<char>, Seq<char>)> {
    kv_insert(spec_default_headers(), "Content-Type"@, "text/plain; charset=utf-8"@)
}

/// What the framer writes for a response: its frame when every header
/// passes the final byte-level check, and otherwise the frame of a fixed
/// 400 response, so that no unvalidated byte is ever written.
pub open spec fn spec_frame(
    status: u16,
    hs: Seq<(Seq<char>, Seq<char>)>,
    body: Option<Seq<u8>>,
) -> Seq<u8> {
    if spec_headers_ok(hs) {
        spec_frame_ok(status, hs, body)
    } else {
        spec_frame_ok(
            400,
            spec_bad_header_headers(),
            Some(encode_utf8("Bad Request: Invalid header"@)),
        )
    }
}

/// Whether the name is one of the reserved headers.
fn is_reserved_name(n: &str) -> (r: bool)
    ensures
        r == is_reserved_header(n@),
{
    let mut low = str_bytes(n);
    lower_bytes_in_place(&mut low);
    let status_name = str_bytes("status");
    let cl_name = str_bytes("content-length");
    bytes_eq(low.as_slice(), status_name.as_slice()) || bytes_eq(
        low.as_slice(),
        cl_name.as_slice(),
    )
}

/// Whether the name is `Set-Cookie` in any letter case.
fn is_set_cookie_name(n: &str) -> (r: bool)
    ensures
        r == is_set_cookie_header(n@),
{
    let mut low = str_bytes(n);
    lower_bytes_in_place(&mut low);
    let sc_name = str_bytes("set-cookie");
    bytes_eq(low.as_slice(), sc_name.as_slice())
}

/// Appends the UTF-8 bytes of a string.
fn push_str_bytes(out: &mut Vec<u8>, s: &str)
    ensures
        final(out)@ == old(out)@ + encode_utf8(s@),
{
    let b = s.as_bytes();
    out.extend_from_slice(b);
    assert(out@ =~= old(out)@ + encode_utf8(s@));
}

/// Writes the `Status:` line.
fn emit_status_line(status: u16, out: &mut Vec<u8>)
    ensures
        final(out)@ == old(out)@ + spec_status_line(status),
{
    let ghost base = out@;
    push_str_bytes(out, "Status: ");
    push_decimal(out, status as u64);
    out.push(32);
    let reason: &str = if status == 200 {
        "OK"
    } else if status == 201 {
        "Created"
    } else if status == 204 {
        "No Content"
    } else if status == 400 {
        "Bad Request"
    } else if status == 401 {
        "Unauthorized"
    } else if status == 403 {
        "Forbidden"
    } else if status == 404 {
        "Not Found"
    } else if status == 413 {
        "Payload Too Large"
    } else if status == 500 {
        "Internal Server Error"
    } else {
        "Unknown"
    };
    push_str_bytes(out, reason);
    out.push(13);
    out.push(10);
    assert(out@ =~= base + spec_status_line(status));
}

/// Writes every ordinary header line, in map order.
#[verifier::loop_isolation(false)]
fn emit_normal_headers(headers: &StringMap, out: &mut Vec<u8>)
    ensures
        final(out)@ == old(out)@ + spec_normal_header_bytes(headers@),
{
    let ghost base = out@;
    let n = headers.len();
    let mut i: usize = 0;
    proof {
        assert(headers@.take(0) =~= Seq::<(Seq<char>, Seq<char>)>::empty());
    }
    while i < n
        invariant
            i <= n == headers@.len(),
            out@ == base + spec_normal_header_bytes(headers@.take(i as int)),
        decreases n - i,
    {
        let e = headers.entry_at(i);
        let ghost pre = out@;
        if !is_reserved_name(e.0.as_str()) && !is_set_cookie_name(e.0.as_str()) {
            push_str_bytes(out, e.0.as_str());
            out.push(58);
            out.push(32);
            push_str_bytes(out, e.1.as_str());
            out.push(13);
            out.push(10);
            assert(out@ =~= pre + (encode_utf8(headers@[i as int].0) + seq![58u8, 32u8]
                + encode_utf8(headers@[i as int].1) + crlf()));
        }
        proof {
            assert(headers@.take(i + 1).drop_last() =~= headers@.take(i as int));
            assert(headers@.take(i + 1).last() == headers@[i as int]);
        }
        i = i + 1;
    }
    proof {
        assert(headers@.take(n as int) =~= headers@);
    }
}

/// Writes the `Set-Cookie:` lines of one concatenated value.
#[verifier::loop_isolation(false)]
fn emit_cookie_lines(value: &str, out: &mut Vec<u8>)
    ensures
        final(out)@ == old(out)@ + spec_cookie_value_lines(value@),
{
    let ghost base = out@;
    let pieces = split_set_cookie_header(value);
    let ghost praw = spec_split_set_cookie(encode_utf8(value@));
    if pieces.len() == 0 {
        push_str_bytes(out, "Set-Cookie: ");
        push_str_bytes(out, value);
        out.push(13);
        out.push(10);
        assert(out@ =~= base + spec_cookie_value_lines(value@));
    } else {
        let mut k: usize = 0;
        proof {
            assert(praw.take(0) =~= Seq::<Seq<u8>>::empty());
        }
        while k < pieces.len()
            invariant
                k <= pieces@.len() == praw.len(),
                forall|t: int|
                    0 <= t < praw.len() ==> (#[trigger] pieces@[t])@ == lossy_view(praw[t]),
                out@ == base + spec_pieces_lines(praw.take(k as int)),
            decreases pieces@.len() - k,
        {
            let ghost before = out@;
            push_str_bytes(out, "Set-Cookie: ");
            push_str_bytes(out, pieces[k].as_str());
            out.push(13);
            out.push(10);
            proof {
                assert(out@ =~= before + spec_cookie_piece_line(praw[k as int]));
                assert(praw.take(k + 1).drop_last() =~= praw.take(k as int));
                assert(praw.take(k + 1).last() == praw[k as int]);
            }
            k = k + 1;
        }
        proof {
            assert(praw.take(praw.len() as int) =~= praw);
            assert(out@ =~= base + spec_cookie_value_lines(value@));
        }
    }
}

/// Writes every `Set-Cookie:` line of the response, in map order.
#[verifier::loop_isolation(false)]
fn emit_cookie_headers(headers: &StringMap, out: &mut Vec<u8>)
    ensures
        final(out)@ == old(out)@ + spec_cookie_header_bytes(headers@),
{
    let ghost base = out@;
    let n = headers.len();
    let mut i: usize = 0;
    proof {
        assert(headers@.take(0) =~= Seq::<(Seq<char>, Seq<char>)>::empty());
    }
    while i < n
        invariant
            i <= n == headers@.len(),
            out@ == base + spec_cookie_header_bytes(headers@.take(i as int)),
        decreases n - i,
    {
        let e = headers.entry_at(i);
        if !is_reserved_name(e.0.as_str()) && is_set_cookie_name(e.0.as_str()) {
            emit_cookie_lines(e.1.as_str(), out);
        }
        proof {
            assert(headers@.take(i + 1).drop_last() =~= headers@.take(i as int));
            assert(headers@.take(i + 1).last() == headers@[i as int]);
        }
        i = i + 1;
    }
    proof {
        assert(headers@.take(n as int) =~= headers@);
    }
}

/// Writes the frame of a response as it stands, with no header check.
fn emit_frame(status: u16, headers: &StringMap, body: &Option<Vec<u8>>, out: &mut Vec<u8>)
    ensures
        final(out)@ == old(out)@ + spec_frame_ok(status, headers@, opt_bytes(body)),
{
    let ghost base = out@;
    emit_status_line(status, out);
    emit_normal_headers(headers, out);
    emit_cookie_headers(headers, out);
    let ghost with_cookies = out@;
    match body {
        Some(b) => {
            push_str_bytes(out, "Content-Length: ");
            push_decimal(out, b.len() as u64);
            out.push(13);
            out.push(10);
            out.push(13);
            out.push(10);
            out.extend_from_slice(b.as_slice());
            assert(out@ =~= with_cookies + spec_frame_tail(opt_bytes(body)));
        },
        None => {
            out.push(13);
            out.push(10);
            assert(out@ =~= with_cookies + spec_frame_tail(opt_bytes(body)));
        },
    }
    assert(out@ =~= base + spec_frame_ok(status, headers@, opt_bytes(body)));
}

/// Serializes a response into the CGI output grammar: the status line, the
/// ordinary headers, one line per split Set-Cookie value, the framer-owned
/// `Content-Length`, a blank line, and the body. Every header name and
/// value is re-validated first; if any fails, the whole response is
/// replaced by a fixed 400 before a single byte is written.
#[verifier::loop_isolation(false)]
pub fn write_response_to(response: Response, out: &mut Vec<u8>)
    ensures
        final(out)@ == old(out)@ + spec_frame(
            response.status,
            response.headers@,
            opt_bytes(&response.body),
        ),
{
    let n = response.headers.len();
    let mut ok = true;
    let mut i: usize = 0;
    while i < n && ok
        invariant
            i <= n == response.headers@.len(),
            ok ==> forall|j: int|
                0 <= j < i ==> is_reserved_header((#[trigger] response.headers@[j]).0)
                    || spec_header_writable(response.headers@[j].0, response.headers@[j].1),
            !ok ==> !spec_headers_ok(response.headers@),
        decreases n - i + (if ok {
            1int
        } else {
            0int
        }),
    {
        let e = response.headers.entry_at(i);
        if !is_reserved_name(e.0.as_str()) {
            if !(is_valid_header_name(e.0.as_str()) && is_valid_header_value(e.1.as_str())) {
                ok = false;
                assert(!spec_headers_ok(response.headers@));
            }
        }
        i = i + 1;
    }
    if ok {
        assert(spec_headers_ok(response.headers@));
        emit_frame(response.status, &response.headers, &response.body, out);
    } else {
        let mut replacement = Response::new(400);
        replacement.headers.insert(
            "Content-Type".to_string(),
            "text/plain; charset=utf-8".to_string(),
        );
        replacement.body = Some(str_bytes("Bad Request: Invalid header"));
        assert(replacement.headers@ == spec_bad_header_headers());
        emit_frame(400, &replacement.headers, &replacement.body, out);
    }
}

} // verus!
