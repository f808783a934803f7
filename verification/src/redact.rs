//! Redaction of security-sensitive values before anything reaches a log:
//! credential-like keys are blanked, query strings are redacted parameter
//! by parameter, and over-long values are truncated.
use vstd::prelude::*;
use vstd::utf8::encode_utf8;
use vstd::slice::slice_subrange;
use crate::text::str_bytes;
use crate::text::bytes_to_string;
use crate::text::bytes_eq;
use crate::text::lossy_view;
use crate::text::lower_bytes;
use crate::text::lower_bytes_in_place;
use crate::text::find_byte;
use crate::text::lemma_find_byte_at;
use crate::text::lemma_find_byte_none;
use crate::text::split_on;
use crate::text::lemma_split_prefix;
use crate::text::lemma_split_whole;
use crate::strmap::StringMap;
use crate::kvseq::kv_lookup;

verus! {

/// Whether the needle occurs as a contiguous run inside the haystack.
pub open spec fn spec_contains(h: Seq<u8>, n: Seq<u8>) -> bool {
    exists|i: int| 0 <= i <= h.len() - n.len() && #[trigger] h.subrange(i, i + n.len()) == n
}

/// Naive substring search.
#[verifier::loop_isolation(false)]
fn contains_bytes(h: &[u8], n: &[u8]) -> (r: bool)
    ensures
        r == spec_contains(h@, n@),
{
    if n.len() > h.len() {
        return false;
    }
    if n.len() == 0 {
        assert(spec_contains(h@, n@)) by {
            assert(h@.subrange(0, 0 + n@.len() as int) =~= n@);
        }
        return true;
    }
    let mut i: usize = 0;
    while i <= h.len() - n.len()
        invariant
            n@.len() <= h@.len(),
            i <= h@.len() - n@.len() + 1,
            forall|j: int| 0 <= j < i ==> #[trigger] h@.subrange(j, j + n@.len()) != n@,
        decreases h@.len() - n@.len() - i + 1,
    {
        let w = slice_subrange(h, i, i + n.len());
        if bytes_eq(w, n) {
            assert(h@.subrange(i as int, i + n@.len()) == n@);
            return true;
        }
        i = i + 1;
    }
    false
}

/// Whether a lower-cased key looks credential-like: it contains one of the
/// sensitive substrings.
#[verifier::opaque]
pub open spec fn spec_sensitive(b: Seq<u8>) -> bool {
    ||| spec_contains(b, encode_utf8("authorization"@))
    ||| spec_contains(b, encode_utf8("cookie"@))
    ||| spec_contains(b, encode_utf8("token"@))
    ||| spec_contains(b, encode_utf8("secret"@))
    ||| spec_contains(b, encode_utf8("password"@))
    ||| spec_contains(b, encode_utf8("pass"@))
    ||| spec_contains(b, encode_utf8("api-key"@))
    ||| spec_contains(b, encode_utf8("api_key"@))
    ||| spec_contains(b, encode_utf8("apikey"@))
    ||| spec_contains(b, encode_utf8("x-api-key"@))
    ||| spec_contains(b, encode_utf8("x_api_key"@))
    ||| spec_contains(b, encode_utf8("jwt"@))
    ||| spec_contains(b, encode_utf8("auth"@))
    ||| spec_contains(b, encode_utf8("session"@))
    ||| spec_contains(b, encode_utf8("csrf"@))
    ||| spec_contains(b, encode_utf8("signature"@))
    ||| spec_contains(b, encode_utf8("private"@))
    ||| spec_contains(b, encode_utf8("key"@))
    ||| spec_contains(b, encode_utf8("credential"@))
    ||| spec_contains(b, encode_utf8("access_token"@))
    ||| spec_contains(b, encode_utf8("refresh_token"@))
    ||| spec_contains(b, encode_utf8("bearer"@))
    ||| spec_contains(b, encode_utf8("basic"@))
}

/// Whether the byte form of a lower-cased key contains a credential-like
/// substring.
fn sensitive_bytes(hs: &[u8]) -> (r: bool)
    ensures
        r == spec_sensitive(hs@),
{
    proof {
        reveal(spec_sensitive);
    }
    contains_bytes(hs, str_bytes("authorization").as_slice()) || contains_bytes(
        hs,
        str_bytes("cookie").as_slice(),
    ) || contains_bytes(hs, str_bytes("token").as_slice()) || contains_bytes(
        hs,
        str_bytes("secret").as_slice(),
    ) || contains_bytes(hs, str_bytes("password").as_slice()) || contains_bytes(
        hs,
        str_bytes("pass").as_slice(),
    ) || contains_bytes(hs, str_bytes("api-key").as_slice()) || contains_bytes(
        hs,
        str_bytes("api_key").as_slice(),
    ) || contains_bytes(hs, str_bytes("apikey").as_slice()) || contains_bytes(
        hs,
        str_bytes("x-api-key").as_slice(),
    ) || contains_bytes(hs, str_bytes("x_api_key").as_slice()) || contains_bytes(
        hs,
        str_bytes("jwt").as_slice(),
    ) || contains_bytes(hs, str_bytes("auth").as_slice()) || contains_bytes(
        hs,
        str_bytes("session").as_slice(),
    ) || contains_bytes(hs, str_bytes("csrf").as_slice()) || contains_bytes(
        hs,
        str_bytes("signature").as_slice(),
    ) || contains_bytes(hs, str_bytes("private").as_slice()) || contains_bytes(
        hs,
        str_bytes("key").as_slice(),
    ) || contains_bytes(hs, str_bytes("credential").as_slice()) || contains_bytes(
        hs,
        str_bytes("access_token").as_slice(),
    ) || contains_bytes(hs, str_bytes("refresh_token").as_slice()) || contains_bytes(
        hs,
        str_bytes("bearer").as_slice(),
    ) || contains_bytes(hs, str_bytes("basic").as_slice())
}

/// Whether an already lower-cased key contains a credential-like substring
/// such as `authorization`, `cookie`, `token`, `secret`, or `key`.
pub fn is_sensitive_key_like(lower_key: &str) -> (r: bool)
    ensures
        r == spec_sensitive(encode_utf8(lower_key@)),
{
    let h = str_bytes(lower_key);
    sensitive_bytes(h.as_slice())
}

/// One redacted query piece: the part before the first `=` is the key; a
/// credential-like key has its value blanked, any other keeps it.
pub open spec fn spec_redact_piece(p: Seq<u8>) -> Seq<u8> {
    let e = find_byte(p, 61);
    let k = if e == -1 {
        p
    } else {
        p.take(e)
    };
    let v = if e == -1 {
        Seq::<u8>::empty()
    } else {
        p.skip(e + 1)
    };
    if spec_sensitive(lower_bytes(k)) {
        k + encode_utf8("=***redacted***"@)
    } else {
        k + seq![61u8] + v
    }
}

/// The redacted pieces joined with `&`; empty pieces are dropped.
pub open spec fn spec_redact_join(ps: Seq<Seq<u8>>) -> Seq<u8>
    decreases ps.len(),
{
    if ps.len() == 0 {
        Seq::<u8>::empty()
    } else {
        let head = spec_redact_join(ps.drop_last());
        if ps.last().len() == 0 {
            head
        } else if head.len() == 0 {
            spec_redact_piece(ps.last())
        } else {
            head + seq![38u8] + spec_redact_piece(ps.last())
        }
    }
}

/// A query string redacted parameter by parameter: pieces split on `&`,
/// values of credential-like keys blanked, empty pieces dropped. The empty
/// string stays as it is.
pub open spec fn spec_redact_query(value: Seq<char>) -> Seq<char> {
    if value.len() == 0 {
        value
    } else {
        lossy_view(spec_redact_join(split_on(encode_utf8(value), 38)))
    }
}

/// Appends one redacted piece.
#[verifier::loop_isolation(false)]
#[verifier::rlimit(80)]
fn push_redacted_piece(piece: &[u8], out: &mut Vec<u8>)
    ensures
        final(out)@ == old(out)@ + spec_redact_piece(piece@),
{
    let mut e: usize = 0;
    let mut found = false;
    while e < piece.len() && !found
        invariant
            e <= piece@.len(),
            !found ==> forall|j: int| 0 <= j < e ==> piece@[j] != 61,
            found ==> e < piece@.len() && piece@[e as int] == 61 && forall|j: int|
                0 <= j < e ==> piece@[j] != 61,
        decreases piece@.len() - e + (if found {
            0int
        } else {
            1int
        }),
    {
        if piece[e] == 61 {
            found = true;
        } else {
            e = e + 1;
        }
    }
    proof {
        if found {
            lemma_find_byte_at(piece@, 61, e as int);
        } else {
            lemma_find_byte_none(piece@, 61);
        }
    }
    let k = if found {
        slice_subrange(piece, 0, e)
    } else {
        slice_subrange(piece, 0, piece.len())
    };
    assert(!found ==> k@ =~= piece@);
    let mut kl: Vec<u8> = Vec::new();
    kl.extend_from_slice(k);
    assert(kl@ =~= k@);
    lower_bytes_in_place(&mut kl);
    let sensitive = sensitive_bytes(kl.as_slice());
    out.extend_from_slice(k);
    if sensitive {
        let marker = str_bytes("=***redacted***");
        out.extend_from_slice(marker.as_slice());
    } else {
        out.push(61);
        if found {
            let v = slice_subrange(piece, e + 1, piece.len());
            out.extend_from_slice(v);
        }
    }
    assert(out@ =~= old(out)@ + spec_redact_piece(piece@));
}

/// Redacts a query string parameter by parameter: the value of every
/// parameter whose lower-cased key contains a credential-like substring is
/// replaced wholesale; empty pieces are dropped.
#[verifier::loop_isolation(false)]
pub fn redact_query_string(qs: &str) -> (r: String)
    ensures
        r@ == spec_redact_query(qs@),
{
    if qs.is_empty() {
        return qs.to_owned();
    }
    proof {
        crate::text::lemma_encode_nonempty(qs@);
    }
    let bytes = str_bytes(qs);
    let ghost all = bytes@;
    let ghost pieces = split_on(all, 38);
    let mut out: Vec<u8> = Vec::new();
    let mut start: usize = 0;
    let mut i: usize = 0;
    let ghost done = Seq::<Seq<u8>>::empty();
    proof {
        assert(all.skip(0) =~= all);
        assert(done + split_on(all.skip(0), 38) =~= split_on(all, 38));
    }
    while i < bytes.len()
        invariant
            start <= i <= bytes@.len(),
            bytes@ == all,
            pieces == done + split_on(all.skip(start as int), 38),
            out@ == spec_redact_join(done),
            forall|j: int| start <= j < i ==> all[j] != 38,
        decreases bytes@.len() - i,
    {
        if bytes[i] == 38 {
            let piece = slice_subrange(bytes.as_slice(), start, i);
            let ghost praw = all.subrange(start as int, i as int);
            proof {
                assert(all.skip(start as int) =~= praw + (seq![38u8] + all.skip(i + 1)));
                lemma_split_prefix(praw, seq![38u8] + all.skip(i + 1), 38);
                let tail = seq![38u8] + all.skip(i + 1);
                assert(tail[0] == 38);
                assert(tail.drop_first() =~= all.skip(i + 1));
                assert(split_on(tail, 38)[0] =~= Seq::<u8>::empty());
                assert(praw + split_on(tail, 38)[0] =~= praw);
                assert(split_on(tail, 38).drop_first() =~= split_on(all.skip(i + 1), 38));
                assert(split_on(all.skip(start as int), 38) =~~= seq![praw] + split_on(
                    all.skip(i + 1),
                    38,
                ));
                assert(pieces =~~= done.push(praw) + split_on(all.skip(i + 1), 38));
            }
            if piece.len() > 0 {
                if out.len() > 0 {
                    out.push(38);
                }
                push_redacted_piece(piece, &mut out);
            }
            proof {
                assert(done.push(praw).drop_last() =~= done);
                assert(out@ == spec_redact_join(done.push(praw)));
                done = done.push(praw);
            }
            start = i + 1;
        }
        i = i + 1;
    }
    let piece = slice_subrange(bytes.as_slice(), start, bytes.len());
    let ghost praw = all.subrange(start as int, all.len() as int);
    proof {
        assert(praw =~= all.skip(start as int));
        lemma_split_whole(praw, 38);
        assert(pieces =~~= done.push(praw));
    }
    if piece.len() > 0 {
        if out.len() > 0 {
            out.push(38);
        }
        push_redacted_piece(piece, &mut out);
    }
    proof {
        assert(done.push(praw).drop_last() =~= done);
        assert(out@ == spec_redact_join(pieces));
    }
    bytes_to_string(&out)
}

/// A value as it may be logged: a `QUERY_STRING` is redacted parameter by
/// parameter, the value of any credential-like key is blanked wholesale,
/// and any other value longer than 200 bytes is cut and marked.
#[verifier::opaque]
pub open spec fn spec_redact_value(key: Seq<char>, value: Seq<char>) -> Seq<char> {
    let kl = lower_bytes(encode_utf8(key));
    if kl == encode_utf8("query_string"@) {
        spec_redact_query(value)
    } else if spec_sensitive(kl) {
        "***redacted***"@
    } else if encode_utf8(value).len() > 200 {
        lossy_view(encode_utf8(value).take(200)) + "...[truncated]"@
    } else {
        value
    }
}

/// Redacts one environment value for the log, keyed off its variable
/// name. The truncation cut is measured in bytes and read back lossily,
/// so a multi-byte character on the boundary becomes a replacement
/// character instead of a fault.
#[verifier::rlimit(100)]
pub fn redact_value_for_log(key: &str, value: &str) -> (r: String)
    ensures
        r@ == spec_redact_value(key@, value@),
{
    proof {
        reveal(spec_redact_value);
    }
    let mut kl = str_bytes(key);
    lower_bytes_in_place(&mut kl);
    let qsname = str_bytes("query_string");
    if bytes_eq(kl.as_slice(), qsname.as_slice()) {
        return redact_query_string(value);
    }
    if sensitive_bytes(kl.as_slice()) {
        return "***redacted***".to_owned();
    }
    let vb = str_bytes(value);
    if vb.len() > 200 {
        let cut = slice_subrange(vb.as_slice(), 0, 200);
        let mut out: Vec<u8> = Vec::new();
        out.extend_from_slice(cut);
        assert(out@ =~= encode_utf8(value@).take(200));
        let head = bytes_to_string(&out);
        let mut r = head;
        r.append("...[truncated]");
        return r;
    }
    value.to_owned()
}

/// The log line of one environment variable, empty when the variable is
/// not set: a newline, the indent, `KEY=`, and the redacted value.
pub open spec fn spec_env_line(env: Seq<(Seq<char>, Seq<char>)>, k: Seq<char>, indent: Seq<
    u8,
>) -> Seq<u8> {
    match kv_lookup(env, k) {
        Some(v) => seq![10u8] + indent + encode_utf8(k) + seq![61u8] + encode_utf8(
            spec_redact_value(k, v),
        ),
        None => Seq::<u8>::empty(),
    }
}

pub open spec fn spec_any_http_key(env: Seq<(Seq<char>, Seq<char>)>) -> bool {
    ||| kv_lookup(env, "HTTP_HOST"@) is Some
    ||| kv_lookup(env, "HTTP_USER_AGENT"@) is Some
    ||| kv_lookup(env, "HTTP_ACCEPT"@) is Some
    ||| kv_lookup(env, "HTTP_ACCEPT_ENCODING"@) is Some
    ||| kv_lookup(env, "HTTP_X_FORWARDED_FOR"@) is Some
    ||| kv_lookup(env, "HTTP_X_FORWARDED_PROTO"@) is Some
    ||| kv_lookup(env, "HTTP_X_REQUEST_ID"@) is Some
    ||| kv_lookup(env, "HTTP_X_AMZN_TRACE_ID"@) is Some
    ||| kv_lookup(env, "HTTP_AUTHORIZATION"@) is Some
    ||| kv_lookup(env, "HTTP_COOKIE"@) is Some
}

pub open spec fn nl() -> Seq<u8> {
    seq![10u8]
}

/// Two and four spaces: the indents of the two sections.
pub open spec fn ind2() -> Seq<u8> {
    seq![32u8, 32u8]
}

pub open spec fn ind4() -> Seq<u8> {
    seq![32u8, 32u8, 32u8, 32u8]
}

/// The whole context block, in write order: the fixed head lines, one line
/// per basic CGI variable present, the header-section title, one line per
/// common HTTP variable present, and a `(none)` marker when the whole
/// header section is empty.
pub open spec fn spec_context_bytes(
    method: Seq<char>,
    path: Seq<char>,
    env: Seq<(Seq<char>, Seq<char>)>,
) -> Seq<u8> {
    let a = encode_utf8("CGI panic context:"@) + nl() + encode_utf8("  REQUEST_METHOD="@)
        + encode_utf8(method) + nl() + encode_utf8("  PATH_INFO="@) + encode_utf8(path)
        + spec_env_line(env, "QUERY_STRING"@, ind2()) + spec_env_line(env, "CONTENT_TYPE"@, ind2())
        + spec_env_line(env, "CONTENT_LENGTH"@, ind2()) + spec_env_line(
        env,
        "SERVER_PROTOCOL"@,
        ind2(),
    ) + spec_env_line(env, "SERVER_NAME"@, ind2()) + spec_env_line(env, "SERVER_PORT"@, ind2())
        + spec_env_line(env, "REMOTE_ADDR"@, ind2()) + spec_env_line(env, "REMOTE_PORT"@, ind2())
        + nl() + encode_utf8("  HTTP headers:"@) + spec_env_line(env, "HTTP_HOST"@, ind4())
        + spec_env_line(env, "HTTP_USER_AGENT"@, ind4()) + spec_env_line(
        env,
        "HTTP_ACCEPT"@,
        ind4(),
    ) + spec_env_line(env, "HTTP_ACCEPT_ENCODING"@, ind4()) + spec_env_line(
        env,
        "HTTP_X_FORWARDED_FOR"@,
        ind4(),
    ) + spec_env_line(env, "HTTP_X_FORWARDED_PROTO"@, ind4()) + spec_env_line(
        env,
        "HTTP_X_REQUEST_ID"@,
        ind4(),
    ) + spec_env_line(env, "HTTP_X_AMZN_TRACE_ID"@, ind4()) + spec_env_line(
        env,
        "HTTP_AUTHORIZATION"@,
        ind4(),
    ) + spec_env_line(env, "HTTP_COOKIE"@, ind4());
    if spec_any_http_key(env) {
        a
    } else {
        a + nl() + encode_utf8("    (none)"@)
    }
}

/// The full panic-context block, read back as text.
pub open spec fn spec_panic_context(
    method: Seq<char>,
    path: Seq<char>,
    env: Seq<(Seq<char>, Seq<char>)>,
) -> Seq<char> {
    lossy_view(spec_context_bytes(method, path, env))
}

/// Appends one newline byte.
fn push_nl(out: &mut Vec<u8>)
    ensures
        final(out)@ == old(out)@ + nl(),
{
    out.push(10);
    assert(out@ =~= old(out)@ + nl());
}

/// Appends the redacted line of one environment variable, if it is set.
fn push_env_line(env: &StringMap, key: &str, indent: &str, out: &mut Vec<u8>) -> (present: bool)
    ensures
        final(out)@ == old(out)@ + spec_env_line(env@, key@, encode_utf8(indent@)),
        present == (kv_lookup(env@, key@) is Some),
{
    match env.get(key) {
        Some(v) => {
            out.push(10);
            let ib = str_bytes(indent);
            out.extend_from_slice(ib.as_slice());
            let kb = str_bytes(key);
            out.extend_from_slice(kb.as_slice());
            out.push(61);
            let red = redact_value_for_log(key, v.as_str());
            let rb = str_bytes(red.as_str());
            out.extend_from_slice(rb.as_slice());
            assert(out@ =~= old(out)@ + spec_env_line(env@, key@, encode_utf8(indent@)));
            true
        },
        None => {
            assert(out@ =~= old(out)@ + spec_env_line(env@, key@, encode_utf8(indent@)));
            false
        },
    }
}

/// Builds the redacted panic-context block for one faulted request: the
/// method and path, the basic CGI variables, and the common HTTP headers,
/// with every credential-like value blanked.
#[verifier::rlimit(100)]
#[verifier::spinoff_prover]
pub fn gather_cgi_panic_context(method: &str, path: &str, env: &StringMap) -> (r: String)
    ensures
        r@ == spec_panic_context(method@, path@, env@),
{
    let sp2 = "  ";
    let sp4 = "    ";
    assert(encode_utf8(sp2@) == ind2()) by {
        reveal_strlit("  ");
        crate::text::lemma_ascii_chars_encode(sp2@);
        assert(encode_utf8(sp2@) =~= ind2());
    }
    assert(encode_utf8(sp4@) == ind4()) by {
        reveal_strlit("    ");
        crate::text::lemma_ascii_chars_encode(sp4@);
        assert(encode_utf8(sp4@) =~= ind4());
    }
    let mut out: Vec<u8> = Vec::new();
    push_str(&mut out, "CGI panic context:");
    assert(out@ =~= encode_utf8("CGI panic context:"@));
    push_nl(&mut out);
    push_str(&mut out, "  REQUEST_METHOD=");
    push_str(&mut out, method);
    push_nl(&mut out);
    push_str(&mut out, "  PATH_INFO=");
    push_str(&mut out, path);
    push_env_line(env, "QUERY_STRING", sp2, &mut out);
    push_env_line(env, "CONTENT_TYPE", sp2, &mut out);
    push_env_line(env, "CONTENT_LENGTH", sp2, &mut out);
    push_env_line(env, "SERVER_PROTOCOL", sp2, &mut out);
    push_env_line(env, "SERVER_NAME", sp2, &mut out);
    push_env_line(env, "SERVER_PORT", sp2, &mut out);
    push_env_line(env, "REMOTE_ADDR", sp2, &mut out);
    push_env_line(env, "REMOTE_PORT", sp2, &mut out);
    push_nl(&mut out);
    push_str(&mut out, "  HTTP headers:");
    let mut any = false;
    let p1 = push_env_line(env, "HTTP_HOST", sp4, &mut out);
    any = any || p1;
    let p2 = push_env_line(env, "HTTP_USER_AGENT", sp4, &mut out);
    any = any || p2;
    let p3 = push_env_line(env, "HTTP_ACCEPT", sp4, &mut out);
    any = any || p3;
    let p4 = push_env_line(env, "HTTP_ACCEPT_ENCODING", sp4, &mut out);
    any = any || p4;
    let p5 = push_env_line(env, "HTTP_X_FORWARDED_FOR", sp4, &mut out);
    any = any || p5;
    let p6 = push_env_line(env, "HTTP_X_FORWARDED_PROTO", sp4, &mut out);
    any = any || p6;
    let p7 = push_env_line(env, "HTTP_X_REQUEST_ID", sp4, &mut out);
    any = any || p7;
    let p8 = push_env_line(env, "HTTP_X_AMZN_TRACE_ID", sp4, &mut out);
    any = any || p8;
    let p9 = push_env_line(env, "HTTP_AUTHORIZATION", sp4, &mut out);
    any = any || p9;
    let p10 = push_env_line(env, "HTTP_COOKIE", sp4, &mut out);
    any = any || p10;
    assert(any == spec_any_http_key(env@));
    if !any {
        push_nl(&mut out);
        push_str(&mut out, "    (none)");
    }
    assert(out@ == spec_context_bytes(method@, path@, env@));
    bytes_to_string(&out)
}

/// Appends the UTF-8 bytes of a string.
fn push_str(out: &mut Vec<u8>, s: &str)
    ensures
        final(out)@ == old(out)@ + encode_utf8(s@),
{
    let b = s.as_bytes();
    out.extend_from_slice(b);
    assert(out@ =~= old(out)@ + encode_utf8(s@));
}

} // verus!
