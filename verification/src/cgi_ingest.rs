//! The CGI request ingestor: request reconstruction from an environment
//! snapshot — header derivation from `HTTP_*` variables, the body-size
//! gate that decides whether standard input is read at all, and the
//! assembly of the final Request.
use vstd::prelude::*;
use vstd::utf8::encode_utf8;
use vstd::slice::slice_subrange;
use crate::text::str_bytes;
use crate::text::bytes_to_string;
use crate::text::bytes_eq;
use crate::text::lossy_view;
use crate::text::lower_bytes;
use crate::text::lower_bytes_in_place;
use crate::text::to_upper_byte;
use crate::text::upper_byte;
use crate::text::lower_byte;
use crate::text::split_on;
use crate::text::lemma_split_prefix;
use crate::text::lemma_split_whole;
use crate::text::spec_parse_usize;
use crate::text::parse_usize;
use crate::text::lower_key;
use crate::strmap::StringMap;
use crate::kvseq::kv_insert;
use crate::http::Method;
use crate::http::Request;
use crate::http::spec_method_from_str;
use crate::query::parse_query_string;
use crate::query::spec_parse_query;
use crate::validate::spec_cgi_header_name_valid;
use crate::validate::spec_cgi_header_value_valid;
use crate::validate::spec_cgi_name_byte_ok;
use crate::validate::is_valid_header_value;
use crate::error::Error;

verus! {

/// One underscore-separated part in canonical form: the first byte raised
/// to upper case, the rest folded to lower case.
pub open spec fn title_piece(p: Seq<u8>) -> Seq<u8> {
    if p.len() == 0 {
        Seq::<u8>::empty()
    } else {
        seq![to_upper_byte(p[0])] + lower_bytes(p.drop_first())
    }
}

/// The canonicalized parts joined with `-`.
pub open spec fn spec_join_dash(ps: Seq<Seq<u8>>) -> Seq<u8>
    decreases ps.len(),
{
    if ps.len() == 0 {
        Seq::<u8>::empty()
    } else if ps.len() == 1 {
        title_piece(ps[0])
    } else {
        spec_join_dash(ps.drop_last()) + seq![45u8] + title_piece(ps.last())
    }
}

/// `Name-Parts` canonical form of an environment name: split on `_`, each
/// part title-cased, the parts rejoined with `-`.
pub open spec fn spec_title_parts(b: Seq<u8>) -> Seq<u8> {
    spec_join_dash(split_on(b, 95))
}

/// Appends one title-cased part.
#[verifier::loop_isolation(false)]
fn push_title_piece(piece: &[u8], out: &mut Vec<u8>)
    ensures
        final(out)@ == old(out)@ + title_piece(piece@),
{
    if piece.len() == 0 {
        assert(out@ =~= old(out)@ + title_piece(piece@));
        return ;
    }
    out.push(upper_byte(piece[0]));
    let mut i: usize = 1;
    while i < piece.len()
        invariant
            1 <= i <= piece@.len(),
            out@ =~= old(out)@ + seq![to_upper_byte(piece@[0])] + lower_bytes(
                piece@.subrange(1, i as int),
            ),
        decreases piece@.len() - i,
    {
        out.push(lower_byte(piece[i]));
        assert(out@ =~= old(out)@ + seq![to_upper_byte(piece@[0])] + lower_bytes(
            piece@.subrange(1, i + 1),
        ));
        i = i + 1;
    }
    assert(piece@.subrange(1, piece@.len() as int) =~= piece@.drop_first());
    assert(out@ =~= old(out)@ + title_piece(piece@));
}

/// Converts an underscore-separated environment name to `Name-Parts` form.
#[verifier::loop_isolation(false)]
fn title_case_parts(b: &[u8]) -> (r: Vec<u8>)
    ensures
        r@ == spec_title_parts(b@),
{
    let ghost all = b@;
    let ghost pieces = split_on(all, 95);
    let mut out: Vec<u8> = Vec::new();
    let mut start: usize = 0;
    let mut i: usize = 0;
    let mut first = true;
    let ghost done = Seq::<Seq<u8>>::empty();
    proof {
        assert(all.skip(0) =~= all);
        assert(done + split_on(all.skip(0), 95) =~= split_on(all, 95));
    }
    while i < b.len()
        invariant
            start <= i <= b@.len(),
            b@ == all,
            pieces == done + split_on(all.skip(start as int), 95),
            out@ == spec_join_dash(done),
            first == (done.len() == 0),
            forall|j: int| start <= j < i ==> all[j] != 95,
        decreases b@.len() - i,
    {
        if b[i] == 95 {
            let piece = slice_subrange(b, start, i);
            let ghost praw = all.subrange(start as int, i as int);
            proof {
                assert(all.skip(start as int) =~= praw + (seq![95u8] + all.skip(i + 1)));
                lemma_split_prefix(praw, seq![95u8] + all.skip(i + 1), 95);
                let tail = seq![95u8] + all.skip(i + 1);
                assert(tail[0] == 95);
                assert(tail.drop_first() =~= all.skip(i + 1));
                assert(split_on(tail, 95)[0] =~= Seq::<u8>::empty());
                assert(praw + split_on(tail, 95)[0] =~= praw);
                assert(split_on(tail, 95).drop_first() =~= split_on(all.skip(i + 1), 95));
                assert(split_on(all.skip(start as int), 95) =~~= seq![praw] + split_on(
                    all.skip(i + 1),
                    95,
                ));
                assert(pieces =~~= done.push(praw) + split_on(all.skip(i + 1), 95));
            }
            if !first {
                out.push(45);
            }
            push_title_piece(piece, &mut out);
            first = false;
            proof {
                assert(done.push(praw).drop_last() =~= done);
                assert(out@ == spec_join_dash(done.push(praw)));
                done = done.push(praw);
            }
            start = i + 1;
        }
        i = i + 1;
    }
    let piece = slice_subrange(b, start, b.len());
    let ghost praw = all.subrange(start as int, all.len() as int);
    proof {
        assert(praw =~= all.skip(start as int));
        lemma_split_whole(praw, 95);
        assert(pieces =~~= done.push(praw));
    }
    if !first {
        out.push(45);
    }
    push_title_piece(piece, &mut out);
    proof {
        assert(done.push(praw).drop_last() =~= done);
        assert(out@ == spec_join_dash(pieces));
    }
    out
}

/// The canonical header-name bytes an environment variable contributes: a
/// `HTTP_<NAME>` variable loses its prefix and is title-cased part by
/// part; `CONTENT_TYPE` and `CONTENT_LENGTH` are title-cased as they are;
/// every other variable contributes nothing.
pub open spec fn spec_cgi_name(k: Seq<char>) -> Option<Seq<u8>> {
    let kb = encode_utf8(k);
    if kb.len() >= 5 && kb.subrange(0, 5) == encode_utf8("HTTP_"@) {
        Some(spec_title_parts(kb.skip(5)))
    } else if kb == encode_utf8("CONTENT_TYPE"@) || kb == encode_utf8("CONTENT_LENGTH"@) {
        Some(spec_title_parts(kb))
    } else {
        None
    }
}

/// What one environment entry does to the candidate header map: nothing
/// unless the variable names a header and both the canonical name and the
/// value pass the sanitizer; then the pair is stored.
pub open spec fn spec_cgi_header_step(
    acc: Seq<(Seq<char>, Seq<char>)>,
    k: Seq<char>,
    v: Seq<char>,
) -> Seq<(Seq<char>, Seq<char>)> {
    match spec_cgi_name(k) {
        Some(nb) => if spec_cgi_header_name_valid(nb) && spec_cgi_header_value_valid(
            encode_utf8(v),
        ) {
            kv_insert(acc, lossy_view(nb), v)
        } else {
            acc
        },
        None => acc,
    }
}

/// The candidate headers of an environment snapshot, derived entry by
/// entry in the snapshot's order; anything the sanitizer rejects is
/// silently dropped.
pub open spec fn spec_cgi_headers(vars: Seq<(Seq<char>, Seq<char>)>) -> Seq<(Seq<char>, Seq<char>)>
    decreases vars.len(),
{
    if vars.len() == 0 {
        Seq::<(Seq<char>, Seq<char>)>::empty()
    } else {
        spec_cgi_header_step(
            spec_cgi_headers(vars.drop_last()),
            vars.last().0,
            vars.last().1,
        )
    }
}

/// Whether every byte may stand in a CGI header name.
#[verifier::loop_isolation(false)]
fn cgi_name_ok(b: &[u8]) -> (r: bool)
    ensures
        r == spec_cgi_header_name_valid(b@),
{
    if b.len() == 0 {
        return false;
    }
    let mut i: usize = 0;
    while i < b.len()
        invariant
            i <= b@.len(),
            forall|j: int| 0 <= j < i ==> spec_cgi_name_byte_ok(#[trigger] b@[j]),
        decreases b@.len() - i,
    {
        let x = b[i];
        if !((97 <= x && x <= 122) || (65 <= x && x <= 90) || (48 <= x && x <= 57) || x == 45) {
            return false;
        }
        i = i + 1;
    }
    true
}

/// Derives the candidate headers from an environment snapshot: each
/// `HTTP_<NAME>` variable becomes a `Name-Parts` header, `CONTENT_TYPE`
/// and `CONTENT_LENGTH` are treated the same way, and any name or value
/// the sanitizer rejects is dropped, never surfaced.
#[verifier::loop_isolation(false)]
pub fn get_cgi_headers(vars: &StringMap) -> (r: StringMap)
    ensures
        r.wf(),
        r@ == spec_cgi_headers(vars@),
{
    let mut headers = StringMap::new();
    let mut i: usize = 0;
    proof {
        assert(vars@.take(0) =~= Seq::<(Seq<char>, Seq<char>)>::empty());
    }
    while i < vars.len()
        invariant
            i <= vars@.len(),
            headers.wf(),
            headers@ == spec_cgi_headers(vars@.take(i as int)),
        decreases vars@.len() - i,
    {
        let e = vars.entry_at(i);
        let kb = str_bytes(e.0.as_str());
        let prefix = str_bytes("HTTP_");
        let name_bytes: Option<Vec<u8>> = if kb.len() >= 5 && bytes_eq(
            slice_subrange(kb.as_slice(), 0, 5),
            prefix.as_slice(),
        ) {
            Some(title_case_parts(slice_subrange(kb.as_slice(), 5, kb.len())))
        } else {
            let ct = str_bytes("CONTENT_TYPE");
            let cl = str_bytes("CONTENT_LENGTH");
            if bytes_eq(kb.as_slice(), ct.as_slice()) || bytes_eq(kb.as_slice(), cl.as_slice()) {
                Some(title_case_parts(kb.as_slice()))
            } else {
                None
            }
        };
        match name_bytes {
            Some(nb) => {
                if cgi_name_ok(nb.as_slice()) && is_valid_header_value(e.1.as_str()) {
                    let name = bytes_to_string(&nb);
                    headers.insert(name, e.1.clone());
                } else {
                }
            },
            None => {},
        }
        proof {
            assert(vars@.take(i + 1).drop_last() =~= vars@.take(i as int));
            assert(vars@.take(i + 1).last() == vars@[i as int]);
        }
        i = i + 1;
    }
    proof {
        assert(vars@.take(vars@.len() as int) =~= vars@);
    }
    headers
}

/// The same header map with every key folded to lower case, so lookups
/// inside the core are case-insensitive; a later entry wins a collision.
pub open spec fn spec_lower_map(m: Seq<(Seq<char>, Seq<char>)>) -> Seq<(Seq<char>, Seq<char>)>
    decreases m.len(),
{
    if m.len() == 0 {
        Seq::<(Seq<char>, Seq<char>)>::empty()
    } else {
        kv_insert(spec_lower_map(m.drop_last()), lower_key(m.last().0), m.last().1)
    }
}

/// Folds every header key to lower case.
#[verifier::loop_isolation(false)]
pub fn lower_header_keys(m: &StringMap) -> (r: StringMap)
    ensures
        r.wf(),
        r@ == spec_lower_map(m@),
{
    let mut out = StringMap::new();
    let mut i: usize = 0;
    proof {
        assert(m@.take(0) =~= Seq::<(Seq<char>, Seq<char>)>::empty());
    }
    while i < m.len()
        invariant
            i <= m@.len(),
            out.wf(),
            out@ == spec_lower_map(m@.take(i as int)),
        decreases m@.len() - i,
    {
        let e = m.entry_at(i);
        let mut kb = str_bytes(e.0.as_str());
        lower_bytes_in_place(&mut kb);
        let lk = bytes_to_string(&kb);
        assert(lk@ == lower_key(m@[i as int].0));
        out.insert(lk, e.1.clone());
        proof {
            assert(m@.take(i + 1).drop_last() =~= m@.take(i as int));
            assert(m@.take(i + 1).last() == m@[i as int]);
        }
        i = i + 1;
    }
    proof {
        assert(m@.take(m@.len() as int) =~= m@);
    }
    out
}

/// What to do about the request body, decided from the declared
/// `CONTENT_LENGTH` before a single byte of standard input is read.
pub enum BodyPlan {
    /// No body is to be read.
    NoBody,
    /// Exactly this many bytes are to be read from standard input.
    ReadExactly(usize),
    /// The declared length exceeds the ceiling: answer 413 and read
    /// nothing.
    TooLarge,
}

/// The body plan of a declared content length: a value that parses to a
/// positive count within the ceiling is read exactly; one beyond the
/// ceiling stops ingestion before any read; anything absent, zero, or
/// unparsable means no body.
pub open spec fn spec_body_plan(cl: Option<Seq<char>>, max_body_size: int) -> BodyPlan {
    match cl {
        Some(s) => match spec_parse_usize(encode_utf8(s)) {
            Some(n) => if n == 0 {
                BodyPlan::NoBody
            } else if n > max_body_size {
                BodyPlan::TooLarge
            } else {
                BodyPlan::ReadExactly(n as usize)
            },
            None => BodyPlan::NoBody,
        },
        None => BodyPlan::NoBody,
    }
}

/// Decides how much of standard input to read, from the declared
/// `CONTENT_LENGTH` alone: an oversized declaration is refused before any
/// read happens.
pub fn plan_request_body(content_length: Option<&String>, max_body_size: usize) -> (r: BodyPlan)
    ensures
        r == spec_body_plan(
            match content_length {
                Some(s) => Some(s@),
                None => None,
            },
            max_body_size as int,
        ),
{
    match content_length {
        Some(s) => {
            proof {
                crate::text::lemma_parse_usize_range(encode_utf8(s@));
            }
            match parse_usize(s.as_str()) {
                Some(n) => {
                    if n == 0 {
                        BodyPlan::NoBody
                    } else if n > max_body_size {
                        BodyPlan::TooLarge
                    } else {
                        BodyPlan::ReadExactly(n)
                    }
                },
                None => BodyPlan::NoBody,
            }
        },
        None => BodyPlan::NoBody,
    }
}

/// The request path of a `PATH_INFO` value: `/` when the variable is
/// absent.
pub open spec fn spec_cgi_path(path_info: Option<Seq<char>>) -> Seq<char> {
    match path_info {
        Some(p) => p,
        None => "/"@,
    }
}

/// Assembles a Request from the values of one CGI invocation: the method
/// parsed case-insensitively, the path defaulted to `/`, the query string
/// decoded, the environment-derived headers sanitized and lower-cased, and
/// the already-read body attached. A missing or unrecognized
/// `REQUEST_METHOD` is refused. Gzip decompression is a separate step on
/// the result.
pub fn build_request(
    method_str: &str,
    path_info: Option<&String>,
    query_string: Option<&String>,
    env: &StringMap,
    body: Option<Vec<u8>>,
) -> (r: Result<Request, Error>)
    ensures
        match spec_method_from_str(method_str@) {
            Some(m) => r matches Ok(req) && req.wf() && req.method == m && req.path@
                == spec_cgi_path(
                match path_info {
                    Some(p) => Some(p@),
                    None => None,
                },
            ) && req.query_params@ == spec_parse_query(
                encode_utf8(
                    match query_string {
                        Some(q) => q@,
                        None => ""@,
                    },
                ),
            ) && req.headers@ == spec_lower_map(spec_cgi_headers(env@)) && (match (
                &req.body,
                &body,
            ) {
                (Some(a), Some(b)) => a@ == b@,
                (None, None) => true,
                _ => false,
            }) && req.context@ == Seq::<(Seq<char>, crate::context::CtxValue)>::empty(),
            None => r matches Err(e) && e is InvalidRequestBody,
        },
{
    let method = match Method::from_str(method_str) {
        Some(m) => m,
        None => {
            return Err(Error::InvalidRequestBody("unrecognized request method".to_string()));
        },
    };
    let path: String = match path_info {
        Some(p) => p.clone(),
        None => "/".to_string(),
    };
    let query_params = match query_string {
        Some(q) => parse_query_string(q.as_str()),
        None => parse_query_string(""),
    };
    let candidates = get_cgi_headers(env);
    let headers = lower_header_keys(&candidates);
    let mut req = Request::new(method, path);
    req.query_params = query_params;
    req.headers = headers;
    req.body = body;
    Ok(req)
}

} // verus!
