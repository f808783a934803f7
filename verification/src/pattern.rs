//! Route patterns: normalization to a fully anchored form, and the
//! compiled regular expression an entry matches paths with. An unparsable
//! pattern never matches anything (fail closed).
use vstd::prelude::*;
use vstd::utf8::encode_utf8;
use vstd::utf8::is_ascii_chars;
use crate::error::Error;
use crate::http::Method;
use crate::http::Request;
use crate::http::Response;
use crate::traits::Handler;
use crate::text::str_bytes;
use crate::text::bytes_to_string;
use crate::text::lossy_view;
use crate::text::lemma_encode_nonempty;
use crate::text::lemma_ascii_chars_encode;
use crate::text::lemma_ascii_bytes_decode;
use crate::text::ascii_bytes;

verus! {

#[verifier::external_type_specification]
#[verifier::external_body]
pub struct ExRegex(regex::Regex);

/// Whether the regex crate accepts a pattern: compilation succeeds or
/// fails on the pattern text alone.
pub uninterp spec fn regex_valid(pattern: Seq<char>) -> bool;

/// Whether a compiled pattern matches somewhere in a haystack: the result
/// depends on the pattern and the haystack alone.
pub uninterp spec fn regex_match(pattern: Seq<char>, path: Seq<char>) -> bool;

/// Relies on regex::Regex::new: whether compilation succeeds depends on
/// the pattern text alone; the error case is mapped to `None`.
#[verifier::external_body]
fn regex_compile(pattern: &str) -> (r: Option<regex::Regex>)
    ensures
        r is Some == regex_valid(pattern@),
{
    regex::Regex::new(pattern).ok()
}

/// The sequence without its leading `^` anchors.
pub open spec fn drop_lead_carets(b: Seq<u8>) -> Seq<u8>
    decreases b.len(),
{
    if b.len() > 0 && b[0] == 94 {
        drop_lead_carets(b.drop_first())
    } else {
        b
    }
}

/// The sequence without its trailing `$` anchors.
pub open spec fn drop_trail_dollars(b: Seq<u8>) -> Seq<u8>
    decreases b.len(),
{
    if b.len() > 0 && b.last() == 36 {
        drop_trail_dollars(b.drop_last())
    } else {
        b
    }
}

/// A caret-free boundary pins `drop_lead_carets` down.
proof fn lemma_drop_lead_at(b: Seq<u8>, s: int)
    requires
        0 <= s <= b.len(),
        forall|j: int| 0 <= j < s ==> b[j] == 94,
        s < b.len() ==> b[s] != 94,
    ensures
        drop_lead_carets(b) == b.skip(s),
    decreases s,
{
    if s == 0 {
        assert(b.skip(0) =~= b);
    } else {
        let t = b.drop_first();
        assert forall|j: int| 0 <= j < s - 1 implies t[j] == 94 by {
            assert(t[j] == b[j + 1]);
        }
        lemma_drop_lead_at(t, s - 1);
        assert(t.skip(s - 1) =~= b.skip(s));
    }
}

/// A dollar-free boundary pins `drop_trail_dollars` down.
proof fn lemma_drop_trail_at(b: Seq<u8>, e: int)
    requires
        0 <= e <= b.len(),
        forall|j: int| e <= j < b.len() ==> b[j] == 36,
        e > 0 ==> b[e - 1] != 36,
    ensures
        drop_trail_dollars(b) == b.take(e),
    decreases b.len() - e,
{
    if e == b.len() {
        assert(b.take(e) =~= b);
    } else {
        let t = b.drop_last();
        assert forall|j: int| e <= j < t.len() implies t[j] == 36 by {
            assert(t[j] == b[j]);
        }
        lemma_drop_trail_at(t, e);
        assert(t.take(e) =~= b.take(e));
    }
}

/// Whether a pattern's byte form already carries both anchors.
pub open spec fn spec_is_anchored(b: Seq<u8>) -> bool {
    b.len() > 0 && b[0] == 94 && b.last() == 36
}

/// The fully anchored form of a non-empty pattern: a pattern that starts
/// with `^` and ends with `$` stands; any other is stripped of leading
/// `^` and trailing `$` anchors and wrapped in a fresh `^...$` pair.
pub open spec fn spec_safe_pattern(s: Seq<char>) -> Seq<char> {
    let b = encode_utf8(s);
    if spec_is_anchored(b) {
        s
    } else {
        lossy_view(seq![94u8] + drop_trail_dollars(drop_lead_carets(b)) + seq![36u8])
    }
}

/// Normalizes a route pattern to its fully anchored form; the empty
/// pattern is rejected with `InvalidRequestBody`.
#[verifier::loop_isolation(false)]
pub fn ensure_safe_pattern(pattern: &str) -> (r: Result<String, Error>)
    ensures
        pattern@.len() == 0 ==> (r matches Err(e) && e is InvalidRequestBody),
        pattern@.len() > 0 ==> (r matches Ok(p) && p@ == spec_safe_pattern(pattern@)),
{
    let bytes = str_bytes(pattern);
    if bytes.len() == 0 {
        assert(pattern@.len() == 0) by {
            if pattern@.len() > 0 {
                lemma_encode_nonempty(pattern@);
            }
        }
        return Err(Error::InvalidRequestBody("Empty regex pattern is not allowed".to_string()));
    }
    assert(pattern@.len() > 0);
    let n = bytes.len();
    if bytes[0] == 94 && bytes[n - 1] == 36 {
        assert(spec_is_anchored(bytes@));
        return Ok(pattern.to_owned());
    }
    assert(!spec_is_anchored(bytes@));
    let mut s: usize = 0;
    while s < n && bytes[s] == 94
        invariant
            s <= n,
            forall|j: int| 0 <= j < s ==> bytes@[j] == 94,
        decreases n - s,
    {
        s = s + 1;
    }
    proof {
        lemma_drop_lead_at(bytes@, s as int);
    }
    let ghost mid0 = bytes@.skip(s as int);
    let mut e: usize = n;
    while e > s && bytes[e - 1] == 36
        invariant
            s <= e <= n,
            forall|j: int| e <= j < n ==> bytes@[j] == 36,
        decreases e,
    {
        e = e - 1;
    }
    proof {
        assert forall|j: int| e - s <= j < mid0.len() implies mid0[j] == 36 by {
            assert(mid0[j] == bytes@[j + s]);
        }
        if e > s {
            assert(mid0[e - s - 1] == bytes@[e - 1]);
        }
        lemma_drop_trail_at(mid0, e - s as int);
    }
    let mut out: Vec<u8> = Vec::new();
    out.push(94);
    let mid = vstd::slice::slice_subrange(bytes.as_slice(), s, e);
    out.extend_from_slice(mid);
    out.push(36);
    proof {
        assert(mid0.take(e - s as int) =~= bytes@.subrange(s as int, e as int));
        assert(out@ =~= seq![94u8] + drop_trail_dollars(drop_lead_carets(bytes@)) + seq![36u8]);
    }
    Ok(bytes_to_string(&out))
}

/// On ASCII input, the normalized pattern is anchored at both ends.
pub proof fn lemma_safe_pattern_anchored(s: Seq<char>)
    requires
        s.len() > 0,
        is_ascii_chars(s),
    ensures
        spec_safe_pattern(s).len() >= 2,
        spec_safe_pattern(s)[0] == '^',
        spec_safe_pattern(s).last() == '$',
{
    let b = encode_utf8(s);
    lemma_ascii_chars_encode(s);
    if spec_is_anchored(b) {
        assert(s[0] as u8 == b[0]);
        assert(s.last() as u8 == b.last());
        assert('\0' <= s[0] <= '\u{7f}');
        assert('\0' <= s.last() <= '\u{7f}');
        assert(s[0] == '^');
        assert(s.last() == '$');
    } else {
        let mid = drop_trail_dollars(drop_lead_carets(b));
        let w = seq![94u8] + mid + seq![36u8];
        lemma_drop_carets_ascii(b);
        lemma_drop_dollars_ascii(drop_lead_carets(b));
        assert forall|i: int| 0 <= i < w.len() implies #[trigger] w[i] < 128 by {
            if 1 <= i < 1 + mid.len() {
                assert(w[i] == mid[i - 1]);
            }
        }
        lemma_ascii_bytes_decode(w);
        assert(spec_safe_pattern(s) == crate::text::bytes_as_chars(w));
        assert(crate::text::bytes_as_chars(w)[0] == '^');
        assert(crate::text::bytes_as_chars(w).last() == (36u8 as char));
    }
}

/// Dropping leading carets keeps an ASCII sequence ASCII.
proof fn lemma_drop_carets_ascii(b: Seq<u8>)
    requires
        ascii_bytes(b),
    ensures
        ascii_bytes(drop_lead_carets(b)),
    decreases b.len(),
{
    if b.len() > 0 && b[0] == 94 {
        let t = b.drop_first();
        assert forall|j: int| 0 <= j < t.len() implies #[trigger] t[j] < 128 by {
            assert(t[j] == b[j + 1]);
        }
        lemma_drop_carets_ascii(t);
    }
}

/// Dropping trailing dollars keeps an ASCII sequence ASCII.
proof fn lemma_drop_dollars_ascii(b: Seq<u8>)
    requires
        ascii_bytes(b),
    ensures
        ascii_bytes(drop_trail_dollars(b)),
    decreases b.len(),
{
    if b.len() > 0 && b.last() == 36 {
        let t = b.drop_last();
        assert forall|j: int| 0 <= j < t.len() implies #[trigger] t[j] < 128 by {
            assert(t[j] == b[j]);
        }
        lemma_drop_dollars_ascii(t);
    }
}

/// A route pattern with its lazily usable compiled form: the compiled
/// automaton, when present, always stems from the stored source text, so a
/// match outcome is a function of the source and the path.
pub struct RoutePattern {
    source: String,
    compiled: Option<regex::Regex>,
}

impl RoutePattern {
    /// The pattern text.
    pub closed spec fn src(&self) -> Seq<char> {
        self.source@
    }

    /// Whether the pattern compiled.
    pub closed spec fn compiles(&self) -> bool {
        self.compiled is Some
    }

    /// Compiles a pattern; one the regex crate rejects is kept but can
    /// never match (fail closed).
    pub fn new(pattern: String) -> (r: RoutePattern)
        ensures
            r.src() == pattern@,
            r.compiles() == regex_valid(pattern@),
    {
        let compiled = regex_compile(pattern.as_str());
        RoutePattern { source: pattern, compiled }
    }

    /// The pattern text.
    pub fn source(&self) -> (r: &String)
        ensures
            r@ == self.src(),
    {
        &self.source
    }

    /// Whether the path matches the compiled pattern; a pattern that did
    /// not compile matches nothing.
    pub fn is_match(&self, path: &str) -> (r: bool)
        ensures
            r == (self.compiles() && regex_match(self.src(), path@)),
    {
        match &self.compiled {
            Some(_) => pattern_is_match(self, path),
            None => false,
        }
    }
}

/// Relies on regex::Regex::is_match: the result depends on the pattern
/// and the haystack alone. The compiled automaton held by a RoutePattern
/// always stems from its private source field — the only constructor
/// compiles exactly that text — so the outcome is `regex_match` of the
/// source and the path.
#[verifier::external_body]
fn pattern_is_match(p: &RoutePattern, path: &str) -> (r: bool)
    requires
        p.compiles(),
    ensures
        r == regex_match(p.src(), path@),
{
    match &p.compiled {
        Some(re) => re.is_match(path),
        None => false,
    }
}

/// One route entry: an HTTP method, an anchored pattern, and the handler
/// it guards. The entry matches a request exactly when the method equals
/// its own and the compiled pattern matches the path; a pattern the regex
/// crate rejected matches nothing.
pub struct RouteHandler {
    /// The method this entry answers.
    pub method: Method,
    /// The compiled, anchored path pattern.
    pub pattern: RoutePattern,
    /// The handler that answers a matched request.
    pub inner: Box<dyn Handler>,
}

impl RouteHandler {
    /// Builds a route entry: the pattern is normalized to its fully
    /// anchored form and compiled; the empty pattern is rejected.
    pub fn try_new(method: Method, pattern: &str, inner: Box<dyn Handler>) -> (r: Result<
        RouteHandler,
        Error,
    >)
        ensures
            pattern@.len() == 0 ==> (r matches Err(e) && e is InvalidRequestBody),
            pattern@.len() > 0 ==> (r matches Ok(h) && h.method == method && h.pattern.src()
                == spec_safe_pattern(pattern@) && h.pattern.compiles() == regex_valid(
                spec_safe_pattern(pattern@),
            )),
    {
        match ensure_safe_pattern(pattern) {
            Ok(p) => Ok(RouteHandler { method, pattern: RoutePattern::new(p), inner }),
            Err(e) => Err(e),
        }
    }
}

impl Handler for RouteHandler {
    /// The entry matches exactly when the method equals its own and the
    /// compiled pattern matches the path; an uncompilable pattern never
    /// matches (fail closed).
    open spec fn spec_matches(&self, path: Seq<char>, method: Method) -> bool {
        method == self.method && self.pattern.compiles() && regex_match(self.pattern.src(), path)
    }

    open spec fn spec_pattern(&self) -> Seq<char> {
        self.pattern.src()
    }

    /// The entry promises whatever its inner handler promises.
    open spec fn spec_result_ok(&self, req: Request, r: Result<Response, Error>) -> bool {
        self.inner.spec_result_ok(req, r)
    }

    fn matches(&self, path: &str, method: &Method) -> (r: bool) {
        *method == self.method && self.pattern.is_match(path)
    }

    fn path_pattern(&self) -> (r: &str) {
        self.pattern.source().as_str()
    }

    fn handle(&self, req: Request) -> (r: Result<Response, Error>) {
        self.inner.handle(req)
    }
}

} // verus!
