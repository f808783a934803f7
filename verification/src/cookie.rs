//! Cookies: validated name/value pairs with their attributes, and the
//! `Set-Cookie` header value they serialize to, including the RFC 1123
//! date an `Expires` attribute carries.
use vstd::prelude::*;
use vstd::utf8::encode_utf8;
use vstd::slice::slice_subrange;
use crate::http::Response;
use crate::strmap::StringMap;
use crate::kvseq::kv_insert;
use crate::kvseq::kv_lookup;
use crate::text::find_byte;
use crate::text::lemma_find_byte_at;
use crate::text::lemma_find_byte_none;
use crate::text::split_on;
use crate::text::lemma_split_prefix;
use crate::text::lemma_split_whole;
use crate::error::Error;
use crate::text::str_bytes;
use crate::text::bytes_to_string;
use crate::text::lossy_view;
use crate::text::dec_bytes;
use crate::text::push_decimal;
use crate::validate::validate_cookie_name_value;
use crate::validate::is_header_value_valid;
use crate::validate::spec_cookie_name_valid;
use crate::validate::spec_cookie_value_valid;
use crate::validate::spec_header_value_valid;

verus! {

/// The `SameSite` attribute values. The `None` attribute value is named
/// `Omit` here; it still serializes as `None`.
#[derive(Debug, Clone, Copy, PartialEq, Eq, Structural)]
pub enum SameSite {
    Strict,
    Lax,
    Omit,
}

pub open spec fn spec_same_site_name(s: SameSite) -> Seq<char> {
    match s {
        SameSite::Strict => "Strict"@,
        SameSite::Lax => "Lax"@,
        SameSite::Omit => "None"@,
    }
}

impl SameSite {
    /// The attribute value as written into a `Set-Cookie` header.
    pub fn as_str(&self) -> (r: &'static str)
        ensures
            r@ == spec_same_site_name(*self),
    {
        match self {
            SameSite::Strict => "Strict",
            SameSite::Lax => "Lax",
            SameSite::Omit => "None",
        }
    }
}

/// A UTC timestamp as year, month, day and time of day: what an
/// `Expires` attribute is written from.
#[derive(Debug, Clone, Copy, PartialEq, Eq, Structural)]
pub struct HttpDate {
    pub year: u16,
    pub month: u8,
    pub day: u8,
    pub hour: u8,
    pub minute: u8,
    pub second: u8,
}

impl HttpDate {
    /// The fields name a representable calendar timestamp.
    pub open spec fn wf(&self) -> bool {
        1 <= self.year <= 9999 && 1 <= self.month <= 12 && 1 <= self.day <= 31 && self.hour <= 23
            && self.minute <= 59 && self.second <= 59
    }
}

/// The day of the week of a proleptic-Gregorian date, counted with
/// Zeller's congruence: 0 is Saturday, 1 Sunday, and so on to 6 Friday.
pub open spec fn spec_weekday(y: int, m: int, d: int) -> int {
    let mm = if m < 3 {
        m + 12
    } else {
        m
    };
    let yy = if m < 3 {
        y - 1
    } else {
        y
    };
    let k = yy % 100;
    let j = yy / 100;
    (d + (13 * (mm + 1)) / 5 + k + k / 4 + j / 4 + 5 * j) % 7
}

pub open spec fn spec_weekday_name(h: int) -> Seq<char> {
    if h == 0 {
        "Sat"@
    } else if h == 1 {
        "Sun"@
    } else if h == 2 {
        "Mon"@
    } else if h == 3 {
        "Tue"@
    } else if h == 4 {
        "Wed"@
    } else if h == 5 {
        "Thu"@
    } else {
        "Fri"@
    }
}

pub open spec fn spec_month_name(m: int) -> Seq<char> {
    if m == 1 {
        "Jan"@
    } else if m == 2 {
        "Feb"@
    } else if m == 3 {
        "Mar"@
    } else if m == 4 {
        "Apr"@
    } else if m == 5 {
        "May"@
    } else if m == 6 {
        "Jun"@
    } else if m == 7 {
        "Jul"@
    } else if m == 8 {
        "Aug"@
    } else if m == 9 {
        "Sep"@
    } else if m == 10 {
        "Oct"@
    } else if m == 11 {
        "Nov"@
    } else {
        "Dec"@
    }
}

/// A number in two digits, zero-padded.
pub open spec fn pad2(n: int) -> Seq<u8> {
    if n < 10 {
        seq![48u8, (48 + n) as u8]
    } else {
        dec_bytes(n)
    }
}

/// A year in four digits, zero-padded.
pub open spec fn pad4(n: int) -> Seq<u8> {
    if n < 10 {
        seq![48u8, 48u8, 48u8] + dec_bytes(n)
    } else if n < 100 {
        seq![48u8, 48u8] + dec_bytes(n)
    } else if n < 1000 {
        seq![48u8] + dec_bytes(n)
    } else {
        dec_bytes(n)
    }
}

/// The date half of the RFC 1123 text: `Tue, 31 Dec 2024`.
pub open spec fn spec_date_part(d: HttpDate) -> Seq<u8> {
    encode_utf8(spec_weekday_name(spec_weekday(d.year as int, d.month as int, d.day as int)))
        + encode_utf8(", "@) + pad2(d.day as int) + encode_utf8(" "@) + encode_utf8(
        spec_month_name(d.month as int),
    ) + encode_utf8(" "@) + pad4(d.year as int)
}

/// The time half of the RFC 1123 text: ` 23:59:59 GMT`.
pub open spec fn spec_time_part(d: HttpDate) -> Seq<u8> {
    encode_utf8(" "@) + pad2(d.hour as int) + encode_utf8(":"@) + pad2(d.minute as int)
        + encode_utf8(":"@) + pad2(d.second as int) + encode_utf8(" GMT"@)
}

/// The RFC 1123 text of a date, as `Expires` carries it:
/// `Tue, 31 Dec 2024 23:59:59 GMT`.
pub open spec fn spec_http_date(d: HttpDate) -> Seq<u8> {
    spec_date_part(d) + spec_time_part(d)
}

/// Appends a number in two zero-padded digits.
fn push_pad2(out: &mut Vec<u8>, n: u64)
    ensures
        final(out)@ == old(out)@ + pad2(n as int),
{
    if n < 10 {
        out.push(48);
        out.push(48 + (n as u8));
        assert(out@ =~= old(out)@ + pad2(n as int));
    } else {
        push_decimal(out, n);
    }
}

/// Appends a year in four zero-padded digits.
fn push_pad4(out: &mut Vec<u8>, n: u64)
    ensures
        final(out)@ == old(out)@ + pad4(n as int),
{
    if n < 10 {
        out.push(48);
        out.push(48);
        out.push(48);
        let ghost mid = out@;
        assert(mid =~= old(out)@ + seq![48u8, 48u8, 48u8]);
        push_decimal(out, n);
        assert(out@ =~= old(out)@ + pad4(n as int));
    } else if n < 100 {
        out.push(48);
        out.push(48);
        let ghost mid = out@;
        assert(mid =~= old(out)@ + seq![48u8, 48u8]);
        push_decimal(out, n);
        assert(out@ =~= old(out)@ + pad4(n as int));
    } else if n < 1000 {
        out.push(48);
        let ghost mid = out@;
        assert(mid =~= old(out)@ + seq![48u8]);
        push_decimal(out, n);
        assert(out@ =~= old(out)@ + pad4(n as int));
    } else {
        push_decimal(out, n);
    }
}

/// Appends the UTF-8 bytes of a string.
fn push_text(out: &mut Vec<u8>, s: &str)
    ensures
        final(out)@ == old(out)@ + encode_utf8(s@),
{
    let b = s.as_bytes();
    out.extend_from_slice(b);
    assert(out@ =~= old(out)@ + encode_utf8(s@));
}

/// The weekday name of a date.
fn weekday_name_of(d: &HttpDate) -> (r: &'static str)
    requires
        d.wf(),
    ensures
        r@ == spec_weekday_name(spec_weekday(d.year as int, d.month as int, d.day as int)),
{
    let y = d.year as u64;
    let m = d.month as u64;
    let day = d.day as u64;
    let mm: u64 = if m < 3 {
        m + 12
    } else {
        m
    };
    let yy: u64 = if m < 3 {
        y - 1
    } else {
        y
    };
    let k = yy % 100;
    let j = yy / 100;
    let h = (day + (13 * (mm + 1)) / 5 + k + k / 4 + j / 4 + 5 * j) % 7;
    assert(h as int == spec_weekday(d.year as int, d.month as int, d.day as int));
    if h == 0 {
        "Sat"
    } else if h == 1 {
        "Sun"
    } else if h == 2 {
        "Mon"
    } else if h == 3 {
        "Tue"
    } else if h == 4 {
        "Wed"
    } else if h == 5 {
        "Thu"
    } else {
        "Fri"
    }
}

/// The three-letter month name.
fn month_name_of(m: u8) -> (r: &'static str)
    requires
        1 <= m <= 12,
    ensures
        r@ == spec_month_name(m as int),
{
    if m == 1 {
        "Jan"
    } else if m == 2 {
        "Feb"
    } else if m == 3 {
        "Mar"
    } else if m == 4 {
        "Apr"
    } else if m == 5 {
        "May"
    } else if m == 6 {
        "Jun"
    } else if m == 7 {
        "Jul"
    } else if m == 8 {
        "Aug"
    } else if m == 9 {
        "Sep"
    } else if m == 10 {
        "Oct"
    } else if m == 11 {
        "Nov"
    } else {
        "Dec"
    }
}

/// Appends the date half of the RFC 1123 text.
fn push_date_part(out: &mut Vec<u8>, d: &HttpDate)
    requires
        d.wf(),
    ensures
        final(out)@ == old(out)@ + spec_date_part(*d),
{
    push_text(out, weekday_name_of(d));
    push_text(out, ", ");
    push_pad2(out, d.day as u64);
    push_text(out, " ");
    push_text(out, month_name_of(d.month));
    push_text(out, " ");
    push_pad4(out, d.year as u64);
}

/// Appends the time half of the RFC 1123 text.
fn push_time_part(out: &mut Vec<u8>, d: &HttpDate)
    requires
        d.wf(),
    ensures
        final(out)@ == old(out)@ + spec_time_part(*d),
{
    push_text(out, " ");
    push_pad2(out, d.hour as u64);
    push_text(out, ":");
    push_pad2(out, d.minute as u64);
    push_text(out, ":");
    push_pad2(out, d.second as u64);
    push_text(out, " GMT");
}

/// Appends the RFC 1123 text of a date.
fn push_http_date(out: &mut Vec<u8>, d: &HttpDate)
    requires
        d.wf(),
    ensures
        final(out)@ == old(out)@ + spec_http_date(*d),
{
    push_date_part(out, d);
    push_time_part(out, d);
}

/// An HTTP cookie: a validated name/value pair and its attributes.
#[derive(Debug, Clone)]
pub struct Cookie {
    pub name: String,
    pub value: String,
    pub path: Option<String>,
    pub domain: Option<String>,
    pub expires: Option<HttpDate>,
    pub max_age: Option<u64>,
    pub secure: bool,
    pub http_only: bool,
    pub same_site: Option<SameSite>,
}

/// The front of the header value: the pair and the `Path`, `Domain`, and
/// `Expires` attributes; a `Path` or `Domain` value that fails the
/// sanitizer is skipped rather than written.
pub open spec fn spec_cookie_front(c: &Cookie) -> Seq<u8> {
    encode_utf8(c.name@) + seq![61u8] + encode_utf8(c.value@) + (match c.path {
        Some(p) => if spec_header_value_valid(p@) {
            encode_utf8("; Path="@) + encode_utf8(p@)
        } else {
            Seq::<u8>::empty()
        },
        None => Seq::<u8>::empty(),
    }) + (match c.domain {
        Some(d) => if spec_header_value_valid(d@) {
            encode_utf8("; Domain="@) + encode_utf8(d@)
        } else {
            Seq::<u8>::empty()
        },
        None => Seq::<u8>::empty(),
    }) + (match c.expires {
        Some(d) => encode_utf8("; Expires="@) + spec_http_date(d),
        None => Seq::<u8>::empty(),
    })
}

/// The tail of the header value: the `Max-Age`, `Secure`, `HttpOnly`, and
/// `SameSite` attributes.
pub open spec fn spec_cookie_tail(c: &Cookie) -> Seq<u8> {
    (match c.max_age {
        Some(a) => encode_utf8("; Max-Age="@) + dec_bytes(a as int),
        None => Seq::<u8>::empty(),
    }) + (if c.secure {
        encode_utf8("; Secure"@)
    } else {
        Seq::<u8>::empty()
    }) + (if c.http_only {
        encode_utf8("; HttpOnly"@)
    } else {
        Seq::<u8>::empty()
    }) + (match c.same_site {
        Some(s) => encode_utf8("; SameSite="@) + encode_utf8(spec_same_site_name(s)),
        None => Seq::<u8>::empty(),
    })
}

/// The `Set-Cookie` header value of a cookie, in bytes: the pair, then
/// each attribute that is set, in a fixed order.
pub open spec fn spec_cookie_header(c: &Cookie) -> Seq<u8> {
    spec_cookie_front(c) + spec_cookie_tail(c)
}

impl Cookie {
    /// A set expiry names a representable date.
    pub open spec fn wf(&self) -> bool {
        match self.expires {
            Some(d) => d.wf(),
            None => true,
        }
    }

    /// Creates a cookie, rejecting a name or value the sanitizer refuses.
    pub fn try_new(name: &str, value: &str) -> (r: Result<Cookie, Error>)
        ensures
            spec_cookie_name_valid(name@) && spec_cookie_value_valid(value@) ==> (r matches Ok(c)
                && c.name@ == name@ && c.value@ == value@ && c.path is None && c.domain is None
                && c.expires is None && c.max_age is None && !c.secure && !c.http_only
                && c.same_site is None && c.wf()),
            !(spec_cookie_name_valid(name@) && spec_cookie_value_valid(value@)) ==> (r matches Err(
                e,
            ) && e is InvalidCookie),
    {
        match validate_cookie_name_value(name, value) {
            Ok(_) => Ok(
                Cookie {
                    name: name.to_string(),
                    value: value.to_string(),
                    path: None,
                    domain: None,
                    expires: None,
                    max_age: None,
                    secure: false,
                    http_only: false,
                    same_site: None,
                },
            ),
            Err(e) => Err(e),
        }
    }

    /// Creates a cookie; an invalid name or value is replaced by the safe
    /// pair `invalid=` instead of failing.
    pub fn new(name: &str, value: &str) -> (r: Cookie)
        ensures
            r.wf(),
            spec_cookie_name_valid(name@) && spec_cookie_value_valid(value@) ==> r.name@ == name@
                && r.value@ == value@,
            !(spec_cookie_name_valid(name@) && spec_cookie_value_valid(value@)) ==> r.name@
                == "invalid"@ && r.value@ == ""@,
            r.path is None && r.domain is None && r.expires is None && r.max_age is None
                && !r.secure && !r.http_only && r.same_site is None,
    {
        match Cookie::try_new(name, value) {
            Ok(c) => c,
            Err(_) => Cookie {
                name: "invalid".to_string(),
                value: "".to_string(),
                path: None,
                domain: None,
                expires: None,
                max_age: None,
                secure: false,
                http_only: false,
                same_site: None,
            },
        }
    }

    /// Sets the `Path` attribute.
    pub fn with_path(self, path: &str) -> (r: Cookie)
        ensures
            r.name == self.name && r.value == self.value && (r.path matches Some(p) && p@
                == path@) && r.domain == self.domain && r.expires == self.expires && r.max_age
                == self.max_age && r.secure == self.secure && r.http_only == self.http_only
                && r.same_site == self.same_site,
    {
        let mut s = self;
        s.path = Some(path.to_string());
        s
    }

    /// Sets the `Domain` attribute.
    pub fn with_domain(self, domain: &str) -> (r: Cookie)
        ensures
            r.name == self.name && r.value == self.value && r.path == self.path && (
            r.domain matches Some(d) && d@ == domain@) && r.expires == self.expires && r.max_age
                == self.max_age && r.secure == self.secure && r.http_only == self.http_only
                && r.same_site == self.same_site,
    {
        let mut s = self;
        s.domain = Some(domain.to_string());
        s
    }

    /// Sets the `Expires` attribute.
    pub fn with_expires(self, expires: HttpDate) -> (r: Cookie)
        ensures
            r == (Cookie { expires: Some(expires), ..self }),
    {
        let mut s = self;
        s.expires = Some(expires);
        s
    }

    /// Sets the `Max-Age` attribute, in seconds.
    pub fn with_max_age(self, max_age_seconds: u64) -> (r: Cookie)
        ensures
            r == (Cookie { max_age: Some(max_age_seconds), ..self }),
    {
        let mut s = self;
        s.max_age = Some(max_age_seconds);
        s
    }

    /// Sets the `Secure` flag.
    pub fn secure(self, secure: bool) -> (r: Cookie)
        ensures
            r == (Cookie { secure, ..self }),
    {
        let mut s = self;
        s.secure = secure;
        s
    }

    /// Sets the `HttpOnly` flag.
    pub fn http_only(self, http_only: bool) -> (r: Cookie)
        ensures
            r == (Cookie { http_only, ..self }),
    {
        let mut s = self;
        s.http_only = http_only;
        s
    }

    /// Sets the `SameSite` attribute.
    pub fn with_same_site(self, same_site: SameSite) -> (r: Cookie)
        ensures
            r == (Cookie { same_site: Some(same_site), ..self }),
    {
        let mut s = self;
        s.same_site = Some(same_site);
        s
    }

    /// Serializes the cookie into its `Set-Cookie` header value: the pair,
    /// then each set attribute; a `Path` or `Domain` value that fails the
    /// sanitizer is skipped.
    pub fn to_header_value(&self) -> (r: String)
        requires
            self.wf(),
        ensures
            r@ == lossy_view(spec_cookie_header(self)),
    {
        let mut out: Vec<u8> = Vec::new();
        push_cookie_front(self, &mut out);
        push_cookie_tail(self, &mut out);
        bytes_to_string(&out)
    }
}

/// Appends the pair and the `Path`, `Domain`, and `Expires` attributes.
#[verifier::rlimit(100)]
fn push_cookie_front(c: &Cookie, out: &mut Vec<u8>)
    requires
        c.wf(),
    ensures
        final(out)@ == old(out)@ + spec_cookie_front(c),
{
    let ghost base = out@;
    push_text(out, c.name.as_str());
    out.push(61);
    push_text(out, c.value.as_str());
    assert(out@ =~= base + (encode_utf8(c.name@) + seq![61u8] + encode_utf8(c.value@)));
    let ghost m1 = out@;
    match &c.path {
        Some(p) => {
            if is_header_value_valid(p.as_str()) {
                push_text(out, "; Path=");
                push_text(out, p.as_str());
                assert(out@ =~= m1 + (encode_utf8("; Path="@) + encode_utf8(p@)));
            }
        },
        None => {},
    }
    let ghost m2 = out@;
    match &c.domain {
        Some(d) => {
            if is_header_value_valid(d.as_str()) {
                push_text(out, "; Domain=");
                push_text(out, d.as_str());
                assert(out@ =~= m2 + (encode_utf8("; Domain="@) + encode_utf8(d@)));
            }
        },
        None => {},
    }
    let ghost m3 = out@;
    match &c.expires {
        Some(d) => {
            push_text(out, "; Expires=");
            push_http_date(out, d);
            assert(out@ =~= m3 + (encode_utf8("; Expires="@) + spec_http_date(*d)));
        },
        None => {},
    }
}

/// Appends the `Max-Age`, `Secure`, `HttpOnly`, and `SameSite` attributes.
#[verifier::rlimit(100)]
fn push_cookie_tail(c: &Cookie, out: &mut Vec<u8>)
    ensures
        final(out)@ == old(out)@ + spec_cookie_tail(c),
{
    let ghost base = out@;
    match &c.max_age {
        Some(a) => {
            push_text(out, "; Max-Age=");
            push_decimal(out, *a);
            assert(out@ =~= base + (encode_utf8("; Max-Age="@) + dec_bytes(*a as int)));
        },
        None => {},
    }
    let ghost m1 = out@;
    if c.secure {
        push_text(out, "; Secure");
    }
    let ghost m2 = out@;
    if c.http_only {
        push_text(out, "; HttpOnly");
    }
    let ghost m3 = out@;
    match &c.same_site {
        Some(s) => {
            push_text(out, "; SameSite=");
            push_text(out, s.as_str());
            assert(out@ =~= m3 + (encode_utf8("; SameSite="@) + encode_utf8(spec_same_site_name(
                *s,
            ))));
        },
        None => {},
    }
}


/// What one `;`-separated piece of a `Cookie` header contributes: the
/// piece is trimmed; with a `=` present, what stands before the first one
/// is the name and the rest the value; a piece without `=` contributes
/// nothing.
pub open spec fn spec_cookie_piece_step(
    acc: Seq<(Seq<char>, Seq<char>)>,
    p: Seq<u8>,
) -> Seq<(Seq<char>, Seq<char>)> {
    let t = crate::cgi_frame::trim_bytes(p);
    let e = find_byte(t, 61);
    if e == -1 {
        acc
    } else {
        kv_insert(
            acc,
            crate::text::lossy_view(t.take(e)),
            crate::text::lossy_view(t.skip(e + 1)),
        )
    }
}

pub open spec fn spec_cookie_pieces(
    ps: Seq<Seq<u8>>,
) -> Seq<(Seq<char>, Seq<char>)>
    decreases ps.len(),
{
    if ps.len() == 0 {
        Seq::<(Seq<char>, Seq<char>)>::empty()
    } else {
        spec_cookie_piece_step(spec_cookie_pieces(ps.drop_last()), ps.last())
    }
}

/// The cookie pairs of a `Cookie` request header: pieces split on `;`,
/// trimmed, and taken as `name=value` where a `=` is present.
pub open spec fn spec_extract_cookies(header: Option<Seq<char>>) -> Seq<(Seq<char>, Seq<char>)> {
    match header {
        Some(h) => spec_cookie_pieces(split_on(encode_utf8(h), 59)),
        None => Seq::<(Seq<char>, Seq<char>)>::empty(),
    }
}

/// Stores the trimmed pair of one cookie piece, if it carries a `=`.
#[verifier::loop_isolation(false)]
fn insert_cookie_piece(piece: &[u8], out: &mut StringMap)
    requires
        old(out).wf(),
    ensures
        final(out).wf(),
        final(out)@ == spec_cookie_piece_step(old(out)@, piece@),
{
    let t = crate::cgi_frame::trim_ws(piece);
    let mut e: usize = 0;
    let mut found = false;
    while e < t.len() && !found
        invariant
            e <= t@.len(),
            !found ==> forall|j: int| 0 <= j < e ==> t@[j] != 61,
            found ==> e < t@.len() && t@[e as int] == 61 && forall|j: int|
                0 <= j < e ==> t@[j] != 61,
        decreases t@.len() - e + (if found {
            0int
        } else {
            1int
        }),
    {
        if t[e] == 61 {
            found = true;
        } else {
            e = e + 1;
        }
    }
    proof {
        if found {
            lemma_find_byte_at(t@, 61, e as int);
        } else {
            lemma_find_byte_none(t@, 61);
        }
    }
    if found {
        let mut kb: Vec<u8> = Vec::new();
        kb.extend_from_slice(slice_subrange(t.as_slice(), 0, e));
        assert(kb@ =~= t@.take(e as int));
        let mut vb: Vec<u8> = Vec::new();
        vb.extend_from_slice(slice_subrange(t.as_slice(), e + 1, t.len()));
        assert(vb@ =~= t@.skip(e as int + 1));
        let k = bytes_to_string(&kb);
        let v = bytes_to_string(&vb);
        out.insert(k, v);
    }
}

/// Extracts the cookie pairs of a `Cookie` request header: pieces split
/// on `;`, trimmed, and taken as `name=value` where a `=` is present.
#[verifier::loop_isolation(false)]
pub fn extract_cookies(cookie_header: Option<&String>) -> (r: StringMap)
    ensures
        r.wf(),
        r@ == spec_extract_cookies(
            match cookie_header {
                Some(h) => Some(h@),
                None => None,
            },
        ),
{
    let mut cookies = StringMap::new();
    let header = match cookie_header {
        Some(h) => h,
        None => {
            return cookies;
        },
    };
    let bytes = crate::text::str_bytes(header.as_str());
    let ghost all = bytes@;
    let ghost pieces = split_on(all, 59);
    let mut start: usize = 0;
    let mut i: usize = 0;
    let ghost done = Seq::<Seq<u8>>::empty();
    proof {
        assert(all.skip(0) =~= all);
        assert(done + split_on(all.skip(0), 59) =~= split_on(all, 59));
    }
    while i < bytes.len()
        invariant
            start <= i <= bytes@.len(),
            bytes@ == all,
            pieces == done + split_on(all.skip(start as int), 59),
            cookies.wf(),
            cookies@ == spec_cookie_pieces(done),
            forall|j: int| start <= j < i ==> all[j] != 59,
        decreases bytes@.len() - i,
    {
        if bytes[i] == 59 {
            let piece = slice_subrange(bytes.as_slice(), start, i);
            let ghost praw = all.subrange(start as int, i as int);
            proof {
                assert(all.skip(start as int) =~= praw + (seq![59u8] + all.skip(i + 1)));
                lemma_split_prefix(praw, seq![59u8] + all.skip(i + 1), 59);
                let tail = seq![59u8] + all.skip(i + 1);
                assert(tail[0] == 59);
                assert(tail.drop_first() =~= all.skip(i + 1));
                assert(split_on(tail, 59)[0] =~= Seq::<u8>::empty());
                assert(praw + split_on(tail, 59)[0] =~= praw);
                assert(split_on(tail, 59).drop_first() =~= split_on(all.skip(i + 1), 59));
                assert(split_on(all.skip(start as int), 59) =~~= seq![praw] + split_on(
                    all.skip(i + 1),
                    59,
                ));
                assert(pieces =~~= done.push(praw) + split_on(all.skip(i + 1), 59));
            }
            insert_cookie_piece(piece, &mut cookies);
            proof {
                assert(done.push(praw).drop_last() =~= done);
                done = done.push(praw);
            }
            start = i + 1;
        }
        i = i + 1;
    }
    let piece = slice_subrange(bytes.as_slice(), start, bytes.len());
    let ghost praw = all.subrange(start as int, all.len() as int);
    proof {
        assert(praw =~= all.skip(start as int));
        lemma_split_whole(praw, 59);
        assert(pieces =~~= done.push(praw));
    }
    insert_cookie_piece(piece, &mut cookies);
    proof {
        assert(done.push(praw).drop_last() =~= done);
        assert(cookies@ == spec_cookie_pieces(pieces));
    }
    cookies
}

/// Stores a cookie's `Set-Cookie` value on a response, replacing any
/// earlier one: the header map holds one value per key.
pub fn set_cookie(response: &mut Response, cookie: &Cookie)
    requires
        old(response).wf(),
        cookie.wf(),
    ensures
        final(response).wf(),
        final(response).status == old(response).status,
        final(response).body == old(response).body,
        final(response).headers@ == kv_insert(
            old(response).headers@,
            "Set-Cookie"@,
            crate::text::lossy_view(spec_cookie_header(cookie)),
        ),
{
    let value = cookie.to_header_value();
    response.headers.insert("Set-Cookie".to_string(), value);
}

/// What storing a batch of cookies leaves on the header map: one insert
/// per cookie, in order, each overwriting the last.
pub open spec fn spec_set_cookies(
    h: Seq<(Seq<char>, Seq<char>)>,
    cs: Seq<Cookie>,
) -> Seq<(Seq<char>, Seq<char>)>
    decreases cs.len(),
{
    if cs.len() == 0 {
        h
    } else {
        kv_insert(
            spec_set_cookies(h, cs.drop_last()),
            "Set-Cookie"@,
            crate::text::lossy_view(spec_cookie_header(&cs.last())),
        )
    }
}

/// Stores every cookie of a batch in order. The header map holds one
/// value per key, so the last cookie's value is the one that remains; the
/// framer-side splitter exists for values that were deliberately joined.
#[verifier::loop_isolation(false)]
pub fn set_cookies(response: &mut Response, cookies: &Vec<Cookie>)
    requires
        old(response).wf(),
        forall|i: int| 0 <= i < cookies@.len() ==> (#[trigger] cookies@[i]).wf(),
    ensures
        final(response).wf(),
        final(response).status == old(response).status,
        final(response).body == old(response).body,
        final(response).headers@ == spec_set_cookies(old(response).headers@, cookies@),
{
    let mut i: usize = 0;
    proof {
        assert(cookies@.take(0) =~= Seq::<Cookie>::empty());
    }
    while i < cookies.len()
        invariant
            i <= cookies@.len(),
            response.wf(),
            response.status == old(response).status,
            response.body == old(response).body,
            response.headers@ == spec_set_cookies(old(response).headers@, cookies@.take(i as int)),
        decreases cookies@.len() - i,
    {
        set_cookie(response, &cookies[i]);
        proof {
            assert(cookies@.take(i + 1).drop_last() =~= cookies@.take(i as int));
            assert(cookies@.take(i + 1).last() == cookies@[i as int]);
        }
        i = i + 1;
    }
    proof {
        assert(cookies@.take(cookies@.len() as int) =~= cookies@);
    }
}

} // verus!