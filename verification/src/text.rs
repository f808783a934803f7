//! Byte-level text helpers: ASCII views, case folding, decimal formatting
//! and parsing, and the one bridge from raw bytes back to `String`.
use vstd::prelude::*;
use vstd::string::StringSliceAdditionalSpecFns;
use vstd::utf8::valid_utf8;
use vstd::utf8::decode_utf8;
use vstd::utf8::encode_utf8;
use vstd::utf8::is_ascii_chars;
use vstd::utf8::is_ascii_chars_encode_utf8;
use vstd::utf8::encode_utf8_valid_utf8;
use vstd::utf8::encode_utf8_decode_utf8;

verus! {

/// Relies on str's PartialEq: two string slices are equal exactly when
/// their character sequences are.
pub assume_specification[ <str as PartialEq<str>>::eq ](a: &str, b: &str) -> (r: bool)
    ensures
        r == (a@ == b@),
;

/// String slice equality, with the result pinned to the views.
pub fn str_eq(a: &str, b: &str) -> (r: bool)
    ensures
        r == (a@ == b@),
{
    <str as PartialEq<str>>::eq(a, b)
}

/// Each byte read as the character with the same code point.
pub open spec fn bytes_as_chars(b: Seq<u8>) -> Seq<char> {
    b.map(|_i, x: u8| x as char)
}

/// True when every byte is an ASCII code.
pub open spec fn ascii_bytes(b: Seq<u8>) -> bool {
    forall|i: int| 0 <= i < b.len() ==> #[trigger] b[i] < 128
}

/// An ASCII byte sequence is valid UTF-8 and decodes byte for byte.
pub proof fn lemma_ascii_bytes_decode(b: Seq<u8>)
    requires
        ascii_bytes(b),
    ensures
        valid_utf8(b),
        decode_utf8(b) == bytes_as_chars(b),
        is_ascii_chars(bytes_as_chars(b)),
{
    let chars = bytes_as_chars(b);
    assert forall|i: int| 0 <= i < chars.len() implies '\0' <= #[trigger] chars[i]
        <= '\u{7f}' by {
        assert(b[i] < 128);
    }
    assert(is_ascii_chars(chars));
    is_ascii_chars_encode_utf8(chars);
    assert(encode_utf8(chars) =~= b);
    encode_utf8_valid_utf8(chars);
    encode_utf8_decode_utf8(chars);
}

/// The byte encoding of an ASCII character sequence, character for character.
pub proof fn lemma_ascii_chars_encode(s: Seq<char>)
    requires
        is_ascii_chars(s),
    ensures
        encode_utf8(s) == s.map(|_i, c: char| c as u8),
        ascii_bytes(encode_utf8(s)),
        bytes_as_chars(encode_utf8(s)) == s,
{
    is_ascii_chars_encode_utf8(s);
    assert(encode_utf8(s) =~= s.map(|_i, c: char| c as u8));
    assert forall|i: int| 0 <= i < encode_utf8(s).len() implies #[trigger] encode_utf8(s)[i]
        < 128 by {
        assert(s[i] as u8 == encode_utf8(s)[i]);
        assert('\0' <= s[i] <= '\u{7f}');
    }
    assert(bytes_as_chars(encode_utf8(s)) =~= s);
}

/// What `String::from_utf8_lossy` produces on bytes that are not valid UTF-8.
pub uninterp spec fn lossy_chars(b: Seq<u8>) -> Seq<char>;

/// The characters a byte sequence is read as: the UTF-8 decoding where the
/// bytes are valid UTF-8, the lossy replacement-character reading otherwise.
pub open spec fn lossy_view(b: Seq<u8>) -> Seq<char> {
    if valid_utf8(b) {
        decode_utf8(b)
    } else {
        lossy_chars(b)
    }
}

/// Relies on String::from_utf8_lossy: valid UTF-8 input is decoded unchanged;
/// the rest depends on the bytes alone.
#[verifier::external_body]
pub(crate) fn bytes_to_string(v: &Vec<u8>) -> (s: String)
    ensures
        s@ == lossy_view(v@),
        !valid_utf8(v@) ==> s@ == lossy_chars(v@),
{
    String::from_utf8_lossy(v).into_owned()
}

/// ASCII upper-case letters are folded to lower case; all other bytes kept.
pub open spec fn to_lower_byte(b: u8) -> u8 {
    if 65 <= b && b <= 90 {
        (b + 32) as u8
    } else {
        b
    }
}

pub open spec fn lower_bytes(b: Seq<u8>) -> Seq<u8> {
    b.map(|_i, x: u8| to_lower_byte(x))
}

/// ASCII lower-case letters raised to upper case; all other bytes kept.
pub open spec fn to_upper_byte(b: u8) -> u8 {
    if 97 <= b && b <= 122 {
        (b - 32) as u8
    } else {
        b
    }
}

pub open spec fn upper_bytes(b: Seq<u8>) -> Seq<u8> {
    b.map(|_i, x: u8| to_upper_byte(x))
}

/// The canonical lower-cased form of a string, as produced by folding its
/// UTF-8 bytes: ASCII letters are lowered, everything else is untouched.
pub open spec fn lower_key(s: Seq<char>) -> Seq<char> {
    lossy_view(lower_bytes(encode_utf8(s)))
}

/// Lower-casing the bytes of an ASCII sequence keeps it ASCII.
pub proof fn lemma_lower_bytes_ascii(b: Seq<u8>)
    requires
        ascii_bytes(b),
    ensures
        ascii_bytes(lower_bytes(b)),
{
    assert forall|i: int| 0 <= i < lower_bytes(b).len() implies #[trigger] lower_bytes(b)[i]
        < 128 by {
        assert(b[i] < 128);
    }
}

pub fn lower_byte(b: u8) -> (r: u8)
    ensures
        r == to_lower_byte(b),
{
    if 65 <= b && b <= 90 {
        b + 32
    } else {
        b
    }
}

/// Folds every ASCII upper-case letter of a byte vector to lower case.
pub fn lower_bytes_in_place(v: &mut Vec<u8>)
    ensures
        final(v)@ == lower_bytes(old(v)@),
{
    let mut i: usize = 0;
    while i < v.len()
        invariant
            i <= v@.len(),
            v@.len() == old(v)@.len(),
            forall|j: int| i <= j < v@.len() ==> v@[j] == old(v)@[j],
            forall|j: int| 0 <= j < i ==> v@[j] == to_lower_byte(old(v)@[j]),
        decreases v@.len() - i,
    {
        let b = v[i];
        v[i] = lower_byte(b);
        i = i + 1;
    }
    assert(v@ =~= lower_bytes(old(v)@));
}

pub fn upper_byte(b: u8) -> (r: u8)
    ensures
        r == to_upper_byte(b),
{
    if 97 <= b && b <= 122 {
        b - 32
    } else {
        b
    }
}

/// Raises every ASCII lower-case letter of a byte vector to upper case.
pub fn upper_bytes_in_place(v: &mut Vec<u8>)
    ensures
        final(v)@ == upper_bytes(old(v)@),
{
    let mut i: usize = 0;
    while i < v.len()
        invariant
            i <= v@.len(),
            v@.len() == old(v)@.len(),
            forall|j: int| i <= j < v@.len() ==> v@[j] == old(v)@[j],
            forall|j: int| 0 <= j < i ==> v@[j] == to_upper_byte(old(v)@[j]),
        decreases v@.len() - i,
    {
        let b = v[i];
        v[i] = upper_byte(b);
        i = i + 1;
    }
    assert(v@ =~= upper_bytes(old(v)@));
}

/// The UTF-8 bytes of a string, as an owned vector.
pub fn str_bytes(s: &str) -> (r: Vec<u8>)
    ensures
        r@ == s.spec_bytes(),
        r@ == encode_utf8(s@),
{
    let bytes = s.as_bytes();
    let mut out: Vec<u8> = Vec::new();
    out.extend_from_slice(bytes);
    assert(out@ =~= s.spec_bytes());
    out
}

/// The decimal digits of `n`, most significant first.
pub open spec fn dec_bytes(n: int) -> Seq<u8>
    decreases n,
{
    if n < 10 {
        seq![(48 + if n >= 0 { n } else { 0 }) as u8]
    } else {
        dec_bytes(n / 10).push((48 + n % 10) as u8)
    }
}

/// Appends the decimal form of `n` to a byte buffer.
pub fn push_decimal(out: &mut Vec<u8>, n: u64)
    ensures
        final(out)@ == old(out)@ + dec_bytes(n as int),
    decreases n,
{
    if n < 10 {
        out.push(48 + (n as u8));
        assert(out@ =~= old(out)@ + dec_bytes(n as int));
    } else {
        push_decimal(out, n / 10);
        out.push(48 + ((n % 10) as u8));
        assert(out@ =~= old(out)@ + dec_bytes(n as int));
    }
}

/// Decimal digits are ASCII.
pub proof fn lemma_dec_bytes_ascii(n: int)
    ensures
        ascii_bytes(dec_bytes(n)),
    decreases n,
{
    if n < 10 {
    } else {
        lemma_dec_bytes_ascii(n / 10);
    }
}

pub open spec fn is_digit_byte(b: u8) -> bool {
    48 <= b && b <= 57
}

pub open spec fn all_digit_bytes(b: Seq<u8>) -> bool {
    forall|i: int| 0 <= i < b.len() ==> is_digit_byte(#[trigger] b[i])
}

/// The value of a digit string, most significant digit first.
pub open spec fn digits_value(b: Seq<u8>) -> int
    decreases b.len(),
{
    if b.len() == 0 {
        0
    } else {
        digits_value(b.drop_last()) * 10 + (b.last() - 48)
    }
}

pub proof fn lemma_digits_value_nonneg(b: Seq<u8>)
    requires
        all_digit_bytes(b),
    ensures
        digits_value(b) >= 0,
    decreases b.len(),
{
    if b.len() > 0 {
        assert(all_digit_bytes(b.drop_last())) by {
            assert(forall|i: int|
                0 <= i < b.len() - 1 ==> is_digit_byte(#[trigger] b.drop_last()[i]));
        }
        lemma_digits_value_nonneg(b.drop_last());
    }
}

/// What `str::parse::<usize>` accepts: an optional leading `+`, then one or
/// more decimal digits, with the value in range.
pub open spec fn spec_parse_usize(b: Seq<u8>) -> Option<int> {
    let d = if b.len() >= 1 && b[0] == 43 {
        b.drop_first()
    } else {
        b
    };
    if d.len() > 0 && all_digit_bytes(d) && digits_value(d) <= usize::MAX as int {
        Some(digits_value(d))
    } else {
        None
    }
}

/// A successfully parsed value lies in the `usize` range.
pub proof fn lemma_parse_usize_range(b: Seq<u8>)
    ensures
        spec_parse_usize(b) matches Some(v) ==> 0 <= v <= usize::MAX as int,
{
    let d = if b.len() >= 1 && b[0] == 43 {
        b.drop_first()
    } else {
        b
    };
    if d.len() > 0 && all_digit_bytes(d) {
        lemma_digits_value_nonneg(d);
    }
}

/// Parses a decimal `usize`, mirroring `str::parse::<usize>` exactly.
pub fn parse_usize(s: &str) -> (r: Option<usize>)
    ensures
        match spec_parse_usize(s.spec_bytes()) {
            Some(v) => r == Some(v as usize),
            None => r is None,
        },
{
    let bytes = s.as_bytes();
    let ghost all = s.spec_bytes();
    let mut i: usize = 0;
    if bytes.len() >= 1 && bytes[0] == 43 {
        i = 1;
    }
    let ghost d = if all.len() >= 1 && all[0] == 43 {
        all.drop_first()
    } else {
        all
    };
    assert(d =~= all.subrange(i as int, all.len() as int));
    if i >= bytes.len() {
        return None;
    }
    let mut acc: usize = 0;
    let ghost start = i as int;
    while i < bytes.len()
        invariant
            0 <= start <= i <= bytes@.len(),
            bytes@ == all,
            all == s.spec_bytes(),
            d == all.subrange(start, all.len() as int),
            d == (if all.len() >= 1 && all[0] == 43 {
                all.drop_first()
            } else {
                all
            }),
            d.len() > 0,
            all_digit_bytes(all.subrange(start, i as int)),
            acc as int == digits_value(all.subrange(start, i as int)),
        decreases bytes@.len() - i,
    {
        let b = bytes[i];
        if !(48 <= b && b <= 57) {
            assert(!is_digit_byte(d[i - start]));
            return None;
        }
        let dig = (b - 48) as usize;
        let ghost seen = all.subrange(start, i as int);
        proof {
            lemma_digits_value_nonneg(seen);
            assert(all.subrange(start, i + 1) =~= seen.push(b));
            assert(all.subrange(start, i + 1).drop_last() =~= seen);
        }
        if acc > (usize::MAX - dig) / 10 {
            proof {
                let pre = all.subrange(start, i + 1);
                let md = (usize::MAX - dig) as int;
                vstd::arithmetic::div_mod::lemma_fundamental_div_mod(md, 10);
                assert(10 * (acc as int) + dig > usize::MAX as int);
                assert(digits_value(pre) == 10 * (acc as int) + dig);
                assert(pre =~= d.subrange(0, i + 1 - start));
                if all_digit_bytes(d) {
                    lemma_digits_too_big(d.subrange(0, i + 1 - start), d);
                }
            }
            return None;
        }
        acc = acc * 10 + dig;
        i = i + 1;
    }
    assert(d =~= all.subrange(start, i as int));
    Some(acc)
}

/// Once a digit prefix exceeds `usize::MAX`, every extension of it does too.
proof fn lemma_digits_too_big(p: Seq<u8>, d: Seq<u8>)
    requires
        all_digit_bytes(d),
        0 < p.len() <= d.len(),
        p == d.subrange(0, p.len() as int),
        digits_value(p) > usize::MAX as int,
    ensures
        digits_value(d) > usize::MAX as int,
    decreases d.len() - p.len(),
{
    if p.len() == d.len() {
        assert(p =~= d);
    } else {
        let q = d.subrange(0, p.len() as int + 1);
        assert(q.drop_last() =~= p);
        assert(is_digit_byte(d[p.len() as int]));
        lemma_digits_too_big(q, d);
    }
}


/// The position of the first occurrence of a byte, or -1 when absent.
pub open spec fn find_byte(b: Seq<u8>, x: u8) -> int
    decreases b.len(),
{
    if b.len() == 0 {
        -1
    } else if b[0] == x {
        0
    } else {
        let r = find_byte(b.drop_first(), x);
        if r == -1 {
            -1
        } else {
            1 + r
        }
    }
}

/// A first occurrence at position `i` pins `find_byte` down.
pub proof fn lemma_find_byte_at(b: Seq<u8>, x: u8, i: int)
    requires
        0 <= i < b.len(),
        b[i] == x,
        forall|j: int| 0 <= j < i ==> b[j] != x,
    ensures
        find_byte(b, x) == i,
    decreases i,
{
    if i == 0 {
    } else {
        let t = b.drop_first();
        assert forall|j: int| 0 <= j < i - 1 implies t[j] != x by {
            assert(t[j] == b[j + 1]);
        }
        assert(t[i - 1] == b[i]);
        lemma_find_byte_at(t, x, i - 1);
    }
}

/// With the byte absent everywhere, `find_byte` reports -1.
pub proof fn lemma_find_byte_none(b: Seq<u8>, x: u8)
    requires
        forall|j: int| 0 <= j < b.len() ==> b[j] != x,
    ensures
        find_byte(b, x) == -1,
    decreases b.len(),
{
    if b.len() > 0 {
        let t = b.drop_first();
        assert forall|j: int| 0 <= j < t.len() implies t[j] != x by {
            assert(t[j] == b[j + 1]);
        }
        lemma_find_byte_none(t, x);
    }
}

/// Splitting on a separator byte: one piece per separator-free run, with an
/// empty piece between adjacent separators and at the ends, as `str::split`
/// produces.
pub open spec fn split_on(b: Seq<u8>, sep: u8) -> Seq<Seq<u8>>
    decreases b.len(),
{
    if b.len() == 0 {
        seq![Seq::<u8>::empty()]
    } else if b[0] == sep {
        seq![Seq::<u8>::empty()] + split_on(b.drop_first(), sep)
    } else {
        let rest = split_on(b.drop_first(), sep);
        seq![seq![b[0]] + rest[0]] + rest.drop_first()
    }
}

/// A split always yields at least one piece.
pub proof fn lemma_split_nonempty(b: Seq<u8>, sep: u8)
    ensures
        split_on(b, sep).len() >= 1,
    decreases b.len(),
{
    if b.len() > 0 {
        lemma_split_nonempty(b.drop_first(), sep);
    }
}

/// A separator-free prefix is glued onto the first piece of the rest.
pub proof fn lemma_split_prefix(pre: Seq<u8>, suf: Seq<u8>, sep: u8)
    requires
        forall|i: int| 0 <= i < pre.len() ==> pre[i] != sep,
    ensures
        split_on(pre + suf, sep) == seq![pre + split_on(suf, sep)[0]] + split_on(
            suf,
            sep,
        ).drop_first(),
    decreases pre.len(),
{
    lemma_split_nonempty(suf, sep);
    if pre.len() == 0 {
        assert(pre + suf =~= suf);
        assert(pre + split_on(suf, sep)[0] =~= split_on(suf, sep)[0]);
        assert(seq![split_on(suf, sep)[0]] + split_on(suf, sep).drop_first() =~= split_on(
            suf,
            sep,
        ));
    } else {
        let w = pre + suf;
        assert(w[0] == pre[0]);
        assert(w[0] != sep);
        assert(w.drop_first() =~= pre.drop_first() + suf);
        lemma_split_prefix(pre.drop_first(), suf, sep);
        let rest = split_on(pre.drop_first() + suf, sep);
        assert(split_on(w, sep) == seq![seq![w[0]] + rest[0]] + rest.drop_first());
        assert(rest[0] == pre.drop_first() + split_on(suf, sep)[0]);
        assert(seq![w[0]] + rest[0] =~= pre + split_on(suf, sep)[0]);
        assert(rest.drop_first() =~= split_on(suf, sep).drop_first());
        assert(split_on(w, sep) =~= seq![pre + split_on(suf, sep)[0]] + split_on(
            suf,
            sep,
        ).drop_first());
    }
}

/// A separator-free sequence is a single piece.
pub proof fn lemma_split_whole(b: Seq<u8>, sep: u8)
    requires
        forall|i: int| 0 <= i < b.len() ==> b[i] != sep,
    ensures
        split_on(b, sep) == seq![b],
    decreases b.len(),
{
    if b.len() == 0 {
        assert(b =~= Seq::<u8>::empty());
        assert(split_on(b, sep) =~~= seq![b]);
    } else {
        let t = b.drop_first();
        assert forall|j: int| 0 <= j < t.len() implies t[j] != sep by {
            assert(t[j] == b[j + 1]);
        }
        lemma_split_whole(t, sep);
        assert(seq![b[0]] + t =~= b);
        assert(split_on(b, sep) =~~= seq![b]);
    }
}


/// A non-empty character sequence has a non-empty UTF-8 encoding.
pub proof fn lemma_encode_nonempty(s: Seq<char>)
    requires
        s.len() > 0,
    ensures
        encode_utf8(s).len() > 0,
{
    vstd::utf8::char_is_scalar(s[0]);
    assert(vstd::utf8::encode_scalar(s[0] as u32).len() >= 1);
}

/// Byte-slice equality.
#[verifier::loop_isolation(false)]
pub fn bytes_eq(a: &[u8], b: &[u8]) -> (r: bool)
    ensures
        r == (a@ == b@),
{
    if a.len() != b.len() {
        assert(a@ != b@);
        return false;
    }
    let mut i: usize = 0;
    while i < a.len()
        invariant
            i <= a@.len(),
            a@.len() == b@.len(),
            forall|j: int| 0 <= j < i ==> a@[j] == b@[j],
        decreases a@.len() - i,
    {
        if a[i] != b[i] {
            return false;
        }
        i = i + 1;
    }
    assert(a@ =~= b@);
    true
}

} // verus!
