//! The query/percent decoder: `a=b&c=d` strings with percent- and
//! `+`-encoding, and the configured request-body ceiling.
use vstd::prelude::*;
use vstd::string::StringSliceAdditionalSpecFns;
use vstd::utf8::encode_utf8;
use crate::text::bytes_to_string;
use crate::text::lossy_view;
use crate::text::str_bytes;
use crate::text::find_byte;
use crate::text::lemma_find_byte_at;
use crate::text::lemma_find_byte_none;
use crate::text::split_on;
use crate::text::lemma_split_prefix;
use crate::text::lemma_split_whole;
use crate::text::lemma_split_nonempty;
use crate::text::spec_parse_usize;
use crate::text::parse_usize;
use crate::text::lemma_encode_nonempty;
use crate::strmap::StringMap;
use crate::kvseq::kv_extend;
use crate::kvseq::lemma_kv_extend_push;

verus! {

/// The value of a hexadecimal digit byte, if it is one.
pub open spec fn spec_from_hex(b: u8) -> Option<u8> {
    if 48 <= b && b <= 57 {
        Some((b - 48) as u8)
    } else if 97 <= b && b <= 102 {
        Some((b - 97 + 10) as u8)
    } else if 65 <= b && b <= 70 {
        Some((b - 65 + 10) as u8)
    } else {
        None
    }
}

/// The value of a hexadecimal digit byte, if it is one.
pub fn from_hex(byte: u8) -> (r: Option<u8>)
    ensures
        r == spec_from_hex(byte),
{
    if 48 <= byte && byte <= 57 {
        Some(byte - 48)
    } else if 97 <= byte && byte <= 102 {
        Some(byte - 97 + 10)
    } else if 65 <= byte && byte <= 70 {
        Some(byte - 65 + 10)
    } else {
        None
    }
}

/// Percent-decoding over bytes: `%XY` with two hex digits becomes one byte,
/// `+` becomes space, and everything else is copied through.
pub open spec fn spec_pct_decode(b: Seq<u8>) -> Seq<u8>
    decreases b.len(),
{
    if b.len() == 0 {
        Seq::<u8>::empty()
    } else if b[0] == 37 && b.len() >= 3 && spec_from_hex(b[1]) is Some && spec_from_hex(
        b[2],
    ) is Some {
        seq![
            (spec_from_hex(b[1]).unwrap() * 16 + spec_from_hex(b[2]).unwrap()) as u8,
        ] + spec_pct_decode(b.skip(3))
    } else if b[0] == 43 {
        seq![32u8] + spec_pct_decode(b.skip(1))
    } else {
        seq![b[0]] + spec_pct_decode(b.skip(1))
    }
}

/// Percent-decodes a byte slice.
#[verifier::loop_isolation(false)]
pub fn pct_decode_bytes(bytes: &[u8]) -> (r: Vec<u8>)
    ensures
        r@ == spec_pct_decode(bytes@),
{
    let mut out: Vec<u8> = Vec::new();
    let mut i: usize = 0;
    proof {
        assert(bytes@.skip(0) =~= bytes@);
    }
    while i < bytes.len()
        invariant
            i <= bytes@.len(),
            out@ + spec_pct_decode(bytes@.skip(i as int)) == spec_pct_decode(bytes@),
        decreases bytes@.len() - i,
    {
        let ghost rem = bytes@.skip(i as int);
        assert(rem[0] == bytes@[i as int]);
        if bytes[i] == 37 && bytes.len() - i > 2 {
            assert(rem.len() >= 3);
            assert(rem[1] == bytes@[i + 1]);
            assert(rem[2] == bytes@[i + 2]);
            let h = from_hex(bytes[i + 1]);
            let l = from_hex(bytes[i + 2]);
            match (h, l) {
                (Some(hv), Some(lv)) => {
                    out.push(hv * 16 + lv);
                    proof {
                        assert(rem.skip(3) =~= bytes@.skip(i + 3));
                        assert(out@ + spec_pct_decode(bytes@.skip(i + 3)) =~= spec_pct_decode(
                            bytes@,
                        ));
                    }
                    i = i + 3;
                    continue ;
                },
                _ => {},
            }
        }
        if bytes[i] == 43 {
            out.push(32);
        } else {
            out.push(bytes[i]);
        }
        proof {
            assert(rem.skip(1) =~= bytes@.skip(i + 1));
            assert(out@ + spec_pct_decode(bytes@.skip(i + 1)) =~= spec_pct_decode(bytes@));
        }
        i = i + 1;
    }
    assert(bytes@.skip(bytes@.len() as int) =~= Seq::<u8>::empty());
    assert(out@ =~= spec_pct_decode(bytes@));
    out
}

/// What decoding a percent-encoded string yields: the decoded bytes, read
/// back as text.
pub open spec fn spec_percent_decode(s: Seq<char>) -> Seq<char> {
    lossy_view(spec_pct_decode(encode_utf8(s)))
}

/// Decodes percent-escapes and `+` in a string.
pub fn percent_decode(input: &str) -> (r: String)
    ensures
        r@ == spec_percent_decode(input@),
{
    let decoded = pct_decode_bytes(input.as_bytes());
    bytes_to_string(&decoded)
}

/// The key/value pair a query piece denotes: what stands before the first
/// `=` is the key, what follows it the value, both percent-decoded; a piece
/// without `=` is a key with an empty value.
pub open spec fn spec_query_pair(p: Seq<u8>) -> (Seq<char>, Seq<char>) {
    let e = find_byte(p, 61);
    if e == -1 {
        (lossy_view(spec_pct_decode(p)), lossy_view(Seq::<u8>::empty()))
    } else {
        (lossy_view(spec_pct_decode(p.take(e))), lossy_view(spec_pct_decode(p.skip(e + 1))))
    }
}

/// The parameter map of a query string: its `&`-separated pieces decoded in
/// order, a later value of a key overwriting an earlier one. The empty
/// string has no parameters.
pub open spec fn spec_parse_query(b: Seq<u8>) -> Seq<(Seq<char>, Seq<char>)> {
    if b.len() == 0 {
        Seq::<(Seq<char>, Seq<char>)>::empty()
    } else {
        kv_extend(
            Seq::<(Seq<char>, Seq<char>)>::empty(),
            split_on(b, 38).map(|_i, p: Seq<u8>| spec_query_pair(p)),
        )
    }
}

/// Decodes the key/value pair of one raw query piece.
#[verifier::loop_isolation(false)]
fn decode_query_piece(piece: &[u8]) -> (r: (String, String))
    ensures
        (r.0@, r.1@) == spec_query_pair(piece@),
{
    let mut e: usize = 0;
    let mut found = false;
    while e < piece.len() && !found
        invariant
            e <= piece@.len(),
            !found ==> forall|j: int| 0 <= j < e ==> piece@[j] != 61,
            found ==> e < piece@.len() && piece@[e as int] == 61 && forall|j: int|
                0 <= j < e ==> piece@[j] != 61,
        decreases piece@.len() - e + (if found {
            0int
        } else {
            1int
        }),
    {
        if piece[e] == 61 {
            found = true;
        } else {
            e = e + 1;
        }
    }
    if found {
        proof {
            lemma_find_byte_at(piece@, 61, e as int);
        }
        let key_bytes = pct_decode_bytes(vstd::slice::slice_subrange(piece, 0, e));
        let val_bytes = pct_decode_bytes(vstd::slice::slice_subrange(piece, e + 1, piece.len()));
        let k = bytes_to_string(&key_bytes);
        let v = bytes_to_string(&val_bytes);
        (k, v)
    } else {
        proof {
            lemma_find_byte_none(piece@, 61);
        }
        let key_bytes = pct_decode_bytes(piece);
        let k = bytes_to_string(&key_bytes);
        let empty: Vec<u8> = Vec::new();
        let v = bytes_to_string(&empty);
        (k, v)
    }
}

/// Parses a query string into its parameter map: pieces split on `&`, keys
/// and values percent-decoded, later values overwriting earlier ones.
#[verifier::loop_isolation(false)]
pub fn parse_query_string(query_string: &str) -> (r: StringMap)
    ensures
        r.wf(),
        r@ == spec_parse_query(encode_utf8(query_string@)),
{
    let mut params = StringMap::new();
    if query_string.is_empty() {
        assert(encode_utf8(query_string@) =~= Seq::<u8>::empty());
        return params;
    }
    let bytes = str_bytes(query_string);
    let ghost all = bytes@;
    let ghost pieces = split_on(all, 38);
    let ghost empty_map = Seq::<(Seq<char>, Seq<char>)>::empty();
    let mut start: usize = 0;
    let mut i: usize = 0;
    let ghost done = Seq::<Seq<u8>>::empty();
    proof {
        assert(all.skip(0) =~= all);
        assert(done + split_on(all.skip(0), 38) =~= split_on(all, 38));
    }
    while i < bytes.len()
        invariant
            start <= i <= bytes@.len(),
            bytes@ == all,
            pieces == done + split_on(all.skip(start as int), 38),
            params.wf(),
            params@ == kv_extend(empty_map, done.map(|_k, p: Seq<u8>| spec_query_pair(p))),
            forall|j: int| start <= j < i ==> all[j] != 38,
        decreases bytes@.len() - i,
    {
        if bytes[i] == 38 {
            let piece = vstd::slice::slice_subrange(bytes.as_slice(), start, i);
            let ghost praw = all.subrange(start as int, i as int);
            proof {
                assert(all.skip(start as int) =~= praw + (seq![38u8] + all.skip(i + 1)));
                lemma_split_prefix(praw, seq![38u8] + all.skip(i + 1), 38);
                let tail = seq![38u8] + all.skip(i + 1);
                assert(tail[0] == 38);
                assert(tail.drop_first() =~= all.skip(i + 1));
                assert(split_on(tail, 38) == seq![Seq::<u8>::empty()] + split_on(
                    all.skip(i + 1),
                    38,
                ));
                assert(split_on(tail, 38)[0] =~= Seq::<u8>::empty());
                assert(praw + split_on(tail, 38)[0] =~= praw);
                assert(split_on(tail, 38).drop_first() =~= split_on(all.skip(i + 1), 38));
                assert(split_on(all.skip(start as int), 38) =~~= seq![praw] + split_on(
                    all.skip(i + 1),
                    38,
                ));
                assert(pieces =~~= done.push(praw) + split_on(all.skip(i + 1), 38));
            }
            let (k, v) = decode_query_piece(piece);
            proof {
                let ghost dm = done.map(|_k, p: Seq<u8>| spec_query_pair(p));
                lemma_kv_extend_push(empty_map, dm, spec_query_pair(praw));
                assert(done.push(praw).map(|_k, p: Seq<u8>| spec_query_pair(p)) =~= dm.push(
                    spec_query_pair(praw),
                ));
            }
            params.insert(k, v);
            proof {
                done = done.push(praw);
            }
            start = i + 1;
        }
        i = i + 1;
    }
    let piece = vstd::slice::slice_subrange(bytes.as_slice(), start, bytes.len());
    let ghost praw = all.subrange(start as int, all.len() as int);
    proof {
        assert(praw =~= all.skip(start as int));
        lemma_split_whole(praw, 38);
        assert(pieces =~~= done.push(praw));
    }
    let (k, v) = decode_query_piece(piece);
    proof {
        let ghost dm = done.map(|_k, p: Seq<u8>| spec_query_pair(p));
        lemma_kv_extend_push(empty_map, dm, spec_query_pair(praw));
        assert(done.push(praw).map(|_k, p: Seq<u8>| spec_query_pair(p)) =~= dm.push(
            spec_query_pair(praw),
        ));
    }
    params.insert(k, v);
    proof {
        lemma_encode_nonempty(query_string@);
        assert(params@ == kv_extend(empty_map, pieces.map(|_k, p: Seq<u8>| spec_query_pair(p))));
    }
    params
}

/// The default request-body ceiling: five mebibytes.
pub const DEFAULT_MAX_BODY_SIZE: usize = 5242880;

/// The request-body ceiling: the configured value where one parses as a
/// `usize`, the default otherwise. The caller hands in the raw setting.
pub fn get_max_body_size(configured: Option<&String>) -> (r: usize)
    ensures
        r == match configured {
            Some(s) => match spec_parse_usize(encode_utf8(s@)) {
                Some(v) => v as usize,
                None => DEFAULT_MAX_BODY_SIZE,
            },
            None => DEFAULT_MAX_BODY_SIZE,
        },
{
    match configured {
        Some(s) => {
            match parse_usize(s.as_str()) {
                Some(v) => v,
                None => DEFAULT_MAX_BODY_SIZE,
            }
        },
        None => DEFAULT_MAX_BODY_SIZE,
    }
}

} // verus!
