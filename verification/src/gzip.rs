//! The gzip decompression guard: the stream is decoded in fixed-size
//! chunks into a bounded buffer, and decoding aborts as soon as the next
//! chunk would push the output past the configured ceiling, so a small
//! high-ratio payload can never exhaust memory.
use vstd::prelude::*;
use crate::error::Error;

verus! {

#[verifier::external_type_specification]
#[verifier::external_body]
#[verifier::reject_recursive_types(T)]
pub struct ExCursor<T>(std::io::Cursor<T>);

#[verifier::external_type_specification]
#[verifier::external_body]
#[verifier::reject_recursive_types(R)]
pub struct ExGzDecoder<R>(flate2::read::GzDecoder<R>);

/// What a whole gzip stream decompresses to: the decoded bytes where the
/// stream is a well-formed gzip member, nothing where it is malformed or
/// truncated.
pub uninterp spec fn gunzip(data: Seq<u8>) -> Option<Seq<u8>>;

/// The compressed bytes a decoder stream was created over.
pub uninterp spec fn gz_input(d: flate2::read::GzDecoder<std::io::Cursor<Vec<u8>>>) -> Seq<u8>;

/// The decompressed bytes a decoder stream has produced so far.
pub uninterp spec fn gz_emitted(d: flate2::read::GzDecoder<std::io::Cursor<Vec<u8>>>) -> Seq<u8>;

/// Whether the stream has already reported an error: after a failure the
/// decoder parks in a terminal state and a further read would report a
/// bare end of stream, so nothing is claimed of reads past that point.
pub uninterp spec fn gz_failed(d: flate2::read::GzDecoder<std::io::Cursor<Vec<u8>>>) -> bool;

/// Relies on flate2::read::GzDecoder::new over an in-memory cursor: the
/// fresh decoder has produced nothing.
#[verifier::external_body]
fn gz_stream_new(data: &Vec<u8>) -> (d: flate2::read::GzDecoder<std::io::Cursor<Vec<u8>>>)
    ensures
        gz_input(d) == data@,
        gz_emitted(d) == Seq::<u8>::empty(),
        !gz_failed(d),
{
    flate2::read::GzDecoder::new(std::io::Cursor::new(data.clone()))
}

/// Relies on std::io::Read::read on a gzip decoder over an in-memory
/// cursor that has not failed before: a successful read hands out the next
/// run of decompressed bytes; zero bytes mean the stream ended and the
/// whole decoding is complete; an error means the stream is not well-formed
/// gzip and parks the decoder in its failed state.
#[verifier::external_body]
fn gz_stream_read(
    d: &mut flate2::read::GzDecoder<std::io::Cursor<Vec<u8>>>,
    buf: &mut Vec<u8>,
) -> (r: Result<usize, ()>)
    requires
        old(buf)@.len() > 0,
        !gz_failed(*old(d)),
    ensures
        gz_input(*final(d)) == gz_input(*old(d)),
        final(buf)@.len() == old(buf)@.len(),
        gz_failed(*final(d)) == (r is Err),
        match r {
            Ok(n) => {
                &&& n <= old(buf)@.len()
                &&& (n > 0 ==> {
                    &&& gz_emitted(*final(d)) == gz_emitted(*old(d)) + final(buf)@.subrange(
                        0,
                        n as int,
                    )
                    &&& (gunzip(gz_input(*old(d))) matches Some(full) ==> gz_emitted(*final(d))
                        == full.subrange(0, gz_emitted(*final(d)).len() as int)
                        && gz_emitted(*final(d)).len() <= full.len())
                })
                &&& (n == 0 ==> gunzip(gz_input(*old(d))) == Some(gz_emitted(*old(d)))
                    && gz_emitted(*final(d)) == gz_emitted(*old(d)))
            },
            Err(_) => gunzip(gz_input(*old(d))) is None,
        },
{
    match std::io::Read::read(d, buf.as_mut_slice()) {
        Ok(n) => Ok(n),
        Err(_) => Err(()),
    }
}

/// Decompresses a gzip payload into a buffer that may not grow beyond
/// `max_size` bytes. The stream is read in chunks of at most 8 KiB; before
/// a chunk is appended the guard checks the ceiling and aborts with
/// `PayloadTooLarge` rather than buffer more. A malformed stream is
/// reported as `InvalidRequestBody`. Within the ceiling, the result is the
/// whole decompressed payload.
#[verifier::loop_isolation(false)]
pub fn gunzip_bounded(data: &Vec<u8>, max_size: usize) -> (r: Result<Vec<u8>, Error>)
    ensures
        match r {
            Ok(out) => gunzip(data@) == Some(out@) && out@.len() <= max_size,
            Err(e) => match e {
                Error::PayloadTooLarge(_) => (gunzip(data@) matches Some(full) ==> full.len()
                    > max_size),
                Error::InvalidRequestBody(_) => gunzip(data@) is None,
                _ => false,
            },
        },
        gunzip(data@) matches Some(full) && full.len() <= max_size ==> r is Ok,
{
    let ghost input = data@;
    let mut decoder = gz_stream_new(data);
    let mut decompressed: Vec<u8> = Vec::new();
    let mut buffer: Vec<u8> = Vec::new();
    buffer.resize(8192, 0u8);
    loop
        invariant
            gz_input(decoder) == input,
            gz_emitted(decoder) == decompressed@,
            !gz_failed(decoder),
            buffer@.len() == 8192,
            decompressed@.len() <= max_size,
            gunzip(input) matches Some(full) ==> decompressed@ == full.subrange(
                0,
                decompressed@.len() as int,
            ) && decompressed@.len() <= full.len(),
        decreases max_size + 8192 - decompressed@.len(),
    {
        let res = gz_stream_read(&mut decoder, &mut buffer);
        match res {
            Ok(n) => {
                if n == 0 {
                    return Ok(decompressed);
                }
                if n > max_size || decompressed.len() > max_size - n {
                    proof {
                        if gunzip(input) is Some {
                            let full = gunzip(input).unwrap();
                            assert(gz_emitted(decoder).len() > max_size);
                            assert(full.len() >= gz_emitted(decoder).len());
                        }
                    }
                    return Err(
                        Error::PayloadTooLarge(
                            "decompressed body exceeds the configured maximum".to_string(),
                        ),
                    );
                }
                let chunk = vstd::slice::slice_subrange(buffer.as_slice(), 0, n);
                decompressed.extend_from_slice(chunk);
                assert(decompressed@ =~= gz_emitted(decoder));
            },
            Err(_) => {
                return Err(
                    Error::InvalidRequestBody("invalid gzip-encoded request body".to_string()),
                );
            },
        }
    }
}

} // verus!
