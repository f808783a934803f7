// The bounded gzip decompression guard, exercised through
// `Request::decompress_gzip_body` with real gzip payloads.
use std::io::Write;
use flate2::write::GzEncoder;
use flate2::Compression;
use runbridge::http::Method;
use runbridge::http::Request;
use runbridge::error::Error;
use runbridge::query::DEFAULT_MAX_BODY_SIZE;

fn gzip(data: &[u8]) -> Vec<u8> {
    let mut encoder = GzEncoder::new(Vec::new(), Compression::default());
    encoder.write_all(data).unwrap();
    encoder.finish().unwrap()
}

#[test]
fn test_decompress_gzip_body_success() {
    let original_data = r#"{"message": "Hello, World!", "compressed": true}"#;
    let compressed_data = gzip(original_data.as_bytes());

    let mut request = Request::new(Method::POST, "/test".to_string())
        .with_header("Content-Type", "application/json")
        .with_header("Content-Encoding", "gzip")
        .with_body(compressed_data);

    assert_eq!(request.headers.get("content-encoding"), Some(&"gzip".to_string()));

    let result = request.decompress_gzip_body(DEFAULT_MAX_BODY_SIZE);
    assert!(result.is_ok());

    assert_eq!(String::from_utf8(request.body.unwrap()).unwrap(), original_data);

    assert!(request.headers.get("content-encoding").is_none());
}

#[test]
fn test_decompress_gzip_body_no_encoding_header() {
    let original_data = "This is not compressed";
    let mut request = Request::new(Method::POST, "/test".to_string())
        .with_header("Content-Type", "text/plain")
        .with_body(original_data.as_bytes().to_vec());

    let result = request.decompress_gzip_body(DEFAULT_MAX_BODY_SIZE);
    assert!(result.is_ok());

    assert_eq!(String::from_utf8(request.body.unwrap()).unwrap(), original_data);
}

#[test]
fn test_decompress_gzip_body_different_encoding() {
    let original_data = "This has different encoding";
    let mut request = Request::new(Method::POST, "/test".to_string())
        .with_header("Content-Type", "text/plain")
        .with_header("Content-Encoding", "deflate")
        .with_body(original_data.as_bytes().to_vec());

    let result = request.decompress_gzip_body(DEFAULT_MAX_BODY_SIZE);
    assert!(result.is_ok());

    assert_eq!(String::from_utf8(request.body.unwrap()).unwrap(), original_data);

    assert_eq!(request.headers.get("content-encoding"), Some(&"deflate".to_string()));
}

#[test]
fn test_decompress_gzip_body_invalid_data() {
    let invalid_gzip_data = b"This is not gzip data";
    let mut request = Request::new(Method::POST, "/test".to_string())
        .with_header("Content-Type", "application/json")
        .with_header("Content-Encoding", "gzip")
        .with_body(invalid_gzip_data.to_vec());

    let result = request.decompress_gzip_body(DEFAULT_MAX_BODY_SIZE);
    assert!(result.is_err());

    match result {
        Err(Error::InvalidRequestBody(_)) => {}
        _ => panic!("Expected InvalidRequestBody error"),
    }
}

#[test]
fn test_decompress_gzip_body_case_insensitive() {
    let original_data = "Case insensitive test";
    let compressed_data = gzip(original_data.as_bytes());

    let mut request = Request::new(Method::POST, "/test".to_string())
        .with_header("Content-Type", "text/plain")
        .with_header("Content-Encoding", "GZIP")
        .with_body(compressed_data);

    let result = request.decompress_gzip_body(DEFAULT_MAX_BODY_SIZE);
    assert!(result.is_ok());

    assert_eq!(String::from_utf8(request.body.unwrap()).unwrap(), original_data);

    assert!(request.headers.get("content-encoding").is_none());
}

#[test]
fn test_decompress_gzip_body_size_limit_exceeded() {
    // 1 MiB of repeated data compresses very small and stays within the
    // 5 MiB default ceiling.
    let large_data = "A".repeat(1024 * 1024);
    let compressed_data = gzip(large_data.as_bytes());

    let mut request = Request::new(Method::POST, "/test".to_string())
        .with_header("Content-Type", "text/plain")
        .with_header("Content-Encoding", "gzip")
        .with_body(compressed_data);

    let result = request.decompress_gzip_body(DEFAULT_MAX_BODY_SIZE);
    assert!(result.is_ok(), "1MB should be within limits");
}

#[test]
fn test_decompress_gzip_body_size_limit_very_large() {
    // 10 MiB decompressed exceeds the 5 MiB ceiling: the guard aborts
    // with a payload-too-large error and the request stays untouched.
    let very_large_data = "B".repeat(10 * 1024 * 1024);
    let compressed_data = gzip(very_large_data.as_bytes());

    let mut request = Request::new(Method::POST, "/test".to_string())
        .with_header("Content-Type", "text/plain")
        .with_header("Content-Encoding", "gzip")
        .with_body(compressed_data);

    let result = request.decompress_gzip_body(DEFAULT_MAX_BODY_SIZE);
    assert!(result.is_err());

    match result {
        Err(Error::PayloadTooLarge(_)) => {}
        _ => panic!("Expected PayloadTooLarge error for 10MB data"),
    }

    assert_eq!(request.headers.get("content-encoding"), Some(&"gzip".to_string()));
}

#[test]
fn test_decompress_gzip_body_incremental_size_check() {
    let mut large_content = String::new();
    for i in 0..1000 {
        large_content.push_str(&format!("Block {} with some padding data to make it larger. ", i));
        large_content.push_str(&"X".repeat(1000));
    }
    let compressed_data = gzip(large_content.as_bytes());

    let mut request = Request::new(Method::POST, "/test".to_string())
        .with_header("Content-Type", "text/plain")
        .with_header("Content-Encoding", "gzip")
        .with_body(compressed_data);

    let result = request.decompress_gzip_body(DEFAULT_MAX_BODY_SIZE);
    assert!(result.is_ok());

    let decompressed_size = request.body.as_ref().unwrap().len();
    assert_eq!(decompressed_size, large_content.len());

    assert!(request.headers.get("content-encoding").is_none());
}

#[test]
fn gzip_round_trip_within_limit() {
    // Round trip: what was compressed comes back byte for byte when the
    // decompressed size stays within the ceiling.
    let payload: Vec<u8> = (0..=255u8).cycle().take(70000).collect();
    let compressed = gzip(&payload);

    let mut request = Request::new(Method::POST, "/test".to_string())
        .with_header("Content-Encoding", "gzip")
        .with_body(compressed);

    request.decompress_gzip_body(DEFAULT_MAX_BODY_SIZE).unwrap();
    assert_eq!(request.body.unwrap(), payload);
}

#[test]
fn gzip_guard_exact_boundary() {
    // A payload exactly at the ceiling passes; one byte more fails.
    let payload = "C".repeat(4096);
    let compressed = gzip(payload.as_bytes());

    let mut ok_req = Request::new(Method::POST, "/t".to_string())
        .with_header("Content-Encoding", "gzip")
        .with_body(compressed.clone());
    assert!(ok_req.decompress_gzip_body(4096).is_ok());

    let mut short_req = Request::new(Method::POST, "/t".to_string())
        .with_header("Content-Encoding", "gzip")
        .with_body(compressed);
    match short_req.decompress_gzip_body(4095) {
        Err(Error::PayloadTooLarge(_)) => {}
        other => panic!("expected PayloadTooLarge, got {:?}", other.is_ok()),
    }
}
