use vcflib::compression::{gz_decode, gz_encode};

#[test]
fn test_hello() {
    let input = b"hello world".to_vec();
    let encoded = gz_encode(&input).unwrap();
    let decoded = gz_decode(&encoded).unwrap();
    assert_eq!(input, decoded.as_slice())
}

#[test]
fn test_large() {
    let input = b"1234567890".repeat(1000).to_vec();
    let encoded = gz_encode(&input).unwrap();
    let decoded = gz_decode(&encoded).unwrap();
    assert_eq!(input, decoded.as_slice())
}

#[test]
fn encoding_changes_the_bytes() {
    let input = b"hello world".to_vec();
    let encoded = gz_encode(&input).unwrap();
    assert_ne!(encoded, input);
    assert_eq!(&encoded[0..2], &[0x1f, 0x8b]);
}

#[test]
fn decoding_text_that_is_not_gzip_fails() {
    let result = gz_decode(b"plain text");
    assert!(result.is_err());
    assert_eq!(result.unwrap_err().kind, vcflib::error::ErrorKind::Codec);
    assert!(gz_encode(b"").is_ok());
}
