use zwagit::codec::{blob_kind_bytes, decode, encode, kind_is_valid};
use zwagit::errors::Error;

#[test]
fn blob_kind_is_blob() {
    assert_eq!(blob_kind_bytes(), b"blob".to_vec());
    assert!(kind_is_valid(&blob_kind_bytes()));
}

#[test]
fn encode_empty_content() {
    let env = encode(&b"blob".to_vec(), &Vec::new()).unwrap();
    assert_eq!(env, b"blob 0\0".to_vec());
    assert_eq!(env.len(), 7);
}

#[test]
fn encode_hello() {
    let env = encode(&b"blob".to_vec(), &b"hello\n".to_vec()).unwrap();
    assert_eq!(env, b"blob 6\0hello\n".to_vec());
}

#[test]
fn encode_rejects_empty_kind() {
    assert_eq!(encode(&Vec::new(), &b"x".to_vec()), Err(Error::InvalidKind));
}

#[test]
fn encode_rejects_kind_with_space() {
    assert_eq!(encode(&b"a b".to_vec(), &b"x".to_vec()), Err(Error::InvalidKind));
}

#[test]
fn encode_rejects_kind_with_nul() {
    assert_eq!(encode(&b"a\0b".to_vec(), &b"x".to_vec()), Err(Error::InvalidKind));
}

#[test]
fn decode_round_trip_empty() {
    let env = encode(&b"blob".to_vec(), &Vec::new()).unwrap();
    let (kind, content) = decode(&env).unwrap();
    assert_eq!(kind, b"blob".to_vec());
    assert_eq!(content, Vec::<u8>::new());
}

#[test]
fn decode_round_trip_hello() {
    let env = encode(&b"blob".to_vec(), &b"hello\n".to_vec()).unwrap();
    let (kind, content) = decode(&env).unwrap();
    assert_eq!(kind, b"blob".to_vec());
    assert_eq!(content, b"hello\n".to_vec());
}

#[test]
fn decode_round_trip_content_with_nuls() {
    let body = vec![0u8, 1, 0, 255, 0];
    let env = encode(&b"blob".to_vec(), &body).unwrap();
    let (kind, content) = decode(&env).unwrap();
    assert_eq!(kind, b"blob".to_vec());
    assert_eq!(content, body);
}

#[test]
fn decode_round_trip_other_kind() {
    let env = encode(&b"note".to_vec(), &b"abc".to_vec()).unwrap();
    let (kind, content) = decode(&env).unwrap();
    assert_eq!(kind, b"note".to_vec());
    assert_eq!(content, b"abc".to_vec());
}

#[test]
fn decode_rejects_missing_nul() {
    assert_eq!(decode(&b"blob 6".to_vec()), Err(Error::MalformedObject));
}

#[test]
fn decode_rejects_missing_space() {
    assert_eq!(decode(&b"blob6\0".to_vec()), Err(Error::MalformedObject));
}

#[test]
fn decode_rejects_empty_kind() {
    assert_eq!(decode(&b" 3\0abc".to_vec()), Err(Error::MalformedObject));
}

#[test]
fn decode_rejects_empty_length_token() {
    assert_eq!(decode(&b"blob \0".to_vec()), Err(Error::MalformedObject));
}

#[test]
fn decode_rejects_non_decimal_length() {
    assert_eq!(decode(&b"blob x\0abc".to_vec()), Err(Error::MalformedObject));
}

#[test]
fn decode_rejects_three_tokens() {
    assert_eq!(decode(&b"blob 3 x\0abc".to_vec()), Err(Error::MalformedObject));
}

#[test]
fn decode_rejects_wrong_length() {
    assert_eq!(decode(&b"blob 7\0hello\n".to_vec()), Err(Error::MalformedObject));
    assert_eq!(decode(&b"blob 5\0hello\n".to_vec()), Err(Error::MalformedObject));
}

#[test]
fn decode_rejects_huge_length_token() {
    let mut env = b"blob 99999999999999999999999999999999\0".to_vec();
    env.push(b'x');
    assert_eq!(decode(&env), Err(Error::MalformedObject));
}

#[test]
fn decode_accepts_leading_zero_length() {
    let (kind, content) = decode(&b"blob 06\0hello\n".to_vec()).unwrap();
    assert_eq!(kind, b"blob".to_vec());
    assert_eq!(content, b"hello\n".to_vec());
}

#[test]
fn decode_takes_first_nul_as_separator() {
    // only the first NUL after the header separates; content keeps its own
    let (kind, content) = decode(&b"blob 3\0a\0b".to_vec()).unwrap();
    assert_eq!(kind, b"blob".to_vec());
    assert_eq!(content, b"a\0b".to_vec());
}
