use sha1::{Digest, Sha1};
use zwagit::codec::encode;
use zwagit::ident::{identifier_for, is_valid_identifier, shard_split};

#[test]
fn identifier_matches_outside_digest() {
    // the library's identifier must be the lowercase hex SHA-1 of the
    // envelope, computed here independently with the outside crates
    let env = encode(&b"blob".to_vec(), &b"hello\n".to_vec()).unwrap();
    let expected = hex::encode(Sha1::digest(&env)).into_bytes();
    assert_eq!(identifier_for(&env), expected);
}

#[test]
fn identifier_of_empty_blob() {
    let env = encode(&b"blob".to_vec(), &Vec::new()).unwrap();
    let id = identifier_for(&env);
    assert_eq!(id, b"e69de29bb2d1d6434b8b29ae775ad8c2e48c5391".to_vec());
}

#[test]
fn identifier_of_hello_blob() {
    let env = encode(&b"blob".to_vec(), &b"hello\n".to_vec()).unwrap();
    let id = identifier_for(&env);
    assert_eq!(id, b"ce013625030ba8dba906f756967f9e9ca394464a".to_vec());
}

#[test]
fn identifier_is_stable_across_calls() {
    let env = encode(&b"blob".to_vec(), &b"stable".to_vec()).unwrap();
    assert_eq!(identifier_for(&env), identifier_for(&env));
}

#[test]
fn identifier_shape() {
    let env = encode(&b"blob".to_vec(), &b"anything".to_vec()).unwrap();
    let id = identifier_for(&env);
    assert_eq!(id.len(), 40);
    assert!(is_valid_identifier(&id));
}

#[test]
fn identifier_validation() {
    assert!(is_valid_identifier(
        &b"0123456789abcdef0123456789abcdef01234567".to_vec()
    ));
    assert!(!is_valid_identifier(&b"abc".to_vec()));
    assert!(!is_valid_identifier(&vec![b'g'; 40]));
    assert!(!is_valid_identifier(
        &b"0123456789ABCDEF0123456789ABCDEF01234567".to_vec()
    ));
    assert!(!is_valid_identifier(
        &b"0123456789abcdef0123456789abcdef012345678".to_vec()
    ));
}

#[test]
fn shard_split_takes_first_two_bytes() {
    let id = b"ce013625030ba8dba906f756967f9e9ca394464a".to_vec();
    let (dir, name) = shard_split(&id);
    assert_eq!(dir, b"ce".to_vec());
    assert_eq!(name, b"013625030ba8dba906f756967f9e9ca394464a".to_vec());
    let mut joined = dir.clone();
    joined.extend_from_slice(&name);
    assert_eq!(joined, id);
}
