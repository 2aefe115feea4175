use vstd::prelude::*;
use sha1::Digest;
use crate::bytes::copy_range;

verus! {

// --- the digest and its hex rendering ---------------------------------------

/// The SHA-1 digest of a byte sequence. Only named here: the digest itself
/// is computed by an outside crate, and it is a function of the input
/// bytes alone, on every machine and in every process.
pub uninterp spec fn sha1_of(data: Seq<u8>) -> Seq<u8>;

/// Relies on sha1::Sha1::digest (RustCrypto): the 20-byte SHA-1 digest of
/// the input, a function of the input bytes alone.
#[verifier::external_body]
fn sha1_bytes(data: &Vec<u8>) -> (r: Vec<u8>)
    ensures
        r@ == sha1_of(data@),
        r@.len() == 20,
{
    sha1::Sha1::digest(data.as_slice()).to_vec()
}

/// The lowercase hex digit byte for a value below 16.
pub open spec fn hex_digit(n: u8) -> u8 {
    if n < 10 {
        (0x30 + n) as u8
    } else {
        (0x57 + n) as u8
    }
}

/// Lowercase hex rendering: two digit bytes for each input byte, in order.
pub open spec fn hex_of(data: Seq<u8>) -> Seq<u8>
    decreases data.len(),
{
    if data.len() == 0 {
        Seq::empty()
    } else {
        seq![hex_digit(data[0] / 16), hex_digit(data[0] % 16)] + hex_of(data.skip(1))
    }
}

/// Relies on hex::encode: lowercase hex, two digits per byte, in input
/// order (String::into_bytes hands its UTF-8 bytes over unchanged).
#[verifier::external_body]
fn hex_lower(data: &Vec<u8>) -> (r: Vec<u8>)
    ensures
        r@ == hex_of(data@),
{
    hex::encode(data.as_slice()).into_bytes()
}

// --- identifiers -------------------------------------------------------------

/// A byte is a lowercase hexadecimal digit.
pub open spec fn is_hex_digit(b: u8) -> bool {
    (0x30 <= b && b <= 0x39) || (0x61 <= b && b <= 0x66)
}

/// An identifier is exactly 40 lowercase hex digit bytes.
pub open spec fn valid_identifier(s: Seq<u8>) -> bool {
    s.len() == 40 && forall|i: int| 0 <= i < s.len() ==> is_hex_digit(s[i])
}

/// The identifier of an envelope: the lowercase hex rendering of its
/// SHA-1 digest.
pub open spec fn id_of(env: Seq<u8>) -> Seq<u8> {
    hex_of(sha1_of(env))
}

/// Hex renderings are twice as long as their input and hold only
/// lowercase hex digits.
pub proof fn lemma_hex_of_shape(data: Seq<u8>)
    ensures
        hex_of(data).len() == 2 * data.len(),
        forall|i: int| 0 <= i < hex_of(data).len() ==> is_hex_digit(hex_of(data)[i]),
    decreases data.len(),
{
    if data.len() > 0 {
        lemma_hex_of_shape(data.skip(1));
        let pair = seq![hex_digit(data[0] / 16), hex_digit(data[0] % 16)];
        let rest = hex_of(data.skip(1));
        assert(data[0] / 16 < 16 && data[0] % 16 < 16);
        assert(is_hex_digit(pair[0]) && is_hex_digit(pair[1]));
        assert(hex_of(data) == pair + rest);
        assert forall|i: int| 0 <= i < hex_of(data).len() implies is_hex_digit(
            hex_of(data)[i],
        ) by {
            if i >= 2 {
                assert(hex_of(data)[i] == rest[i - 2]);
            } else {
                assert(hex_of(data)[i] == pair[i]);
            }
        }
    }
}

/// Computes the content identifier of an envelope: two calls on the same
/// envelope bytes always return the same identifier.
pub fn identifier_for(env: &Vec<u8>) -> (id: Vec<u8>)
    ensures
        id@ == id_of(env@),
        valid_identifier(id@),
{
    let digest = sha1_bytes(env);
    let id = hex_lower(&digest);
    proof {
        lemma_hex_of_shape(digest@);
    }
    id
}

/// Identifier derivation is deterministic: any two identifiers computed
/// for the same envelope bytes are equal.
pub proof fn lemma_identifier_deterministic(env: Seq<u8>, a: Seq<u8>, b: Seq<u8>)
    requires
        a == id_of(env),
        b == id_of(env),
    ensures
        a == b,
{
}

/// Checks the shape of an identifier: exactly 40 lowercase hex bytes.
pub fn is_valid_identifier(id: &Vec<u8>) -> (r: bool)
    ensures
        r == valid_identifier(id@),
{
    if id.len() != 40 {
        return false;
    }
    let mut i: usize = 0;
    while i < id.len()
        invariant
            i <= id@.len(),
            forall|j: int| 0 <= j < i ==> is_hex_digit(id@[j]),
        decreases id@.len() - i,
    {
        let b = id[i];
        if !((0x30 <= b && b <= 0x39) || (0x61 <= b && b <= 0x66)) {
            return false;
        }
        i = i + 1;
    }
    true
}

/// Splits an identifier into the shard directory name (its first two
/// bytes) and the file name (the remaining bytes): together they are
/// exactly the identifier.
pub fn shard_split(id: &Vec<u8>) -> (r: (Vec<u8>, Vec<u8>))
    requires
        id@.len() >= 2,
    ensures
        r.0@ == id@.take(2),
        r.1@ == id@.skip(2),
        r.0@ + r.1@ == id@,
        r.0@.len() == 2,
        r.1@.len() == id@.len() - 2,
{
    let dir = copy_range(id, 0, 2);
    let name = copy_range(id, 2, id.len());
    proof {
        assert(dir@ =~= id@.take(2));
        assert(name@ =~= id@.skip(2));
        assert(dir@ + name@ =~= id@);
    }
    (dir, name)
}

} // verus!
