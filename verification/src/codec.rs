use vstd::prelude::*;
use crate::bytes::copy_range;
use crate::decimal::{
    dec_digits, dec_value, is_dec_digit, is_dec_token, lemma_dec_digits_token,
    lemma_dec_value_of_digits, parse_decimal_range, to_decimal,
};
use crate::errors::Error;

verus! {

// --- the wire layout -------------------------------------------------------

/// A kind tag is valid when it is non-empty and holds no space and no NUL:
/// those two bytes frame the header.
pub open spec fn valid_kind(k: Seq<u8>) -> bool {
    k.len() > 0 && forall|i: int| 0 <= i < k.len() ==> k[i] != 0x20 && k[i] != 0x00
}

/// The envelope for kind `k` and content `c`:
/// `<kind> <decimal length>\0<content>`.
pub open spec fn encode_spec(k: Seq<u8>, c: Seq<u8>) -> Seq<u8> {
    k + seq![0x20u8] + dec_digits(c.len()) + seq![0x00u8] + c
}

/// The tag of the one supported object variant, `blob`.
pub open spec fn blob_kind() -> Seq<u8> {
    seq![0x62u8, 0x6cu8, 0x6fu8, 0x62u8]
}

/// Returns the blob kind tag as bytes.
pub fn blob_kind_bytes() -> (k: Vec<u8>)
    ensures
        k@ == blob_kind(),
        valid_kind(k@),
{
    let mut k: Vec<u8> = Vec::new();
    k.push(0x62);
    k.push(0x6c);
    k.push(0x6f);
    k.push(0x62);
    proof {
        assert(k@ =~= blob_kind());
        assert(forall|i: int| 0 <= i < k@.len() ==> k@[i] != 0x20 && k@[i] != 0x00);
    }
    k
}

// --- where the separators stand --------------------------------------------

/// `i` is the position of the first occurrence of `b` in `s`.
pub open spec fn first_occurrence(s: Seq<u8>, b: u8, i: int) -> bool {
    &&& 0 <= i < s.len()
    &&& s[i] == b
    &&& forall|j: int| 0 <= j < i ==> s[j] != b
}

/// `s` holds the byte `b` somewhere.
pub open spec fn has_byte(s: Seq<u8>, b: u8) -> bool {
    exists|i: int| first_occurrence(s, b, i)
}

/// The position of the first occurrence of `b` in `s`.
pub open spec fn first_pos(s: Seq<u8>, b: u8) -> int {
    choose|i: int| first_occurrence(s, b, i)
}

/// First occurrences are unique, so `first_pos` names the witness.
pub proof fn lemma_first_occurrence_unique(s: Seq<u8>, b: u8, i: int, j: int)
    requires
        first_occurrence(s, b, i),
        first_occurrence(s, b, j),
    ensures
        i == j,
{
    if i < j {
        assert(s[i] != b);
    } else if j < i {
        assert(s[j] != b);
    }
}

/// Whoever shows some occurrence of `b` learns where the first one is.
pub proof fn lemma_first_pos_of_occurrence(s: Seq<u8>, b: u8, i: int)
    requires
        first_occurrence(s, b, i),
    ensures
        has_byte(s, b),
        first_pos(s, b) == i,
{
    lemma_first_occurrence_unique(s, b, i, first_pos(s, b));
}

// --- what a well-formed envelope is ----------------------------------------

/// An envelope parses when a NUL separator exists, the header before it is
/// `<kind> <digits>` with a non-empty kind, and the digit token names
/// exactly the number of bytes after the separator.
pub open spec fn well_formed(env: Seq<u8>) -> bool {
    &&& has_byte(env, 0x00)
    &&& {
        let h = env.take(first_pos(env, 0x00));
        &&& has_byte(h, 0x20)
        &&& first_pos(h, 0x20) >= 1
        &&& is_dec_token(h.skip(first_pos(h, 0x20) + 1))
        &&& dec_value(h.skip(first_pos(h, 0x20) + 1)) == env.len() - first_pos(env, 0x00) - 1
    }
}

/// The kind of a well-formed envelope: the header up to its first space.
pub open spec fn decoded_kind(env: Seq<u8>) -> Seq<u8> {
    let h = env.take(first_pos(env, 0x00));
    h.take(first_pos(h, 0x20))
}

/// The content of a well-formed envelope: everything after the first NUL.
pub open spec fn decoded_content(env: Seq<u8>) -> Seq<u8> {
    env.skip(first_pos(env, 0x00) + 1)
}

// --- encode -----------------------------------------------------------------

/// Checks that a kind tag is non-empty and free of space and NUL bytes.
pub fn kind_is_valid(kind: &Vec<u8>) -> (r: bool)
    ensures
        r == valid_kind(kind@),
{
    if kind.len() == 0 {
        return false;
    }
    let mut i: usize = 0;
    while i < kind.len()
        invariant
            i <= kind@.len(),
            forall|j: int| 0 <= j < i ==> kind@[j] != 0x20 && kind@[j] != 0x00,
        decreases kind@.len() - i,
    {
        let b = kind[i];
        if b == 0x20 || b == 0x00 {
            return false;
        }
        i = i + 1;
    }
    true
}

/// Builds the envelope for `kind` and `content`.
///
/// Succeeds exactly on valid kinds; the only error is `InvalidKind`.
pub fn encode(kind: &Vec<u8>, content: &Vec<u8>) -> (r: Result<Vec<u8>, Error>)
    ensures
        match r {
            Ok(env) => valid_kind(kind@) && env@ == encode_spec(kind@, content@),
            Err(e) => e == Error::InvalidKind && !valid_kind(kind@),
        },
{
    if !kind_is_valid(kind) {
        return Err(Error::InvalidKind);
    }
    let mut env: Vec<u8> = Vec::new();
    let mut kind_copy = copy_range(kind, 0, kind.len());
    env.append(&mut kind_copy);
    env.push(0x20);
    let mut digits = to_decimal(content.len());
    env.append(&mut digits);
    env.push(0x00);
    let mut content_copy = copy_range(content, 0, content.len());
    env.append(&mut content_copy);
    proof {
        assert(kind@.subrange(0, kind@.len() as int) =~= kind@);
        assert(content@.subrange(0, content@.len() as int) =~= content@);
        assert(env@ =~= encode_spec(kind@, content@));
    }
    Ok(env)
}

// --- decode -----------------------------------------------------------------

/// Finds the first occurrence of `b` in `v`.
fn find_first(v: &Vec<u8>, b: u8, from: usize, to: usize) -> (r: Option<usize>)
    requires
        from <= to <= v@.len(),
    ensures
        match r {
            Some(i) => from <= i < to && v@[i as int] == b
                && forall|j: int| from <= j < i ==> v@[j] != b,
            None => forall|j: int| from <= j < to ==> v@[j] != b,
        },
{
    let mut i: usize = from;
    while i < to
        invariant
            from <= i <= to <= v@.len(),
            forall|j: int| from <= j < i ==> v@[j] != b,
        decreases to - i,
    {
        if v[i] == b {
            return Some(i);
        }
        i = i + 1;
    }
    None
}

/// Splits an envelope into its kind and content.
///
/// Succeeds exactly on well-formed envelopes; the only error is
/// `MalformedObject`.
pub fn decode(env: &Vec<u8>) -> (r: Result<(Vec<u8>, Vec<u8>), Error>)
    ensures
        match r {
            Ok(p) => well_formed(env@) && p.0@ == decoded_kind(env@)
                && p.1@ == decoded_content(env@),
            Err(e) => e == Error::MalformedObject && !well_formed(env@),
        },
{
    // the NUL separator
    let nul = match find_first(env, 0x00, 0, env.len()) {
        Some(i) => i,
        None => {
            proof {
                assert(!has_byte(env@, 0x00));
            }
            return Err(Error::MalformedObject);
        },
    };
    proof {
        lemma_first_pos_of_occurrence(env@, 0x00, nul as int);
    }
    let ghost h = env@.take(nul as int);
    proof {
        assert(forall|j: int| 0 <= j < h.len() ==> h[j] == env@[j]);
    }

    // the space between kind and length token
    let sp = match find_first(env, 0x20, 0, nul) {
        Some(i) => i,
        None => {
            proof {
                assert(!has_byte(h, 0x20));
            }
            return Err(Error::MalformedObject);
        },
    };
    proof {
        lemma_first_pos_of_occurrence(h, 0x20, sp as int);
    }
    if sp == 0 {
        // an empty kind is no kind
        return Err(Error::MalformedObject);
    }

    // the length token
    let ghost token = h.skip(sp + 1);
    proof {
        assert(token =~= env@.subrange(sp + 1, nul as int));
    }
    if sp + 1 == nul {
        proof {
            assert(!is_dec_token(token));
        }
        return Err(Error::MalformedObject);
    }
    if let Some(bad) = find_first_non_digit(env, sp + 1, nul) {
        proof {
            assert(!is_dec_digit(token[bad - sp - 1]));
            assert(!is_dec_token(token));
        }
        return Err(Error::MalformedObject);
    }
    proof {
        assert(forall|i: int| 0 <= i < token.len() ==> is_dec_digit(token[i]));
        assert(is_dec_token(token));
    }
    let declared = match parse_decimal_range(env, sp + 1, nul) {
        Some(value) => value,
        None => {
            // the token's value does not even fit in memory, while the
            // content after the separator surely does
            return Err(Error::MalformedObject);
        },
    };
    if declared != env.len() - nul - 1 {
        return Err(Error::MalformedObject);
    }

    // well-formed: hand out the pieces
    let kind = copy_range(env, 0, sp);
    let content = copy_range(env, nul + 1, env.len());
    proof {
        assert(kind@ =~= decoded_kind(env@));
        assert(content@ =~= decoded_content(env@));
    }
    Ok((kind, content))
}

/// Finds the first byte in `v[from..to]` that is not an ASCII digit.
fn find_first_non_digit(v: &Vec<u8>, from: usize, to: usize) -> (r: Option<usize>)
    requires
        from <= to <= v@.len(),
    ensures
        match r {
            Some(i) => from <= i < to && !is_dec_digit(v@[i as int]),
            None => forall|j: int| from <= j < to ==> is_dec_digit(v@[j]),
        },
{
    let mut i: usize = from;
    while i < to
        invariant
            from <= i <= to <= v@.len(),
            forall|j: int| from <= j < i ==> is_dec_digit(v@[j]),
        decreases to - i,
    {
        let b = v[i];
        if b < 0x30 || b > 0x39 {
            return Some(i);
        }
        i = i + 1;
    }
    None
}

// --- the round-trip law ------------------------------------------------------

/// Decoding an encoded envelope gives back exactly the kind and content
/// that were encoded, for every content and every valid kind.
pub proof fn lemma_round_trip(k: Seq<u8>, c: Seq<u8>)
    requires
        valid_kind(k),
    ensures
        well_formed(encode_spec(k, c)),
        decoded_kind(encode_spec(k, c)) == k,
        decoded_content(encode_spec(k, c)) == c,
{
    let dd = dec_digits(c.len());
    lemma_dec_digits_token(c.len());
    lemma_dec_value_of_digits(c.len());
    let env = encode_spec(k, c);
    let n = k.len() as int + 1 + dd.len() as int;
    assert(env.len() == n + 1 + c.len());

    // where every byte of the envelope comes from
    assert(forall|i: int| 0 <= i < k.len() ==> env[i] == k[i]);
    assert(env[k.len() as int] == 0x20u8);
    assert(forall|i: int| 0 <= i < dd.len() ==> env[k.len() + 1 + i] == dd[i]);
    assert(env[n] == 0x00u8);
    assert(forall|i: int| 0 <= i < c.len() ==> env[n + 1 + i] == c[i]);

    // the first NUL stands right after the header
    assert forall|j: int| 0 <= j < n implies env[j] != 0x00 by {
        if j < k.len() {
            assert(env[j] == k[j]);
        } else if j > k.len() {
            assert(env[j] == dd[j - k.len() - 1]);
            assert(is_dec_digit(dd[j - k.len() - 1]));
        }
    }
    assert(first_occurrence(env, 0x00, n));
    lemma_first_pos_of_occurrence(env, 0x00, n);

    // the first space stands right after the kind
    let h = env.take(n);
    assert forall|j: int| 0 <= j < k.len() implies h[j] != 0x20 by {
        assert(h[j] == k[j]);
    }
    assert(h[k.len() as int] == 0x20u8);
    assert(first_occurrence(h, 0x20, k.len() as int));
    lemma_first_pos_of_occurrence(h, 0x20, k.len() as int);

    // the token is the canonical rendering of the content length
    assert(h.skip(k.len() as int + 1) =~= dd);
    assert(dec_value(dd) == c.len());

    assert(decoded_kind(env) =~= k);
    assert(decoded_content(env) =~= c);
}

} // verus!
