use vstd::prelude::*;
use vstd::arithmetic::div_mod::lemma_fundamental_div_mod;

verus! {

/// A byte is an ASCII decimal digit.
pub open spec fn is_dec_digit(b: u8) -> bool {
    0x30 <= b && b <= 0x39
}

/// A length token: at least one byte, every byte an ASCII digit.
pub open spec fn is_dec_token(s: Seq<u8>) -> bool {
    s.len() > 0 && forall|i: int| 0 <= i < s.len() ==> is_dec_digit(s[i])
}

/// Canonical decimal rendering of `n` as ASCII digit bytes.
pub open spec fn dec_digits(n: nat) -> Seq<u8>
    decreases n,
{
    if n < 10 {
        seq![(0x30 + n) as u8]
    } else {
        dec_digits(n / 10).push((0x30 + n % 10) as u8)
    }
}

/// The numeric value of a sequence of ASCII digit bytes, most
/// significant digit first.
pub open spec fn dec_value(s: Seq<u8>) -> int
    decreases s.len(),
{
    if s.len() == 0 {
        0
    } else {
        dec_value(s.drop_last()) * 10 + (s.last() - 0x30)
    }
}

/// The canonical rendering of `n` is a valid token.
pub proof fn lemma_dec_digits_token(n: nat)
    ensures
        is_dec_token(dec_digits(n)),
    decreases n,
{
    if n < 10 {
        assert(dec_digits(n)[0] == (0x30 + n) as u8);
    } else {
        lemma_dec_digits_token(n / 10);
        let prefix = dec_digits(n / 10);
        let whole = dec_digits(n);
        assert(whole == prefix.push((0x30 + n % 10) as u8));
        assert(forall|i: int| 0 <= i < prefix.len() ==> whole[i] == prefix[i]);
        assert(is_dec_digit(whole[whole.len() - 1]));
    }
}

/// Reading back the canonical rendering of `n` yields `n`.
pub proof fn lemma_dec_value_of_digits(n: nat)
    ensures
        dec_value(dec_digits(n)) == n,
    decreases n,
{
    if n < 10 {
        assert(dec_digits(n).drop_last() =~= Seq::<u8>::empty());
        assert(dec_value(Seq::<u8>::empty()) == 0);
        assert(((0x30 + n) as u8) as int == 0x30 + n as int);
    } else {
        lemma_dec_value_of_digits(n / 10);
        let whole = dec_digits(n);
        assert(whole.drop_last() =~= dec_digits(n / 10));
        assert(whole.last() == (0x30 + n % 10) as u8);
        assert(((0x30 + n % 10) as u8) as int == 0x30 + (n % 10) as int);
        lemma_fundamental_div_mod(n as int, 10);
    }
}

/// The value of a digit sequence is non-negative.
pub proof fn lemma_dec_value_nonneg(s: Seq<u8>)
    requires
        forall|i: int| 0 <= i < s.len() ==> is_dec_digit(s[i]),
    ensures
        dec_value(s) >= 0,
    decreases s.len(),
{
    if s.len() > 0 {
        lemma_dec_value_nonneg(s.drop_last());
    }
}

/// The value of a digit sequence is at least the value of any prefix.
pub proof fn lemma_dec_value_prefix(s: Seq<u8>, i: int)
    requires
        0 <= i <= s.len(),
        forall|j: int| 0 <= j < s.len() ==> is_dec_digit(s[j]),
    ensures
        dec_value(s.take(i)) <= dec_value(s),
    decreases s.len() - i,
{
    if i == s.len() {
        assert(s.take(i) =~= s);
    } else {
        lemma_dec_value_prefix(s, i + 1);
        let shorter = s.take(i);
        let longer = s.take(i + 1);
        assert(longer.drop_last() =~= shorter);
        assert(longer.last() == s[i]);
        lemma_dec_value_nonneg(shorter);
    }
}

/// Renders `n` as its canonical decimal ASCII bytes.
pub fn to_decimal(n: usize) -> (r: Vec<u8>)
    ensures
        r@ == dec_digits(n as nat),
    decreases n,
{
    if n < 10 {
        let mut r: Vec<u8> = Vec::new();
        r.push(0x30 + n as u8);
        proof {
            assert(r@ =~= dec_digits(n as nat));
        }
        r
    } else {
        let mut r = to_decimal(n / 10);
        r.push(0x30 + (n % 10) as u8);
        proof {
            assert(r@ =~= dec_digits(n as nat));
        }
        r
    }
}

/// Parses `v[start..end]` (all bytes already digits) as a decimal value;
/// `None` when the value does not fit in `usize`.
pub fn parse_decimal_range(v: &Vec<u8>, start: usize, end: usize) -> (r: Option<usize>)
    requires
        start <= end <= v@.len(),
        forall|i: int| start <= i < end ==> is_dec_digit(v@[i]),
    ensures
        match r {
            Some(value) => value == dec_value(v@.subrange(start as int, end as int)),
            None => dec_value(v@.subrange(start as int, end as int)) > usize::MAX,
        },
{
    let ghost token = v@.subrange(start as int, end as int);
    let mut acc: usize = 0;
    let mut i: usize = start;
    proof {
        assert(token.take(0) =~= Seq::<u8>::empty());
    }
    while i < end
        invariant
            start <= i <= end <= v@.len(),
            forall|j: int| start <= j < end ==> is_dec_digit(v@[j]),
            token == v@.subrange(start as int, end as int),
            acc == dec_value(token.take(i - start)),
        decreases end - i,
    {
        let d = (v[i] - 0x30) as usize;
        let ghost m = usize::MAX as int;
        proof {
            lemma_fundamental_div_mod(m, 10);
            let next = token.take(i - start + 1);
            assert(next.drop_last() =~= token.take(i - start));
            assert(next.last() == v@[i as int]);
        }
        if acc > usize::MAX / 10 || (acc == usize::MAX / 10 && d > usize::MAX % 10) {
            proof {
                assert(dec_value(token.take(i - start + 1)) > m);
                lemma_dec_value_prefix(token, i - start + 1);
            }
            return None;
        }
        acc = acc * 10 + d;
        i = i + 1;
    }
    proof {
        assert(token.take(end - start) =~= token);
    }
    Some(acc)
}

} // verus!
