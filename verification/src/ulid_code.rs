//! The ULID text form of a 128-bit value: 26 characters of Crockford's
//! base-32 alphabet `0123456789ABCDEFGHJKMNPQRSTVWXYZ`, most significant first.
//! Both directions are made by the `ulid` crate.
use vstd::arithmetic::div_mod::*;
use vstd::arithmetic::mul::*;
use vstd::prelude::*;

verus! {

pub open spec fn pow32(n: nat) -> nat
    decreases n,
{
    if n == 0 {
        1
    } else {
        32 * pow32((n - 1) as nat)
    }
}

/// The alphabet character for a digit below 32.
pub open spec fn crockford_char(d: int) -> u8 {
    if d < 10 {
        (48 + d) as u8
    } else if d < 18 {
        (55 + d) as u8
    } else if d < 20 {
        (56 + d) as u8
    } else if d < 22 {
        (57 + d) as u8
    } else if d < 27 {
        (58 + d) as u8
    } else {
        (59 + d) as u8
    }
}

/// The digit of an alphabet character; letters are accepted in either case.
pub open spec fn crockford_value(c: u8) -> Option<int> {
    let u: int = if 97 <= c <= 122 {
        c - 32
    } else {
        c as int
    };
    if 48 <= c <= 57 {
        Some(c - 48)
    } else if 65 <= u <= 72 {
        Some(u - 55)
    } else if u == 74 || u == 75 {
        Some(u - 56)
    } else if u == 77 || u == 78 {
        Some(u - 57)
    } else if 80 <= u <= 84 {
        Some(u - 58)
    } else if 86 <= u <= 90 {
        Some(u - 59)
    } else {
        None
    }
}

/// The `n` low base-32 digits of `v` as alphabet characters, most significant first.
pub open spec fn crockford_digits(v: nat, n: nat) -> Seq<u8> {
    Seq::new(n, |i: int| crockford_char(((v / pow32((n - 1 - i) as nat)) % 32) as int))
}

/// The ULID text of `v`.
pub open spec fn ulid_text(v: nat) -> Seq<u8> {
    crockford_digits(v, 26)
}

pub open spec fn all_crockford(s: Seq<u8>) -> bool {
    forall|i: int| 0 <= i < s.len() ==> (#[trigger] crockford_value(s[i])) is Some
}

/// The number that alphabet characters stand for, most significant first.
pub open spec fn crockford_number(s: Seq<u8>) -> nat
    decreases s.len(),
{
    if s.len() == 0 {
        0
    } else {
        crockford_number(s.drop_last()) * 32 + crockford_value(s.last()).unwrap() as nat
    }
}

pub open spec fn two_pow_128() -> nat {
    0x1_0000_0000_0000_0000_0000_0000_0000_0000nat
}

/// What reading ULID text gives: the text must have 26 bytes, each of the
/// alphabet; the number is taken modulo `2^128`.
pub open spec fn spec_ulid_decode(s: Seq<u8>) -> Option<u128> {
    if s.len() == 26 && all_crockford(s) {
        Some((crockford_number(s) % two_pow_128()) as u128)
    } else {
        None
    }
}

/// What reading a text of characters gives: a character outside ASCII is
/// never part of ULID text, and ASCII text reads as its bytes do.
pub open spec fn spec_ulid_text_decode(t: Seq<char>) -> Option<u128> {
    if forall|i: int| 0 <= i < t.len() ==> (#[trigger] t[i] as u32) < 128 {
        spec_ulid_decode(t.map_values(|c: char| c as u8))
    } else {
        None
    }
}

/// The ULID text of `value`, through `ulid::Ulid::array_to_str`.
///
/// Trusted: the crate writes the 26 characters of `ALPHABET[(value >> 5k) & 31]`
/// from the last position backwards, which is the base-32 expansion stated here.
#[verifier::external_body]
pub(crate) fn ulid_encode(value: u128) -> (r: [u8; 26])
    ensures
        r@ == ulid_text(value as nat),
{
    let mut buf = [0u8; 26];
    let _ = ulid::Ulid(value).array_to_str(&mut buf);
    buf
}

/// Reads ULID text, through `ulid::Ulid::from_string`.
///
/// Trusted: the crate refuses a text whose byte length is not 26 and one with
/// a byte outside its lookup table (the alphabet in either case), and
/// otherwise shifts five bits in per character, discarding what leaves the
/// 128 bits.  Both refusals come back as `None`.  A character outside ASCII
/// is encoded in bytes that the table refuses, or makes the length wrong.
#[verifier::external_body]
pub(crate) fn ulid_decode(text: &str) -> (r: Option<u128>)
    ensures
        r == spec_ulid_text_decode(text@),
{
    match ulid::Ulid::from_string(text) {
        Ok(id) => Some(id.0),
        Err(_) => None,
    }
}

pub proof fn lemma_pow32_positive(n: nat)
    ensures
        pow32(n) > 0,
    decreases n,
{
    if n > 0 {
        lemma_pow32_positive((n - 1) as nat);
    }
}

proof fn lemma_crockford_char(d: int)
    requires
        0 <= d < 32,
    ensures
        crockford_value(crockford_char(d)) == Some(d),
        crockford_char(d) < 128,
{
}

/// The characters of the digits of `v` stand for `v` modulo `32^n`.
pub proof fn lemma_crockford_number(v: nat, n: nat)
    ensures
        all_crockford(crockford_digits(v, n)),
        crockford_number(crockford_digits(v, n)) == v % pow32(n),
    decreases n,
{
    let s = crockford_digits(v, n);
    assert forall|i: int| 0 <= i < s.len() implies (#[trigger] crockford_value(s[i])) is Some by {
        lemma_pow32_positive((n - 1 - i) as nat);
        lemma_crockford_char(((v / pow32((n - 1 - i) as nat)) % 32) as int);
    }
    if n == 0 {
        assert(v % 1 == 0);
    } else {
        let n1 = (n - 1) as nat;
        let t = crockford_digits(v / 32, n1);
        assert forall|i: int| 0 <= i < n1 implies s.drop_last()[i] == t[i] by {
            lemma_pow32_positive((n1 - 1 - i) as nat);
            lemma_div_denominator(v as int, 32, pow32((n1 - 1 - i) as nat) as int);
            assert(pow32((n - 1 - i) as nat) == 32 * pow32((n1 - 1 - i) as nat));
        }
        assert(s.drop_last() =~= t);
        lemma_crockford_number(v / 32, n1);
        assert(pow32(0) == 1);
        assert(v / 1 == v);
        lemma_crockford_char((v % 32) as int);
        assert(crockford_value(s.last()) == Some((v % 32) as int));
        lemma_pow32_positive(n1);
        lemma_mod_breakdown(v as int, 32, pow32(n1) as int);
        assert(pow32(n) == 32 * pow32(n1));
    }
}

pub proof fn lemma_pow32_26()
    ensures
        pow32(26) == 4 * two_pow_128(),
{
    reveal_with_fuel(pow32, 27);
}

/// Reading the ULID text of a value gives that value.
pub proof fn lemma_ulid_roundtrip(v: u128)
    ensures
        spec_ulid_decode(ulid_text(v as nat)) == Some(v),
        ulid_text(v as nat).len() == 26,
        forall|i: int| 0 <= i < 26 ==> #[trigger] ulid_text(v as nat)[i] < 128,
{
    lemma_crockford_number(v as nat, 26);
    lemma_pow32_26();
    lemma_small_mod(v as nat, pow32(26));
    lemma_small_mod(v as nat, two_pow_128());
    assert forall|i: int| 0 <= i < 26 implies #[trigger] ulid_text(v as nat)[i] < 128 by {
        lemma_pow32_positive((25 - i) as nat);
        lemma_crockford_char(((v as nat / pow32((25 - i) as nat)) % 32) as int);
    }
}

} // verus!
