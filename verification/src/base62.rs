//! Fixed-length base62 encoding of `u128` values.
//!
//! Every value is written as exactly [`BASE62_LEN`] characters from the
//! alphabet `0-9`, `A-Z`, `a-z` (most significant digit first, padded with
//! leading `'0'`).  The encoder splits the number into three chunks with a
//! multiply-high division by `62^10`, the decoder accumulates digits with
//! overflow checks.
use vstd::arithmetic::div_mod::*;
use vstd::arithmetic::mul::*;
use crate::decimal::{itoa_text, lemma_decimal_digits, spec_decimal};
use crate::hex::{hex_char, hex_digit};
use crate::text::{ascii_chars, is_ascii_bytes, string_from_ascii};
use vstd::prelude::*;
use vstd::string::StringExecFns;

verus! {

/// Length of every encoded value.
pub const BASE62_LEN: usize = 22;

/// `62^10`, the chunk size used by the encoder.
const BASE_TO_10: u64 = 839_299_365_868_340_224;

const BASE_TO_10_U128: u128 = 839_299_365_868_340_224;

/// `ceil(2^187 / 62^10)`: multiplying by it and keeping the top bits divides by `62^10`.
const DIV_BASE_TO_10_MULTIPLY: u128 = 233_718_071_534_448_225_491_982_379_416_108_680_074;

const DIV_BASE_TO_10_SHIFT: u32 = 59;

/// Why a fixed-length base62 text could not be decoded.
#[derive(Clone, Copy, Debug, PartialEq, Eq, Structural)]
pub enum DecodeError {
    /// The digits denote a number above `u128::MAX`.
    ArithmeticOverflow,
    /// A byte outside the alphabet, with its position.
    InvalidCharacter { byte: u8, position: usize },
}

/// A byte as `u8::escape_ascii` shows it: tab, carriage return, line feed,
/// backslash and both quotes escaped with a backslash, other printable ASCII
/// as itself, anything else as `\x` and two lowercase hexadecimal digits.
pub open spec fn escaped_byte(b: u8) -> Seq<u8> {
    if b == 9 {
        seq![92u8, 116u8]
    } else if b == 13 {
        seq![92u8, 114u8]
    } else if b == 10 {
        seq![92u8, 110u8]
    } else if b == 92 || b == 39 || b == 34 {
        seq![92u8, b]
    } else if 0x20 <= b <= 0x7e {
        seq![b]
    } else {
        seq![92u8, 120u8, hex_digit(b as int / 16), hex_digit(b as int % 16)]
    }
}

/// The uppercase hexadecimal digit for `n < 16`.
pub open spec fn upper_hex_digit(n: int) -> u8 {
    if n < 10 {
        (48 + n) as u8
    } else {
        (55 + n) as u8
    }
}

/// The text of a decoding error.
pub open spec fn decode_error_text(e: DecodeError) -> Seq<char> {
    match e {
        DecodeError::ArithmeticOverflow => "decoded number would overflow u128"@,
        DecodeError::InvalidCharacter { byte, position } => "invalid base62 character '"@
            + ascii_chars(escaped_byte(byte)) + "' (0x"@ + ascii_chars(
            seq![upper_hex_digit(byte as int / 16), upper_hex_digit(byte as int % 16)],
        ) + ") at position "@ + ascii_chars(spec_decimal(position as nat)),
    }
}

fn escape_byte(b: u8) -> (r: Vec<u8>)
    ensures
        r@ == escaped_byte(b),
        is_ascii_bytes(r@),
{
    let r = if b == 9 {
        vec![92u8, 116u8]
    } else if b == 13 {
        vec![92u8, 114u8]
    } else if b == 10 {
        vec![92u8, 110u8]
    } else if b == 92 || b == 39 || b == 34 {
        vec![92u8, b]
    } else if 0x20 <= b && b <= 0x7e {
        vec![b]
    } else {
        vec![92u8, 120u8, hex_char(b / 16), hex_char(b % 16)]
    };
    assert(r@ =~= escaped_byte(b));
    r
}

fn upper_hex_char(n: u8) -> (c: u8)
    requires
        n < 16,
    ensures
        c == upper_hex_digit(n as int),
        c < 128,
{
    if n < 10 {
        48 + n
    } else {
        55 + n
    }
}

impl DecodeError {
    /// The text of the error.
    pub fn to_string(&self) -> (s: String)
        ensures
            s@ == decode_error_text(*self),
    {
        match self {
            DecodeError::ArithmeticOverflow => String::from_str("decoded number would overflow u128"),
            DecodeError::InvalidCharacter { byte, position } => {
                let mut s = String::from_str("invalid base62 character '");
                let escaped = string_from_ascii(escape_byte(*byte));
                s.append(escaped.as_str());
                s.append("' (0x");
                let digits = vec![upper_hex_char(*byte / 16), upper_hex_char(*byte % 16)];
                let hex = string_from_ascii(digits);
                s.append(hex.as_str());
                s.append(") at position ");
                let number = itoa_text(*position as u128);
                proof {
                    lemma_decimal_digits(*position as nat);
                    assert forall|i: int| 0 <= i < number@.len() implies #[trigger] number@[i]
                        < 128 by {
                        assert(crate::decimal::is_digit(number@[i]));
                    }
                }
                let decimal = string_from_ascii(number);
                s.append(decimal.as_str());
                s
            },
        }
    }
}

// ---------------------------------------------------------------------------
// Mathematical model
// ---------------------------------------------------------------------------

pub open spec fn pow62(n: nat) -> nat
    decreases n,
{
    if n == 0 {
        1
    } else {
        62 * pow62((n - 1) as nat)
    }
}

/// The character that stands for digit `d` (`0 <= d < 62`).
pub open spec fn digit_char(d: int) -> u8 {
    if d < 10 {
        (48 + d) as u8
    } else if d < 36 {
        (55 + d) as u8
    } else {
        (61 + d) as u8
    }
}

/// The digit a character stands for, if it is in the alphabet.
pub open spec fn char_value(b: u8) -> Option<nat> {
    if 48 <= b <= 57 {
        Some((b - 48) as nat)
    } else if 65 <= b <= 90 {
        Some((b - 55) as nat)
    } else if 97 <= b <= 122 {
        Some((b - 61) as nat)
    } else {
        None
    }
}

/// The last `len` base62 digits of `n`, most significant first.
pub open spec fn encode_digits(n: nat, len: nat) -> Seq<u8>
    decreases len,
{
    if len == 0 {
        Seq::empty()
    } else {
        encode_digits(n / 62, (len - 1) as nat).push(digit_char((n % 62) as int))
    }
}

pub open spec fn all_digits(s: Seq<u8>) -> bool {
    forall|i: int| 0 <= i < s.len() ==> (#[trigger] char_value(s[i])) is Some
}

/// The number written by a sequence of alphabet characters.
pub open spec fn digits_value(s: Seq<u8>) -> nat
    decreases s.len(),
{
    if s.len() == 0 {
        0
    } else {
        digits_value(s.drop_last()) * 62 + char_value(s.last()).unwrap()
    }
}

/// `p` is the first position that holds a byte outside the alphabet.
pub open spec fn is_first_invalid(s: Seq<u8>, p: int) -> bool {
    &&& 0 <= p < s.len()
    &&& char_value(s[p]) is None
    &&& all_digits(s.take(p))
}

/// What decoding a text gives: the number it writes, or the first reason it fails.
pub open spec fn spec_decode(s: Seq<u8>) -> Result<u128, DecodeError> {
    if exists|p: int| is_first_invalid(s, p) {
        let p = choose|p: int| is_first_invalid(s, p);
        if digits_value(s.take(p)) <= u128::MAX {
            Err(DecodeError::InvalidCharacter { byte: s[p], position: p as usize })
        } else {
            Err(DecodeError::ArithmeticOverflow)
        }
    } else if digits_value(s) <= u128::MAX {
        Ok(digits_value(s) as u128)
    } else {
        Err(DecodeError::ArithmeticOverflow)
    }
}

// ---------------------------------------------------------------------------
// Lemmas on the model
// ---------------------------------------------------------------------------

proof fn lemma_pow62_positive(n: nat)
    ensures
        pow62(n) > 0,
    decreases n,
{
    if n > 0 {
        lemma_pow62_positive((n - 1) as nat);
    }
}

proof fn lemma_pow62_values()
    ensures
        pow62(10) == 839_299_365_868_340_224,
        pow62(2) == 3844,
        pow62(22) > u128::MAX,
        pow62(1) == 62,
{
    reveal_with_fuel(pow62, 23);
    assert(pow62(22) == 62 * pow62(21));
}

proof fn lemma_encode_digits_len(n: nat, len: nat)
    ensures
        encode_digits(n, len).len() == len,
    decreases len,
{
    if len > 0 {
        lemma_encode_digits_len(n / 62, (len - 1) as nat);
    }
}

proof fn lemma_digit_char_valid(d: int)
    requires
        0 <= d < 62,
    ensures
        char_value(digit_char(d)) == Some(d as nat),
{
}

/// Splitting off the last `b` digits: the first `a` digits are those of `n / 62^b`.
proof fn lemma_encode_split(n: nat, a: nat, b: nat)
    ensures
        encode_digits(n, a + b) == encode_digits(n / pow62(b), a) + encode_digits(n, b),
    decreases b,
{
    if b == 0 {
        assert(n / 1 == n);
        assert(encode_digits(n, a) + Seq::<u8>::empty() =~= encode_digits(n, a));
    } else {
        let b1 = (b - 1) as nat;
        lemma_encode_split(n / 62, a, b1);
        lemma_pow62_positive(b1);
        lemma_div_denominator(n as int, 62, pow62(b1) as int);
        assert(pow62(b) == 62 * pow62(b1));
        assert((n / 62) / pow62(b1) == n / pow62(b));
        assert(encode_digits(n, a + b) == encode_digits(n / 62, a + b1).push(
            digit_char((n % 62) as int),
        ));
        assert(encode_digits(n, a + b) =~= encode_digits(n / pow62(b), a) + encode_digits(n, b));
    }
}

/// Only `n mod 62^len` matters for the last `len` digits.
proof fn lemma_encode_mod(n: nat, len: nat)
    ensures
        encode_digits(n, len) == encode_digits(n % pow62(len), len),
    decreases len,
{
    if len > 0 {
        let l1 = (len - 1) as nat;
        lemma_pow62_positive(l1);
        lemma_mod_breakdown(n as int, 62, pow62(l1) as int);
        let m = n % pow62(len);
        assert(pow62(len) == 62 * pow62(l1));
        // m / 62 and (n / 62) agree modulo 62^(len-1); m % 62 == n % 62
        lemma_mod_mod(n as int, 62, pow62(l1) as int);
        assert(m % 62 == n % 62);
        lemma_fundamental_div_mod(m as int, 62);
        lemma_fundamental_div_mod_converse(
            m as int,
            62,
            ((n / 62) % pow62(l1)) as int,
            (n % 62) as int,
        );
        assert(m / 62 == (n / 62) % pow62(l1));
        lemma_encode_mod(n / 62, l1);
        lemma_encode_mod(m / 62, l1);
        lemma_mod_twice((n / 62) as int, pow62(l1) as int);
    }
}

proof fn lemma_encode_all_digits(n: nat, len: nat)
    ensures
        all_digits(encode_digits(n, len)),
    decreases len,
{
    if len > 0 {
        lemma_encode_all_digits(n / 62, (len - 1) as nat);
        lemma_digit_char_valid((n % 62) as int);
        let s = encode_digits(n, len);
        let t = encode_digits(n / 62, (len - 1) as nat);
        lemma_encode_digits_len(n / 62, (len - 1) as nat);
        assert forall|i: int| 0 <= i < s.len() implies (#[trigger] char_value(s[i])) is Some by {
            if i < t.len() {
                assert(s[i] == t[i]);
            }
        }
    }
}

/// Reading back the digits of `n` gives `n mod 62^len`.
proof fn lemma_value_of_encode(n: nat, len: nat)
    ensures
        digits_value(encode_digits(n, len)) == n % pow62(len),
    decreases len,
{
    if len == 0 {
        assert(n % 1 == 0);
    } else {
        let l1 = (len - 1) as nat;
        lemma_value_of_encode(n / 62, l1);
        lemma_pow62_positive(l1);
        let s = encode_digits(n, len);
        assert(s.drop_last() =~= encode_digits(n / 62, l1));
        lemma_digit_char_valid((n % 62) as int);
        lemma_mod_breakdown(n as int, 62, pow62(l1) as int);
        assert(digits_value(s) == digits_value(encode_digits(n / 62, l1)) * 62 + n % 62);
        assert(pow62(len) == 62 * pow62(l1));
    }
}

proof fn lemma_value_prefix_monotone(s: Seq<u8>, j: int, k: int)
    requires
        0 <= j <= k <= s.len(),
        all_digits(s.take(k)),
    ensures
        digits_value(s.take(j)) <= digits_value(s.take(k)),
    decreases k - j,
{
    if j < k {
        lemma_value_prefix_monotone(s, j, k - 1);
        assert(s.take(k).drop_last() =~= s.take(k - 1));
        assert(all_digits(s.take(k - 1))) by {
            assert forall|i: int| 0 <= i < k - 1 implies (#[trigger] char_value(
                s.take(k - 1)[i],
            )) is Some by {
                assert(s.take(k - 1)[i] == s.take(k)[i]);
            }
        }
    }
}

/// A byte outside the alphabet means there is a first such byte.
proof fn lemma_first_invalid_exists(s: Seq<u8>, i: int)
    requires
        0 <= i < s.len(),
        char_value(s[i]) is None,
    ensures
        exists|p: int| is_first_invalid(s, p),
    decreases i,
{
    if all_digits(s.take(i)) {
        assert(is_first_invalid(s, i));
    } else {
        let j = choose|j: int| 0 <= j < s.take(i).len() && !((#[trigger] char_value(s.take(i)[j])) is Some);
        assert(s.take(i)[j] == s[j]);
        lemma_first_invalid_exists(s, j);
    }
}

/// Decoding the encoding of any `u128` gives it back.
pub proof fn lemma_decode_encode_roundtrip(n: u128)
    ensures
        spec_decode(encode_digits(n as nat, BASE62_LEN as nat)) == Ok::<u128, DecodeError>(n),
{
    let s = encode_digits(n as nat, 22);
    lemma_encode_all_digits(n as nat, 22);
    lemma_value_of_encode(n as nat, 22);
    lemma_pow62_values();
    lemma_small_mod(n as nat, pow62(22));
    if exists|p: int| is_first_invalid(s, p) {
        let p = choose|p: int| is_first_invalid(s, p);
        assert(char_value(s[p]) is Some);
    }
}

// ---------------------------------------------------------------------------
// Arithmetic helpers
// ---------------------------------------------------------------------------

pub open spec fn two_pow_64() -> int {
    0x1_0000_0000_0000_0000
}

pub open spec fn two_pow_128() -> int {
    0x1_0000_0000_0000_0000_0000_0000_0000_0000int
}

proof fn lemma_split_u128(x: u128)
    ensures
        (x >> 64u128) as int == x as int / two_pow_64(),
        (x as u64) as int == x as int % two_pow_64(),
        x as int == (x >> 64u128) as int * two_pow_64() + (x as u64) as int,
{
    assert((x >> 64u128) == x / 0x1_0000_0000_0000_0000u128) by (bit_vector);
    assert((x as u64) as u128 == x % 0x1_0000_0000_0000_0000u128) by (bit_vector);
    lemma_fundamental_div_mod(x as int, two_pow_64());
}

proof fn lemma_product_bound(a: int, b: int)
    requires
        0 <= a < two_pow_64(),
        0 <= b < two_pow_64(),
    ensures
        0 <= a * b <= (two_pow_64() - 1) * (two_pow_64() - 1),
{
    lemma_mul_nonnegative(a, b);
    lemma_mul_upper_bound(a, two_pow_64() - 1, b, two_pow_64() - 1);
}

proof fn lemma_expand(a: int, b: int, c: int, d: int, h: int)
    ensures
        (a * h + b) * (c * h + d) == (a * c) * (h * h) + (b * c) * h + (a * d) * h + b * d,
{
    broadcast use group_mul_properties;

    assert((a * h + b) * (c * h + d) == (a * h) * (c * h) + (a * h) * d + b * (c * h) + b * d);
    assert((a * h) * (c * h) == (a * c) * (h * h));
}

proof fn lemma_regroup(
    z3: int,
    q1: int,
    r1: int,
    q2: int,
    r2: int,
    q0: int,
    r0: int,
    cq: int,
    cr: int,
    h: int,
)
    by (nonlinear_arith)
    requires
        q0 + r1 + r2 == cq * h + cr,
    ensures
        z3 * (h * h) + (q1 * h + r1) * h + (q2 * h + r2) * h + (q0 * h + r0) == (z3 + q1 + q2
            + cq) * (h * h) + cr * h + r0,
{
}

/// The top 128 bits of a 256-bit product.
fn mulh(x: u128, y: u128) -> (r: u128)
    ensures
        r as int == (x as int * y as int) / two_pow_128(),
{
    let x_lo = x as u64 as u128;
    let x_hi = x >> 64u32;
    let y_lo = y as u64 as u128;
    let y_hi = y >> 64u32;
    proof {
        lemma_split_u128(x);
        lemma_split_u128(y);
        assert(x_hi == x >> 64u128);
        assert(y_hi == y >> 64u128);
        lemma_product_bound(x_lo as int, y_lo as int);
        lemma_product_bound(x_lo as int, y_hi as int);
        lemma_product_bound(x_hi as int, y_lo as int);
        lemma_product_bound(x_hi as int, y_hi as int);
    }
    let z0 = x_lo * y_lo;
    let z1 = x_lo * y_hi;
    let z2 = x_hi * y_lo;
    let z3 = x_hi * y_hi;
    proof {
        lemma_split_u128(z0);
        lemma_split_u128(z1);
        lemma_split_u128(z2);
    }
    let carry = (z0 >> 64u32) + (z1 as u64 as u128) + (z2 as u64 as u128);
    proof {
        lemma_split_u128(carry);
        assert(z0 >> 64u32 == z0 >> 64u128);
        assert(z1 >> 64u32 == z1 >> 64u128);
        assert(z2 >> 64u32 == z2 >> 64u128);
        assert(carry >> 64u32 == carry >> 64u128);
        let h = two_pow_64();
        let xi = x as int;
        let yi = y as int;
        lemma_expand(x_hi as int, x_lo as int, y_hi as int, y_lo as int, h);
        let top = z3 as int + z1 as int / h + z2 as int / h + carry as int / h;
        let low = (carry as int % h) * h + z0 as int % h;
        lemma_regroup(
            z3 as int,
            z1 as int / h,
            z1 as int % h,
            z2 as int / h,
            z2 as int % h,
            z0 as int / h,
            z0 as int % h,
            carry as int / h,
            carry as int % h,
            h,
        );
        assert(xi * yi == top * (h * h) + low);
        assert(0 <= low < h * h) by (nonlinear_arith)
            requires
                low == (carry as int % h) * h + z0 as int % h,
                0 <= carry as int % h < h,
                0 <= z0 as int % h < h,
                h > 0,
        ;
        assert(h * h == two_pow_128());
        lemma_fundamental_div_mod_converse(xi * yi, h * h, top, low);
        assert(xi * yi <= (two_pow_128() - 1) * (two_pow_128() - 1)) by (nonlinear_arith)
            requires
                0 <= xi < two_pow_128(),
                0 <= yi < two_pow_128(),
        ;
        assert(top < two_pow_128()) by (nonlinear_arith)
            requires
                top * (h * h) + low == xi * yi,
                xi * yi <= (two_pow_128() - 1) * (two_pow_128() - 1),
                h * h == two_pow_128(),
                0 <= low,
        ;
    }
    z3 + (z1 >> 64u32) + (z2 >> 64u32) + (carry >> 64u32)
}

/// `num / 62^10` and `num % 62^10`, computed by a multiply-high and a shift.
fn fast_div_base_to_10(num: u128) -> (r: (u128, u64))
    ensures
        r.0 as int == num as int / BASE_TO_10 as int,
        r.1 as int == num as int % BASE_TO_10 as int,
{
    let t = mulh(num, DIV_BASE_TO_10_MULTIPLY);
    let quotient = t >> DIV_BASE_TO_10_SHIFT;
    proof {
        let d = BASE_TO_10 as int;
        let m = DIV_BASE_TO_10_MULTIPLY as int;
        let n = num as int;
        let p187: int = two_pow_128() * 0x800_0000_0000_0000;
        assert(quotient == t / 0x800_0000_0000_0000u128) by (bit_vector)
            requires
                quotient == t >> 59u32,
        ;
        lemma_div_denominator(n * m, two_pow_128(), 0x800_0000_0000_0000);
        assert(m * d == p187 + 134545834300418048);
        let q0 = n / d;
        let r0 = n % d;
        lemma_fundamental_div_mod(n, d);
        assert(q0 * p187 <= n * m && n * m < (q0 + 1) * p187) by (nonlinear_arith)
            requires
                m * d == p187 + 134545834300418048,
                n == q0 * d + r0,
                0 <= r0 < d,
                0 <= n < two_pow_128(),
                0 <= q0,
                d == 839_299_365_868_340_224,
                p187 == two_pow_128() * 0x800_0000_0000_0000,
        ;
        assert((q0 + 1) * p187 == q0 * p187 + p187) by (nonlinear_arith);
        lemma_fundamental_div_mod_converse(n * m, p187, q0, n * m - q0 * p187);
    }
    let prod = quotient * BASE_TO_10_U128;
    let remainder = num - prod;
    proof {
        lemma_fundamental_div_mod(num as int, BASE_TO_10 as int);
    }
    (quotient, remainder as u64)
}

// ---------------------------------------------------------------------------
// Characters
// ---------------------------------------------------------------------------

fn digit_to_char(d: u64) -> (c: u8)
    requires
        d < 62,
    ensures
        c == digit_char(d as int),
{
    if d < 10 {
        48 + d as u8
    } else if d < 36 {
        55 + d as u8
    } else {
        61 + d as u8
    }
}

fn char_to_digit(b: u8) -> (r: Option<u8>)
    ensures
        r is Some <==> char_value(b) is Some,
        r is Some ==> r->0 as nat == char_value(b).unwrap(),
{
    if 48 <= b && b <= 57 {
        Some(b - 48)
    } else if 65 <= b && b <= 90 {
        Some(b - 55)
    } else if 97 <= b && b <= 122 {
        Some(b - 61)
    } else {
        None
    }
}

// ---------------------------------------------------------------------------
// Public API
// ---------------------------------------------------------------------------

/// Writes the last `len` base62 digits of `num` into `buf[offset..offset + len]`.
fn encode_u64_chunk(num: u64, len: usize, buf: &mut [u8; BASE62_LEN], offset: usize)
    requires
        offset + len <= BASE62_LEN,
    ensures
        final(buf)@ == old(buf)@.take(offset as int) + encode_digits(num as nat, len as nat)
            + old(buf)@.skip(offset + len),
{
    let ghost orig = buf@;
    let mut cur = num;
    let mut i: usize = 0;
    proof {
        assert(pow62(0) == 1);
        assert(num as nat / 1 == num);
    }
    while i < len
        invariant
            offset + len <= BASE62_LEN,
            i <= len,
            buf@.len() == BASE62_LEN,
            orig.len() == BASE62_LEN,
            cur as nat == num as nat / pow62(i as nat),
            buf@ == orig.take(offset + len - i) + encode_digits(num as nat, i as nat) + orig.skip(
                offset + len,
            ),
        decreases len - i,
    {
        let digit = cur % 62;
        let c = digit_to_char(digit);
        let pos = offset + len - 1 - i;
        let ghost prev = buf@;
        buf[pos] = c;
        proof {
            assert(buf@ == prev.update(pos as int, c));
            lemma_pow62_positive(i as nat);
            lemma_encode_split(num as nat, 1, i as nat);
            lemma_encode_digits_len(num as nat, i as nat);
            lemma_encode_digits_len(num as nat / pow62(i as nat), 1);
            assert(encode_digits(num as nat / pow62(i as nat), 1) =~= seq![c]) by {
                reveal_with_fuel(encode_digits, 2);
            }
            let e_i = encode_digits(num as nat, i as nat);
            let e_next = encode_digits(num as nat, (i + 1) as nat);
            assert(e_next == seq![c] + e_i);
            let head = orig.take(offset + len - (i + 1));
            let tail = orig.skip(offset + len);
            let target = head + e_next + tail;
            assert(prev == orig.take(offset + len - i) + e_i + tail);
            assert forall|k: int| 0 <= k < buf@.len() implies buf@[k] == target[k] by {
                if k < pos {
                    assert(buf@[k] == prev[k]);
                    assert(prev[k] == orig[k]);
                } else if k == pos {
                } else {
                    assert(buf@[k] == prev[k]);
                }
            }
            assert(buf@ =~= target);
            lemma_div_denominator(num as int, pow62(i as nat) as int, 62);
            assert(pow62((i + 1) as nat) == 62 * pow62(i as nat));
            lemma_mul_is_commutative(62, pow62(i as nat) as int);
        }
        cur = cur / 62;
        i = i + 1;
    }
    proof {
        assert(buf@ =~= orig.take(offset as int) + encode_digits(num as nat, len as nat)
            + orig.skip(offset + len));
    }
}

/// Writes `num` as exactly [`BASE62_LEN`] base62 characters, most significant first.
pub fn encode_fixed(num: u128, buf: &mut [u8; BASE62_LEN])
    ensures
        final(buf)@ == encode_digits(num as nat, BASE62_LEN as nat),
{
    let (quotient, low) = fast_div_base_to_10(num);
    let (high, mid) = fast_div_base_to_10(quotient);
    proof {
        lemma_pow62_values();
        lemma_fundamental_div_mod(quotient as int, BASE_TO_10 as int);
        assert(high < 3844) by (nonlinear_arith)
            requires
                high as int == quotient as int / 839_299_365_868_340_224,
                quotient as int == num as int / 839_299_365_868_340_224,
                (num as int) < 0x1_0000_0000_0000_0000_0000_0000_0000_0000int,
        ;
    }
    encode_u64_chunk(low, 10, buf, 12);
    encode_u64_chunk(mid, 10, buf, 2);
    encode_u64_chunk(high as u64, 2, buf, 0);
    proof {
        let n = num as nat;
        lemma_encode_split(n, 12, 10);
        lemma_encode_split(quotient as nat, 2, 10);
        lemma_encode_mod(n, 10);
        lemma_encode_mod(quotient as nat, 10);
        lemma_encode_digits_len(low as nat, 10);
        lemma_encode_digits_len(mid as nat, 10);
        lemma_encode_digits_len(high as nat, 2);
        assert(buf@ =~= encode_digits(high as nat, 2) + encode_digits(mid as nat, 10)
            + encode_digits(low as nat, 10));
    }
}

/// Reads a fixed-length base62 text back into the number it writes.
pub fn decode_fixed(buf: &[u8; BASE62_LEN]) -> (r: Result<u128, DecodeError>)
    ensures
        r == spec_decode(buf@),
{
    let ghost s = buf@;
    let mut result: u128 = 0;
    let mut position: usize = 0;
    proof {
        assert(s.take(0) =~= Seq::<u8>::empty());
    }
    while position < BASE62_LEN
        invariant
            s == buf@,
            s.len() == BASE62_LEN,
            position <= BASE62_LEN,
            all_digits(s.take(position as int)),
            result as nat == digits_value(s.take(position as int)),
        decreases BASE62_LEN - position,
    {
        let byte = buf[position];
        let value = char_to_digit(byte);
        match value {
            None => {
                proof {
                    let p = position as int;
                    assert(is_first_invalid(s, p));
                    assert forall|q: int| is_first_invalid(s, q) implies q == p by {
                        if q < p {
                            assert(s.take(p)[q] == s[q]);
                        } else if q > p {
                            assert(s.take(q)[p] == s[p]);
                        }
                    }
                }
                return Err(DecodeError::InvalidCharacter { byte, position });
            },
            Some(v) => {
                let ghost next = s.take(position + 1);
                proof {
                    assert(next.drop_last() =~= s.take(position as int));
                    assert(all_digits(next)) by {
                        assert forall|i: int| 0 <= i < next.len() implies (#[trigger] char_value(
                            next[i],
                        )) is Some by {
                            if i < position {
                                assert(next[i] == s.take(position as int)[i]);
                            }
                        }
                    }
                }
                let step = match result.checked_mul(62) {
                    Some(m) => m.checked_add(v as u128),
                    None => None,
                };
                match step {
                    None => {
                        proof {
                            let k = position + 1;
                            assert(digits_value(next) > u128::MAX);
                            if exists|p: int| is_first_invalid(s, p) {
                                let p = choose|p: int| is_first_invalid(s, p);
                                if p < k {
                                    assert(next[p] == s[p]);
                                }
                                lemma_value_prefix_monotone(s, k as int, p);
                            } else {
                                assert forall|i: int| 0 <= i < s.len() implies (
                                #[trigger] char_value(s[i])) is Some by {
                                    if char_value(s[i]) is None {
                                        lemma_first_invalid_exists(s, i);
                                    }
                                }
                                assert(s.take(BASE62_LEN as int) =~= s);
                                lemma_value_prefix_monotone(s, k as int, BASE62_LEN as int);
                            }
                        }
                        return Err(DecodeError::ArithmeticOverflow);
                    },
                    Some(nr) => {
                        result = nr;
                    },
                }
            },
        }
        position = position + 1;
    }
    proof {
        assert(s.take(BASE62_LEN as int) =~= s);
        if exists|p: int| is_first_invalid(s, p) {
            let p = choose|p: int| is_first_invalid(s, p);
            assert(s.take(BASE62_LEN as int)[p] == s[p]);
        }
    }
    Ok(result)
}

} // verus!
