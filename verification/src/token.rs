//! Identities carried by a session token: the random part (`Randomness`),
//! the user (`UserId`), and the key made of both (`TokenKey`).
//!
//! Byte forms follow the machine's byte order, as the text forms built on
//! them do.  Each such function says that its result is the one for one of
//! the two orders; the `*_in` functions take the order as an argument.
use crate::base64_codec::{
    from_base64, lemma_decode_encode_roundtrip, lemma_decode_len, spec_decode, spec_encode,
    to_base64,
};
use crate::byte_order::{
    from_ordered_bytes, le_bytes, lemma_ordered_bytes_of_value, lemma_ordered_roundtrip,
    lemma_pow256_values, ordered_bytes, ordered_value, pow256, to_ordered_bytes,
};
use crate::decimal::{
    all_decimal, is_digit, itoa_text, lemma_decimal_digits, lemma_decimal_len,
    lemma_parse_decimal_roundtrip, lemma_pow10_bounds, parse_u128, parse_u64, spec_decimal,
    spec_parse_unsigned,
};
use crate::hex::{decode_hex, hex_bytes, hex_text, lemma_hex_digit, lemma_hex_roundtrip, push_hex};
use crate::platform::native_is_little_endian;
use crate::text::{ascii_chars, is_ascii_bytes, string_from_ascii};
use crate::ulid_code::{
    lemma_ulid_roundtrip, spec_ulid_decode, spec_ulid_text_decode, ulid_decode, ulid_encode,
    ulid_text,
};
use vstd::prelude::*;
use vstd::slice::slice_subrange;
use vstd::string::StringSliceAdditionalSpecFns;

verus! {

// ---------------------------------------------------------------------------
// Randomness
// ---------------------------------------------------------------------------

#[derive(Debug, Clone, Copy, PartialEq, Eq, Structural)]
pub enum RandomnessError {
    InvalidLength,
    InvalidFormat,
}

impl RandomnessError {
    /// The message that describes the error.
    pub fn message(&self) -> (s: &'static str)
        ensures
            s@ == (match self {
                RandomnessError::InvalidLength => "Invalid Randomness length"@,
                RandomnessError::InvalidFormat => "Invalid format"@,
            }),
    {
        match self {
            RandomnessError::InvalidLength => "Invalid Randomness length",
            RandomnessError::InvalidFormat => "Invalid format",
        }
    }
}

/// The random 64-bit part of a token.
#[derive(Debug, Clone, Copy, PartialEq, Eq, Structural, Hash)]
pub struct Randomness(u64);

impl View for Randomness {
    type V = u64;

    closed spec fn view(&self) -> u64 {
        self.0
    }
}

/// `XXXXXXXX-XXXX-XXXX`: the hexadecimal digits of eight bytes, split 4-2-2.
pub open spec fn randomness_text_of(b: Seq<u8>) -> Seq<u8> {
    hex_text(b.take(4)) + seq![45u8] + hex_text(b.subrange(4, 6)) + seq![45u8] + hex_text(
        b.subrange(6, 8),
    )
}

/// The text of a randomness value whose bytes are laid out in the given order.
pub open spec fn spec_randomness_text(v: u64, little: bool) -> Seq<u8> {
    randomness_text_of(ordered_bytes(v as nat, 8, little))
}

/// The digits of the text without its two dashes.
pub open spec fn randomness_digits(s: Seq<u8>) -> Seq<u8> {
    s.take(8) + s.subrange(9, 13) + s.subrange(14, 18)
}

/// What reading the text `s` gives, for bytes laid out in the given order.
pub open spec fn spec_randomness_parse(s: Seq<u8>, little: bool) -> Result<u64, RandomnessError> {
    if s.len() != 18 {
        Err(RandomnessError::InvalidLength)
    } else if s[8] != 45 || s[13] != 45 {
        Err(RandomnessError::InvalidFormat)
    } else {
        match hex_bytes(randomness_digits(s)) {
            Some(b) => Ok(ordered_value(b, little) as u64),
            None => Err(RandomnessError::InvalidFormat),
        }
    }
}

/// A randomness value is determined by its number, so reading back the number
/// it was made from gives it back.
pub proof fn lemma_randomness_view_injective(a: Randomness, b: Randomness)
    requires
        a@ == b@,
    ensures
        a == b,
{
}

fn array8(v: &Vec<u8>) -> (r: [u8; 8])
    requires
        v@.len() == 8,
    ensures
        r@ == v@,
{
    let r = [v[0], v[1], v[2], v[3], v[4], v[5], v[6], v[7]];
    assert(r@ =~= v@);
    r
}

fn array16(v: &Vec<u8>) -> (r: [u8; 16])
    requires
        v@.len() == 16,
    ensures
        r@ == v@,
{
    let r = [
        v[0],
        v[1],
        v[2],
        v[3],
        v[4],
        v[5],
        v[6],
        v[7],
        v[8],
        v[9],
        v[10],
        v[11],
        v[12],
        v[13],
        v[14],
        v[15],
    ];
    assert(r@ =~= v@);
    r
}

impl Randomness {
    pub fn from_u64(value: u64) -> (r: Randomness)
        ensures
            r@ == value,
    {
        Randomness(value)
    }

    pub fn as_u64(self) -> (r: u64)
        ensures
            r == self@,
    {
        self.0
    }

    /// The value whose bytes, in the given order, are `bytes`.
    pub fn from_bytes_in(bytes: [u8; 8], little: bool) -> (r: Randomness)
        ensures
            r@ as nat == ordered_value(bytes@, little),
    {
        proof {
            lemma_ordered_bytes_of_value(bytes@, little);
            lemma_pow256_values();
        }
        Randomness(from_ordered_bytes(bytes.as_slice(), little) as u64)
    }

    /// The bytes of the value in the given order.
    pub fn to_bytes_in(self, little: bool) -> (r: [u8; 8])
        ensures
            r@ == ordered_bytes(self@ as nat, 8, little),
    {
        let v = to_ordered_bytes(self.0 as u128, 8, little);
        array8(&v)
    }

    /// The value whose bytes, in the machine's order, are `bytes`.
    pub fn from_bytes(bytes: [u8; 8]) -> (r: Randomness)
        ensures
            exists|little: bool| r@ as nat == ordered_value(bytes@, little),
    {
        Self::from_bytes_in(bytes, native_is_little_endian())
    }

    /// The bytes of the value in the machine's order.
    pub fn to_bytes(self) -> (r: [u8; 8])
        ensures
            exists|little: bool| r@ == ordered_bytes(self@ as nat, 8, little),
    {
        self.to_bytes_in(native_is_little_endian())
    }

    fn text_in(self, little: bool) -> (r: Vec<u8>)
        ensures
            r@ == spec_randomness_text(self@, little),
            is_ascii_bytes(r@),
    {
        let b = self.to_bytes_in(little);
        let mut out: Vec<u8> = Vec::new();
        push_hex(slice_subrange(b.as_slice(), 0, 4), &mut out);
        out.push(45u8);
        push_hex(slice_subrange(b.as_slice(), 4, 6), &mut out);
        out.push(45u8);
        push_hex(slice_subrange(b.as_slice(), 6, 8), &mut out);
        proof {
            assert(b@.subrange(0, 4) =~= b@.take(4));
            assert(out@ =~= spec_randomness_text(self@, little));
            assert forall|i: int| 0 <= i < out@.len() implies #[trigger] out@[i] < 128 by {
                lemma_randomness_text_ascii(b@, i);
            }
        }
        out
    }

    /// The `XXXXXXXX-XXXX-XXXX` text of the value's bytes in the machine's order.
    pub fn to_string(&self) -> (s: String)
        ensures
            exists|little: bool| s@ == ascii_chars(spec_randomness_text(self@, little)),
    {
        self.to_string_in(native_is_little_endian())
    }

    /// The `XXXXXXXX-XXXX-XXXX` text of the value's bytes in the given order.
    pub fn to_string_in(&self, little: bool) -> (s: String)
        ensures
            s@ == ascii_chars(spec_randomness_text(self@, little)),
    {
        let t = self.text_in(little);
        string_from_ascii(t)
    }

    /// Reads the `XXXXXXXX-XXXX-XXXX` text, its bytes in the given order.
    pub fn from_str_in(s: &str, little: bool) -> (r: Result<Randomness, RandomnessError>)
        ensures
            match r {
                Ok(v) => spec_randomness_parse(s.spec_bytes(), little) == Ok::<u64, RandomnessError>(
                    v@,
                ),
                Err(e) => spec_randomness_parse(s.spec_bytes(), little) == Err::<
                    u64,
                    RandomnessError,
                >(e),
            },
    {
        Self::parse_in(s.as_bytes(), little)
    }

    fn parse_in(s: &[u8], little: bool) -> (r: Result<Randomness, RandomnessError>)
        ensures
            match r {
                Ok(v) => spec_randomness_parse(s@, little) == Ok::<u64, RandomnessError>(v@),
                Err(e) => spec_randomness_parse(s@, little) == Err::<u64, RandomnessError>(e),
            },
    {
        if s.len() != 18 {
            return Err(RandomnessError::InvalidLength);
        }
        if s[8] != 45u8 || s[13] != 45u8 {
            return Err(RandomnessError::InvalidFormat);
        }
        let mut digits: Vec<u8> = Vec::new();
        digits.extend_from_slice(slice_subrange(s, 0, 8));
        digits.extend_from_slice(slice_subrange(s, 9, 13));
        digits.extend_from_slice(slice_subrange(s, 14, 18));
        assert(digits@ =~= randomness_digits(s@));
        match decode_hex(digits.as_slice()) {
            Some(b) => {
                proof {
                    lemma_ordered_bytes_of_value(b@, little);
                    lemma_pow256_values();
                }
                let b8 = array8(&b);
                Ok(Self::from_bytes_in(b8, little))
            },
            None => Err(RandomnessError::InvalidFormat),
        }
    }

    /// Reads the `XXXXXXXX-XXXX-XXXX` text, its bytes in the machine's order.
    pub fn from_str(s: &str) -> (r: Result<Randomness, RandomnessError>)
        ensures
            exists|little: bool|
                #![trigger spec_randomness_parse(s.spec_bytes(), little)]
                match r {
                    Ok(v) => spec_randomness_parse(s.spec_bytes(), little) == Ok::<
                        u64,
                        RandomnessError,
                    >(v@),
                    Err(e) => spec_randomness_parse(s.spec_bytes(), little) == Err::<
                        u64,
                        RandomnessError,
                    >(e),
                },
    {
        let little = native_is_little_endian();
        Self::parse_in(s.as_bytes(), little)
    }
}

impl Default for Randomness {
    fn default() -> (r: Randomness)
        ensures
            r@ == 0,
    {
        Randomness(0)
    }
}

proof fn lemma_randomness_text_ascii(b: Seq<u8>, i: int)
    requires
        b.len() == 8,
        0 <= i < randomness_text_of(b).len(),
    ensures
        randomness_text_of(b)[i] < 128,
{
    let t = randomness_text_of(b);
    if i < 8 {
        lemma_hex_digit(b[i / 2] as int / 16);
        lemma_hex_digit(b[i / 2] as int % 16);
    } else if 9 <= i < 13 {
        lemma_hex_digit(b[4 + (i - 9) / 2] as int / 16);
        lemma_hex_digit(b[4 + (i - 9) / 2] as int % 16);
    } else if 14 <= i < 18 {
        lemma_hex_digit(b[6 + (i - 14) / 2] as int / 16);
        lemma_hex_digit(b[6 + (i - 14) / 2] as int % 16);
    }
}

/// Reading the text of a randomness value, in the order it was written with,
/// The text `to_string_in` gives for a value reads back, with `from_str_in`
/// in the same byte order, as that value.
pub proof fn lemma_randomness_string_roundtrip(r: Randomness, s: &str, little: bool)
    requires
        s@ == ascii_chars(spec_randomness_text(r@, little)),
    ensures
        spec_randomness_parse(s.spec_bytes(), little) == Ok::<u64, RandomnessError>(r@),
{
    let b = ordered_bytes(r@ as nat, 8, little);
    let t = spec_randomness_text(r@, little);
    lemma_pow256_values();
    lemma_ordered_roundtrip(r@ as nat, 8, little);
    assert(is_ascii_bytes(t)) by {
        assert forall|i: int| 0 <= i < t.len() implies #[trigger] t[i] < 128 by {
            lemma_randomness_text_ascii(b, i);
        }
    }
    crate::text::lemma_encode_ascii(t);
    lemma_randomness_text_roundtrip(r@, little);
}

/// gives the value back.
pub proof fn lemma_randomness_text_roundtrip(v: u64, little: bool)
    ensures
        spec_randomness_parse(spec_randomness_text(v, little), little) == Ok::<
            u64,
            RandomnessError,
        >(v),
{
    lemma_pow256_values();
    lemma_ordered_roundtrip(v as nat, 8, little);
    let b = ordered_bytes(v as nat, 8, little);
    let t = spec_randomness_text(v, little);
    assert(randomness_digits(t) =~= hex_text(b)) by {
        let d = randomness_digits(t);
        assert forall|k: int| 0 <= k < 16 implies d[k] == hex_text(b)[k] by {
            if k < 8 {
            } else if k < 12 {
                assert(d[k] == t[k + 1]);
            } else {
                assert(d[k] == t[k + 2]);
            }
        }
    }
    lemma_hex_roundtrip(b);
}

// ---------------------------------------------------------------------------
// UserId
// ---------------------------------------------------------------------------

#[derive(Debug, Clone, Copy, PartialEq, Eq, Structural)]
pub enum SubjectError {
    MissingProvider,
    MissingUserId,
    InvalidFormat,
    InvalidUlid,
    InvalidHex,
    UnsupportedProvider,
}

impl SubjectError {
    /// The message that describes the error.
    pub fn message(&self) -> (s: &'static str)
        ensures
            s@ == (match self {
                SubjectError::MissingProvider => "Missing provider"@,
                SubjectError::MissingUserId => "Missing user_id"@,
                SubjectError::InvalidFormat => "Invalid user_id format"@,
                SubjectError::InvalidUlid => "Invalid ULID"@,
                SubjectError::InvalidHex => "Invalid HEX"@,
                SubjectError::UnsupportedProvider => "Unsupported provider"@,
            }),
    {
        match self {
            SubjectError::MissingProvider => "Missing provider",
            SubjectError::MissingUserId => "Missing user_id",
            SubjectError::InvalidFormat => "Invalid user_id format",
            SubjectError::InvalidUlid => "Invalid ULID",
            SubjectError::InvalidHex => "Invalid HEX",
            SubjectError::UnsupportedProvider => "Unsupported provider",
        }
    }
}

/// A user identifier: a 128-bit value held as its low and high halves.
///
/// Identifiers below `2^96` are of the legacy kind, written as 24
/// hexadecimal digits; the others are written `user_` and a ULID.
#[derive(Debug, Clone, Copy, PartialEq, Eq, Structural, Hash)]
pub struct UserId(u64, u64);

pub open spec fn two_pow_64() -> nat {
    0x1_0000_0000_0000_0000nat
}

pub open spec fn two_pow_96() -> nat {
    0x1_0000_0000_0000_0000_0000_0000nat
}

impl View for UserId {
    type V = u128;

    closed spec fn view(&self) -> u128 {
        (self.1 as nat * two_pow_64() + self.0 as nat) as u128
    }
}

/// An identifier is determined by its 128-bit value, so making one from the
/// value of another gives that other back.
pub proof fn lemma_user_id_view_injective(a: UserId, b: UserId)
    requires
        a@ == b@,
    ensures
        a == b,
{
    let va = a.1 as nat * two_pow_64() + a.0 as nat;
    let vb = b.1 as nat * two_pow_64() + b.0 as nat;
    assert(va < 0x1_0000_0000_0000_0000_0000_0000_0000_0000nat) by (nonlinear_arith)
        requires
            va == a.1 as nat * 0x1_0000_0000_0000_0000nat + a.0 as nat,
            a.1 < 0x1_0000_0000_0000_0000nat,
            a.0 < 0x1_0000_0000_0000_0000nat,
    ;
    assert(vb < 0x1_0000_0000_0000_0000_0000_0000_0000_0000nat) by (nonlinear_arith)
        requires
            vb == b.1 as nat * 0x1_0000_0000_0000_0000nat + b.0 as nat,
            b.1 < 0x1_0000_0000_0000_0000nat,
            b.0 < 0x1_0000_0000_0000_0000nat,
    ;
    assert(va == vb);
    vstd::arithmetic::div_mod::lemma_fundamental_div_mod_converse(
        va as int,
        two_pow_64() as int,
        a.1 as int,
        a.0 as int,
    );
    vstd::arithmetic::div_mod::lemma_fundamental_div_mod_converse(
        vb as int,
        two_pow_64() as int,
        b.1 as int,
        b.0 as int,
    );
}

/// Whether an identifier value is of the legacy kind: its high 32 bits are zero.
pub open spec fn spec_is_legacy(v: u128) -> bool {
    v < two_pow_96()
}

/// `user_`
pub open spec fn user_prefix() -> Seq<u8> {
    seq![117u8, 115u8, 101u8, 114u8, 95u8]
}

/// The text of an identifier: for a legacy one the 24 hexadecimal digits of
/// its low 96 bits (its bytes 4 to 15, most significant first), for the
/// others `user_` and the ULID of the value.
pub open spec fn spec_user_id_text(v: u128) -> Seq<u8> {
    if spec_is_legacy(v) {
        hex_text(ordered_bytes(v as nat, 16, false).skip(4))
    } else {
        user_prefix() + ulid_text(v as nat)
    }
}

/// What reading the text `s` gives: 24 hexadecimal digits are the low 96
/// bits of a legacy identifier.
pub open spec fn spec_user_id_parse(s: Seq<u8>) -> Result<u128, SubjectError> {
    if s.len() == 31 {
        if s.take(5) != user_prefix() {
            Err(SubjectError::InvalidFormat)
        } else {
            match spec_ulid_decode(s.skip(5)) {
                Some(v) => Ok(v),
                None => Err(SubjectError::InvalidUlid),
            }
        }
    } else if s.len() == 24 {
        match hex_bytes(s) {
            Some(b) => Ok(ordered_value(seq![0u8, 0u8, 0u8, 0u8] + b, false) as u128),
            None => Err(SubjectError::InvalidHex),
        }
    } else {
        Err(SubjectError::MissingUserId)
    }
}

impl UserId {
    fn low(&self) -> (r: u64)
        ensures
            r == self.0,
    {
        self.0
    }

    fn high(&self) -> (r: u64)
        ensures
            r == self.1,
    {
        self.1
    }

    fn from_parts(low: u64, high: u64) -> (r: UserId)
        ensures
            r.0 == low,
            r.1 == high,
    {
        UserId(low, high)
    }

    pub fn from_u128(value: u128) -> (r: UserId)
        ensures
            r@ == value,
    {
        let low = value as u64;
        let high = (value >> 64u32) as u64;
        proof {
            assert(low == value % 0x1_0000_0000_0000_0000) by (bit_vector)
                requires
                    low == value as u64,
            ;
            assert(high == value / 0x1_0000_0000_0000_0000) by (bit_vector)
                requires
                    high == (value >> 64u32) as u64,
            ;
        }
        Self::from_parts(low, high)
    }

    pub fn as_u128(self) -> (r: u128)
        ensures
            r == self@,
    {
        let h = self.high();
        let l = self.low();
        let r = (h as u128) << 64u32 | l as u128;
        assert(r == (h as u128) * 0x1_0000_0000_0000_0000 + (l as u128)) by (bit_vector)
            requires
                r == (h as u128) << 64u32 | l as u128,
        ;
        r
    }

    /// The value whose bytes, in the given order, are `bytes`.
    pub fn from_bytes_in(bytes: [u8; 16], little: bool) -> (r: UserId)
        ensures
            r@ as nat == ordered_value(bytes@, little),
    {
        proof {
            lemma_ordered_bytes_of_value(bytes@, little);
            lemma_pow256_values();
        }
        Self::from_u128(from_ordered_bytes(bytes.as_slice(), little))
    }

    /// The bytes of the value in the given order.
    pub fn to_bytes_in(self, little: bool) -> (r: [u8; 16])
        ensures
            r@ == ordered_bytes(self@ as nat, 16, little),
    {
        let v = to_ordered_bytes(self.as_u128(), 16, little);
        array16(&v)
    }

    /// The value whose bytes, in the machine's order, are `bytes`.
    pub fn from_bytes(bytes: [u8; 16]) -> (r: UserId)
        ensures
            exists|little: bool| r@ as nat == ordered_value(bytes@, little),
    {
        Self::from_bytes_in(bytes, native_is_little_endian())
    }

    /// The bytes of the value in the machine's order.
    pub fn to_bytes(self) -> (r: [u8; 16])
        ensures
            exists|little: bool| r@ == ordered_bytes(self@ as nat, 16, little),
    {
        self.to_bytes_in(native_is_little_endian())
    }

    /// Whether the identifier is of the legacy kind (its high 32 bits are zero).
    pub fn is_legacy(&self) -> (r: bool)
        ensures
            r == spec_is_legacy(self@),
    {
        let h = self.high();
        let r = h >> 32u32 == 0;
        proof {
            assert(r == (h < 0x1_0000_0000)) by (bit_vector)
                requires
                    r == (h >> 32u32 == 0),
            ;
            assert(self@ as nat == self.1 as nat * two_pow_64() + self.0 as nat);
        }
        r
    }

    fn text_bytes(self) -> (r: Vec<u8>)
        ensures
            r@ == spec_user_id_text(self@),
            is_ascii_bytes(r@),
    {
        if self.is_legacy() {
            let b = self.to_bytes_in(false);
            let mut out: Vec<u8> = Vec::new();
            push_hex(slice_subrange(b.as_slice(), 4, 16), &mut out);
            proof {
                assert(b@.subrange(4, 16) =~= b@.skip(4));
                assert(out@ =~= hex_text(b@.skip(4)));
                assert forall|i: int| 0 <= i < out@.len() implies #[trigger] out@[i] < 128 by {
                    lemma_hex_digit(b@.skip(4)[i / 2] as int / 16);
                    lemma_hex_digit(b@.skip(4)[i / 2] as int % 16);
                }
            }
            out
        } else {
            let mut out: Vec<u8> = vec![117u8, 115u8, 101u8, 114u8, 95u8];
            let u = ulid_encode(self.as_u128());
            out.extend_from_slice(u.as_slice());
            proof {
                lemma_ulid_roundtrip(self@);
                assert(out@ =~= user_prefix() + ulid_text(self@ as nat));
                assert forall|i: int| 0 <= i < out@.len() implies #[trigger] out@[i] < 128 by {
                    if i >= 5 {
                        assert(out@[i] == ulid_text(self@ as nat)[i - 5]);
                    }
                }
            }
            out
        }
    }

    /// The identifier's text: 24 digits for a legacy identifier (bytes in the
    /// machine's order), `user_` and a ULID otherwise.
    pub fn to_string(&self) -> (s: String)
        ensures
            s@ == ascii_chars(spec_user_id_text(self@)),
    {
        let t = self.text_bytes();
        string_from_ascii(t)
    }

    pub(crate) fn parse_bytes(s: &[u8]) -> (r: Result<UserId, SubjectError>)
        ensures
            match r {
                Ok(v) => spec_user_id_parse(s@) == Ok::<u128, SubjectError>(v@),
                Err(e) => spec_user_id_parse(s@) == Err::<u128, SubjectError>(e),
            },
    {
        let n = s.len();
        if n == 31 {
            if !(s[0] == 117u8 && s[1] == 115u8 && s[2] == 101u8 && s[3] == 114u8 && s[4] == 95u8) {
                proof {
                    assert(s@.take(5) != user_prefix()) by {
                        if s@.take(5) == user_prefix() {
                            assert(s@[0] == s@.take(5)[0]);
                            assert(s@[1] == s@.take(5)[1]);
                            assert(s@[2] == s@.take(5)[2]);
                            assert(s@[3] == s@.take(5)[3]);
                            assert(s@[4] == s@.take(5)[4]);
                        }
                    }
                }
                return Err(SubjectError::InvalidFormat);
            }
            proof {
                assert(s@.take(5) =~= user_prefix());
            }
            let id = slice_subrange(s, 5, 31);
            let mut k: usize = 0;
            while k < 26
                invariant
                    s@.len() == 31,
                    s@.take(5) == user_prefix(),
                    id@ == s@.skip(5),
                    id@.len() == 26,
                    k <= 26,
                    forall|j: int| 0 <= j < k ==> #[trigger] id@[j] < 128,
                decreases 26 - k,
            {
                if id[k] >= 128u8 {
                    proof {
                        assert(!(crate::ulid_code::crockford_value(id@[k as int]) is Some));
                        assert(!crate::ulid_code::all_crockford(s@.skip(5)));
                    }
                    return Err(SubjectError::InvalidUlid);
                }
                k = k + 1;
            }
            let mut copy: Vec<u8> = Vec::new();
            copy.extend_from_slice(id);
            assert(copy@ =~= id@);
            let text = string_from_ascii(copy);
            let decoded = ulid_decode(text.as_str());
            proof {
                assert(ascii_chars(id@).map_values(|c: char| c as u8) =~= id@);
            }
            match decoded {
                Some(v) => Ok(Self::from_u128(v)),
                None => Err(SubjectError::InvalidUlid),
            }
        } else if n == 24 {
            match decode_hex(s) {
                Some(b) => {
                    let mut full: Vec<u8> = vec![0u8, 0u8, 0u8, 0u8];
                    full.extend_from_slice(b.as_slice());
                    assert(full@ =~= seq![0u8, 0u8, 0u8, 0u8] + b@);
                    proof {
                        lemma_ordered_bytes_of_value(full@, false);
                        lemma_pow256_values();
                    }
                    let a = array16(&full);
                    Ok(Self::from_bytes_in(a, false))
                },
                None => Err(SubjectError::InvalidHex),
            }
        } else {
            Err(SubjectError::MissingUserId)
        }
    }

    /// Reads an identifier's text: 31 bytes are `user_` and a ULID, 24 bytes
    /// are the hexadecimal digits of a legacy identifier's low 96 bits.
    pub fn from_str(s: &str) -> (r: Result<UserId, SubjectError>)
        ensures
            match r {
                Ok(v) => spec_user_id_parse(s.spec_bytes()) == Ok::<u128, SubjectError>(v@),
                Err(e) => spec_user_id_parse(s.spec_bytes()) == Err::<u128, SubjectError>(e),
            },
    {
        Self::parse_bytes(s.as_bytes())
    }
}

proof fn lemma_high_bytes_zero(v: u128)
    requires
        spec_is_legacy(v),
    ensures
        forall|i: int| 0 <= i < 4 ==> #[trigger] ordered_bytes(v as nat, 16, false)[i] == 0,
{
    lemma_pow256_values();
    assert forall|i: int| 0 <= i < 4 implies #[trigger] ordered_bytes(v as nat, 16, false)[i]
        == 0 by {
        let k = (15 - i) as nat;
        assert(ordered_bytes(v as nat, 16, false)[i] == le_bytes(v as nat, 16)[15 - i]);
        crate::byte_order::lemma_pow256_monotone(12, k);
        vstd::arithmetic::div_mod::lemma_basic_div(v as int, pow256(k) as int);
    }
}

/// Reading the text of an identifier gives the identifier back.
pub proof fn lemma_user_id_text_roundtrip(v: u128)
    ensures
        spec_user_id_parse(spec_user_id_text(v)) == Ok::<u128, SubjectError>(v),
{
    lemma_pow256_values();
    if spec_is_legacy(v) {
        let b = ordered_bytes(v as nat, 16, false);
        lemma_ordered_roundtrip(v as nat, 16, false);
        lemma_hex_roundtrip(b.skip(4));
        lemma_high_bytes_zero(v);
        assert(seq![0u8, 0u8, 0u8, 0u8] + b.skip(4) =~= b);
    } else {
        lemma_ulid_roundtrip(v);
        let t = user_prefix() + ulid_text(v as nat);
        assert(t.take(5) =~= user_prefix());
        assert(t.skip(5) =~= ulid_text(v as nat));
    }
}

// ---------------------------------------------------------------------------
// TokenKey
// ---------------------------------------------------------------------------

/// What finds a token again: its user and its random part.
#[derive(Debug, Clone, Copy, PartialEq, Eq, Structural, Hash)]
pub struct TokenKey {
    pub user_id: UserId,
    pub randomness: Randomness,
}

/// The 24 bytes of a key: 16 of the user, then 8 of the random part.
pub open spec fn key_bytes(u: u128, r: u64, little: bool) -> Seq<u8> {
    ordered_bytes(u as nat, 16, little) + ordered_bytes(r as nat, 8, little)
}

/// The 32 base64 characters of a key.
pub open spec fn spec_key_text(u: u128, r: u64, little: bool) -> Seq<u8> {
    spec_encode(key_bytes(u, r, little))
}

/// `<user>-<random>` in decimal.
pub open spec fn spec_key_decimal(u: u128, r: u64) -> Seq<u8> {
    spec_decimal(u as nat) + seq![45u8] + spec_decimal(r as nat)
}

/// `p` is the one position of `s` that does not hold a decimal digit.
pub open spec fn is_separator_at(s: Seq<u8>, p: int) -> bool {
    &&& 0 <= p < s.len()
    &&& !is_digit(s[p])
    &&& forall|q: int| 0 <= q < s.len() && q != p ==> #[trigger] is_digit(s[q])
}

/// Two numbers on either side of the only non-digit.
pub open spec fn spec_parse_pair(s: Seq<u8>) -> Option<(u128, u64)> {
    if exists|p: int| is_separator_at(s, p) {
        let p = choose|p: int| is_separator_at(s, p);
        match spec_parse_unsigned(s.take(p), u128::MAX as nat) {
            Some(a) => match spec_parse_unsigned(s.skip(p + 1), u64::MAX as nat) {
                Some(b) => Some((a as u128, b as u64)),
                None => None,
            },
            None => None,
        }
    } else {
        None
    }
}

/// What reading a key's text gives: at most 60 bytes; 32 bytes are base64 of
/// the key's bytes in the given order; otherwise `<user>-<random>` with any
/// one non-digit between the two numbers.
pub open spec fn spec_key_parse(s: Seq<u8>, little: bool) -> Option<(u128, u64)> {
    if s.len() > 60 {
        None
    } else if s.len() == 32 {
        match spec_decode(s) {
            Some(b) => Some(
                (
                    ordered_value(b.take(16), little) as u128,
                    ordered_value(b.subrange(16, 24), little) as u64,
                ),
            ),
            None => None,
        }
    } else {
        spec_parse_pair(s)
    }
}

fn slice_to_vec(s: &[u8]) -> (r: Vec<u8>)
    ensures
        r@ == s@,
{
    let mut r: Vec<u8> = Vec::new();
    r.extend_from_slice(s);
    assert(r@ =~= s@);
    r
}

impl TokenKey {
    fn bytes_in(self, little: bool) -> (r: Vec<u8>)
        ensures
            r@ == key_bytes(self.user_id@, self.randomness@, little),
    {
        let u = self.user_id.to_bytes_in(little);
        let n = self.randomness.to_bytes_in(little);
        let mut out: Vec<u8> = Vec::new();
        out.extend_from_slice(u.as_slice());
        out.extend_from_slice(n.as_slice());
        assert(out@ =~= key_bytes(self.user_id@, self.randomness@, little));
        out
    }

    /// The 32 base64 characters of the key's 24 bytes in the machine's order.
    pub fn to_string(self) -> (s: String)
        ensures
            exists|little: bool|
                s@ == ascii_chars(spec_key_text(self.user_id@, self.randomness@, little)),
    {
        self.to_string_in(native_is_little_endian())
    }

    /// The 32 base64 characters of the key's 24 bytes in the given order.
    pub fn to_string_in(self, little: bool) -> (s: String)
        ensures
            s@ == ascii_chars(spec_key_text(self.user_id@, self.randomness@, little)),
    {
        let b = self.bytes_in(little);
        let s = to_base64(b.as_slice());
        assert(s@ == ascii_chars(spec_key_text(self.user_id@, self.randomness@, little)));
        s
    }

    /// `<user>-<random>` in decimal.
    pub fn to_string2(self) -> (s: String)
        ensures
            s@ == ascii_chars(spec_key_decimal(self.user_id@, self.randomness@)),
    {
        let mut out = itoa_text(self.user_id.as_u128());
        out.push(45u8);
        let tail = itoa_text(self.randomness.as_u64() as u128);
        out.extend_from_slice(tail.as_slice());
        proof {
            let t = spec_key_decimal(self.user_id@, self.randomness@);
            assert(out@ =~= t);
            lemma_decimal_digits(self.user_id@ as nat);
            lemma_decimal_digits(self.randomness@ as nat);
            assert forall|i: int| 0 <= i < t.len() implies #[trigger] t[i] < 128 by {
                let d1 = spec_decimal(self.user_id@ as nat);
                if i < d1.len() {
                    assert(is_digit(d1[i]));
                } else if i > d1.len() {
                    assert(is_digit(spec_decimal(self.randomness@ as nat)[i - d1.len() - 1]));
                }
            }
        }
        string_from_ascii(out)
    }

    /// Reads a key's text as `from_string` does, base64 bytes taken in the
    /// given order.
    pub fn from_string_in(s: &str, little: bool) -> (r: Option<TokenKey>)
        ensures
            match r {
                Some(k) => spec_key_parse(s.spec_bytes(), little) == Some(
                    (k.user_id@, k.randomness@),
                ),
                None => spec_key_parse(s.spec_bytes(), little) is None,
            },
    {
        let bytes = s.as_bytes();
        let n = bytes.len();
        if n > 60 {
            return None;
        }
        if n == 32 {
            match from_base64(s) {
                Some(d) => {
                    proof {
                        lemma_decode_len(s.spec_bytes());
                    }
                    let u = slice_to_vec(slice_subrange(d.as_slice(), 0, 16));
                    let r = slice_to_vec(slice_subrange(d.as_slice(), 16, 24));
                    let user_id = UserId::from_bytes_in(array16(&u), little);
                    let randomness = Randomness::from_bytes_in(array8(&r), little);
                    proof {
                        assert(u@ =~= d@.take(16));
                    }
                    return Some(TokenKey { user_id, randomness });
                },
                None => {
                    return None;
                },
            }
        }
        let mut sep: Option<usize> = None;
        let mut i: usize = 0;
        while i < n
            invariant
                n == bytes@.len(),
                bytes@ == s.spec_bytes(),
                n != 32,
                n <= 60,
                i <= n,
                match sep {
                    None => forall|j: int| 0 <= j < i ==> #[trigger] is_digit(bytes@[j]),
                    Some(p) => {
                        &&& p < i
                        &&& !is_digit(bytes@[p as int])
                        &&& forall|j: int| 0 <= j < i && j != p ==> #[trigger] is_digit(bytes@[j])
                    },
                },
            decreases n - i,
        {
            let b = bytes[i];
            if !(48u8 <= b && b <= 57u8) {
                match sep {
                    None => {
                        sep = Some(i);
                    },
                    Some(p) => {
                        proof {
                            assert forall|q: int| !is_separator_at(bytes@, q) by {
                                if is_separator_at(bytes@, q) {
                                    if q != p {
                                        assert(is_digit(bytes@[p as int]));
                                    } else {
                                        assert(is_digit(bytes@[i as int]));
                                    }
                                }
                            }
                            assert(bytes@ == s.spec_bytes());
                            assert(n != 32);
                            assert(spec_parse_pair(bytes@) is None);
                        }
                        return None;
                    },
                }
            }
            i = i + 1;
        }
        match sep {
            None => {
                proof {
                    assert forall|q: int| !is_separator_at(bytes@, q) by {
                        if is_separator_at(bytes@, q) {
                            assert(is_digit(bytes@[q]));
                        }
                    }
                }
                None
            },
            Some(p) => {
                proof {
                    assert(is_separator_at(bytes@, p as int));
                    assert forall|q: int| is_separator_at(bytes@, q) implies q == p by {
                        if q != p {
                            assert(is_digit(bytes@[p as int]));
                        }
                    }
                }
                let first = slice_subrange(bytes, 0, p);
                let second = slice_subrange(bytes, p + 1, n);
                proof {
                    assert(first@ =~= bytes@.take(p as int));
                    assert(second@ =~= bytes@.skip(p + 1));
                }
                match parse_u128(first) {
                    Some(a) => match parse_u64(second) {
                        Some(b) => Some(
                            TokenKey {
                                user_id: UserId::from_u128(a),
                                randomness: Randomness::from_u64(b),
                            },
                        ),
                        None => None,
                    },
                    None => None,
                }
            },
        }
    }

    /// Reads a key's text: 32 characters of base64 (bytes in the machine's
    /// order) or `<user>-<random>`; anything longer than 60 bytes is refused.
    pub fn from_string(s: &str) -> (r: Option<TokenKey>)
        ensures
            exists|little: bool|
                #![trigger spec_key_parse(s.spec_bytes(), little)]
                match r {
                    Some(k) => spec_key_parse(s.spec_bytes(), little) == Some(
                        (k.user_id@, k.randomness@),
                    ),
                    None => spec_key_parse(s.spec_bytes(), little) is None,
                },
    {
        Self::from_string_in(s, native_is_little_endian())
    }
}

/// The base64 text of a key reads back as that key, in the same byte order.
pub proof fn lemma_key_text_roundtrip(u: u128, r: u64, little: bool)
    ensures
        spec_key_parse(spec_key_text(u, r, little), little) == Some((u, r)),
{
    lemma_pow256_values();
    let kb = key_bytes(u, r, little);
    lemma_ordered_roundtrip(u as nat, 16, little);
    lemma_ordered_roundtrip(r as nat, 8, little);
    crate::base64_codec::lemma_encode_len_and_chars(kb);
    lemma_decode_encode_roundtrip(kb);
    assert(kb.take(16) =~= ordered_bytes(u as nat, 16, little));
    assert(kb.subrange(16, 24) =~= ordered_bytes(r as nat, 8, little));
}

/// The text `to_string_in` gives for a key reads back, with
/// `from_string_in` in the same byte order, as that key.
pub proof fn lemma_key_string_roundtrip(k: TokenKey, s: &str, little: bool)
    requires
        s@ == ascii_chars(spec_key_text(k.user_id@, k.randomness@, little)),
    ensures
        spec_key_parse(s.spec_bytes(), little) == Some((k.user_id@, k.randomness@)),
{
    let t = spec_key_text(k.user_id@, k.randomness@, little);
    crate::base64_codec::lemma_encode_len_and_chars(key_bytes(k.user_id@, k.randomness@, little));
    crate::text::lemma_encode_ascii(t);
    lemma_key_text_roundtrip(k.user_id@, k.randomness@, little);
}

/// The decimal text of a key reads back as that key, unless it is exactly 32
/// characters long: such a text is read as base64.
pub proof fn lemma_key_decimal_roundtrip(u: u128, r: u64, little: bool)
    requires
        spec_key_decimal(u, r).len() != 32,
    ensures
        spec_key_parse(spec_key_decimal(u, r), little) == Some((u, r)),
{
    let d1 = spec_decimal(u as nat);
    let d2 = spec_decimal(r as nat);
    let t = spec_key_decimal(u, r);
    lemma_pow10_bounds();
    lemma_decimal_len(u as nat, 39);
    lemma_decimal_len(r as nat, 20);
    lemma_decimal_digits(u as nat);
    lemma_decimal_digits(r as nat);
    let p = d1.len() as int;
    assert(is_separator_at(t, p)) by {
        assert forall|q: int| 0 <= q < t.len() && q != p implies #[trigger] is_digit(t[q]) by {
            if q < p {
                assert(t[q] == d1[q]);
                assert(is_digit(d1[q]));
            } else {
                assert(t[q] == d2[q - p - 1]);
                assert(is_digit(d2[q - p - 1]));
            }
        }
    }
    assert forall|q: int| is_separator_at(t, q) implies q == p by {
        if q != p {
            assert(is_digit(t[p]));
        }
    }
    assert(t.take(p) =~= d1);
    assert(t.skip(p + 1) =~= d2);
    lemma_parse_decimal_roundtrip(u as nat, u128::MAX as nat);
    lemma_parse_decimal_roundtrip(r as nat, u64::MAX as nat);
}

} // verus!
