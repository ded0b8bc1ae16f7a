//! URL-safe base64 without padding over the alphabet
//! `-AaBbCcDdEeFfGgHhIiJjKkLlMmNnOoPpQqRrSsTtUuVvWwXxYyZz1032547698_`.
//!
//! Three bytes become four characters; a trailing single byte becomes two
//! characters and a trailing pair three.  Decoding refuses texts whose
//! length is `1 (mod 4)` and texts with a character outside the alphabet.
use crate::text::{ascii_chars, is_ascii_bytes, string_from_ascii};
use vstd::prelude::*;
use vstd::string::StringSliceAdditionalSpecFns;

verus! {

// ---------------------------------------------------------------------------
// Alphabet
// ---------------------------------------------------------------------------

/// The character for the 6-bit value `v`.
pub open spec fn sextet_char(v: int) -> u8 {
    if v == 0 {
        45
    } else if v <= 52 {
        if v % 2 == 1 {
            (65 + (v - 1) / 2) as u8
        } else {
            (97 + (v - 2) / 2) as u8
        }
    } else if v <= 62 {
        if v % 2 == 1 {
            (48 + (v - 52)) as u8
        } else {
            (48 + (v - 54)) as u8
        }
    } else {
        95
    }
}

/// The 6-bit value of an alphabet character.
pub open spec fn char_sextet(c: u8) -> Option<int> {
    if c == 45 {
        Some(0)
    } else if 65 <= c <= 90 {
        Some(2 * (c - 65) + 1)
    } else if 97 <= c <= 122 {
        Some(2 * (c - 97) + 2)
    } else if 48 <= c <= 57 {
        if (c - 48) % 2 == 0 {
            Some(c - 48 + 54)
        } else {
            Some(c - 48 + 52)
        }
    } else if c == 95 {
        Some(63)
    } else {
        None
    }
}

proof fn lemma_sextet_roundtrip(v: int)
    requires
        0 <= v < 64,
    ensures
        char_sextet(sextet_char(v)) == Some(v),
        sextet_char(v) < 128,
{
}

// ---------------------------------------------------------------------------
// Model of the encoding
// ---------------------------------------------------------------------------

/// Four characters for three bytes (missing bytes count as zero).
pub open spec fn quad(b0: int, b1: int, b2: int) -> Seq<u8> {
    seq![
        sextet_char(b0 / 4),
        sextet_char((b0 % 4) * 16 + b1 / 16),
        sextet_char((b1 % 16) * 4 + b2 / 64),
        sextet_char(b2 % 64),
    ]
}

/// The text that encodes `input`.
pub open spec fn spec_encode(input: Seq<u8>) -> Seq<u8>
    decreases input.len(),
{
    if input.len() == 0 {
        Seq::empty()
    } else if input.len() == 1 {
        quad(input[0] as int, 0, 0).take(2)
    } else if input.len() == 2 {
        quad(input[0] as int, input[1] as int, 0).take(3)
    } else {
        quad(input[0] as int, input[1] as int, input[2] as int) + spec_encode(input.skip(3))
    }
}

pub open spec fn all_in_alphabet(s: Seq<u8>) -> bool {
    forall|i: int| 0 <= i < s.len() ==> (#[trigger] char_sextet(s[i])) is Some
}

pub open spec fn sx(c: u8) -> int {
    char_sextet(c).unwrap()
}

/// The bytes written by a text of alphabet characters whose length is not `1 (mod 4)`.
pub open spec fn decode_groups(s: Seq<u8>) -> Seq<u8>
    decreases s.len(),
{
    if s.len() < 2 {
        Seq::empty()
    } else if s.len() == 2 {
        seq![(sx(s[0]) * 4 + sx(s[1]) / 16) as u8]
    } else if s.len() == 3 {
        seq![(sx(s[0]) * 4 + sx(s[1]) / 16) as u8, ((sx(s[1]) % 16) * 16 + sx(s[2]) / 4) as u8]
    } else {
        seq![
            (sx(s[0]) * 4 + sx(s[1]) / 16) as u8,
            ((sx(s[1]) % 16) * 16 + sx(s[2]) / 4) as u8,
            ((sx(s[2]) % 4) * 64 + sx(s[3])) as u8,
        ] + decode_groups(s.skip(4))
    }
}

/// What decoding a text gives.
pub open spec fn spec_decode(s: Seq<u8>) -> Option<Seq<u8>> {
    if s.len() % 4 == 1 || !all_in_alphabet(s) {
        None
    } else {
        Some(decode_groups(s))
    }
}

pub open spec fn spec_encoded_len(n: int) -> int {
    (n / 3) * 4 + if n % 3 == 0 {
        0int
    } else if n % 3 == 1 {
        2int
    } else {
        3int
    }
}

pub open spec fn spec_decoded_len(n: int) -> Option<int> {
    if n % 4 == 1 {
        None
    } else {
        Some(
            (n / 4) * 3 + if n % 4 == 0 {
                0int
            } else if n % 4 == 2 {
                1int
            } else {
                2int
            },
        )
    }
}

// ---------------------------------------------------------------------------
// Lemmas
// ---------------------------------------------------------------------------

proof fn lemma_quad_ascii(b0: int, b1: int, b2: int)
    requires
        0 <= b0 < 256,
        0 <= b1 < 256,
        0 <= b2 < 256,
    ensures
        is_ascii_bytes(quad(b0, b1, b2)),
        all_in_alphabet(quad(b0, b1, b2)),
        quad(b0, b1, b2).len() == 4,
{
    lemma_sextet_roundtrip(b0 / 4);
    lemma_sextet_roundtrip((b0 % 4) * 16 + b1 / 16);
    lemma_sextet_roundtrip((b1 % 16) * 4 + b2 / 64);
    lemma_sextet_roundtrip(b2 % 64);
}

/// The encoding of `input` has `spec_encoded_len` ASCII characters of the alphabet.
pub proof fn lemma_encode_len_and_chars(input: Seq<u8>)
    ensures
        spec_encode(input).len() == spec_encoded_len(input.len() as int),
        is_ascii_bytes(spec_encode(input)),
        all_in_alphabet(spec_encode(input)),
    decreases input.len(),
{
    if input.len() == 0 {
    } else if input.len() <= 2 {
        let b1 = if input.len() == 2 { input[1] as int } else { 0 };
        lemma_quad_ascii(input[0] as int, b1, 0);
    } else {
        lemma_encode_len_and_chars(input.skip(3));
        lemma_quad_ascii(input[0] as int, input[1] as int, input[2] as int);
        let q = quad(input[0] as int, input[1] as int, input[2] as int);
        let r = spec_encode(input.skip(3));
        assert forall|i: int| 0 <= i < (q + r).len() implies #[trigger] (q + r)[i] < 128 by {
            if i < 4 {
                assert((q + r)[i] == q[i]);
            } else {
                assert((q + r)[i] == r[i - 4]);
            }
        }
        assert forall|i: int| 0 <= i < (q + r).len() implies (#[trigger] char_sextet(
            (q + r)[i],
        )) is Some by {
            if i < 4 {
                assert((q + r)[i] == q[i]);
            } else {
                assert((q + r)[i] == r[i - 4]);
            }
        }
    }
}

proof fn lemma_decode_quad(b0: int, b1: int, b2: int)
    requires
        0 <= b0 < 256,
        0 <= b1 < 256,
        0 <= b2 < 256,
    ensures
        ({
            let q = quad(b0, b1, b2);
            &&& (sx(q[0]) * 4 + sx(q[1]) / 16) as u8 == b0 as u8
            &&& ((sx(q[1]) % 16) * 16 + sx(q[2]) / 4) as u8 == b1 as u8
            &&& ((sx(q[2]) % 4) * 64 + sx(q[3])) as u8 == b2 as u8
        }),
{
    lemma_sextet_roundtrip(b0 / 4);
    lemma_sextet_roundtrip((b0 % 4) * 16 + b1 / 16);
    lemma_sextet_roundtrip((b1 % 16) * 4 + b2 / 64);
    lemma_sextet_roundtrip(b2 % 64);
}

/// Decoding the encoding of any byte sequence gives it back.
#[verifier::spinoff_prover]
#[verifier::rlimit(50)]
pub proof fn lemma_decode_encode_roundtrip(input: Seq<u8>)
    ensures
        spec_decode(spec_encode(input)) == Some(input),
    decreases input.len(),
{
    lemma_encode_len_and_chars(input);
    let e = spec_encode(input);
    assert(e.len() % 4 != 1) by {
        let n = input.len() as int;
        assert(e.len() == spec_encoded_len(n));
    }
    if input.len() == 0 {
        assert(decode_groups(e) =~= input);
    } else if input.len() == 1 {
        lemma_decode_quad(input[0] as int, 0, 0);
        assert(decode_groups(e) =~= input);
    } else if input.len() == 2 {
        lemma_decode_quad(input[0] as int, input[1] as int, 0);
        assert(decode_groups(e) =~= input);
    } else {
        lemma_decode_encode_roundtrip(input.skip(3));
        lemma_decode_quad(input[0] as int, input[1] as int, input[2] as int);
        lemma_encode_len_and_chars(input.skip(3));
        let q = quad(input[0] as int, input[1] as int, input[2] as int);
        assert(e.skip(4) =~= spec_encode(input.skip(3)));
        assert(e[0] == q[0] && e[1] == q[1] && e[2] == q[2] && e[3] == q[3]);
        assert(decode_groups(e) =~= seq![input[0], input[1], input[2]] + input.skip(3));
        assert(seq![input[0], input[1], input[2]] + input.skip(3) =~= input);
    }
}

/// A text whose length is not `1 (mod 4)` decodes to `spec_decoded_len` bytes.
pub proof fn lemma_decode_len(s: Seq<u8>)
    requires
        s.len() % 4 != 1,
    ensures
        decode_groups(s).len() == spec_decoded_len(s.len() as int).unwrap(),
    decreases s.len(),
{
    if s.len() >= 4 {
        lemma_decode_len(s.skip(4));
    }
}

// ---------------------------------------------------------------------------
// Lengths
// ---------------------------------------------------------------------------

/// Exact length of the text that encodes `input_len` bytes.
pub fn encoded_len(input_len: usize) -> (r: usize)
    requires
        (input_len as int / 3) * 4 + 4 <= usize::MAX,
    ensures
        r as int == spec_encoded_len(input_len as int),
{
    let d = input_len / 3;
    let r = input_len % 3;
    let full = if r > 0 {
        d + 1
    } else {
        d
    };
    let sub: usize = if r == 1 {
        2
    } else if r == 2 {
        1
    } else {
        0
    };
    full * 4 - sub
}

/// Exact length of the bytes that a text of `encoded_len` characters decodes to,
/// or `None` for the impossible length `1 (mod 4)`.
pub fn decoded_len(encoded_len: usize) -> (r: Option<usize>)
    ensures
        match r {
            Some(n) => spec_decoded_len(encoded_len as int) == Some(n as int),
            None => spec_decoded_len(encoded_len as int) is None,
        },
{
    let r = encoded_len % 4;
    if r == 0 {
        Some((encoded_len / 4) * 3)
    } else if r == 2 {
        Some((encoded_len / 4) * 3 + 1)
    } else if r == 3 {
        Some((encoded_len / 4) * 3 + 2)
    } else {
        None
    }
}

// ---------------------------------------------------------------------------
// Encoding and decoding
// ---------------------------------------------------------------------------

fn sextet_to_char(v: u32) -> (c: u8)
    requires
        v < 64,
    ensures
        c == sextet_char(v as int),
{
    if v == 0 {
        45
    } else if v <= 52 {
        if v % 2 == 1 {
            (65 + (v - 1) / 2) as u8
        } else {
            (97 + (v - 2) / 2) as u8
        }
    } else if v <= 62 {
        if v % 2 == 1 {
            (48 + (v - 52)) as u8
        } else {
            (48 + (v - 54)) as u8
        }
    } else {
        95
    }
}

fn char_to_sextet(c: u8) -> (r: Option<u8>)
    ensures
        r is Some <==> char_sextet(c) is Some,
        r is Some ==> r->0 as int == char_sextet(c).unwrap() && r->0 < 64,
{
    if c == 45 {
        Some(0)
    } else if 65 <= c && c <= 90 {
        Some(2 * (c - 65) + 1)
    } else if 97 <= c && c <= 122 {
        Some(2 * (c - 97) + 2)
    } else if 48 <= c && c <= 57 {
        if (c - 48) % 2 == 0 {
            Some(c - 48 + 54)
        } else {
            Some(c - 48 + 52)
        }
    } else if c == 95 {
        Some(63)
    } else {
        None
    }
}

/// The four characters for three bytes, computed with the shifts of the 24-bit group.
fn encode_group(b1: u8, b2: u8, b3: u8) -> (r: (u8, u8, u8, u8))
    ensures
        seq![r.0, r.1, r.2, r.3] == quad(b1 as int, b2 as int, b3 as int),
{
    let n: u32 = ((b1 as u32) << 16u32) | ((b2 as u32) << 8u32) | (b3 as u32);
    proof {
        assert(n >> 18u32 == b1 as u32 / 4 && ((n >> 12u32) & 0x3F) == (b1 as u32 % 4) * 16
            + b2 as u32 / 16 && ((n >> 6u32) & 0x3F) == (b2 as u32 % 16) * 4 + b3 as u32 / 64
            && (n & 0x3F) == b3 as u32 % 64) by (bit_vector)
            requires
                n == ((b1 as u32) << 16u32) | ((b2 as u32) << 8u32) | (b3 as u32),
        ;
    }
    let c1 = sextet_to_char(n >> 18u32);
    let c2 = sextet_to_char((n >> 12u32) & 0x3F);
    let c3 = sextet_to_char((n >> 6u32) & 0x3F);
    let c4 = sextet_to_char(n & 0x3F);
    (c1, c2, c3, c4)
}

/// Appends the encoding of `input` to `output`.
fn encode_to_vec(input: &[u8], output: &mut Vec<u8>)
    ensures
        final(output)@ == old(output)@ + spec_encode(input@),
{
    let len = input.len();
    let mut i: usize = 0;
    let ghost start = output@;
    proof {
        assert(input@.skip(0) =~= input@);
        assert(start + Seq::<u8>::empty() =~= start);
    }
    while len - i >= 3
        invariant
            len == input@.len(),
            i <= len,
            start + spec_encode(input@) == output@ + spec_encode(input@.skip(i as int)),
        decreases len - i,
    {
        let (c1, c2, c3, c4) = encode_group(input[i], input[i + 1], input[i + 2]);
        let ghost before = output@;
        output.push(c1);
        output.push(c2);
        output.push(c3);
        output.push(c4);
        proof {
            let rest = input@.skip(i as int);
            assert(rest[0] == input@[i as int] && rest[1] == input@[i + 1] && rest[2] == input@[i
                + 2]);
            assert(rest.skip(3) =~= input@.skip(i + 3));
            assert(output@ =~= before + seq![c1, c2, c3, c4]);
        }
        i = i + 3;
    }
    let ghost before = output@;
    let rem = len - i;
    proof {
        let rest = input@.skip(i as int);
        assert(rest.len() == rem);
    }
    if rem == 1 {
        let (c1, c2, _c3, _c4) = encode_group(input[i], 0, 0);
        output.push(c1);
        output.push(c2);
        proof {
            let rest = input@.skip(i as int);
            assert(rest[0] == input@[i as int]);
            assert(spec_encode(rest) =~= seq![c1, c2]);
            assert(output@ =~= before + seq![c1, c2]);
        }
    } else if rem == 2 {
        let (c1, c2, c3, _c4) = encode_group(input[i], input[i + 1], 0);
        output.push(c1);
        output.push(c2);
        output.push(c3);
        proof {
            let rest = input@.skip(i as int);
            assert(rest[0] == input@[i as int] && rest[1] == input@[i + 1]);
            assert(spec_encode(rest) =~= seq![c1, c2, c3]);
            assert(output@ =~= before + seq![c1, c2, c3]);
        }
    } else {
        proof {
            assert(spec_encode(input@.skip(i as int)) =~= Seq::<u8>::empty());
            assert(output@ + Seq::<u8>::empty() =~= output@);
        }
    }
}

/// Encodes bytes into a new `String`.
pub fn to_base64(bytes: &[u8]) -> (s: String)
    ensures
        s@ == ascii_chars(spec_encode(bytes@)),
{
    let mut output: Vec<u8> = Vec::new();
    encode_to_vec(bytes, &mut output);
    proof {
        assert(output@ =~= spec_encode(bytes@));
        lemma_encode_len_and_chars(bytes@);
    }
    string_from_ascii(output)
}

/// Appends the bytes written by `input` (all alphabet characters, length not `1 mod 4`).
fn decode_to_vec(input: &[u8], output: &mut Vec<u8>)
    requires
        all_in_alphabet(input@),
        input@.len() % 4 != 1,
    ensures
        final(output)@ == old(output)@ + decode_groups(input@),
{
    let len = input.len();
    let mut i: usize = 0;
    let ghost start = output@;
    proof {
        assert(input@.skip(0) =~= input@);
        assert(start + Seq::<u8>::empty() =~= start);
    }
    while len - i >= 4
        invariant
            len == input@.len(),
            i <= len,
            i % 4 == 0,
            all_in_alphabet(input@),
            start + decode_groups(input@) == output@ + decode_groups(input@.skip(i as int)),
        decreases len - i,
    {
        let c1 = char_to_sextet(input[i]).unwrap();
        let c2 = char_to_sextet(input[i + 1]).unwrap();
        let c3 = char_to_sextet(input[i + 2]).unwrap();
        let c4 = char_to_sextet(input[i + 3]).unwrap();
        let n: u32 = ((c1 as u32) << 18u32) | ((c2 as u32) << 12u32) | ((c3 as u32) << 6u32) | (
        c4 as u32);
        proof {
            assert((n >> 16u32) as u8 == (c1 as u32 * 4 + c2 as u32 / 16) as u8 && (n >> 8u32) as u8
                == ((c2 as u32 % 16) * 16 + c3 as u32 / 4) as u8 && n as u8 == ((c3 as u32 % 4)
                * 64 + c4 as u32) as u8) by (bit_vector)
                requires
                    c1 < 64,
                    c2 < 64,
                    c3 < 64,
                    c4 < 64,
                    n == ((c1 as u32) << 18u32) | ((c2 as u32) << 12u32) | ((c3 as u32) << 6u32)
                        | (c4 as u32),
            ;
        }
        let ghost before = output@;
        output.push((n >> 16u32) as u8);
        output.push((n >> 8u32) as u8);
        output.push(n as u8);
        proof {
            let rest = input@.skip(i as int);
            assert(rest[0] == input@[i as int] && rest[1] == input@[i + 1] && rest[2] == input@[i
                + 2] && rest[3] == input@[i + 3]);
            assert(rest.skip(4) =~= input@.skip(i + 4));
            assert(output@ =~= before + seq![(n >> 16u32) as u8, (n >> 8u32) as u8, n as u8]);
        }
        i = i + 4;
    }
    let ghost before = output@;
    let rem = len - i;
    proof {
        let rest = input@.skip(i as int);
        assert(rest.len() == rem);
        assert(len % 4 == rem % 4);
    }
    if rem == 2 {
        let c1 = char_to_sextet(input[i]).unwrap();
        let c2 = char_to_sextet(input[i + 1]).unwrap();
        let b = (c1 << 2u8) | (c2 >> 4u8);
        proof {
            assert(b == c1 * 4 + c2 / 16) by (bit_vector)
                requires
                    c1 < 64,
                    c2 < 64,
                    b == (c1 << 2u8) | (c2 >> 4u8),
            ;
        }
        output.push(b);
        proof {
            let rest = input@.skip(i as int);
            assert(rest[0] == input@[i as int] && rest[1] == input@[i + 1]);
            assert(decode_groups(rest) =~= seq![b]);
            assert(output@ =~= before + seq![b]);
        }
    } else if rem == 3 {
        let c1 = char_to_sextet(input[i]).unwrap();
        let c2 = char_to_sextet(input[i + 1]).unwrap();
        let c3 = char_to_sextet(input[i + 2]).unwrap();
        let b1 = (c1 << 2u8) | (c2 >> 4u8);
        let b2 = (c2 << 4u8) | (c3 >> 2u8);
        proof {
            assert(b1 == c1 * 4 + c2 / 16 && b2 == ((c2 % 16) * 16 + c3 / 4)) by (bit_vector)
                requires
                    c1 < 64,
                    c2 < 64,
                    c3 < 64,
                    b1 == (c1 << 2u8) | (c2 >> 4u8),
                    b2 == (c2 << 4u8) | (c3 >> 2u8),
            ;
        }
        output.push(b1);
        output.push(b2);
        proof {
            let rest = input@.skip(i as int);
            assert(rest[0] == input@[i as int] && rest[1] == input@[i + 1] && rest[2] == input@[i
                + 2]);
            assert(decode_groups(rest) =~= seq![b1, b2]);
            assert(output@ =~= before + seq![b1, b2]);
        }
    } else {
        proof {
            assert(rem == 0);
            assert(decode_groups(input@.skip(i as int)) =~= Seq::<u8>::empty());
            assert(output@ + Seq::<u8>::empty() =~= output@);
        }
    }
}

/// Decodes a text into a new byte vector; `None` when its length is `1 (mod 4)`
/// or it holds a character outside the alphabet.
pub fn from_base64(input: &str) -> (r: Option<Vec<u8>>)
    ensures
        match r {
            Some(v) => spec_decode(input.spec_bytes()) == Some(v@),
            None => spec_decode(input.spec_bytes()) is None,
        },
{
    decode_bytes(input.as_bytes())
}

/// Decodes the bytes of a text; `None` when its length is `1 (mod 4)` or it
/// holds a character outside the alphabet.
pub fn decode_bytes(bytes: &[u8]) -> (r: Option<Vec<u8>>)
    ensures
        match r {
            Some(v) => spec_decode(bytes@) == Some(v@),
            None => spec_decode(bytes@) is None,
        },
{
    let len = bytes.len();
    if len == 0 {
        proof {
            assert(decode_groups(bytes@) =~= Seq::<u8>::empty());
        }
        return Some(Vec::new());
    }
    let output_len = match decoded_len(len) {
        Some(n) => n,
        None => {
            proof {
                assert(bytes@.len() % 4 == 1);
            }
            return None;
        },
    };
    let mut i: usize = 0;
    while i < len
        invariant
            len == bytes@.len(),
            i <= len,
            forall|j: int| 0 <= j < i ==> (#[trigger] char_sextet(bytes@[j])) is Some,
        decreases len - i,
    {
        if char_to_sextet(bytes[i]).is_none() {
            proof {
                assert(!all_in_alphabet(bytes@));
            }
            return None;
        }
        i = i + 1;
    }
    let mut output: Vec<u8> = Vec::with_capacity(output_len);
    decode_to_vec(bytes, &mut output);
    proof {
        assert(output@ =~= decode_groups(bytes@));
    }
    Some(output)
}

} // verus!
