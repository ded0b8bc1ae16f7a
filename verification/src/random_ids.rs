//! Random identifiers: UUIDs (version 4) and PKCE verifier/challenge pairs.
//! The randomness comes from the operating system; what is built from it is
//! stated for every outcome.
use crate::base64_codec::spec_encoded_len;
use crate::hex::hex_digit;
use crate::url_base64::{url_encode, url_safe_no_pad_decode, url_safe_no_pad_encode, url_safe_text};
use rand::TryRngCore as _;
use sha2::Digest as _;
use vstd::prelude::*;

verus! {

/// A lowercase hexadecimal digit.
pub open spec fn is_lower_hex(c: u8) -> bool {
    (48 <= c <= 57) || (97 <= c <= 102)
}

/// The hyphenated lowercase text of a version 4 UUID:
/// `xxxxxxxx-xxxx-4xxx-Yxxx-xxxxxxxxxxxx` with `Y` one of `8 9 a b`.
pub open spec fn is_uuid_v4_text(s: Seq<u8>) -> bool {
    &&& s.len() == 36
    &&& forall|i: int|
        0 <= i < 36 ==> if i == 8 || i == 13 || i == 18 || i == 23 {
            #[trigger] s[i] == 45
        } else {
            is_lower_hex(s[i])
        }
    &&& s[14] == 52
    &&& (s[19] == 56 || s[19] == 57 || s[19] == 97 || s[19] == 98)
}

/// The 16 bytes of a version 4 UUID made from random bytes: the version
/// nibble of byte 6 set to 4, the variant bits of byte 8 set to `10`.
pub open spec fn v4_bytes(b: Seq<u8>) -> Seq<u8> {
    b.update(6, (b[6] & 0x0f) | 0x40).update(8, (b[8] & 0x3f) | 0x80)
}

/// Which hexadecimal digit of the 32 stands at position `i` of the
/// hyphenated text (hyphens at 8, 13, 18 and 23).
pub open spec fn uuid_digit_index(i: int) -> int {
    if i < 8 {
        i
    } else if i < 13 {
        i - 1
    } else if i < 18 {
        i - 2
    } else if i < 23 {
        i - 3
    } else {
        i - 4
    }
}

/// The hyphenated lowercase text of 16 UUID bytes.
pub open spec fn uuid_text(b: Seq<u8>) -> Seq<u8> {
    Seq::new(
        36,
        |i: int|
            if i == 8 || i == 13 || i == 18 || i == 23 {
                45u8
            } else {
                let k = uuid_digit_index(i);
                if k % 2 == 0 {
                    hex_digit(b[k / 2] as int / 16)
                } else {
                    hex_digit(b[k / 2] as int % 16)
                }
            },
    )
}

/// `n` random bytes from the operating system, through
/// `OsRng::try_fill_bytes`.
///
/// Trusted: there are `n` of them; nothing is stated of their values; a
/// failure of the source comes back as `None`.
#[verifier::external_body]
fn os_random_bytes(n: usize) -> (r: Option<Vec<u8>>)
    ensures
        r matches Some(v) ==> v@.len() == n,
{
    let mut bytes = vec![0u8; n];
    match rand::rngs::OsRng.try_fill_bytes(&mut bytes) {
        Ok(()) => Some(bytes),
        Err(_) => None,
    }
}

/// The UUID bytes that `uuid::Builder::from_random_bytes` makes of random
/// bytes (read back with `into_uuid().into_bytes()`).
///
/// Trusted: the crate sets the RFC 4122 variant (`(b8 & 0x3f) | 0x80`) and
/// version 4 (`(b6 & 0x0f) | 0x40`) and keeps the other bytes.
#[verifier::external_body]
fn v4_from_random(bytes: [u8; 16]) -> (r: [u8; 16])
    ensures
        r@ == v4_bytes(bytes@),
{
    uuid::Builder::from_random_bytes(bytes).into_uuid().into_bytes()
}

/// The hyphenated lowercase text of a UUID, through `Uuid::from_bytes`,
/// `hyphenated` and `encode_lower`.
///
/// Trusted: two lowercase hexadecimal digits per byte, high half first, with
/// hyphens after the 4th, 6th, 8th and 10th byte.
#[verifier::external_body]
fn hyphenated_lower(bytes: [u8; 16]) -> (r: [u8; 36])
    ensures
        r@ == uuid_text(bytes@),
{
    let mut buf = [0u8; 36];
    let _ = uuid::Uuid::from_bytes(bytes).hyphenated().encode_lower(&mut buf);
    buf
}

proof fn lemma_hex_digit_lower(n: int)
    requires
        0 <= n < 16,
    ensures
        is_lower_hex(hex_digit(n)),
{
}

/// The text of a version 4 UUID has the version 4 and variant digits.
proof fn lemma_uuid_v4_text(b: Seq<u8>)
    requires
        b.len() == 16,
    ensures
        is_uuid_v4_text(uuid_text(v4_bytes(b))),
{
    let v = v4_bytes(b);
    let t = uuid_text(v);
    let b6 = b[6];
    let b8 = b[8];
    assert(((b6 & 0x0f) | 0x40) / 16 == 4) by (bit_vector);
    assert(8 <= ((b8 & 0x3f) | 0x80) / 16 <= 11) by (bit_vector);
    assert forall|i: int| 0 <= i < 36 implies if i == 8 || i == 13 || i == 18 || i == 23 {
        #[trigger] t[i] == 45
    } else {
        is_lower_hex(t[i])
    } by {
        if !(i == 8 || i == 13 || i == 18 || i == 23) {
            let k = uuid_digit_index(i);
            assert(0 <= k / 2 < 16);
            if k % 2 == 0 {
                lemma_hex_digit_lower(v[k / 2] as int / 16);
            } else {
                lemma_hex_digit_lower(v[k / 2] as int % 16);
            }
        }
    }
}

/// The text of the version 4 UUID made from 16 random bytes.
pub fn uuid_v4_text_from(random: [u8; 16]) -> (r: [u8; 36])
    ensures
        r@ == uuid_text(v4_bytes(random@)),
        is_uuid_v4_text(r@),
{
    let bytes = v4_from_random(random);
    proof {
        lemma_uuid_v4_text(random@);
    }
    hyphenated_lower(bytes)
}

/// A new random UUID (version 4) as its hyphenated lowercase text; `None`
/// when the system's random source fails.
pub fn new_uuid_v4() -> (r: Option<[u8; 36]>)
    ensures
        r matches Some(t) ==> is_uuid_v4_text(t@) && exists|b: Seq<u8>|
            b.len() == 16 && t@ == uuid_text(v4_bytes(b)),
{
    match os_random_bytes(16) {
        Some(v) => {
            let random: [u8; 16] = [
                v[0], v[1], v[2], v[3], v[4], v[5], v[6], v[7], v[8], v[9], v[10], v[11], v[12],
                v[13], v[14], v[15],
            ];
            assert(random@ =~= v@);
            let t = uuid_v4_text_from(random);
            Some(t)
        },
        None => None,
    }
}

/// What SHA-256 gives for some bytes.
pub uninterp spec fn sha256_digest(data: Seq<u8>) -> Seq<u8>;

/// The SHA-256 digest of `data`, through `sha2::Sha256::digest`.
///
/// Trusted: the digest depends on the bytes alone and has 32 bytes.
#[verifier::external_body]
fn sha256(data: &[u8]) -> (r: [u8; 32])
    ensures
        r@ == sha256_digest(data@),
{
    let digest = sha2::Sha256::digest(data);
    let mut out = [0u8; 32];
    out.copy_from_slice(digest.as_slice());
    out
}

/// 32 random bytes from the operating system; `None` when the source fails.
fn os_random_32() -> (r: Option<[u8; 32]>) {
    match os_random_bytes(32) {
        Some(v) => {
            let r: [u8; 32] = [
                v[0], v[1], v[2], v[3], v[4], v[5], v[6], v[7], v[8], v[9], v[10], v[11], v[12],
                v[13], v[14], v[15], v[16], v[17], v[18], v[19], v[20], v[21], v[22], v[23], v[24],
                v[25], v[26], v[27], v[28], v[29], v[30], v[31],
            ];
            Some(r)
        },
        None => None,
    }
}

fn array43(v: &Vec<u8>) -> (r: [u8; 43])
    requires
        v@.len() == 43,
    ensures
        r@ == v@,
{
    let r = [
        v[0], v[1], v[2], v[3], v[4], v[5], v[6], v[7], v[8], v[9], v[10], v[11], v[12], v[13],
        v[14], v[15], v[16], v[17], v[18], v[19], v[20], v[21], v[22], v[23], v[24], v[25], v[26],
        v[27], v[28], v[29], v[30], v[31], v[32], v[33], v[34], v[35], v[36], v[37], v[38], v[39],
        v[40], v[41], v[42],
    ];
    assert(r@ =~= v@);
    r
}

/// The PKCE pair for a secret: the verifier is the secret in URL-safe
/// base64 (43 characters), the challenge the URL-safe base64 of the
/// verifier's SHA-256 digest.
pub fn pkce_pair_from(secret: &[u8; 32]) -> (r: ([u8; 43], [u8; 43]))
    ensures
        r.0@ == url_safe_no_pad_encode(secret@),
        r.1@ == url_safe_no_pad_encode(sha256_digest(r.0@)),
        url_safe_no_pad_decode(r.0@) == Some(secret@),
        url_safe_text(r.0@),
        url_safe_text(r.1@),
{
    let verifier = url_encode(secret.as_slice());
    let v = array43(&verifier);
    let digest = sha256(v.as_slice());
    let challenge = url_encode(digest.as_slice());
    let c = array43(&challenge);
    (v, c)
}

/// A new PKCE pair from 32 random bytes; `None` when the system's random
/// source fails.
pub fn generate_pkce_pair() -> (r: Option<([u8; 43], [u8; 43])>)
    ensures
        match r {
            Some((v, c)) => {
                &&& c@ == url_safe_no_pad_encode(sha256_digest(v@))
                &&& url_safe_text(v@)
                &&& url_safe_text(c@)
                &&& exists|secret: Seq<u8>|
                    secret.len() == 32 && v@ == url_safe_no_pad_encode(secret)
                        && url_safe_no_pad_decode(v@) == Some(secret)
            },
            None => true,
        },
{
    match os_random_32() {
        Some(secret) => Some(pkce_pair_from(&secret)),
        None => None,
    }
}

} // verus!
