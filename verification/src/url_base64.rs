//! The URL-safe base64 of the `base64` crate, without padding, as used by
//! the parts of a signed token.
use base64::Engine as _;
use vstd::prelude::*;

verus! {

/// What `URL_SAFE_NO_PAD` decoding gives for a text, `None` where it refuses it.
pub uninterp spec fn url_safe_no_pad_decode(text: Seq<u8>) -> Option<Seq<u8>>;

/// The URL-safe character for the 6-bit value `v`: `A-Z`, `a-z`, `0-9`,
/// then `-` and `_`.
pub open spec fn url_sextet_char(v: int) -> u8 {
    if v < 26 {
        (65 + v) as u8
    } else if v < 52 {
        (97 + v - 26) as u8
    } else if v < 62 {
        (48 + v - 52) as u8
    } else if v == 62 {
        45
    } else {
        95
    }
}

/// Four characters for three bytes (missing bytes count as zero).
pub open spec fn url_quad(b0: int, b1: int, b2: int) -> Seq<u8> {
    seq![
        url_sextet_char(b0 / 4),
        url_sextet_char((b0 % 4) * 16 + b1 / 16),
        url_sextet_char((b1 % 16) * 4 + b2 / 64),
        url_sextet_char(b2 % 64),
    ]
}

/// What `URL_SAFE_NO_PAD` encoding gives for some bytes: four characters
/// for every three bytes, and two or three for a last one or two, without
/// padding.
pub open spec fn url_safe_no_pad_encode(bytes: Seq<u8>) -> Seq<u8>
    decreases bytes.len(),
{
    if bytes.len() == 0 {
        Seq::empty()
    } else if bytes.len() == 1 {
        url_quad(bytes[0] as int, 0, 0).take(2)
    } else if bytes.len() == 2 {
        url_quad(bytes[0] as int, bytes[1] as int, 0).take(3)
    } else {
        url_quad(bytes[0] as int, bytes[1] as int, bytes[2] as int) + url_safe_no_pad_encode(
            bytes.skip(3),
        )
    }
}

/// A character of the URL-safe alphabet: `A-Z`, `a-z`, `0-9`, `-`, `_`.
pub open spec fn is_url_safe_char(c: u8) -> bool {
    (65 <= c <= 90) || (97 <= c <= 122) || (48 <= c <= 57) || c == 45 || c == 95
}

pub open spec fn url_safe_text(s: Seq<u8>) -> bool {
    forall|i: int| 0 <= i < s.len() ==> #[trigger] is_url_safe_char(s[i])
}

/// Decodes URL-safe base64 without padding, through `Engine::decode` of
/// `base64::engine::general_purpose::URL_SAFE_NO_PAD`.
///
/// Trusted: the result is a function of the text alone.  Every refusal of
/// the crate (`base64::DecodeError`, whichever variant) comes back as `None`.
#[verifier::external_body]
pub(crate) fn url_decode(text: &[u8]) -> (r: Option<Vec<u8>>)
    ensures
        match r {
            Some(v) => url_safe_no_pad_decode(text@) == Some(v@),
            None => url_safe_no_pad_decode(text@) is None,
        },
{
    match base64::engine::general_purpose::URL_SAFE_NO_PAD.decode(text) {
        Ok(v) => Some(v),
        Err(_) => None,
    }
}

/// Encodes bytes as URL-safe base64 without padding, through `Engine::encode`
/// of `base64::engine::general_purpose::URL_SAFE_NO_PAD`.
///
/// Trusted: the text is the standard base64 encoding in the URL-safe
/// alphabet without padding, as `url_safe_no_pad_encode` states it; so it
/// uses only that alphabet and has four characters for every three bytes
/// and two or three for a last one or two; and decoding it with the same
/// engine gives the bytes back (the crate's documented round trip).
/// The crate panics only when the length of the text overflows `usize`.
#[verifier::external_body]
pub(crate) fn url_encode(bytes: &[u8]) -> (r: Vec<u8>)
    requires
        (bytes@.len() / 3) * 4 + 4 <= usize::MAX,
    ensures
        r@ == url_safe_no_pad_encode(bytes@),
        r@.len() == crate::base64_codec::spec_encoded_len(bytes@.len() as int),
        url_safe_text(r@),
        url_safe_no_pad_decode(r@) == Some(bytes@),
{
    base64::engine::general_purpose::URL_SAFE_NO_PAD.encode(bytes).into_bytes()
}

} // verus!
