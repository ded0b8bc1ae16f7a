//! Checking that bytes are UTF-8, and turning checked bytes into text.
use vstd::prelude::*;
use vstd::string::StringExecFns;
use vstd::utf8::*;

verus! {

/// The length of the UTF-8 encoding of one scalar that starts at `i`, or 0
/// when the bytes from `i` on do not start with one.
fn first_scalar_len(v: &[u8], i: usize) -> (r: usize)
    requires
        i < v@.len(),
    ensures
        r == 0 <==> !valid_first_scalar(v@.subrange(i as int, v@.len() as int)),
        r > 0 ==> r == length_of_first_scalar(v@.subrange(i as int, v@.len() as int)),
        r <= v@.len() - i,
{
    let ghost rest = v@.subrange(i as int, v@.len() as int);
    let n = v.len();
    let b0 = v[i];
    proof {
        assert(rest[0] == b0);
    }
    if b0 <= 0x7f {
        return 1;
    }
    if 0xc0 <= b0 && b0 <= 0xdf {
        if n - i < 2 {
            return 0;
        }
        let b1 = v[i + 1];
        proof {
            assert(rest[1] == b1);
        }
        if !(0x80 <= b1 && b1 <= 0xbf) {
            return 0;
        }
        let cp: u32 = (((b0 & 0x1F) as u32) << 6) | ((b1 & 0x3f) as u32);
        assert(cp == codepoint_width_2(b0, b1));
        if cp < 0x80 || (0xD800 <= cp && cp <= 0xDFFF) {
            return 0;
        }
        return 2;
    }
    if 0xe0 <= b0 && b0 <= 0xef {
        if n - i < 3 {
            return 0;
        }
        let b1 = v[i + 1];
        let b2 = v[i + 2];
        proof {
            assert(rest[1] == b1 && rest[2] == b2);
        }
        if !(0x80 <= b1 && b1 <= 0xbf) || !(0x80 <= b2 && b2 <= 0xbf) {
            return 0;
        }
        let cp: u32 = (((b0 & 0x0F) as u32) << 12) | (((b1 & 0x3f) as u32) << 6) | ((b2
            & 0x3f) as u32);
        assert(cp == codepoint_width_3(b0, b1, b2));
        if cp < 0x800 || (0xD800 <= cp && cp <= 0xDFFF) {
            return 0;
        }
        return 3;
    }
    if 0xf0 <= b0 && b0 <= 0xf7 {
        if n - i < 4 {
            return 0;
        }
        let b1 = v[i + 1];
        let b2 = v[i + 2];
        let b3 = v[i + 3];
        proof {
            assert(rest[1] == b1 && rest[2] == b2 && rest[3] == b3);
        }
        if !(0x80 <= b1 && b1 <= 0xbf) || !(0x80 <= b2 && b2 <= 0xbf) || !(0x80 <= b3 && b3
            <= 0xbf) {
            return 0;
        }
        let cp: u32 = (((b0 & 0x07) as u32) << 18) | (((b1 & 0x3f) as u32) << 12) | (((b2
            & 0x3f) as u32) << 6) | ((b3 & 0x3f) as u32);
        assert(cp == codepoint_width_4(b0, b1, b2, b3));
        if cp < 0x10000 || cp > 0x10ffff || (0xD800 <= cp && cp <= 0xDFFF) {
            return 0;
        }
        return 4;
    }
    0
}

/// Whether the bytes are UTF-8: each scalar encoded in the shortest form,
/// with no surrogate and nothing above U+10FFFF.
pub fn is_valid_utf8(v: &[u8]) -> (r: bool)
    ensures
        r == valid_utf8(v@),
{
    let n = v.len();
    let mut i: usize = 0;
    proof {
        assert(v@.subrange(0, 0).len() == 0);
    }
    while i < n
        invariant
            n == v@.len(),
            i <= n,
            partial_valid_utf8(v@, i as int),
        decreases n - i,
    {
        let k = first_scalar_len(v, i);
        if k == 0 {
            proof {
                partial_valid_partial_invalid_utf8(v@, i as int);
            }
            return false;
        }
        proof {
            partial_valid_utf8_extend(v@, i as int);
        }
        i = i + k;
    }
    proof {
        assert(v@.subrange(0, n as int) =~= v@);
    }
    true
}

/// `std::str::from_utf8` on bytes that are UTF-8: the text they encode.
#[verifier::external_body]
fn utf8_text(v: &[u8]) -> (r: &str)
    requires
        valid_utf8(v@),
    ensures
        encode_utf8(r@) == v@,
{
    std::str::from_utf8(v).unwrap()
}

/// The text that the bytes encode, or `None` when they are not UTF-8.
pub fn string_from_utf8(v: &[u8]) -> (r: Option<String>)
    ensures
        match r {
            Some(s) => valid_utf8(v@) && s@ == decode_utf8(v@),
            None => !valid_utf8(v@),
        },
{
    if is_valid_utf8(v) {
        let t = utf8_text(v);
        proof {
            encode_utf8_decode_utf8(t@);
        }
        Some(String::from_str(t))
    } else {
        None
    }
}

} // verus!
