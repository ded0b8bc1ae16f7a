//! Hexadecimal text: lowercase digits on output, either case on input.
use vstd::prelude::*;

verus! {

/// The lowercase hexadecimal digit for `n < 16`.
pub open spec fn hex_digit(n: int) -> u8 {
    if n < 10 {
        (48 + n) as u8
    } else {
        (87 + n) as u8
    }
}

/// The value of a hexadecimal digit of either case.
pub open spec fn hex_value(c: u8) -> Option<int> {
    if 48 <= c <= 57 {
        Some(c - 48)
    } else if 97 <= c <= 102 {
        Some(c - 87)
    } else if 65 <= c <= 70 {
        Some(c - 55)
    } else {
        None
    }
}

/// Two digits per byte, high half first.
pub open spec fn hex_text(bytes: Seq<u8>) -> Seq<u8> {
    Seq::new(
        2 * bytes.len(),
        |i: int|
            if i % 2 == 0 {
                hex_digit(bytes[i / 2] as int / 16)
            } else {
                hex_digit(bytes[i / 2] as int % 16)
            },
    )
}

/// The bytes that a text of hexadecimal digit pairs stands for.
pub open spec fn hex_bytes(s: Seq<u8>) -> Option<Seq<u8>> {
    if s.len() % 2 == 0 && (forall|i: int| 0 <= i < s.len() ==> (#[trigger] hex_value(s[i])) is Some) {
        Some(
            Seq::new(
                s.len() / 2,
                |i: int| (16 * hex_value(s[2 * i]).unwrap() + hex_value(s[2 * i + 1]).unwrap()) as u8,
            ),
        )
    } else {
        None
    }
}

pub proof fn lemma_hex_digit(n: int)
    requires
        0 <= n < 16,
    ensures
        hex_value(hex_digit(n)) == Some(n),
        hex_digit(n) < 128,
{
}

/// Reading back the text of some bytes gives those bytes.
pub proof fn lemma_hex_roundtrip(bytes: Seq<u8>)
    ensures
        hex_bytes(hex_text(bytes)) == Some(bytes),
{
    let t = hex_text(bytes);
    assert forall|i: int| 0 <= i < t.len() implies (#[trigger] hex_value(t[i])) is Some by {
        lemma_hex_digit(bytes[i / 2] as int / 16);
        lemma_hex_digit(bytes[i / 2] as int % 16);
    }
    let d = hex_bytes(t).unwrap();
    assert forall|i: int| 0 <= i < bytes.len() implies d[i] == bytes[i] by {
        assert((2 * i) / 2 == i);
        assert((2 * i + 1) / 2 == i);
        assert((2 * i) % 2 == 0);
        assert((2 * i + 1) % 2 == 1);
        lemma_hex_digit(bytes[i] as int / 16);
        lemma_hex_digit(bytes[i] as int % 16);
    }
    assert(d =~= bytes);
}

/// The lowercase digit for a value below 16.
pub fn hex_char(n: u8) -> (c: u8)
    requires
        n < 16,
    ensures
        c == hex_digit(n as int),
{
    if n < 10 {
        48 + n
    } else {
        87 + n
    }
}

/// The value of one hexadecimal digit.
pub fn hex_digit_value(c: u8) -> (r: Option<u8>)
    ensures
        match r {
            Some(v) => hex_value(c) == Some(v as int),
            None => hex_value(c) is None,
        },
{
    if 48 <= c && c <= 57 {
        Some(c - 48)
    } else if 97 <= c && c <= 102 {
        Some(c - 87)
    } else if 65 <= c && c <= 70 {
        Some(c - 55)
    } else {
        None
    }
}

/// The byte written by two digits, the high half first.
pub fn hex_to_byte(hi: u8, lo: u8) -> (r: Option<u8>)
    ensures
        match r {
            Some(b) => hex_value(hi) is Some && hex_value(lo) is Some && b == 16 * hex_value(
                hi,
            ).unwrap() + hex_value(lo).unwrap(),
            None => hex_value(hi) is None || hex_value(lo) is None,
        },
{
    match hex_digit_value(hi) {
        Some(h) => match hex_digit_value(lo) {
            Some(l) => Some(h * 16 + l),
            None => None,
        },
        None => None,
    }
}

/// Appends the digits of `bytes`.
pub fn push_hex(bytes: &[u8], out: &mut Vec<u8>)
    ensures
        final(out)@ == old(out)@ + hex_text(bytes@),
{
    let mut i: usize = 0;
    while i < bytes.len()
        invariant
            i <= bytes@.len(),
            out@ == old(out)@ + hex_text(bytes@.take(i as int)),
        decreases bytes@.len() - i,
    {
        let b = bytes[i];
        out.push(hex_char(b / 16));
        out.push(hex_char(b % 16));
        proof {
            let t = hex_text(bytes@.take(i + 1));
            let s = hex_text(bytes@.take(i as int));
            assert(t =~= s + seq![hex_digit(b as int / 16), hex_digit(b as int % 16)]) by {
                assert forall|k: int| 0 <= k < t.len() implies t[k] == (s + seq![
                    hex_digit(b as int / 16),
                    hex_digit(b as int % 16),
                ])[k] by {
                    if k < 2 * i {
                        assert(bytes@.take(i + 1)[k / 2] == bytes@.take(i as int)[k / 2]);
                    } else {
                        assert(k / 2 == i);
                    }
                }
            }
        }
        i = i + 1;
    }
    proof {
        assert(bytes@.take(i as int) =~= bytes@);
    }
}

/// The bytes written by a text of digit pairs, or `None` when the length is
/// odd or a character is not a hexadecimal digit.
pub fn decode_hex(s: &[u8]) -> (r: Option<Vec<u8>>)
    ensures
        match r {
            Some(v) => hex_bytes(s@) == Some(v@),
            None => hex_bytes(s@) is None,
        },
{
    let n = s.len();
    if n % 2 != 0 {
        return None;
    }
    let mut out: Vec<u8> = Vec::new();
    let mut i: usize = 0;
    while i < n / 2
        invariant
            n == s@.len(),
            n % 2 == 0,
            i <= n / 2,
            out@.len() == i,
            forall|k: int| 0 <= k < 2 * i ==> (#[trigger] hex_value(s@[k])) is Some,
            forall|k: int|
                0 <= k < i ==> out@[k] == (16 * hex_value(s@[2 * k]).unwrap() + hex_value(
                    s@[2 * k + 1],
                ).unwrap()) as u8,
        decreases n / 2 - i,
    {
        match hex_to_byte(s[2 * i], s[2 * i + 1]) {
            Some(b) => {
                out.push(b);
            },
            None => {
                proof {
                    if hex_value(s@[2 * i]) is None {
                        assert(!(hex_value(s@[2 * i]) is Some));
                    } else {
                        assert(!(hex_value(s@[2 * i + 1]) is Some));
                    }
                }
                return None;
            },
        }
        proof {
            assert forall|k: int| 0 <= k < 2 * (i + 1) implies (#[trigger] hex_value(
                s@[k],
            )) is Some by {
                if k == 2 * i || k == 2 * i + 1 {
                } else {
                }
            }
        }
        i = i + 1;
    }
    proof {
        assert(out@ =~= hex_bytes(s@).unwrap());
    }
    Some(out)
}

} // verus!
