//! Decimal text for unsigned integers: rendering without leading zeros, and
//! parsing with the rules of the standard library's `FromStr` for unsigned
//! types (an optional leading `+`, then at least one ASCII digit).
use vstd::prelude::*;

verus! {

/// The decimal digits of `n`, most significant first, without leading zeros.
pub open spec fn spec_decimal(n: nat) -> Seq<u8>
    decreases n,
{
    if n < 10 {
        seq![(48 + n) as u8]
    } else {
        spec_decimal(n / 10).push((48 + n % 10) as u8)
    }
}

pub open spec fn is_digit(b: u8) -> bool {
    48 <= b <= 57
}

pub open spec fn all_decimal(s: Seq<u8>) -> bool {
    forall|i: int| 0 <= i < s.len() ==> #[trigger] is_digit(s[i])
}

/// The number written by a sequence of ASCII digits.
pub open spec fn decimal_value(s: Seq<u8>) -> nat
    decreases s.len(),
{
    if s.len() == 0 {
        0
    } else {
        decimal_value(s.drop_last()) * 10 + (s.last() - 48) as nat
    }
}

/// The digits that follow an optional leading `+`.
pub open spec fn unsigned_body(s: Seq<u8>) -> Seq<u8> {
    if s.len() > 0 && s[0] == 43 {
        s.skip(1)
    } else {
        s
    }
}

/// What the standard parser of an unsigned type whose largest value is `max` gives.
pub open spec fn spec_parse_unsigned(s: Seq<u8>, max: nat) -> Option<nat> {
    let d = unsigned_body(s);
    if d.len() == 0 || !all_decimal(d) || decimal_value(d) > max {
        None
    } else {
        Some(decimal_value(d))
    }
}

pub proof fn lemma_decimal_digits(n: nat)
    ensures
        all_decimal(spec_decimal(n)),
        spec_decimal(n).len() >= 1,
        spec_decimal(n)[0] != 43,
        decimal_value(spec_decimal(n)) == n,
    decreases n,
{
    if n >= 10 {
        lemma_decimal_digits(n / 10);
        let s = spec_decimal(n);
        let t = spec_decimal(n / 10);
        assert(s.drop_last() =~= t);
        assert forall|i: int| 0 <= i < s.len() implies #[trigger] is_digit(s[i]) by {
            if i < t.len() {
                assert(s[i] == t[i]);
            }
        }
        assert(s[0] == t[0]);
    } else {
        assert(decimal_value(spec_decimal(n)) == decimal_value(
            spec_decimal(n).drop_last(),
        ) * 10 + n);
        assert(spec_decimal(n).drop_last() =~= Seq::<u8>::empty());
    }
}

/// Parsing the decimal text of `n` gives `n` back, for any bound `max >= n`.
pub proof fn lemma_parse_decimal_roundtrip(n: nat, max: nat)
    requires
        n <= max,
    ensures
        spec_parse_unsigned(spec_decimal(n), max) == Some(n),
{
    lemma_decimal_digits(n);
}

pub open spec fn pow10(k: nat) -> nat
    decreases k,
{
    if k == 0 {
        1
    } else {
        10 * pow10((k - 1) as nat)
    }
}

/// A number below `10^k` has at most `k` digits.
pub proof fn lemma_decimal_len(n: nat, k: nat)
    requires
        k >= 1,
        n < pow10(k),
    ensures
        spec_decimal(n).len() <= k,
    decreases k,
{
    if n >= 10 {
        assert(pow10(k) == 10 * pow10((k - 1) as nat));
        if k == 1 {
            assert(pow10(0) == 1);
        } else {
            lemma_decimal_len(n / 10, (k - 1) as nat);
        }
    }
}

/// `2^64 < 10^20` and `2^128 < 10^39`.
pub proof fn lemma_pow10_bounds()
    ensures
        0x1_0000_0000_0000_0000 < pow10(20),
        0x1_0000_0000_0000_0000_0000_0000_0000_0000int < pow10(39),
{
    reveal_with_fuel(pow10, 40);
}

/// The decimal text of `n`, through `itoa::Buffer::format`.
///
/// Trusted: `itoa` writes an unsigned integer as its decimal digits, most
/// significant first, with no sign and no leading zeros (`0` is written `0`).
#[verifier::external_body]
pub(crate) fn itoa_text(n: u128) -> (r: Vec<u8>)
    ensures
        r@ == spec_decimal(n as nat),
{
    let mut buffer = itoa::Buffer::new();
    buffer.format(n).as_bytes().to_vec()
}

/// Appends the decimal digits of `n`.
pub fn push_decimal(n: u64, out: &mut Vec<u8>)
    ensures
        final(out)@ == old(out)@ + spec_decimal(n as nat),
    decreases n,
{
    if n >= 10 {
        push_decimal(n / 10, out);
    }
    let ghost before = out@;
    out.push(48 + (n % 10) as u8);
    proof {
        if n >= 10 {
            assert(out@ =~= old(out)@ + spec_decimal(n as nat));
        } else {
            assert(out@ =~= old(out)@ + spec_decimal(n as nat));
        }
    }
}

/// Parses unsigned decimal text the way `u128::from_str` does.
pub fn parse_u128(s: &[u8]) -> (r: Option<u128>)
    ensures
        match r {
            Some(v) => spec_parse_unsigned(s@, u128::MAX as nat) == Some(v as nat),
            None => spec_parse_unsigned(s@, u128::MAX as nat) is None,
        },
{
    let len = s.len();
    let start: usize = if len > 0 && s[0] == 43 {
        1
    } else {
        0
    };
    let ghost d = unsigned_body(s@);
    proof {
        assert(d =~= s@.skip(start as int));
    }
    if start == len {
        return None;
    }
    let mut value: u128 = 0;
    let mut i = start;
    proof {
        assert(d.take(0) =~= Seq::<u8>::empty());
    }
    while i < len
        invariant
            start <= i <= len,
            len == s@.len(),
            d == s@.skip(start as int),
            d == unsigned_body(s@),
            all_decimal(d.take(i - start)),
            value as nat == decimal_value(d.take(i - start)),
        decreases len - i,
    {
        let b = s[i];
        let k = i - start;
        let ghost next = d.take(k + 1);
        proof {
            assert(d[k as int] == b);
            assert(next.drop_last() =~= d.take(k as int));
        }
        if b < 48 || b > 57 {
            proof {
                assert(!is_digit(d[k as int]));
                assert(!all_decimal(d));
            }
            return None;
        }
        proof {
            assert forall|j: int| 0 <= j < next.len() implies #[trigger] is_digit(next[j]) by {
                if j < k {
                    assert(next[j] == d.take(k as int)[j]);
                }
            }
        }
        let m = value.checked_mul(10);
        let step = match m {
            Some(m) => m.checked_add((b - 48) as u128),
            None => None,
        };
        match step {
            Some(v) => {
                value = v;
            },
            None => {
                proof {
                    lemma_prefix_value_monotone(d, k + 1, d.len() as int);
                    assert(d.take(d.len() as int) =~= d);
                }
                return None;
            },
        }
        i = i + 1;
    }
    proof {
        assert(d.take(len - start) =~= d);
    }
    Some(value)
}

proof fn lemma_prefix_value_monotone(s: Seq<u8>, j: int, k: int)
    requires
        0 <= j <= k <= s.len(),
    ensures
        all_decimal(s.take(k)) ==> decimal_value(s.take(j)) <= decimal_value(s.take(k)),
    decreases k - j,
{
    if j < k {
        lemma_prefix_value_monotone(s, j, k - 1);
        assert(s.take(k).drop_last() =~= s.take(k - 1));
        if all_decimal(s.take(k)) {
            assert forall|i: int| 0 <= i < k - 1 implies #[trigger] is_digit(s.take(k - 1)[i]) by {
                assert(s.take(k - 1)[i] == s.take(k)[i]);
            }
            assert(is_digit(s.take(k)[k - 1]));
        }
    }
}

/// Parses unsigned decimal text the way `u64::from_str` does.
pub fn parse_u64(s: &[u8]) -> (r: Option<u64>)
    ensures
        match r {
            Some(v) => spec_parse_unsigned(s@, u64::MAX as nat) == Some(v as nat),
            None => spec_parse_unsigned(s@, u64::MAX as nat) is None,
        },
{
    match parse_u128(s) {
        Some(v) => {
            if v <= u64::MAX as u128 {
                Some(v as u64)
            } else {
                None
            }
        },
        None => None,
    }
}

/// Parses unsigned decimal text the way `usize::from_str` does.
pub fn parse_usize(s: &[u8]) -> (r: Option<usize>)
    ensures
        match r {
            Some(v) => spec_parse_unsigned(s@, usize::MAX as nat) == Some(v as nat),
            None => spec_parse_unsigned(s@, usize::MAX as nat) is None,
        },
{
    match parse_u128(s) {
        Some(v) => {
            if v <= usize::MAX as u128 {
                Some(v as usize)
            } else {
                None
            }
        },
        None => None,
    }
}

/// Parses unsigned decimal text the way `u16::from_str` does.
pub fn parse_u16(s: &[u8]) -> (r: Option<u16>)
    ensures
        match r {
            Some(v) => spec_parse_unsigned(s@, u16::MAX as nat) == Some(v as nat),
            None => spec_parse_unsigned(s@, u16::MAX as nat) is None,
        },
{
    match parse_u128(s) {
        Some(v) => {
            if v <= u16::MAX as u128 {
                Some(v as u16)
            } else {
                None
            }
        },
        None => None,
    }
}

} // verus!
