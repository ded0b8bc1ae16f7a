//! Integers as fixed-length byte strings in little- or big-endian order.
use vstd::arithmetic::div_mod::*;
use vstd::arithmetic::mul::*;
use vstd::prelude::*;

verus! {

pub open spec fn pow256(n: nat) -> nat
    decreases n,
{
    if n == 0 {
        1
    } else {
        256 * pow256((n - 1) as nat)
    }
}

/// The `n` low bytes of `x`, least significant first.
pub open spec fn le_bytes(x: nat, n: nat) -> Seq<u8> {
    Seq::new(n, |i: int| ((x / pow256(i as nat)) % 256) as u8)
}

/// The `n` low bytes of `x` in the requested order.
pub open spec fn ordered_bytes(x: nat, n: nat, little: bool) -> Seq<u8> {
    if little {
        le_bytes(x, n)
    } else {
        le_bytes(x, n).reverse()
    }
}

/// The number whose bytes, least significant first, are `s`.
pub open spec fn le_value(s: Seq<u8>) -> nat
    decreases s.len(),
{
    if s.len() == 0 {
        0
    } else {
        s[0] as nat + 256 * le_value(s.skip(1))
    }
}

/// The number whose bytes in the requested order are `s`.
pub open spec fn ordered_value(s: Seq<u8>, little: bool) -> nat {
    if little {
        le_value(s)
    } else {
        le_value(s.reverse())
    }
}

pub proof fn lemma_pow256_positive(n: nat)
    ensures
        pow256(n) > 0,
    decreases n,
{
    if n > 0 {
        lemma_pow256_positive((n - 1) as nat);
    }
}

pub proof fn lemma_pow256_values()
    ensures
        pow256(1) == 0x100,
        pow256(2) == 0x1_0000,
        pow256(3) == 0x100_0000,
        pow256(4) == 0x1_0000_0000,
        pow256(8) == 0x1_0000_0000_0000_0000,
        pow256(12) == 0x1_0000_0000_0000_0000_0000_0000int,
        pow256(16) == 0x1_0000_0000_0000_0000_0000_0000_0000_0000int,
{
    reveal_with_fuel(pow256, 17);
}

proof fn lemma_le_bytes_tail(x: nat, n: nat)
    requires
        n > 0,
    ensures
        le_bytes(x, n).skip(1) == le_bytes(x / 256, (n - 1) as nat),
        le_bytes(x, n)[0] == (x % 256) as u8,
{
    assert forall|i: int| 0 <= i < n - 1 implies le_bytes(x, n).skip(1)[i] == le_bytes(
        x / 256,
        (n - 1) as nat,
    )[i] by {
        lemma_pow256_positive(i as nat);
        lemma_div_denominator(x as int, 256, pow256(i as nat) as int);
        assert(pow256((i + 1) as nat) == 256 * pow256(i as nat));
    }
    assert(le_bytes(x, n).skip(1) =~= le_bytes(x / 256, (n - 1) as nat));
    assert(pow256(0) == 1);
    assert(x / 1 == x);
    assert(le_bytes(x, n)[0] == ((x / pow256(0)) % 256) as u8);
}

proof fn lemma_le_value_bound(s: Seq<u8>)
    ensures
        le_value(s) < pow256(s.len()),
    decreases s.len(),
{
    if s.len() > 0 {
        lemma_le_value_bound(s.skip(1));
        assert(pow256(s.len()) == 256 * pow256((s.len() - 1) as nat));
    }
}

/// Reading back the bytes of `x` gives `x` modulo `256^n`.
pub proof fn lemma_le_value_of_bytes(x: nat, n: nat)
    ensures
        le_value(le_bytes(x, n)) == x % pow256(n),
    decreases n,
{
    if n == 0 {
        assert(x % 1 == 0);
    } else {
        let n1 = (n - 1) as nat;
        lemma_le_bytes_tail(x, n);
        lemma_le_value_of_bytes(x / 256, n1);
        lemma_pow256_positive(n1);
        lemma_mod_breakdown(x as int, 256, pow256(n1) as int);
        assert(pow256(n) == 256 * pow256(n1));
    }
}

/// The bytes of the number that a byte string denotes are that byte string.
pub proof fn lemma_le_bytes_of_value(s: Seq<u8>)
    ensures
        le_bytes(le_value(s), s.len()) == s,
    decreases s.len(),
{
    if s.len() > 0 {
        let v = le_value(s);
        lemma_le_bytes_of_value(s.skip(1));
        lemma_le_bytes_tail(v, s.len());
        assert(v == s[0] as nat + 256 * le_value(s.skip(1)));
        lemma_fundamental_div_mod_converse(v as int, 256, le_value(s.skip(1)) as int, s[0] as int);
        assert(le_bytes(v, s.len()) =~= s) by {
            assert forall|i: int| 0 <= i < s.len() implies le_bytes(v, s.len())[i] == s[i] by {
                if i > 0 {
                    assert(le_bytes(v, s.len())[i] == le_bytes(v, s.len()).skip(1)[i - 1]);
                    assert(s[i] == s.skip(1)[i - 1]);
                }
            }
        }
    }
}

/// Reading the bytes of `x` in either order gives `x` back when it fits.
pub proof fn lemma_ordered_roundtrip(x: nat, n: nat, little: bool)
    requires
        x < pow256(n),
    ensures
        ordered_value(ordered_bytes(x, n, little), little) == x,
        ordered_bytes(x, n, little).len() == n,
{
    lemma_le_value_of_bytes(x, n);
    lemma_small_mod(x, pow256(n));
    if !little {
        assert(le_bytes(x, n).reverse().reverse() =~= le_bytes(x, n));
    }
}

/// Writing the number that `s` denotes gives `s` back.
pub proof fn lemma_ordered_bytes_of_value(s: Seq<u8>, little: bool)
    ensures
        ordered_bytes(ordered_value(s, little), s.len(), little) == s,
        ordered_value(s, little) < pow256(s.len()),
{
    if little {
        lemma_le_bytes_of_value(s);
        lemma_le_value_bound(s);
    } else {
        lemma_le_bytes_of_value(s.reverse());
        lemma_le_value_bound(s.reverse());
        assert(s.reverse().reverse() =~= s);
    }
}

/// The `n` low bytes of `x` in the requested order.
pub fn to_ordered_bytes(x: u128, n: usize, little: bool) -> (r: Vec<u8>)
    requires
        n <= 16,
    ensures
        r@ == ordered_bytes(x as nat, n as nat, little),
{
    let mut le: Vec<u8> = Vec::new();
    let mut cur = x;
    let mut i: usize = 0;
    proof {
        assert(pow256(0) == 1);
        assert(x as nat / 1 == x as nat);
        assert(le@ =~= le_bytes(x as nat, 0));
    }
    while i < n
        invariant
            i <= n <= 16,
            cur as nat == x as nat / pow256(i as nat),
            le@ == le_bytes(x as nat, i as nat),
        decreases n - i,
    {
        let ghost before = le@;
        le.push((cur % 256) as u8);
        proof {
            lemma_pow256_positive(i as nat);
            lemma_div_denominator(x as int, pow256(i as nat) as int, 256);
            lemma_mul_is_commutative(256, pow256(i as nat) as int);
            assert(pow256((i + 1) as nat) == 256 * pow256(i as nat));
            assert(le@ =~= le_bytes(x as nat, (i + 1) as nat));
        }
        cur = cur / 256;
        i = i + 1;
    }
    if little {
        le
    } else {
        let mut out: Vec<u8> = Vec::new();
        let mut j: usize = n;
        while j > 0
            invariant
                j <= n,
                le@.len() == n,
                out@ == le@.reverse().take((n - j) as int),
            decreases j,
        {
            out.push(le[j - 1]);
            proof {
                assert(out@ =~= le@.reverse().take((n - j + 1) as int));
            }
            j = j - 1;
        }
        proof {
            assert(out@ =~= le@.reverse());
        }
        out
    }
}

/// The number whose bytes, in the requested order, are `s`.
pub fn from_ordered_bytes(s: &[u8], little: bool) -> (r: u128)
    requires
        s@.len() <= 16,
    ensures
        r as nat == ordered_value(s@, little),
{
    let n = s.len();
    let ghost le: Seq<u8> = if little {
        s@
    } else {
        s@.reverse()
    };
    let mut v: u128 = 0;
    let mut k: usize = n;
    proof {
        assert(le.skip(n as int) =~= Seq::<u8>::empty());
        lemma_pow256_values();
    }
    while k > 0
        invariant
            k <= n <= 16,
            le.len() == n,
            n == s@.len(),
            le == (if little {
                s@
            } else {
                s@.reverse()
            }),
            v as nat == le_value(le.skip(k as int)),
        decreases k,
    {
        let b = if little {
            s[k - 1]
        } else {
            s[n - k]
        };
        proof {
            assert(b == le[k - 1]);
            assert(le.skip(k - 1).skip(1) =~= le.skip(k as int));
            lemma_le_value_bound(le.skip(k as int));
            lemma_pow256_positive((n - k) as nat);
            lemma_pow256_values();
            lemma_pow256_monotone((n - k + 1) as nat, 16);
            assert(pow256((n - k + 1) as nat) == 256 * pow256((n - k) as nat));
            assert(256 * (v as nat) + 255 < pow256((n - k + 1) as nat)) by (nonlinear_arith)
                requires
                    (v as nat) < pow256((n - k) as nat),
                    pow256((n - k + 1) as nat) == 256 * pow256((n - k) as nat),
            ;
        }
        v = v * 256 + b as u128;
        k = k - 1;
    }
    proof {
        assert(le.skip(0) =~= le);
    }
    v
}

pub proof fn lemma_pow256_monotone(a: nat, b: nat)
    requires
        a <= b,
    ensures
        pow256(a) <= pow256(b),
    decreases b - a,
{
    if a < b {
        lemma_pow256_monotone(a, (b - 1) as nat);
        lemma_pow256_positive((b - 1) as nat);
    }
}

} // verus!
