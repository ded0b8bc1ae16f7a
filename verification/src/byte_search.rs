//! Searching and comparing byte strings.
use vstd::prelude::*;

verus! {

/// The position of the first `b` in `s`.
pub open spec fn is_first_at(s: Seq<u8>, b: u8, i: int) -> bool {
    0 <= i < s.len() && s[i] == b && forall|j: int| 0 <= j < i ==> s[j] != b
}

pub open spec fn find(s: Seq<u8>, b: u8) -> Option<int> {
    if exists|i: int| is_first_at(s, b, i) {
        Some(choose|i: int| is_first_at(s, b, i))
    } else {
        None
    }
}

/// The first `b` in `s`, if any.
pub fn find_byte(s: &[u8], b: u8) -> (r: Option<usize>)
    ensures
        match r {
            Some(i) => find(s@, b) == Some(i as int) && i < s@.len(),
            None => find(s@, b) is None,
        },
{
    let mut i: usize = 0;
    while i < s.len()
        invariant
            i <= s@.len(),
            forall|j: int| 0 <= j < i ==> s@[j] != b,
        decreases s@.len() - i,
    {
        if s[i] == b {
            proof {
                assert(is_first_at(s@, b, i as int));
                assert forall|k: int| is_first_at(s@, b, k) implies k == i by {
                    if k < i {
                    } else if k > i {
                        assert(s@[i as int] == b);
                    }
                }
            }
            return Some(i);
        }
        i = i + 1;
    }
    None
}

pub fn starts_with(s: &[u8], prefix: &[u8]) -> (r: bool)
    ensures
        r == (s@.len() >= prefix@.len() && s@.take(prefix@.len() as int) == prefix@),
{
    if s.len() < prefix.len() {
        return false;
    }
    let mut i: usize = 0;
    while i < prefix.len()
        invariant
            i <= prefix@.len() <= s@.len(),
            forall|j: int| 0 <= j < i ==> s@[j] == prefix@[j],
        decreases prefix@.len() - i,
    {
        if s[i] != prefix[i] {
            proof {
                assert(s@.take(prefix@.len() as int)[i as int] != prefix@[i as int]);
            }
            return false;
        }
        i = i + 1;
    }
    proof {
        assert(s@.take(prefix@.len() as int) =~= prefix@);
    }
    true
}

/// `s` holds no `b`.
pub open spec fn no_byte(s: Seq<u8>, b: u8) -> bool {
    forall|i: int| 0 <= i < s.len() ==> s[i] != b
}

/// A byte that does not occur is not found.
pub proof fn lemma_find_none(s: Seq<u8>, b: u8)
    requires
        no_byte(s, b),
    ensures
        find(s, b) is None,
{
    if exists|i: int| is_first_at(s, b, i) {
        let i = choose|i: int| is_first_at(s, b, i);
        assert(s[i] == b);
    }
}

/// The first `b` of `a + [b] + c` where `a` holds none is at `a.len()`.
pub proof fn lemma_find_at(a: Seq<u8>, b: u8, c: Seq<u8>)
    requires
        no_byte(a, b),
    ensures
        find(a + seq![b] + c, b) == Some(a.len() as int),
{
    let s = a + seq![b] + c;
    let k = a.len() as int;
    assert(s[k] == b);
    assert forall|j: int| 0 <= j < k implies s[j] != b by {
        assert(s[j] == a[j]);
    }
    assert(is_first_at(s, b, k));
    assert forall|i: int| is_first_at(s, b, i) implies i == k by {
        if i < k {
            assert(s[i] == a[i]);
        }
    }
}

/// Whether two byte strings are equal.
pub fn bytes_equal(a: &[u8], b: &[u8]) -> (r: bool)
    ensures
        r == (a@ == b@),
{
    if a.len() != b.len() {
        return false;
    }
    let mut i: usize = 0;
    while i < a.len()
        invariant
            i <= a@.len(),
            a@.len() == b@.len(),
            forall|j: int| 0 <= j < i ==> a@[j] == b@[j],
        decreases a@.len() - i,
    {
        if a[i] != b[i] {
            return false;
        }
        i = i + 1;
    }
    proof {
        assert(a@ =~= b@);
    }
    true
}

} // verus!
