//! The byte order of the machine the library runs on.
use vstd::prelude::*;

verus! {

/// `1u16` in the machine's byte order, through `u16::to_ne_bytes`.
///
/// Trusted: `to_ne_bytes` lays the value out in the native byte order, which
/// is little-endian (`[1, 0]`) or big-endian (`[0, 1]`); which one is a fact
/// about the machine and is left open.
#[verifier::external_body]
fn one_in_native_order() -> (r: [u8; 2])
    ensures
        r@ == seq![1u8, 0u8] || r@ == seq![0u8, 1u8],
{
    1u16.to_ne_bytes()
}

/// Whether native byte order is little-endian.
pub(crate) fn native_is_little_endian() -> (r: bool) {
    let probe = one_in_native_order();
    probe[0] == 1
}

} // verus!
