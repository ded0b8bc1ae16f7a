//! The build number kept in a `VERSION` file and the version text of a
//! preview build.  Reading and writing the file is left to the caller.
use crate::decimal::{itoa_text, lemma_decimal_digits, spec_decimal};
use crate::env_value::{parse_env_u64, spec_env_u64, spec_trim};
use crate::text::{ascii_chars, string_from_ascii};
use vstd::prelude::*;
use vstd::string::StringExecFns;
use vstd::utf8::encode_utf8;

verus! {

/// The number a `VERSION` file holds: its trimmed text as a `u64`, or 1
/// when the file is missing or holds something else.
pub fn read_version_number(content: Option<&str>) -> (r: u64)
    ensures
        r == spec_env_u64(
            match content {
                Some(v) => Some(encode_utf8(spec_trim(v@))),
                None => None,
            },
            1,
        ),
{
    parse_env_u64(content, 1)
}

/// The number a release build writes back to the `VERSION` file: 1 when the
/// file is missing or does not hold a number, else the number plus one
/// (wrapping).
pub fn next_version_number(content: Option<&str>) -> (r: u64)
    ensures
        r == (match content {
            None => 1,
            Some(v) => match crate::decimal::spec_parse_unsigned(
                encode_utf8(spec_trim(v@)),
                u64::MAX as nat,
            ) {
                Some(n) => ((n + 1) % 0x1_0000_0000_0000_0000) as u64,
                None => 1,
            },
        }),
{
    match content {
        None => 1,
        Some(v) => {
            let t = crate::env_value::trim(v);
            match crate::decimal::parse_u64(t.as_bytes()) {
                Some(n) => n.wrapping_add(1),
                None => 1,
            }
        },
    }
}

/// The version text of a preview build: `<package version>+build.<number>`.
pub fn preview_version_text(package_version: &str, build: u64) -> (s: String)
    ensures
        s@ == package_version@ + "+build."@ + ascii_chars(spec_decimal(build as nat)),
{
    let mut s = String::from_str(package_version);
    s.append("+build.");
    let digits = itoa_text(build as u128);
    proof {
        lemma_decimal_digits(build as nat);
        assert forall|i: int| 0 <= i < digits@.len() implies #[trigger] digits@[i] < 128 by {
            assert(crate::decimal::is_digit(digits@[i]));
        }
    }
    let d = string_from_ascii(digits);
    s.append(d.as_str());
    s
}

} // verus!
