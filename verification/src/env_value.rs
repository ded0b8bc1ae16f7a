//! Settings read from environment variables: the text of a variable (when
//! it is set) is trimmed and parsed; anything unusable gives the default.
//! Reading the environment is left to the caller.
use crate::decimal::{parse_u64, parse_usize, spec_parse_unsigned};
use vstd::prelude::*;
use vstd::string::{StrSliceExecFns, StringExecFns, StringSliceAdditionalSpecFns};
use vstd::utf8::encode_utf8;

verus! {

/// The characters with Unicode's `White_Space` property, as `char::is_whitespace`
/// takes them.
pub open spec fn is_white_space(c: char) -> bool {
    ('\u{9}' <= c <= '\u{d}') || c == ' ' || c == '\u{85}' || c == '\u{a0}' || c == '\u{1680}'
        || ('\u{2000}' <= c <= '\u{200a}') || c == '\u{2028}' || c == '\u{2029}' || c
        == '\u{202f}' || c == '\u{205f}' || c == '\u{3000}'
}

fn white_space(c: char) -> (r: bool)
    ensures
        r == is_white_space(c),
{
    ('\u{9}' <= c && c <= '\u{d}') || c == ' ' || c == '\u{85}' || c == '\u{a0}' || c
        == '\u{1680}' || ('\u{2000}' <= c && c <= '\u{200a}') || c == '\u{2028}' || c
        == '\u{2029}' || c == '\u{202f}' || c == '\u{205f}' || c == '\u{3000}'
}

/// The text without white space at its start.
pub open spec fn trim_start(s: Seq<char>) -> Seq<char>
    decreases s.len(),
{
    if s.len() > 0 && is_white_space(s[0]) {
        trim_start(s.drop_first())
    } else {
        s
    }
}

/// The text without white space at its end.
pub open spec fn trim_end(s: Seq<char>) -> Seq<char>
    decreases s.len(),
{
    if s.len() > 0 && is_white_space(s.last()) {
        trim_end(s.drop_last())
    } else {
        s
    }
}

/// The text without white space at either end.
pub open spec fn spec_trim(s: Seq<char>) -> Seq<char> {
    trim_end(trim_start(s))
}

proof fn lemma_trim_start(s: Seq<char>, k: int)
    requires
        0 <= k <= s.len(),
        forall|i: int| 0 <= i < k ==> #[trigger] is_white_space(s[i]),
        k == s.len() || !is_white_space(s[k]),
    ensures
        trim_start(s) == s.skip(k),
    decreases k,
{
    if k > 0 {
        assert(is_white_space(s[0]));
        let t = s.drop_first();
        assert forall|i: int| 0 <= i < k - 1 implies #[trigger] is_white_space(t[i]) by {
            assert(t[i] == s[i + 1]);
        }
        if k < s.len() {
            assert(t[k - 1] == s[k]);
        }
        lemma_trim_start(t, k - 1);
        assert(t.skip(k - 1) =~= s.skip(k));
    } else {
        assert(s.skip(0) =~= s);
    }
}

proof fn lemma_trim_end(s: Seq<char>, k: int)
    requires
        0 <= k <= s.len(),
        forall|i: int| k <= i < s.len() ==> #[trigger] is_white_space(s[i]),
        k == 0 || !is_white_space(s[k - 1]),
    ensures
        trim_end(s) == s.take(k),
    decreases s.len() - k,
{
    if k < s.len() {
        assert(is_white_space(s.last()));
        let t = s.drop_last();
        assert forall|i: int| k <= i < t.len() implies #[trigger] is_white_space(t[i]) by {
            assert(t[i] == s[i]);
        }
        if k > 0 {
            assert(t[k - 1] == s[k - 1]);
        }
        lemma_trim_end(t, k);
        assert(t.take(k) =~= s.take(k));
    } else {
        assert(s.take(k) =~= s);
    }
}

/// Trims white space from both ends, as `str::trim` does.
pub fn trim(s: &str) -> (r: &str)
    ensures
        r@ == spec_trim(s@),
{
    let n = s.unicode_len();
    let mut start: usize = 0;
    while start < n && white_space(s.get_char(start))
        invariant
            n == s@.len(),
            start <= n,
            forall|i: int| 0 <= i < start ==> #[trigger] is_white_space(s@[i]),
        decreases n - start,
    {
        start = start + 1;
    }
    let mut end: usize = n;
    while end > start && white_space(s.get_char(end - 1))
        invariant
            n == s@.len(),
            start <= end <= n,
            forall|i: int| end <= i < n ==> #[trigger] is_white_space(s@[i]),
        decreases end - start,
    {
        end = end - 1;
    }
    proof {
        lemma_trim_start(s@, start as int);
        let t = s@.skip(start as int);
        assert forall|i: int| end - start <= i < t.len() implies #[trigger] is_white_space(t[i]) by {
            assert(t[i] == s@[i + start]);
        }
        if end > start {
            assert(t[end - start - 1] == s@[end - 1]);
        }
        lemma_trim_end(t, end - start);
        assert(t.take(end - start) =~= s@.subrange(start as int, end as int));
    }
    s.substring_char(start, end)
}

/// A type whose setting can be read from an environment variable's text.
pub trait Sealed {
}

impl Sealed for bool {
}

impl Sealed for u64 {
}

impl Sealed for usize {
}

impl<'a> Sealed for &'a str {
}

/// What `parse_env_bool` gives: `true`/`1` and `false`/`0`, in any case of
/// letters and with white space around; otherwise the default.
pub open spec fn spec_env_bool(value: Option<Seq<char>>, default: bool) -> bool {
    match value {
        None => default,
        Some(v) => {
            let t = ascii_lower(spec_trim(v));
            if t == "true"@ || t == "1"@ {
                true
            } else if t == "false"@ || t == "0"@ {
                false
            } else {
                default
            }
        },
    }
}

/// The characters with ASCII letters made lowercase.
pub open spec fn ascii_lower(s: Seq<char>) -> Seq<char> {
    s.map_values(|c: char| lower_char(c))
}

/// A character with an ASCII capital made lowercase.
pub open spec fn lower_char(c: char) -> char {
    if 'A' <= c <= 'Z' {
        ((c as u32) + 32) as char
    } else {
        c
    }
}

fn lower_is(c: char, l: char) -> (r: bool)
    requires
        'a' <= l <= 'z' || '0' <= l <= '9',
    ensures
        r == (lower_char(c) == l),
{
    if 'A' <= c && c <= 'Z' {
        let v = c as u32 + 32;
        assert(v == (lower_char(c) as u32));
        v == l as u32
    } else {
        c == l
    }
}

/// Whether `s` is `lit` in any case of ASCII letters (`lit` being lowercase).
fn matches_ignoring_case(s: &str, lit: &str) -> (r: bool)
    requires
        forall|i: int| 0 <= i < lit@.len() ==> 'a' <= #[trigger] lit@[i] <= 'z' || '0' <= lit@[i]
            <= '9',
    ensures
        r == (ascii_lower(s@) == lit@),
{
    let n = s.unicode_len();
    if n != lit.unicode_len() {
        return false;
    }
    let mut i: usize = 0;
    while i < n
        invariant
            n == s@.len(),
            n == lit@.len(),
            i <= n,
            forall|j: int| 0 <= j < lit@.len() ==> 'a' <= #[trigger] lit@[j] <= 'z' || '0'
                <= lit@[j] <= '9',
            forall|j: int| 0 <= j < i ==> lower_char(s@[j]) == lit@[j],
        decreases n - i,
    {
        if !lower_is(s.get_char(i), lit.get_char(i)) {
            proof {
                assert(ascii_lower(s@)[i as int] == lower_char(s@[i as int]));
            }
            return false;
        }
        i = i + 1;
    }
    proof {
        assert(ascii_lower(s@) =~= lit@);
    }
    true
}

/// Reads a flag from a variable's text.
pub fn parse_env_bool(value: Option<&str>, default: bool) -> (r: bool)
    ensures
        r == spec_env_bool(
            match value {
                Some(v) => Some(v@),
                None => None,
            },
            default,
        ),
{
    match value {
        None => default,
        Some(v) => {
            let t = trim(v);
            proof {
                reveal_strlit("true");
                reveal_strlit("1");
                reveal_strlit("false");
                reveal_strlit("0");
            }
            if matches_ignoring_case(t, "true") || matches_ignoring_case(t, "1") {
                true
            } else if matches_ignoring_case(t, "false") || matches_ignoring_case(t, "0") {
                false
            } else {
                default
            }
        },
    }
}

/// What `parse_env_u64` gives: the trimmed text read as a `u64`, else the default.
pub open spec fn spec_env_u64(value: Option<Seq<u8>>, default: u64) -> u64 {
    match value {
        None => default,
        Some(t) => match spec_parse_unsigned(t, u64::MAX as nat) {
            Some(n) => n as u64,
            None => default,
        },
    }
}

/// Reads a number from a variable's text.
pub fn parse_env_u64(value: Option<&str>, default: u64) -> (r: u64)
    ensures
        r == spec_env_u64(
            match value {
                Some(v) => Some(encode_utf8(spec_trim(v@))),
                None => None,
            },
            default,
        ),
{
    match value {
        None => default,
        Some(v) => {
            let t = trim(v);
            match parse_u64(t.as_bytes()) {
                Some(n) => n,
                None => default,
            }
        },
    }
}

/// What `parse_env_usize` gives: the trimmed text read as a `usize`, else
/// the default.
pub open spec fn spec_env_usize(value: Option<Seq<u8>>, default: usize) -> usize {
    match value {
        None => default,
        Some(t) => match spec_parse_unsigned(t, usize::MAX as nat) {
            Some(n) => n as usize,
            None => default,
        },
    }
}

/// Reads a count from a variable's text.
pub fn parse_env_usize(value: Option<&str>, default: usize) -> (r: usize)
    ensures
        r == spec_env_usize(
            match value {
                Some(v) => Some(encode_utf8(spec_trim(v@))),
                None => None,
            },
            default,
        ),
{
    match value {
        None => default,
        Some(v) => {
            let t = trim(v);
            match parse_usize(t.as_bytes()) {
                Some(n) => n,
                None => default,
            }
        },
    }
}

/// A count of seconds from a variable's text: the default when it is unset
/// or not a number, and never more than `max`.
pub open spec fn spec_bounded_secs(value: Option<Seq<char>>, default: usize, max: u64) -> u64 {
    let n = spec_env_usize(
        match value {
            Some(v) => Some(encode_utf8(spec_trim(v))),
            None => None,
        },
        default,
    );
    if n <= max {
        n as u64
    } else {
        max
    }
}

fn bounded_secs(value: Option<&str>, default: usize, max: u64) -> (r: u64)
    ensures
        r == spec_bounded_secs(
            match value {
                Some(v) => Some(v@),
                None => None,
            },
            default,
            max,
        ),
{
    let n = parse_env_usize(value, default);
    if n as u128 <= max as u128 {
        n as u64
    } else {
        max
    }
}

/// Seconds of TCP keep-alive for outgoing connections, from the
/// `TCP_KEEPALIVE` variable's text: 90 when unset or not a number, at most
/// 600.
pub fn tcp_keepalive_secs(value: Option<&str>) -> (r: u64)
    ensures
        r == spec_bounded_secs(
            match value {
                Some(v) => Some(v@),
                None => None,
            },
            90,
            600,
        ),
        r <= 600,
{
    bounded_secs(value, 90, 600)
}

/// Seconds to wait for a connection to a service, from the
/// `SERVICE_TIMEOUT` variable's text: 30 when unset or not a number, at most
/// 600.
pub fn service_timeout_secs(value: Option<&str>) -> (r: u64)
    ensures
        r == spec_bounded_secs(
            match value {
                Some(v) => Some(v@),
                None => None,
            },
            30,
            600,
        ),
        r <= 600,
{
    bounded_secs(value, 30, 600)
}

/// Reads a text from a variable's text: trimmed, or the default when
/// nothing is left.
pub fn parse_env_str(value: Option<&str>, default: &str) -> (r: String)
    ensures
        r@ == (match value {
            Some(v) => if spec_trim(v@).len() == 0 {
                default@
            } else {
                spec_trim(v@)
            },
            None => default@,
        }),
{
    match value {
        None => String::from_str(default),
        Some(v) => {
            let t = trim(v);
            if t.unicode_len() == 0 {
                String::from_str(default)
            } else {
                String::from_str(t)
            }
        },
    }
}

/// A setting that can be read from an environment variable's text.
pub trait ParseFromEnv: Sealed + Sized {
    type Result;

    /// Whether `r` is the setting for the variable's text `value` (`None`
    /// when it is not set) and the default `default`.
    spec fn parses_to(value: Option<Seq<char>>, default: Self, r: Self::Result) -> bool;

    /// The setting for the variable's text (`None` when it is not set).
    fn parse_from_env(value: Option<&str>, default: Self) -> (r: Self::Result)
        ensures
            Self::parses_to(
                match value {
                    Some(v) => Some(v@),
                    None => None,
                },
                default,
                r,
            ),
    ;
}

impl ParseFromEnv for bool {
    type Result = bool;

    open spec fn parses_to(value: Option<Seq<char>>, default: bool, r: bool) -> bool {
        r == spec_env_bool(value, default)
    }

    fn parse_from_env(value: Option<&str>, default: bool) -> (r: bool)
        ensures
            r == spec_env_bool(
                match value {
                    Some(v) => Some(v@),
                    None => None,
                },
                default,
            ),
    {
        parse_env_bool(value, default)
    }
}

impl ParseFromEnv for u64 {
    type Result = u64;

    open spec fn parses_to(value: Option<Seq<char>>, default: u64, r: u64) -> bool {
        r == spec_env_u64(
            match value {
                Some(v) => Some(encode_utf8(spec_trim(v))),
                None => None,
            },
            default,
        )
    }

    fn parse_from_env(value: Option<&str>, default: u64) -> (r: u64)
        ensures
            r == spec_env_u64(
                match value {
                    Some(v) => Some(encode_utf8(spec_trim(v@))),
                    None => None,
                },
                default,
            ),
    {
        parse_env_u64(value, default)
    }
}

impl ParseFromEnv for usize {
    type Result = usize;

    open spec fn parses_to(value: Option<Seq<char>>, default: usize, r: usize) -> bool {
        r == spec_env_usize(
            match value {
                Some(v) => Some(encode_utf8(spec_trim(v))),
                None => None,
            },
            default,
        )
    }

    fn parse_from_env(value: Option<&str>, default: usize) -> (r: usize)
        ensures
            r == spec_env_usize(
                match value {
                    Some(v) => Some(encode_utf8(spec_trim(v@))),
                    None => None,
                },
                default,
            ),
    {
        parse_env_usize(value, default)
    }
}

impl<'a> ParseFromEnv for &'a str {
    type Result = String;

    open spec fn parses_to(value: Option<Seq<char>>, default: &'a str, r: String) -> bool {
        r@ == (match value {
            Some(v) => if spec_trim(v).len() == 0 {
                default@
            } else {
                spec_trim(v)
            },
            None => default@,
        })
    }

    fn parse_from_env(value: Option<&str>, default: &'a str) -> (r: String)
        ensures
            r@ == (match value {
                Some(v) => if spec_trim(v@).len() == 0 {
                    default@
                } else {
                    spec_trim(v@)
                },
                None => default@,
            }),
    {
        parse_env_str(value, default)
    }
}

/// The setting of type `T` for an environment variable's text.
pub fn parse_from_env<T: ParseFromEnv>(value: Option<&str>, default: T) -> (r: T::Result)
    ensures
        T::parses_to(
            match value {
                Some(v) => Some(v@),
                None => None,
            },
            default,
            r,
        ),
{
    T::parse_from_env(value, default)
}

} // verus!
