//! Small scans over text: whether a JSON fragment puts a space after its
//! first separator, and dropping two leading newlines.
use vstd::prelude::*;
use vstd::string::{StrSliceExecFns, StringExecFns};

verus! {

/// Whether, from position `i` with the scan inside a string or not, the first
/// `:` or `,` outside strings is followed by a space.  Inside a string a
/// backslash skips the next byte.
pub open spec fn spec_space_after(s: Seq<u8>, i: int, in_string: bool) -> bool
    decreases s.len() + 2 - i,
{
    if i < 0 || i >= s.len() {
        false
    } else if in_string {
        if s[i] == 92 {
            spec_space_after(s, i + 2, true)
        } else if s[i] == 34 {
            spec_space_after(s, i + 1, false)
        } else {
            spec_space_after(s, i + 1, true)
        }
    } else if s[i] == 34 {
        spec_space_after(s, i + 1, true)
    } else if s[i] == 58 || s[i] == 44 {
        i + 1 < s.len() && s[i + 1] == 32
    } else {
        spec_space_after(s, i + 1, false)
    }
}

/// Whether the first `:` or `,` outside strings of a JSON fragment is
/// followed by a space; the JSON is not checked.
pub fn has_space_after_separator(json: &[u8]) -> (r: bool)
    ensures
        r == spec_space_after(json@, 0, false),
{
    let mut in_string = false;
    let mut i: usize = 0;
    let n = json.len();
    while i < n
        invariant
            n == json@.len(),
            spec_space_after(json@, i as int, in_string) == spec_space_after(json@, 0, false),
        decreases n + 2 - i,
    {
        let byte = json[i];
        if in_string {
            if byte == 92u8 {
                if n - i <= 2 {
                    assert(!spec_space_after(json@, i as int + 2, true));
                    return false;
                }
                i = i + 2;
                continue;
            }
            if byte == 34u8 {
                in_string = false;
            }
        } else {
            if byte == 34u8 {
                in_string = true;
            } else if byte == 58u8 || byte == 44u8 {
                return i + 1 < n && json[i + 1] == 32u8;
            }
        }
        i = i + 1;
    }
    false
}

/// Dropping two leading newlines.
pub trait TrimNewlines: Sized {
    fn trim_leading_newlines(self) -> Self;
}

/// The text without its first two characters when both are newlines.
pub open spec fn spec_trim_newlines(s: Seq<char>) -> Seq<char> {
    if s.len() >= 2 && s[0] == '\n' && s[1] == '\n' {
        s.skip(2)
    } else {
        s
    }
}

impl<'a> TrimNewlines for &'a str {
    fn trim_leading_newlines(self) -> (r: &'a str)
        ensures
            r@ == spec_trim_newlines(self@),
    {
        let n = self.unicode_len();
        if n >= 2 && self.get_char(0) == '\n' && self.get_char(1) == '\n' {
            self.substring_char(2, n)
        } else {
            self
        }
    }
}

impl TrimNewlines for String {
    fn trim_leading_newlines(self) -> (r: String)
        ensures
            r@ == spec_trim_newlines(self@),
    {
        let s = self.as_str();
        let n = s.unicode_len();
        if n >= 2 && s.get_char(0) == '\n' && s.get_char(1) == '\n' {
            String::from_str(s.substring_char(2, n))
        } else {
            self
        }
    }
}

} // verus!
