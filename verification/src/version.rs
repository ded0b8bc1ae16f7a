//! Program versions of the form `MAJOR.MINOR.PATCH[-pre.N[+build.M]]`:
//! their order, their text form and their compact binary form.
use crate::byte_search::{find, find_byte, is_first_at, lemma_find_at, lemma_find_none, no_byte, starts_with};
use crate::decimal::{parse_u16, push_decimal, spec_decimal, spec_parse_unsigned};
use crate::platform::native_is_little_endian;
use crate::text::{ascii_chars, is_ascii_bytes, lemma_encode_ascii, string_from_ascii};
use vstd::prelude::*;
use vstd::string::StringSliceAdditionalSpecFns;

verus! {

/// Release stage of a version.  Previews come before the release.
#[derive(Clone, Copy, Debug, PartialEq, Eq, Structural, Hash, PartialOrd, Ord)]
pub enum ReleaseStage {
    /// A preview such as `-pre.6` or `-pre.6+build.8`.
    Preview { version: u16, build: Option<u16> },
    /// The final release.
    Release,
}

/// A version such as `0.4.0-pre.6+build.8`.
#[derive(Clone, Copy, Debug, PartialEq, Eq, Structural, Hash, PartialOrd, Ord)]
pub struct Version {
    pub major: u16,
    pub minor: u16,
    pub patch: u16,
    pub stage: ReleaseStage,
}

/// Why a version text was refused.
#[derive(Clone, Copy, Debug, PartialEq, Eq, Structural)]
pub enum ParseError {
    /// The base `MAJOR.MINOR.PATCH` does not have three parts.
    InvalidFormat,
    /// A part of the base is not a `u16`.
    InvalidNumber,
    /// The extension does not read `pre.N`.
    InvalidPreRelease,
    /// The part after `+` does not read `build.M`.
    InvalidBuild,
}

/// Why a binary version could not be read.
#[derive(Clone, Copy, Debug, PartialEq, Eq, Structural)]
pub enum VersionReadError {
    /// The input ended before the version did.
    UnexpectedEof,
    /// The stage field holds a value other than 0, 1 or 2.
    InvalidLength(u16),
}

/// A release version.
pub fn release(major: u16, minor: u16, patch: u16) -> (v: Version)
    ensures
        v == (Version { major, minor, patch, stage: ReleaseStage::Release }),
{
    Version { major, minor, patch, stage: ReleaseStage::Release }
}

/// A preview version without build number.
pub fn preview(major: u16, minor: u16, patch: u16, version: u16) -> (v: Version)
    ensures
        v == (Version { major, minor, patch, stage: ReleaseStage::Preview { version, build: None } }),
{
    Version { major, minor, patch, stage: ReleaseStage::Preview { version, build: None } }
}

/// A preview version with a build number.
pub fn preview_build(major: u16, minor: u16, patch: u16, version: u16, build: u16) -> (v: Version)
    ensures
        v == (Version {
            major,
            minor,
            patch,
            stage: ReleaseStage::Preview { version, build: Some(build) },
        }),
{
    Version { major, minor, patch, stage: ReleaseStage::Preview { version, build: Some(build) } }
}

// ---------------------------------------------------------------------------
// Order
// ---------------------------------------------------------------------------

pub open spec fn order_u16(a: u16, b: u16) -> core::cmp::Ordering {
    if a < b {
        core::cmp::Ordering::Less
    } else if a == b {
        core::cmp::Ordering::Equal
    } else {
        core::cmp::Ordering::Greater
    }
}

pub open spec fn order_build(a: Option<u16>, b: Option<u16>) -> core::cmp::Ordering {
    match (a, b) {
        (None, None) => core::cmp::Ordering::Equal,
        (None, Some(_)) => core::cmp::Ordering::Less,
        (Some(_), None) => core::cmp::Ordering::Greater,
        (Some(x), Some(y)) => order_u16(x, y),
    }
}

/// Previews before the release; previews by number, then by build (none first).
pub open spec fn order_stage(a: ReleaseStage, b: ReleaseStage) -> core::cmp::Ordering {
    match (a, b) {
        (ReleaseStage::Release, ReleaseStage::Release) => core::cmp::Ordering::Equal,
        (ReleaseStage::Preview { .. }, ReleaseStage::Release) => core::cmp::Ordering::Less,
        (ReleaseStage::Release, ReleaseStage::Preview { .. }) => core::cmp::Ordering::Greater,
        (
            ReleaseStage::Preview { version: v1, build: b1 },
            ReleaseStage::Preview { version: v2, build: b2 },
        ) => if v1 != v2 {
            order_u16(v1, v2)
        } else {
            order_build(b1, b2)
        },
    }
}

/// Versions are ordered by major, minor, patch, then stage.
pub open spec fn order_version(a: Version, b: Version) -> core::cmp::Ordering {
    if a.major != b.major {
        order_u16(a.major, b.major)
    } else if a.minor != b.minor {
        order_u16(a.minor, b.minor)
    } else if a.patch != b.patch {
        order_u16(a.patch, b.patch)
    } else {
        order_stage(a.stage, b.stage)
    }
}

pub open spec fn flip_order(o: core::cmp::Ordering) -> core::cmp::Ordering {
    match o {
        core::cmp::Ordering::Less => core::cmp::Ordering::Greater,
        core::cmp::Ordering::Equal => core::cmp::Ordering::Equal,
        core::cmp::Ordering::Greater => core::cmp::Ordering::Less,
    }
}

fn compare_u16(a: u16, b: u16) -> (r: core::cmp::Ordering)
    ensures
        r == order_u16(a, b),
{
    if a < b {
        core::cmp::Ordering::Less
    } else if a == b {
        core::cmp::Ordering::Equal
    } else {
        core::cmp::Ordering::Greater
    }
}

impl ReleaseStage {
    /// Compares two stages.
    pub fn compare(&self, other: &Self) -> (r: core::cmp::Ordering)
        ensures
            r == order_stage(*self, *other),
    {
        match (self, other) {
            (ReleaseStage::Release, ReleaseStage::Release) => core::cmp::Ordering::Equal,
            (ReleaseStage::Preview { .. }, ReleaseStage::Release) => core::cmp::Ordering::Less,
            (ReleaseStage::Release, ReleaseStage::Preview { .. }) => core::cmp::Ordering::Greater,
            (
                ReleaseStage::Preview { version: v1, build: b1 },
                ReleaseStage::Preview { version: v2, build: b2 },
            ) => {
                if *v1 != *v2 {
                    compare_u16(*v1, *v2)
                } else {
                    match (b1, b2) {
                        (None, None) => core::cmp::Ordering::Equal,
                        (None, Some(_)) => core::cmp::Ordering::Less,
                        (Some(_), None) => core::cmp::Ordering::Greater,
                        (Some(x), Some(y)) => compare_u16(*x, *y),
                    }
                }
            },
        }
    }
}

impl Version {
    /// Compares two versions: major, minor, patch, then stage.
    pub fn compare(&self, other: &Self) -> (r: core::cmp::Ordering)
        ensures
            r == order_version(*self, *other),
    {
        if self.major != other.major {
            compare_u16(self.major, other.major)
        } else if self.minor != other.minor {
            compare_u16(self.minor, other.minor)
        } else if self.patch != other.patch {
            compare_u16(self.patch, other.patch)
        } else {
            self.stage.compare(&other.stage)
        }
    }
}

/// Versions are ordered by their numbers, most significant first: a
/// smaller major number is older; with equal majors, a smaller minor; with
/// equal majors and minors, a smaller patch.  With equal numbers a preview
/// is older than the release, previews are ordered by their number, and a
/// preview without a build is older than one with a build, builds being
/// ordered by number.
pub proof fn lemma_compare_by_parts(a: Version, b: Version)
    ensures
        a.major < b.major ==> order_version(a, b) == core::cmp::Ordering::Less,
        a.major == b.major && a.minor < b.minor ==> order_version(a, b)
            == core::cmp::Ordering::Less,
        a.major == b.major && a.minor == b.minor && a.patch < b.patch ==> order_version(a, b)
            == core::cmp::Ordering::Less,
        a.major == b.major && a.minor == b.minor && a.patch == b.patch && a.stage is Preview
            && b.stage is Release ==> order_version(a, b) == core::cmp::Ordering::Less,
        a.major == b.major && a.minor == b.minor && a.patch == b.patch && a.stage is Preview
            && b.stage is Preview && a.stage->version < b.stage->version ==> order_version(a, b)
            == core::cmp::Ordering::Less,
        a.major == b.major && a.minor == b.minor && a.patch == b.patch && a.stage is Preview
            && b.stage is Preview && a.stage->version == b.stage->version
            && a.stage->build is None && b.stage->build is Some ==> order_version(a, b)
            == core::cmp::Ordering::Less,
        a.major == b.major && a.minor == b.minor && a.patch == b.patch && a.stage is Preview
            && b.stage is Preview && a.stage->version == b.stage->version
            && a.stage->build is Some && b.stage->build is Some && a.stage->build->0
            < b.stage->build->0 ==> order_version(a, b) == core::cmp::Ordering::Less,
{
}

/// Comparing the other way round gives the reverse answer.
pub proof fn lemma_compare_antisymmetric(a: Version, b: Version)
    ensures
        order_version(b, a) == flip_order(order_version(a, b)),
{
}

/// Two versions compare equal exactly when they are the same version.
pub proof fn lemma_compare_equal(a: Version, b: Version)
    ensures
        (order_version(a, b) == core::cmp::Ordering::Equal) <==> (a == b),
{
}

/// The order is transitive.
pub proof fn lemma_compare_transitive(a: Version, b: Version, c: Version)
    requires
        order_version(a, b) == core::cmp::Ordering::Less,
        order_version(b, c) == core::cmp::Ordering::Less,
    ensures
        order_version(a, c) == core::cmp::Ordering::Less,
{
}

// ---------------------------------------------------------------------------
// Text form
// ---------------------------------------------------------------------------

pub open spec fn text_pre() -> Seq<u8> {
    seq![45u8, 112u8, 114u8, 101u8, 46u8]
}

pub open spec fn text_build() -> Seq<u8> {
    seq![43u8, 98u8, 117u8, 105u8, 108u8, 100u8, 46u8]
}

/// `""`, `"-pre.N"` or `"-pre.N+build.M"`.
pub open spec fn spec_stage_text(s: ReleaseStage) -> Seq<u8> {
    match s {
        ReleaseStage::Release => Seq::empty(),
        ReleaseStage::Preview { version, build: None } => text_pre() + spec_decimal(
            version as nat,
        ),
        ReleaseStage::Preview { version, build: Some(b) } => text_pre() + spec_decimal(
            version as nat,
        ) + text_build() + spec_decimal(b as nat),
    }
}

/// `MAJOR.MINOR.PATCH` followed by the stage.
pub open spec fn spec_version_text(v: Version) -> Seq<u8> {
    spec_decimal(v.major as nat) + seq![46u8] + spec_decimal(v.minor as nat) + seq![46u8]
        + spec_decimal(v.patch as nat) + spec_stage_text(v.stage)
}

/// The pieces of `s` between the separators `sep` (as `str::split` gives them).
pub open spec fn split_pieces(s: Seq<u8>, sep: u8) -> Seq<Seq<u8>>
    decreases s.len(),
{
    match find(s, sep) {
        None => seq![s],
        Some(i) => if 0 <= i < s.len() {
            seq![s.take(i)] + split_pieces(s.skip(i + 1), sep)
        } else {
            seq![s]
        },
    }
}

pub open spec fn parses_u16(s: Seq<u8>) -> bool {
    spec_parse_unsigned(s, u16::MAX as nat) is Some
}

pub open spec fn u16_of(s: Seq<u8>) -> u16 {
    spec_parse_unsigned(s, u16::MAX as nat).unwrap() as u16
}

/// What the base `MAJOR.MINOR.PATCH` reads as.
pub open spec fn spec_parse_base(base: Seq<u8>) -> Result<(u16, u16, u16), ParseError> {
    let p = split_pieces(base, 46);
    if exists|i: int| 0 <= i < 3 && i < p.len() && !parses_u16(#[trigger] p[i]) {
        Err(ParseError::InvalidNumber)
    } else if p.len() != 3 {
        Err(ParseError::InvalidFormat)
    } else {
        Ok((u16_of(p[0]), u16_of(p[1]), u16_of(p[2])))
    }
}

/// What the extension after the first `-` reads as.
pub open spec fn spec_parse_extension(e: Seq<u8>) -> Result<ReleaseStage, ParseError> {
    if e.len() < 4 || e.take(4) != text_pre().skip(1) {
        Err(ParseError::InvalidPreRelease)
    } else {
        let a = e.skip(4);
        let (ver, build) = match find(a, 43) {
            None => (a, None),
            Some(i) => (a.take(i), Some(a.skip(i + 1))),
        };
        if !parses_u16(ver) {
            Err(ParseError::InvalidPreRelease)
        } else {
            match build {
                None => Ok(ReleaseStage::Preview { version: u16_of(ver), build: None }),
                Some(b) => if b.len() < 6 || b.take(6) != text_build().skip(1) || !parses_u16(
                    b.skip(6),
                ) {
                    Err(ParseError::InvalidBuild)
                } else {
                    Ok(ReleaseStage::Preview { version: u16_of(ver), build: Some(u16_of(b.skip(6))) })
                },
            }
        }
    }
}

/// What a whole version text reads as.
pub open spec fn spec_parse_version(s: Seq<u8>) -> Result<Version, ParseError> {
    let (base, ext) = match find(s, 45) {
        None => (s, None),
        Some(i) => (s.take(i), Some(s.skip(i + 1))),
    };
    match spec_parse_base(base) {
        Err(e) => Err(e),
        Ok((major, minor, patch)) => match ext {
            None => Ok(Version { major, minor, patch, stage: ReleaseStage::Release }),
            Some(e) => match spec_parse_extension(e) {
                Err(err) => Err(err),
                Ok(stage) => Ok(Version { major, minor, patch, stage }),
            },
        },
    }
}

fn parse_extension(s: &[u8]) -> (r: Result<ReleaseStage, ParseError>)
    ensures
        r == spec_parse_extension(s@),
{
    let pre: [u8; 4] = [112, 114, 101, 46];
    if !starts_with(s, pre.as_slice()) {
        proof {
            assert(pre@ =~= text_pre().skip(1));
        }
        return Err(ParseError::InvalidPreRelease);
    }
    proof {
        assert(pre@ =~= text_pre().skip(1));
    }
    let after_pre = &s[4..s.len()];
    proof {
        assert(after_pre@ =~= s@.skip(4));
    }
    let split = find_byte(after_pre, 43);
    let version_str = match split {
        Some(i) => &after_pre[0..i],
        None => after_pre,
    };
    let version = match parse_u16(version_str) {
        Some(v) => v,
        None => {
            proof {
                if let Some(i) = split {
                    assert(version_str@ =~= after_pre@.take(i as int));
                }
            }
            return Err(ParseError::InvalidPreRelease);
        },
    };
    proof {
        if let Some(i) = split {
            assert(version_str@ =~= after_pre@.take(i as int));
        }
    }
    match split {
        None => Ok(ReleaseStage::Preview { version, build: None }),
        Some(i) => {
            let build_part = &after_pre[i + 1..after_pre.len()];
            proof {
                assert(build_part@ =~= after_pre@.skip(i + 1));
            }
            let build_tag: [u8; 6] = [98, 117, 105, 108, 100, 46];
            proof {
                assert(build_tag@ =~= text_build().skip(1));
            }
            if !starts_with(build_part, build_tag.as_slice()) {
                return Err(ParseError::InvalidBuild);
            }
            let num = &build_part[6..build_part.len()];
            proof {
                assert(num@ =~= build_part@.skip(6));
            }
            match parse_u16(num) {
                Some(b) => Ok(ReleaseStage::Preview { version, build: Some(b) }),
                None => Err(ParseError::InvalidBuild),
            }
        },
    }
}

fn parse_base(base: &[u8]) -> (r: Result<(u16, u16, u16), ParseError>)
    ensures
        r == spec_parse_base(base@),
{
    let ghost p = split_pieces(base@, 46);
    let mut parts: Vec<u16> = Vec::new();
    let mut rest: &[u8] = base;
    let ghost done: Seq<Seq<u8>> = Seq::empty();
    loop
        invariant_except_break
            p == done + split_pieces(rest@, 46),
        invariant
            p == split_pieces(base@, 46),
            parts@.len() == done.len(),
            done.len() <= 3,
            forall|j: int| 0 <= j < done.len() ==> parses_u16(#[trigger] done[j]) && parts@[j]
                == u16_of(done[j]),
        ensures
            parts@.len() == p.len(),
            p.len() <= 3,
            forall|j: int| 0 <= j < p.len() ==> parses_u16(#[trigger] p[j]) && parts@[j] == u16_of(
                p[j],
            ),
        decreases rest@.len(),
    {
        let split = find_byte(rest, 46);
        let piece = match split {
            Some(i) => &rest[0..i],
            None => rest,
        };
        proof {
            match split {
                Some(i) => {
                    assert(piece@ =~= rest@.take(i as int));
                },
                None => {},
            }
            assert(split_pieces(rest@, 46)[0] == piece@);
        }
        if parts.len() >= 3 {
            proof {
                assert(p.len() >= 4);
                assert forall|i: int| 0 <= i < 3 && i < p.len() implies parses_u16(
                    #[trigger] p[i],
                ) by {
                    assert(p[i] == done[i]);
                }
            }
            return Err(ParseError::InvalidFormat);
        }
        match parse_u16(piece) {
            Some(v) => {
                parts.push(v);
            },
            None => {
                proof {
                    let k = done.len() as int;
                    assert(p[k] == piece@);
                    assert(!parses_u16(p[k]));
                }
                return Err(ParseError::InvalidNumber);
            },
        }
        proof {
            done = done.push(piece@);
        }
        match split {
            Some(i) => {
                let rest_len = rest.len();
                assert(i < rest_len);
                let next = &rest[i + 1..rest_len];
                proof {
                    assert(next@ =~= rest@.skip(i + 1));
                    assert(split_pieces(rest@, 46) =~= seq![piece@] + split_pieces(next@, 46));
                    assert(p =~= done + split_pieces(next@, 46));
                }
                rest = next;
            },
            None => {
                proof {
                    assert(split_pieces(rest@, 46) =~= seq![piece@]);
                    assert(p =~= done);
                }
                break ;
            },
        }
    }
    if parts.len() != 3 {
        return Err(ParseError::InvalidFormat);
    }
    proof {
        assert(!(exists|i: int| 0 <= i < 3 && i < p.len() && !parses_u16(#[trigger] p[i])));
    }
    Ok((parts[0], parts[1], parts[2]))
}

impl Version {
    /// Reads `MAJOR.MINOR.PATCH[-pre.N[+build.M]]`.
    pub fn from_str(s: &str) -> (r: Result<Version, ParseError>)
        ensures
            r == spec_parse_version(s.spec_bytes()),
    {
        let bytes = s.as_bytes();
        let dash = find_byte(bytes, 45);
        let base = match dash {
            Some(i) => &bytes[0..i],
            None => bytes,
        };
        proof {
            if let Some(i) = dash {
                assert(base@ =~= bytes@.take(i as int));
            }
        }
        let (major, minor, patch) = match parse_base(base) {
            Ok(t) => t,
            Err(e) => {
                return Err(e);
            },
        };
        match dash {
            None => Ok(Version { major, minor, patch, stage: ReleaseStage::Release }),
            Some(i) => {
                let total = bytes.len();
                assert(i < total);
                let ext = &bytes[i + 1..total];
                proof {
                    assert(ext@ =~= bytes@.skip(i + 1));
                }
                match parse_extension(ext) {
                    Ok(stage) => Ok(Version { major, minor, patch, stage }),
                    Err(e) => Err(e),
                }
            },
        }
    }

    /// The text form `MAJOR.MINOR.PATCH[-pre.N[+build.M]]`.
    pub fn to_string(&self) -> (s: String)
        ensures
            s@ == ascii_chars(spec_version_text(*self)),
    {
        let mut out: Vec<u8> = Vec::new();
        push_decimal(self.major as u64, &mut out);
        out.push(46);
        push_decimal(self.minor as u64, &mut out);
        out.push(46);
        push_decimal(self.patch as u64, &mut out);
        push_stage(self.stage, &mut out);
        proof {
            assert(out@ =~= spec_version_text(*self));
            lemma_version_text_ascii(*self);
        }
        string_from_ascii(out)
    }
}

/// Appends the text of a stage.
fn push_stage(stage: ReleaseStage, out: &mut Vec<u8>)
    ensures
        final(out)@ == old(out)@ + spec_stage_text(stage),
{
    match stage {
        ReleaseStage::Release => {
            assert(out@ =~= old(out)@ + spec_stage_text(stage));
        },
        ReleaseStage::Preview { version, build } => {
            out.push(45);
            out.push(112);
            out.push(114);
            out.push(101);
            out.push(46);
            push_decimal(version as u64, out);
            match build {
                None => {},
                Some(b) => {
                    out.push(43);
                    out.push(98);
                    out.push(117);
                    out.push(105);
                    out.push(108);
                    out.push(100);
                    out.push(46);
                    push_decimal(b as u64, out);
                },
            }
            assert(out@ =~= old(out)@ + spec_stage_text(stage));
        },
    }
}

impl ReleaseStage {
    /// The text of the stage: empty, `-pre.N` or `-pre.N+build.M`.
    pub fn to_string(&self) -> (s: String)
        ensures
            s@ == ascii_chars(spec_stage_text(*self)),
    {
        let mut out: Vec<u8> = Vec::new();
        push_stage(*self, &mut out);
        proof {
            assert(out@ =~= spec_stage_text(*self));
            lemma_stage_text_ascii(*self);
        }
        string_from_ascii(out)
    }
}

proof fn lemma_stage_text_ascii(stage: ReleaseStage)
    ensures
        is_ascii_bytes(spec_stage_text(stage)),
{
    match stage {
        ReleaseStage::Release => {},
        ReleaseStage::Preview { version, build } => {
            lemma_decimal_ascii(version as nat);
            lemma_concat_ascii(text_pre(), spec_decimal(version as nat));
            match build {
                None => {},
                Some(b) => {
                    lemma_decimal_ascii(b as nat);
                    lemma_concat_ascii(text_pre() + spec_decimal(version as nat), text_build());
                    lemma_concat_ascii(
                        text_pre() + spec_decimal(version as nat) + text_build(),
                        spec_decimal(b as nat),
                    );
                },
            }
        },
    }
}

proof fn lemma_decimal_ascii(n: nat)
    ensures
        is_ascii_bytes(spec_decimal(n)),
{
    crate::decimal::lemma_decimal_digits(n);
    assert forall|i: int| 0 <= i < spec_decimal(n).len() implies #[trigger] spec_decimal(n)[i]
        < 128 by {
        assert(crate::decimal::is_digit(spec_decimal(n)[i]));
    }
}

proof fn lemma_concat_ascii(a: Seq<u8>, b: Seq<u8>)
    requires
        is_ascii_bytes(a),
        is_ascii_bytes(b),
    ensures
        is_ascii_bytes(a + b),
{
    assert forall|i: int| 0 <= i < (a + b).len() implies #[trigger] (a + b)[i] < 128 by {
        if i < a.len() {
            assert((a + b)[i] == a[i]);
        } else {
            assert((a + b)[i] == b[i - a.len()]);
        }
    }
}

proof fn lemma_version_text_ascii(v: Version)
    ensures
        is_ascii_bytes(spec_version_text(v)),
{
    lemma_decimal_ascii(v.major as nat);
    lemma_decimal_ascii(v.minor as nat);
    lemma_decimal_ascii(v.patch as nat);
    let dot = seq![46u8];
    lemma_concat_ascii(spec_decimal(v.major as nat), dot);
    lemma_concat_ascii(spec_decimal(v.major as nat) + dot, spec_decimal(v.minor as nat));
    lemma_concat_ascii(spec_decimal(v.major as nat) + dot + spec_decimal(v.minor as nat), dot);
    lemma_concat_ascii(
        spec_decimal(v.major as nat) + dot + spec_decimal(v.minor as nat) + dot,
        spec_decimal(v.patch as nat),
    );
    let head = spec_decimal(v.major as nat) + dot + spec_decimal(v.minor as nat) + dot
        + spec_decimal(v.patch as nat);
    match v.stage {
        ReleaseStage::Release => {
            assert(spec_version_text(v) =~= head);
        },
        ReleaseStage::Preview { version, build } => {
            lemma_decimal_ascii(version as nat);
            lemma_concat_ascii(text_pre(), spec_decimal(version as nat));
            match build {
                None => {},
                Some(b) => {
                    lemma_decimal_ascii(b as nat);
                    lemma_concat_ascii(text_pre() + spec_decimal(version as nat), text_build());
                    lemma_concat_ascii(
                        text_pre() + spec_decimal(version as nat) + text_build(),
                        spec_decimal(b as nat),
                    );
                },
            }
            lemma_concat_ascii(head, spec_stage_text(v.stage));
        },
    }
}

// ---------------------------------------------------------------------------
// Binary form
// ---------------------------------------------------------------------------

/// A `u16` as two bytes in the given order.
pub open spec fn u16_bytes(x: u16, little: bool) -> Seq<u8> {
    if little {
        seq![(x % 256) as u8, (x / 256) as u8]
    } else {
        seq![(x / 256) as u8, (x % 256) as u8]
    }
}

pub open spec fn u16_from(b0: u8, b1: u8, little: bool) -> u16 {
    if little {
        (b0 + b1 * 256) as u16
    } else {
        (b0 * 256 + b1) as u16
    }
}

/// Major, minor, patch, a stage tag (0 release, 1 preview, 2 preview with build),
/// then the preview number and build when present; every field two bytes.
pub open spec fn spec_version_bytes(v: Version, little: bool) -> Seq<u8> {
    let head = u16_bytes(v.major, little) + u16_bytes(v.minor, little) + u16_bytes(
        v.patch,
        little,
    );
    match v.stage {
        ReleaseStage::Release => head + u16_bytes(0, little),
        ReleaseStage::Preview { version, build: None } => head + u16_bytes(1, little) + u16_bytes(
            version,
            little,
        ),
        ReleaseStage::Preview { version, build: Some(b) } => head + u16_bytes(2, little)
            + u16_bytes(version, little) + u16_bytes(b, little),
    }
}

pub open spec fn field(s: Seq<u8>, k: int, little: bool) -> u16 {
    u16_from(s[2 * k], s[2 * k + 1], little)
}

/// What reading a binary version from the front of `s` gives, with the bytes it used.
pub open spec fn spec_read_version(s: Seq<u8>, little: bool) -> Result<(Version, nat), VersionReadError> {
    if s.len() < 8 {
        Err(VersionReadError::UnexpectedEof)
    } else {
        let major = field(s, 0, little);
        let minor = field(s, 1, little);
        let patch = field(s, 2, little);
        let tag = field(s, 3, little);
        if tag == 0 {
            Ok((Version { major, minor, patch, stage: ReleaseStage::Release }, 8))
        } else if tag == 1 {
            if s.len() < 10 {
                Err(VersionReadError::UnexpectedEof)
            } else {
                Ok(
                    (
                        Version {
                            major,
                            minor,
                            patch,
                            stage: ReleaseStage::Preview {
                                version: field(s, 4, little),
                                build: None,
                            },
                        },
                        10,
                    ),
                )
            }
        } else if tag == 2 {
            if s.len() < 12 {
                Err(VersionReadError::UnexpectedEof)
            } else {
                Ok(
                    (
                        Version {
                            major,
                            minor,
                            patch,
                            stage: ReleaseStage::Preview {
                                version: field(s, 4, little),
                                build: Some(field(s, 5, little)),
                            },
                        },
                        12,
                    ),
                )
            }
        } else {
            Err(VersionReadError::InvalidLength(tag))
        }
    }
}

fn push_u16(x: u16, little: bool, out: &mut Vec<u8>)
    ensures
        final(out)@ == old(out)@ + u16_bytes(x, little),
{
    let lo = (x % 256) as u8;
    let hi = (x / 256) as u8;
    if little {
        out.push(lo);
        out.push(hi);
    } else {
        out.push(hi);
        out.push(lo);
    }
    proof {
        assert(out@ =~= old(out)@ + u16_bytes(x, little));
    }
}

fn read_u16(s: &[u8], k: usize, little: bool) -> (r: u16)
    requires
        k < 8,
        2 * k + 1 < s@.len(),
    ensures
        r == field(s@, k as int, little),
{
    let b0 = s[2 * k];
    let b1 = s[2 * k + 1];
    if little {
        b0 as u16 + (b1 as u16) * 256
    } else {
        (b0 as u16) * 256 + b1 as u16
    }
}

impl Version {
    /// Appends the binary form in the given byte order.
    pub fn encode_with_order(&self, little: bool, out: &mut Vec<u8>)
        ensures
            final(out)@ == old(out)@ + spec_version_bytes(*self, little),
    {
        push_u16(self.major, little, out);
        push_u16(self.minor, little, out);
        push_u16(self.patch, little, out);
        match self.stage {
            ReleaseStage::Release => {
                push_u16(0, little, out);
            },
            ReleaseStage::Preview { version, build: None } => {
                push_u16(1, little, out);
                push_u16(version, little, out);
            },
            ReleaseStage::Preview { version, build: Some(b) } => {
                push_u16(2, little, out);
                push_u16(version, little, out);
                push_u16(b, little, out);
            },
        }
        proof {
            assert(out@ =~= old(out)@ + spec_version_bytes(*self, little));
        }
    }

    /// Reads a binary version in the given byte order from the front of `input`;
    /// returns it with the number of bytes read.
    pub fn decode_with_order(input: &[u8], little: bool) -> (r: Result<(Version, usize), VersionReadError>)
        ensures
            match r {
                Ok((v, n)) => spec_read_version(input@, little) == Ok::<(Version, nat), VersionReadError>((v, n as nat)),
                Err(e) => spec_read_version(input@, little) == Err::<(Version, nat), VersionReadError>(e),
            },
    {
        if input.len() < 8 {
            return Err(VersionReadError::UnexpectedEof);
        }
        let major = read_u16(input, 0, little);
        let minor = read_u16(input, 1, little);
        let patch = read_u16(input, 2, little);
        let tag = read_u16(input, 3, little);
        if tag == 0 {
            Ok((Version { major, minor, patch, stage: ReleaseStage::Release }, 8))
        } else if tag == 1 {
            if input.len() < 10 {
                return Err(VersionReadError::UnexpectedEof);
            }
            let version = read_u16(input, 4, little);
            Ok((Version { major, minor, patch, stage: ReleaseStage::Preview { version, build: None } }, 10))
        } else if tag == 2 {
            if input.len() < 12 {
                return Err(VersionReadError::UnexpectedEof);
            }
            let version = read_u16(input, 4, little);
            let build = read_u16(input, 5, little);
            Ok(
                (
                    Version {
                        major,
                        minor,
                        patch,
                        stage: ReleaseStage::Preview { version, build: Some(build) },
                    },
                    12,
                ),
            )
        } else {
            Err(VersionReadError::InvalidLength(tag))
        }
    }

    /// Appends the binary form in the machine's byte order.
    pub fn write_to(&self, out: &mut Vec<u8>)
        ensures
            exists|little: bool| final(out)@ == old(out)@ + spec_version_bytes(*self, little),
    {
        let little = native_is_little_endian();
        self.encode_with_order(little, out);
    }

    /// Reads a binary version written in the machine's byte order.
    pub fn read_from(input: &[u8]) -> (r: Result<(Version, usize), VersionReadError>)
        ensures
            exists|little: bool|
                #![trigger spec_read_version(input@, little)]
                match r {
                    Ok((v, n)) => spec_read_version(input@, little) == Ok::<(Version, nat), VersionReadError>((v, n as nat)),
                    Err(e) => spec_read_version(input@, little) == Err::<(Version, nat), VersionReadError>(e),
                },
    {
        let little = native_is_little_endian();
        Version::decode_with_order(input, little)
    }
}

// ---------------------------------------------------------------------------
// Laws
// ---------------------------------------------------------------------------

proof fn lemma_u16_roundtrip(x: u16, little: bool)
    ensures
        u16_from(u16_bytes(x, little)[0], u16_bytes(x, little)[1], little) == x,
{
}

/// Reading back what was written, in the same byte order, gives the version
/// and the length of its binary form, whatever follows it.
pub proof fn lemma_read_write_roundtrip(v: Version, little: bool, rest: Seq<u8>)
    ensures
        spec_read_version(spec_version_bytes(v, little) + rest, little) == Ok::<(Version, nat), VersionReadError>(
            (v, spec_version_bytes(v, little).len()),
        ),
{
    let s = spec_version_bytes(v, little) + rest;
    lemma_u16_roundtrip(v.major, little);
    lemma_u16_roundtrip(v.minor, little);
    lemma_u16_roundtrip(v.patch, little);
    lemma_u16_roundtrip(0, little);
    lemma_u16_roundtrip(1, little);
    lemma_u16_roundtrip(2, little);
    assert(field(s, 0, little) == v.major);
    assert(field(s, 1, little) == v.minor);
    assert(field(s, 2, little) == v.patch);
    match v.stage {
        ReleaseStage::Release => {
            assert(field(s, 3, little) == 0);
        },
        ReleaseStage::Preview { version, build } => {
            lemma_u16_roundtrip(version, little);
            assert(field(s, 4, little) == version);
            match build {
                None => {
                    assert(field(s, 3, little) == 1);
                },
                Some(b) => {
                    lemma_u16_roundtrip(b, little);
                    assert(field(s, 3, little) == 2);
                    assert(field(s, 5, little) == b);
                },
            }
        },
    }
}


proof fn lemma_decimal_no_byte(n: nat, b: u8)
    requires
        !(48 <= b <= 57),
    ensures
        no_byte(spec_decimal(n), b),
{
    crate::decimal::lemma_decimal_digits(n);
    assert forall|i: int| 0 <= i < spec_decimal(n).len() implies spec_decimal(n)[i] != b by {
        assert(crate::decimal::is_digit(spec_decimal(n)[i]));
    }
}

proof fn lemma_no_byte_concat(a: Seq<u8>, c: Seq<u8>, b: u8)
    requires
        no_byte(a, b),
        no_byte(c, b),
    ensures
        no_byte(a + c, b),
{
    assert forall|i: int| 0 <= i < (a + c).len() implies (a + c)[i] != b by {
        if i < a.len() {
            assert((a + c)[i] == a[i]);
        } else {
            assert((a + c)[i] == c[i - a.len()]);
        }
    }
}

proof fn lemma_parse_decimal_u16(n: u16)
    ensures
        parses_u16(spec_decimal(n as nat)),
        u16_of(spec_decimal(n as nat)) == n,
{
    crate::decimal::lemma_parse_decimal_roundtrip(n as nat, u16::MAX as nat);
}

proof fn lemma_base_text(major: u16, minor: u16, patch: u16)
    ensures
        spec_parse_base(
            spec_decimal(major as nat) + seq![46u8] + spec_decimal(minor as nat) + seq![46u8]
                + spec_decimal(patch as nat),
        ) == Ok::<(u16, u16, u16), ParseError>((major, minor, patch)),
        no_byte(
            spec_decimal(major as nat) + seq![46u8] + spec_decimal(minor as nat) + seq![46u8]
                + spec_decimal(patch as nat),
            45,
        ),
{
    let d1 = spec_decimal(major as nat);
    let d2 = spec_decimal(minor as nat);
    let d3 = spec_decimal(patch as nat);
    let dot = seq![46u8];
    lemma_decimal_no_byte(major as nat, 46);
    lemma_decimal_no_byte(minor as nat, 46);
    lemma_decimal_no_byte(patch as nat, 46);
    lemma_decimal_no_byte(major as nat, 45);
    lemma_decimal_no_byte(minor as nat, 45);
    lemma_decimal_no_byte(patch as nat, 45);
    let base = d1 + dot + d2 + dot + d3;
    let r1 = d2 + dot + d3;
    assert(base =~= d1 + dot + r1);
    lemma_find_at(d1, 46, r1);
    assert(base.take(d1.len() as int) =~= d1);
    assert(base.skip(d1.len() as int + 1) =~= r1);
    lemma_find_at(d2, 46, d3);
    assert(r1.take(d2.len() as int) =~= d2);
    assert(r1.skip(d2.len() as int + 1) =~= d3);
    lemma_find_none(d3, 46);
    assert(split_pieces(d3, 46) =~= seq![d3]);
    assert(split_pieces(r1, 46) =~= seq![d2] + seq![d3]);
    let p = split_pieces(base, 46);
    assert(p =~= seq![d1, d2, d3]);
    lemma_parse_decimal_u16(major);
    lemma_parse_decimal_u16(minor);
    lemma_parse_decimal_u16(patch);
    assert(!(exists|i: int| 0 <= i < 3 && i < p.len() && !parses_u16(#[trigger] p[i])));
    let dash_free = seq![46u8];
    assert(no_byte(dot, 45));
    lemma_no_byte_concat(d1, dot, 45);
    lemma_no_byte_concat(d1 + dot, d2, 45);
    lemma_no_byte_concat(d1 + dot + d2, dot, 45);
    lemma_no_byte_concat(d1 + dot + d2 + dot, d3, 45);
}

pub open spec fn stage_tail(build: Option<u16>) -> Seq<u8> {
    match build {
        None => Seq::<u8>::empty(),
        Some(b) => text_build() + spec_decimal(b as nat),
    }
}

proof fn lemma_extension_text(version: u16, build: Option<u16>)
    ensures
        spec_parse_extension(text_pre().skip(1) + spec_decimal(version as nat) + stage_tail(build))
            == Ok::<ReleaseStage, ParseError>(ReleaseStage::Preview { version, build }),
{
    let dv = spec_decimal(version as nat);
    let pre4 = text_pre().skip(1);
    lemma_parse_decimal_u16(version);
    lemma_decimal_no_byte(version as nat, 43);
    let tail = stage_tail(build);
    let ext = pre4 + dv + tail;
    assert(ext.take(4) =~= pre4);
    let a = ext.skip(4);
    assert(a =~= dv + tail);
    match build {
        None => {
            assert(a =~= dv);
            lemma_find_none(a, 43);
        },
        Some(b) => {
            let db = spec_decimal(b as nat);
            let b6 = text_build().skip(1);
            lemma_parse_decimal_u16(b);
            assert(a =~= dv + seq![43u8] + (b6 + db));
            lemma_find_at(dv, 43, b6 + db);
            assert(a.take(dv.len() as int) =~= dv);
            assert(a.skip(dv.len() as int + 1) =~= b6 + db);
            assert((b6 + db).take(6) =~= b6);
            assert((b6 + db).skip(6) =~= db);
        },
    }
}

/// The text of a release: its base, without a `-`.
#[verifier::spinoff_prover]
proof fn lemma_release_text_roundtrip(v: Version)
    requires
        v.stage == ReleaseStage::Release,
    ensures
        spec_parse_version(spec_version_text(v)) == Ok::<Version, ParseError>(v),
{
    let base = spec_decimal(v.major as nat) + seq![46u8] + spec_decimal(v.minor as nat) + seq![
        46u8,
    ] + spec_decimal(v.patch as nat);
    lemma_base_text(v.major, v.minor, v.patch);
    let t = spec_version_text(v);
    assert(t =~= base);
    lemma_find_none(t, 45);
}

/// The text of a preview: its base, a `-` and the extension.
#[verifier::spinoff_prover]
#[verifier::rlimit(50)]
proof fn lemma_preview_text_roundtrip(v: Version, version: u16, build: Option<u16>)
    requires
        v.stage == (ReleaseStage::Preview { version, build }),
    ensures
        spec_parse_version(spec_version_text(v)) == Ok::<Version, ParseError>(v),
{
    let base = spec_decimal(v.major as nat) + seq![46u8] + spec_decimal(v.minor as nat) + seq![
        46u8,
    ] + spec_decimal(v.patch as nat);
    lemma_base_text(v.major, v.minor, v.patch);
    let t = spec_version_text(v);
    let ext = text_pre().skip(1) + spec_decimal(version as nat) + stage_tail(build);
    lemma_extension_text(version, build);
    assert(t =~= base + seq![45u8] + ext);
    lemma_find_at(base, 45, ext);
    let i = base.len() as int;
    assert(find(t, 45) == Some(i));
    assert(t.take(i) =~= base);
    assert(t.skip(i + 1) =~= ext);
}

/// Reading the text form of a version gives the version back.
pub proof fn lemma_text_roundtrip(v: Version)
    ensures
        spec_parse_version(spec_version_text(v)) == Ok::<Version, ParseError>(v),
{
    match v.stage {
        ReleaseStage::Release => lemma_release_text_roundtrip(v),
        ReleaseStage::Preview { version, build } => lemma_preview_text_roundtrip(v, version, build),
    }
}

/// Reading the text that `to_string` gives for a version gives the version
/// back.
pub proof fn lemma_string_roundtrip(v: Version, s: &str)
    requires
        s@ == ascii_chars(spec_version_text(v)),
    ensures
        spec_parse_version(s.spec_bytes()) == Ok::<Version, ParseError>(v),
{
    lemma_version_text_ascii(v);
    lemma_encode_ascii(spec_version_text(v));
    lemma_text_roundtrip(v);
}

} // verus!
