//! A signed session token: its subject (provider and user), its validity
//! window, its random part and its signature, and the text it travels in:
//! `<header><payload>.<signature>`, where the header is the fixed base64 of
//! the token's JOSE header and the two other parts are URL-safe base64
//! without padding.  What the payload's JSON holds is read and written
//! outside this library; this module frames and checks the bytes.
use crate::byte_search::{bytes_equal, find, find_byte, is_first_at, lemma_find_at, no_byte, starts_with};
use crate::text::{str_eq, ascii_chars, is_ascii_bytes, lemma_encode_ascii, lemma_encode_utf8_concat, string_from_ascii};
use crate::token::{
    spec_user_id_parse, spec_user_id_text, Randomness, RandomnessError, SubjectError, TokenKey,
    UserId,
};
use crate::url_base64::{
    is_url_safe_char, url_decode, url_encode, url_safe_no_pad_decode, url_safe_no_pad_encode,
    url_safe_text,
};
use vstd::prelude::*;
use vstd::slice::slice_subrange;
use vstd::string::{StringExecFns, StringSliceAdditionalSpecFns};
use vstd::utf8::encode_utf8;

verus! {

// ---------------------------------------------------------------------------
// Providers and subjects
// ---------------------------------------------------------------------------

/// The sign-in provider of a subject, by name.
#[derive(Debug, Clone)]
pub struct Provider(String);

impl View for Provider {
    type V = Seq<char>;

    closed spec fn view(&self) -> Seq<char> {
        self.0@
    }
}

/// Whether `name` (as UTF-8 bytes) is one of the `known` provider names.
pub open spec fn is_known_name(name: Seq<u8>, known: Seq<String>) -> bool {
    exists|i: int| 0 <= i < known.len() && encode_utf8(#[trigger] known[i]@) == name
}

/// The first known name equal to `name`, if any.
fn find_known(name: &[u8], known: &[String]) -> (r: Option<usize>)
    ensures
        match r {
            Some(i) => i < known@.len() && encode_utf8(known@[i as int]@) == name@,
            None => !is_known_name(name@, known@),
        },
{
    let mut i: usize = 0;
    while i < known.len()
        invariant
            i <= known@.len(),
            forall|j: int| 0 <= j < i ==> encode_utf8(#[trigger] known@[j]@) != name@,
        decreases known@.len() - i,
    {
        let candidate = known[i].as_str().as_bytes();
        if bytes_equal(candidate, name) {
            return Some(i);
        }
        i = i + 1;
    }
    None
}

impl Provider {
    /// The provider called `name`, which must be one of the `known` names.
    pub fn from_str(name: &str, known: &[String]) -> (r: Result<Provider, SubjectError>)
        ensures
            match r {
                Ok(p) => encode_utf8(p@) == name.spec_bytes() && is_known_name(
                    name.spec_bytes(),
                    known@,
                ),
                Err(e) => e == SubjectError::UnsupportedProvider && !is_known_name(
                    name.spec_bytes(),
                    known@,
                ),
            },
    {
        match find_known(name.as_bytes(), known) {
            Some(i) => Ok(Provider(known[i].clone())),
            None => Err(SubjectError::UnsupportedProvider),
        }
    }

    pub fn as_str(&self) -> (r: &str)
        ensures
            r@ == self@,
    {
        self.0.as_str()
    }

    fn to_helper(&self) -> (r: ProviderHelper)
        ensures
            is_helper_of(r, self@),
    {
        let name = self.0.as_str();
        if str_eq(name, AUTH0) {
            ProviderHelper::Auth0
        } else if str_eq(name, GITHUB) {
            ProviderHelper::Github
        } else if str_eq(name, GOOGLE_OAUTH2) {
            ProviderHelper::Google
        } else {
            ProviderHelper::Other(self.0.clone())
        }
    }
}

pub const AUTH0: &'static str = "auth0";

pub const GITHUB: &'static str = "github";

pub const GOOGLE_OAUTH2: &'static str = "google-oauth2";

/// Who a token was issued to.
#[derive(Debug, Clone)]
pub struct Subject {
    pub provider: Provider,
    pub id: UserId,
}

/// The text of a subject: the provider's name, `|`, the user's text.
pub open spec fn spec_subject_text(provider: Seq<char>, id: u128) -> Seq<u8> {
    encode_utf8(provider) + seq![124u8] + spec_user_id_text(id)
}

/// What reading a subject's text gives: the provider's name (as bytes) and
/// the user, for bytes laid out in the given order.
pub open spec fn spec_subject_parse(s: Seq<u8>, known: Seq<String>) -> Result<
    (Seq<u8>, u128),
    SubjectError,
> {
    match find(s, 124) {
        None => Err(SubjectError::InvalidFormat),
        Some(p) => {
            let provider = s.take(p);
            let id = s.skip(p + 1);
            if provider.len() == 0 {
                Err(SubjectError::MissingProvider)
            } else if id.len() == 0 {
                Err(SubjectError::MissingUserId)
            } else if !is_known_name(provider, known) {
                Err(SubjectError::UnsupportedProvider)
            } else {
                match spec_user_id_parse(id) {
                    Ok(v) => Ok((provider, v)),
                    Err(_) => Err(SubjectError::InvalidUlid),
                }
            }
        },
    }
}

impl Subject {
    fn to_helper(&self) -> (r: SubjectHelper)
        ensures
            is_helper_of(r.provider, self.provider@),
            exists|little: bool| r.id@ == crate::byte_order::ordered_bytes(self.id@ as nat, 16, little),
    {
        SubjectHelper { provider: self.provider.to_helper(), id: self.id.to_bytes() }
    }

    /// `<provider>|<user>`.
    pub fn to_string(&self) -> (s: String)
        ensures
            s@ == self.provider@ + seq!['|'] + ascii_chars(spec_user_id_text(self.id@)),
    {
        let mut s = String::from_str(self.provider.as_str());
        s.append("|");
        let id = self.id.to_string();
        s.append(id.as_str());
        proof {
            reveal_strlit("|");
        }
        s
    }

    /// Reads `<provider>|<user>`; the provider must be one of the `known` names.
    pub fn from_str(s: &str, known: &[String]) -> (r: Result<Subject, SubjectError>)
        ensures
            match r {
                Ok(subject) => spec_subject_parse(s.spec_bytes(), known@) == Ok::<
                    (Seq<u8>, u128),
                    SubjectError,
                >((encode_utf8(subject.provider@), subject.id@)),
                Err(e) => spec_subject_parse(s.spec_bytes(), known@) == Err::<
                    (Seq<u8>, u128),
                    SubjectError,
                >(e),
            },
    {
        Self::parse_bytes(s.as_bytes(), known)
    }

    fn parse_bytes(s: &[u8], known: &[String]) -> (r: Result<Subject, SubjectError>)
        ensures
            match r {
                Ok(subject) => spec_subject_parse(s@, known@) == Ok::<
                    (Seq<u8>, u128),
                    SubjectError,
                >((encode_utf8(subject.provider@), subject.id@)),
                Err(e) => spec_subject_parse(s@, known@) == Err::<(Seq<u8>, u128), SubjectError>(
                    e,
                ),
            },
    {
        let p = match find_byte(s, 124u8) {
            Some(p) => p,
            None => {
                return Err(SubjectError::InvalidFormat);
            },
        };
        let n = s.len();
        let provider = slice_subrange(s, 0, p);
        let id = slice_subrange(s, p + 1, n);
        proof {
            assert(provider@ =~= s@.take(p as int));
            assert(id@ =~= s@.skip(p + 1));
        }
        if p == 0 {
            return Err(SubjectError::MissingProvider);
        }
        if p + 1 == n {
            return Err(SubjectError::MissingUserId);
        }
        let i = match find_known(provider, known) {
            Some(i) => i,
            None => {
                return Err(SubjectError::UnsupportedProvider);
            },
        };
        match UserId::parse_bytes(id) {
            Ok(v) => Ok(Subject { provider: Provider(known[i].clone()), id: v }),
            Err(_) => Err(SubjectError::InvalidUlid),
        }
    }
}

/// A subject's text reads back as that subject when the provider's name is a
/// known, non-empty name without `|` and the user's text reads back.
pub proof fn lemma_subject_text_roundtrip(
    provider: Seq<char>,
    id: u128,
    known: Seq<String>,
)
    requires
        is_known_name(encode_utf8(provider), known),
        encode_utf8(provider).len() > 0,
        no_byte(encode_utf8(provider), 124),
    ensures
        spec_subject_parse(spec_subject_text(provider, id), known) == Ok::<
            (Seq<u8>, u128),
            SubjectError,
        >((encode_utf8(provider), id)),
{
    let a = encode_utf8(provider);
    let c = spec_user_id_text(id);
    crate::token::lemma_user_id_text_roundtrip(id);
    lemma_find_at(a, 124, c);
    let t = a + seq![124u8] + c;
    assert(t.take(a.len() as int) =~= a);
    assert(t.skip(a.len() as int + 1) =~= c);
    assert(c.len() > 0) by {
        if c.len() == 0 {
            assert(spec_user_id_parse(c) == Err::<u128, SubjectError>(
                SubjectError::MissingUserId,
            ));
        }
    }
}

// ---------------------------------------------------------------------------
// Validity window
// ---------------------------------------------------------------------------

/// When a token starts and stops being valid, in seconds since the epoch.
#[derive(Debug, Clone, Copy, PartialEq, Eq, Structural, Hash)]
pub struct Duration {
    pub start: i64,
    pub end: i64,
}

// ---------------------------------------------------------------------------
// Token text
// ---------------------------------------------------------------------------

#[derive(Debug, Clone, Copy, PartialEq, Eq, Structural)]
pub enum TokenError {
    InvalidHeader,
    InvalidFormat,
    InvalidBase64,
    InvalidJson,
    InvalidSubject(SubjectError),
    InvalidRandomness(RandomnessError),
    InvalidSignatureLength,
}

impl TokenError {
    /// The message that describes the error, without the inner error's own.
    pub fn message(&self) -> (s: &'static str)
        ensures
            s@ == (match self {
                TokenError::InvalidHeader => "Invalid token header"@,
                TokenError::InvalidFormat => "Invalid token format"@,
                TokenError::InvalidBase64 => "Invalid base64"@,
                TokenError::InvalidJson => "Invalid JSON"@,
                TokenError::InvalidSubject(_) => "Invalid subject"@,
                TokenError::InvalidRandomness(_) => "Invalid randomness"@,
                TokenError::InvalidSignatureLength => "Invalid signature length"@,
            }),
    {
        match self {
            TokenError::InvalidHeader => "Invalid token header",
            TokenError::InvalidFormat => "Invalid token format",
            TokenError::InvalidBase64 => "Invalid base64",
            TokenError::InvalidJson => "Invalid JSON",
            TokenError::InvalidSubject(_) => "Invalid subject",
            TokenError::InvalidRandomness(_) => "Invalid randomness",
            TokenError::InvalidSignatureLength => "Invalid signature length",
        }
    }
}

/// The text of a token error: its message, then the inner error's after a
/// colon.
pub open spec fn token_error_text(e: TokenError) -> Seq<char> {
    match e {
        TokenError::InvalidSubject(inner) => "Invalid subject: "@ + subject_error_text(inner),
        TokenError::InvalidRandomness(inner) => "Invalid randomness: "@ + randomness_error_text(
            inner,
        ),
        TokenError::InvalidHeader => "Invalid token header"@,
        TokenError::InvalidFormat => "Invalid token format"@,
        TokenError::InvalidBase64 => "Invalid base64"@,
        TokenError::InvalidJson => "Invalid JSON"@,
        TokenError::InvalidSignatureLength => "Invalid signature length"@,
    }
}

pub open spec fn subject_error_text(e: SubjectError) -> Seq<char> {
    match e {
        SubjectError::MissingProvider => "Missing provider"@,
        SubjectError::MissingUserId => "Missing user_id"@,
        SubjectError::InvalidFormat => "Invalid user_id format"@,
        SubjectError::InvalidUlid => "Invalid ULID"@,
        SubjectError::InvalidHex => "Invalid HEX"@,
        SubjectError::UnsupportedProvider => "Unsupported provider"@,
    }
}

pub open spec fn randomness_error_text(e: RandomnessError) -> Seq<char> {
    match e {
        RandomnessError::InvalidLength => "Invalid Randomness length"@,
        RandomnessError::InvalidFormat => "Invalid format"@,
    }
}

impl TokenError {
    /// The text of the error, with the inner error's message where there is
    /// one in this crate.
    pub fn to_string(&self) -> (s: String)
        ensures
            s@ == token_error_text(*self),
    {
        match self {
            TokenError::InvalidSubject(inner) => {
                let mut s = String::from_str("Invalid subject: ");
                s.append(inner.message());
                s
            },
            TokenError::InvalidRandomness(inner) => {
                let mut s = String::from_str("Invalid randomness: ");
                s.append(inner.message());
                s
            },
            _ => String::from_str(self.message()),
        }
    }
}

/// The bytes of a token's text.
pub open spec fn spec_token_text(header: Seq<u8>, payload: Seq<u8>, signature: Seq<u8>) -> Seq<u8> {
    header + url_safe_no_pad_encode(payload) + seq![46u8] + url_safe_no_pad_encode(signature)
}

/// What splitting a token's text after `header` gives: the payload's bytes
/// and the 32 bytes of the signature.
pub open spec fn spec_split_token(t: Seq<u8>, header: Seq<u8>) -> Result<
    (Seq<u8>, Seq<u8>),
    TokenError,
> {
    if !(t.len() >= header.len() && t.take(header.len() as int) == header) {
        Err(TokenError::InvalidHeader)
    } else {
        let rest = t.skip(header.len() as int);
        match find(rest, 46) {
            None => Err(TokenError::InvalidFormat),
            Some(p) => match url_safe_no_pad_decode(rest.take(p)) {
                None => Err(TokenError::InvalidBase64),
                Some(payload) => match url_safe_no_pad_decode(rest.skip(p + 1)) {
                    None => Err(TokenError::InvalidBase64),
                    Some(signature) => if signature.len() != 32 {
                        Err(TokenError::InvalidSignatureLength)
                    } else {
                        Ok((payload, signature))
                    },
                },
            },
        }
    }
}

fn array32(v: &Vec<u8>) -> (r: [u8; 32])
    requires
        v@.len() == 32,
    ensures
        r@ == v@,
{
    let r = [
        v[0], v[1], v[2], v[3], v[4], v[5], v[6], v[7], v[8], v[9], v[10], v[11], v[12], v[13],
        v[14], v[15], v[16], v[17], v[18], v[19], v[20], v[21], v[22], v[23], v[24], v[25], v[26],
        v[27], v[28], v[29], v[30], v[31],
    ];
    assert(r@ =~= v@);
    r
}

/// The signature held in decoded bytes, which must be exactly 32.
pub fn signature_from_decoded(decoded: Vec<u8>) -> (r: Result<[u8; 32], TokenError>)
    ensures
        match r {
            Ok(a) => decoded@.len() == 32 && a@ == decoded@,
            Err(e) => decoded@.len() != 32 && e == TokenError::InvalidSignatureLength,
        },
{
    if decoded.len() != 32 {
        Err(TokenError::InvalidSignatureLength)
    } else {
        Ok(array32(&decoded))
    }
}

/// Splits a token's text: it must start with `header`; after it, the first
/// `.` separates the payload from the signature, both URL-safe base64.
pub fn split_token(token: &str, header: &str) -> (r: Result<(Vec<u8>, [u8; 32]), TokenError>)
    ensures
        match r {
            Ok((payload, signature)) => spec_split_token(token.spec_bytes(), header.spec_bytes())
                == Ok::<(Seq<u8>, Seq<u8>), TokenError>((payload@, signature@)),
            Err(e) => spec_split_token(token.spec_bytes(), header.spec_bytes()) == Err::<
                (Seq<u8>, Seq<u8>),
                TokenError,
            >(e),
        },
{
    let t = token.as_bytes();
    let h = header.as_bytes();
    if !starts_with(t, h) {
        return Err(TokenError::InvalidHeader);
    }
    let rest = slice_subrange(t, h.len(), t.len());
    assert(rest@ =~= t@.skip(h@.len() as int));
    let p = match find_byte(rest, 46u8) {
        Some(p) => p,
        None => {
            return Err(TokenError::InvalidFormat);
        },
    };
    let payload_text = slice_subrange(rest, 0, p);
    let signature_text = slice_subrange(rest, p + 1, rest.len());
    assert(payload_text@ =~= rest@.take(p as int));
    assert(signature_text@ =~= rest@.skip(p + 1));
    let payload = match url_decode(payload_text) {
        Some(v) => v,
        None => {
            return Err(TokenError::InvalidBase64);
        },
    };
    let decoded = match url_decode(signature_text) {
        Some(v) => v,
        None => {
            return Err(TokenError::InvalidBase64);
        },
    };
    match signature_from_decoded(decoded) {
        Ok(signature) => Ok((payload, signature)),
        Err(e) => Err(e),
    }
}

/// The text of a token: `header`, the payload and the signature in URL-safe
/// base64 without padding, joined by `.`.
pub fn format_token(header: &str, payload: &[u8], signature: &[u8; 32]) -> (s: String)
    requires
        (payload@.len() / 3) * 4 + 4 <= usize::MAX,
    ensures
        encode_utf8(s@) == spec_token_text(header.spec_bytes(), payload@, signature@),
{
    let mut body = url_encode(payload);
    let ghost first = body@;
    body.push(46u8);
    let sig = url_encode(signature.as_slice());
    body.extend_from_slice(sig.as_slice());
    proof {
        assert(body@ =~= first + seq![46u8] + sig@);
        assert forall|i: int| 0 <= i < body@.len() implies #[trigger] body@[i] < 128 by {
            if i < first.len() {
                assert(is_url_safe_char(first[i]));
            } else if i > first.len() {
                assert(is_url_safe_char(sig@[i - first.len() - 1]));
            }
        }
    }
    let tail = string_from_ascii(body);
    let mut s = String::from_str(header);
    s.append(tail.as_str());
    proof {
        lemma_encode_utf8_concat(header@, tail@);
        lemma_encode_ascii(first + seq![46u8] + sig@);
        assert(encode_utf8(s@) =~= spec_token_text(header.spec_bytes(), payload@, signature@));
    }
    s
}

/// Splitting the text of a token after the header it was written with gives
/// back its payload and its signature.
pub proof fn lemma_token_text_roundtrip(header: Seq<u8>, payload: Seq<u8>, signature: Seq<u8>)
    requires
        signature.len() == 32,
        url_safe_text(url_safe_no_pad_encode(payload)),
        url_safe_no_pad_decode(url_safe_no_pad_encode(payload)) == Some(payload),
        url_safe_no_pad_decode(url_safe_no_pad_encode(signature)) == Some(signature),
    ensures
        spec_split_token(spec_token_text(header, payload, signature), header) == Ok::<
            (Seq<u8>, Seq<u8>),
            TokenError,
        >((payload, signature)),
{
    let a = url_safe_no_pad_encode(payload);
    let c = url_safe_no_pad_encode(signature);
    let t = spec_token_text(header, payload, signature);
    assert(t.take(header.len() as int) =~= header);
    let rest = t.skip(header.len() as int);
    assert(rest =~= a + seq![46u8] + c);
    assert(no_byte(a, 46)) by {
        assert forall|i: int| 0 <= i < a.len() implies a[i] != 46 by {
            assert(is_url_safe_char(a[i]));
        }
    }
    lemma_find_at(a, 46, c);
    assert(rest.take(a.len() as int) =~= a);
    assert(rest.skip(a.len() as int + 1) =~= c);
}

// ---------------------------------------------------------------------------
// Raw tokens
// ---------------------------------------------------------------------------

/// A token's content.  Two raw tokens are equal when their signatures are.
#[derive(Debug, Clone)]
pub struct RawToken {
    pub subject: Subject,
    pub signature: [u8; 32],
    pub duration: Duration,
    pub randomness: Randomness,
    pub is_session: bool,
}

impl PartialEq for RawToken {
    fn eq(&self, other: &Self) -> (r: bool) {
        bytes_equal(self.signature.as_slice(), other.signature.as_slice())
    }
}

impl vstd::std_specs::cmp::PartialEqSpecImpl for RawToken {
    open spec fn obeys_eq_spec() -> bool {
        true
    }

    open spec fn eq_spec(&self, other: &RawToken) -> bool {
        self.signature@ == other.signature@
    }
}

impl RawToken {
    fn to_helper(&self) -> (r: RawTokenHelper)
        ensures
            is_helper_of(r.subject.provider, self.subject.provider@),
            r.signature == self.signature,
            r.duration == self.duration,
            r.randomness == self.randomness,
            r.is_session == self.is_session,
    {
        RawTokenHelper {
            subject: self.subject.to_helper(),
            signature: self.signature,
            duration: self.duration,
            randomness: self.randomness,
            is_session: self.is_session,
        }
    }

    /// The key that finds the token again.
    pub fn key(&self) -> (k: TokenKey)
        ensures
            k.user_id == self.subject.id,
            k.randomness == self.randomness,
    {
        TokenKey { user_id: self.subject.id, randomness: self.randomness }
    }

    /// Whether the token is a web token (not a session token).
    pub fn is_web(&self) -> (r: bool)
        ensures
            r == !self.is_session,
    {
        !self.is_session
    }

    pub fn is_session(&self) -> (r: bool)
        ensures
            r == self.is_session,
    {
        self.is_session
    }
}

// ---------------------------------------------------------------------------
// Stored forms
// ---------------------------------------------------------------------------

/// A provider in stored form: the three common ones by tag, others by name.
#[derive(Debug, Clone)]
pub enum ProviderHelper {
    Auth0,
    Github,
    Google,
    Other(String),
}

/// `h` is the stored form of the provider called `name`.
pub open spec fn is_helper_of(h: ProviderHelper, name: Seq<char>) -> bool {
    match h {
        ProviderHelper::Auth0 => name == AUTH0@,
        ProviderHelper::Github => name == GITHUB@,
        ProviderHelper::Google => name == GOOGLE_OAUTH2@,
        ProviderHelper::Other(s) => s@ == name && name != AUTH0@ && name != GITHUB@ && name
            != GOOGLE_OAUTH2@,
    }
}

/// The name of the provider a stored form stands for.
pub open spec fn helper_name(h: ProviderHelper) -> Seq<char> {
    match h {
        ProviderHelper::Auth0 => AUTH0@,
        ProviderHelper::Github => GITHUB@,
        ProviderHelper::Google => GOOGLE_OAUTH2@,
        ProviderHelper::Other(s) => s@,
    }
}

impl ProviderHelper {
    /// The provider a stored form stands for; it must be one of the `known` names.
    pub fn try_extract(self, known: &[String]) -> (r: Result<Provider, SubjectError>)
        ensures
            match r {
                Ok(p) => encode_utf8(p@) == encode_utf8(helper_name(self)) && is_known_name(
                    encode_utf8(helper_name(self)),
                    known@,
                ),
                Err(e) => e == SubjectError::UnsupportedProvider && !is_known_name(
                    encode_utf8(helper_name(self)),
                    known@,
                ),
            },
    {
        let r = match self {
            ProviderHelper::Auth0 => Provider::from_str(AUTH0, known),
            ProviderHelper::Github => Provider::from_str(GITHUB, known),
            ProviderHelper::Google => Provider::from_str(GOOGLE_OAUTH2, known),
            ProviderHelper::Other(s) => Provider::from_str(s.as_str(), known),
        };
        r
    }
}

/// A subject in stored form: the provider and the user's 16 bytes.
pub struct SubjectHelper {
    pub provider: ProviderHelper,
    pub id: [u8; 16],
}

impl SubjectHelper {
    pub fn try_extract(self, known: &[String]) -> (r: Result<Subject, SubjectError>)
        ensures
            match r {
                Ok(s) => encode_utf8(s.provider@) == encode_utf8(helper_name(self.provider))
                    && is_known_name(encode_utf8(helper_name(self.provider)), known@) && exists|
                    little: bool,
                | s.id@ as nat == crate::byte_order::ordered_value(self.id@, little),
                Err(e) => e == SubjectError::UnsupportedProvider && !is_known_name(
                    encode_utf8(helper_name(self.provider)),
                    known@,
                ),
            },
    {
        let id = self.id;
        match self.provider.try_extract(known) {
            Ok(provider) => Ok(Subject { provider, id: UserId::from_bytes(id) }),
            Err(e) => Err(e),
        }
    }
}

/// A raw token in stored form.
pub struct RawTokenHelper {
    pub subject: SubjectHelper,
    pub signature: [u8; 32],
    pub duration: Duration,
    pub randomness: Randomness,
    pub is_session: bool,
}

impl RawTokenHelper {
    /// The raw token; `None` when the stored provider is not a known one
    /// (where the stored form is read back, that case is a panic).
    pub fn extract(self, known: &[String]) -> (r: Option<RawToken>)
        ensures
            match r {
                Some(t) => t.signature == self.signature && t.duration == self.duration
                    && t.randomness == self.randomness && t.is_session == self.is_session
                    && encode_utf8(t.subject.provider@) == encode_utf8(
                    helper_name(self.subject.provider),
                ),
                None => !is_known_name(encode_utf8(helper_name(self.subject.provider)), known@),
            },
    {
        let signature = self.signature;
        let duration = self.duration;
        let randomness = self.randomness;
        let is_session = self.is_session;
        match self.subject.try_extract(known) {
            Ok(subject) => Some(RawToken { subject, signature, duration, randomness, is_session }),
            Err(_) => None,
        }
    }
}

// ---------------------------------------------------------------------------
// Tokens
// ---------------------------------------------------------------------------

/// A raw token with the text it was read from or written as.
#[derive(Debug, Clone)]
pub struct Token {
    raw: RawToken,
    text: String,
}

/// `t` is a token of `raw` whose text is `text`, or where none is given,
/// `raw`'s written form: `header`, the payload (`payload`, the JSON of
/// `raw`'s payload) and `raw`'s signature in URL-safe base64, joined by `.`.
pub open spec fn token_made_of(
    t: Token,
    raw: RawToken,
    text: Option<String>,
    header: Seq<u8>,
    payload: Seq<u8>,
) -> bool {
    &&& t.spec_raw() == raw
    &&& match text {
        Some(s) => t.spec_text() == s@,
        None => encode_utf8(t.spec_text()) == spec_token_text(header, payload, raw.signature@),
    }
}

impl Token {
    /// A token of `raw` with the text given, or where none is given,
    /// `raw`'s written form (`header`, then `payload` and the signature).
    pub fn new(raw: RawToken, text: Option<String>, header: &str, payload: &[u8]) -> (t: Token)
        requires
            (payload@.len() / 3) * 4 + 4 <= usize::MAX,
        ensures
            token_made_of(t, raw, text, header.spec_bytes(), payload@),
    {
        match text {
            Some(s) => Token { raw, text: s },
            None => {
                let s = format_token(header, payload, &raw.signature);
                Token { raw, text: s }
            },
        }
    }

    pub closed spec fn spec_raw(&self) -> RawToken {
        self.raw
    }

    pub closed spec fn spec_text(&self) -> Seq<char> {
        self.text@
    }

    pub fn raw(&self) -> (r: &RawToken)
        ensures
            *r == self.spec_raw(),
    {
        &self.raw
    }

    pub fn as_str(&self) -> (r: &str)
        ensures
            r@ == self.spec_text(),
    {
        self.text.as_str()
    }

    pub fn key(&self) -> (k: TokenKey)
        ensures
            k.user_id == self.spec_raw().subject.id,
            k.randomness == self.spec_raw().randomness,
    {
        self.raw.key()
    }

    pub fn is_web(&self) -> (r: bool)
        ensures
            r == !self.spec_raw().is_session,
    {
        self.raw.is_web()
    }

    pub fn is_session(&self) -> (r: bool)
        ensures
            r == self.spec_raw().is_session,
    {
        self.raw.is_session()
    }
}

/// The key of a raw token: its user and random part.
pub open spec fn raw_key(raw: RawToken) -> (UserId, Randomness) {
    (raw.subject.id, raw.randomness)
}

/// Tokens kept by key, each key once: asking again for an equal raw token
/// gives back the token kept for its key, and a raw token that differs
/// from the kept one replaces it.
pub struct TokenCache {
    tokens: Vec<Token>,
}

impl TokenCache {
    /// The tokens kept, in the order they were added.
    pub closed spec fn tokens(&self) -> Seq<Token> {
        self.tokens@
    }

    /// No key is kept twice.
    pub closed spec fn wf(&self) -> bool {
        forall|i: int, j: int|
            0 <= i < j < self.tokens@.len() ==> raw_key(#[trigger] self.tokens@[i].spec_raw())
                != raw_key(#[trigger] self.tokens@[j].spec_raw())
    }

    /// An empty cache.
    pub fn new() -> (r: TokenCache)
        ensures
            r.wf(),
            r.tokens() == Seq::<Token>::empty(),
    {
        TokenCache { tokens: Vec::new() }
    }

    /// How many tokens are kept.
    pub fn len(&self) -> (r: usize)
        ensures
            r == self.tokens().len(),
    {
        self.tokens.len()
    }

    /// The token at position `i`.
    pub fn get(&self, i: usize) -> (r: &Token)
        requires
            i < self.tokens().len(),
        ensures
            *r == self.tokens()[i as int],
    {
        &self.tokens[i]
    }

    /// Whether the cache keeps a token for `raw`'s key.
    pub open spec fn has_key(&self, raw: RawToken) -> bool {
        exists|j: int| 0 <= j < self.tokens().len() && raw_key(self.tokens()[j].spec_raw()) == raw_key(raw)
    }

    /// The position of the token for `raw`: the token kept for `raw`'s key
    /// when it is of an equal raw token (same signature), with the cache
    /// unchanged; else a new token of `raw` (see `Token::new` for its text),
    /// which replaces the one kept for the key, or is added at the end.
    pub fn get_or_insert(&mut self, raw: RawToken, text: Option<String>, header: &str, payload: &[u8]) -> (i: usize)
        requires
            old(self).wf(),
            (payload@.len() / 3) * 4 + 4 <= usize::MAX,
        ensures
            final(self).wf(),
            i < final(self).tokens().len(),
            raw_key(final(self).tokens()[i as int].spec_raw()) == raw_key(raw),
            old(self).has_key(raw) ==> i < old(self).tokens().len() && raw_key(
                old(self).tokens()[i as int].spec_raw(),
            ) == raw_key(raw),
            old(self).has_key(raw) && old(self).tokens()[i as int].spec_raw().signature@
                == raw.signature@ ==> final(self).tokens() == old(self).tokens(),
            old(self).has_key(raw) && old(self).tokens()[i as int].spec_raw().signature@
                != raw.signature@ ==> {
                &&& final(self).tokens() == old(self).tokens().update(
                    i as int,
                    final(self).tokens()[i as int],
                )
                &&& token_made_of(
                    final(self).tokens()[i as int],
                    raw,
                    text,
                    header.spec_bytes(),
                    payload@,
                )
            },
            !old(self).has_key(raw) ==> {
                &&& final(self).tokens() == old(self).tokens().push(final(self).tokens()[i as int])
                &&& i == old(self).tokens().len()
                &&& token_made_of(
                    final(self).tokens()[i as int],
                    raw,
                    text,
                    header.spec_bytes(),
                    payload@,
                )
            },
    {
        let key = raw.key();
        let n = self.tokens.len();
        let mut k: usize = 0;
        while k < n
            invariant
                n == self.tokens@.len(),
                k <= n,
                self.wf(),
                *self == *old(self),
                key.user_id == raw.subject.id,
                key.randomness == raw.randomness,
                (payload@.len() / 3) * 4 + 4 <= usize::MAX,
                forall|m: int| 0 <= m < k ==> raw_key(self.tokens@[m].spec_raw()) != raw_key(raw),
            decreases n - k,
        {
            let other = self.tokens[k].key();
            if other == key {
                if self.tokens[k].raw() == &raw {
                    return k;
                }
                let t = Token::new(raw, text, header, payload);
                let ghost before = self.tokens@;
                self.tokens.set(k, t);
                proof {
                    assert forall|x: int, y: int| 0 <= x < y < self.tokens@.len() implies raw_key(
                        #[trigger] self.tokens@[x].spec_raw(),
                    ) != raw_key(#[trigger] self.tokens@[y].spec_raw()) by {
                        assert(raw_key(before[x].spec_raw()) != raw_key(before[y].spec_raw()));
                    }
                }
                return k;
            }
            k = k + 1;
        }
        let ghost before = self.tokens@;
        self.tokens.push(Token::new(raw, text, header, payload));
        proof {
            assert forall|x: int, y: int| 0 <= x < y < self.tokens@.len() implies raw_key(
                #[trigger] self.tokens@[x].spec_raw(),
            ) != raw_key(#[trigger] self.tokens@[y].spec_raw()) by {
                if y == n {
                    assert(self.tokens@[x] == before[x]);
                }
            }
            assert(self.tokens@ =~= before.push(self.tokens@[n as int]));
        }
        n
    }
}

} // verus!
