//! Keys configured with their own token and settings, and the settings a
//! request runs with.  A configured key travels as `<prefix>` followed by
//! the base64 of its CBOR encoding; this module takes the base64 apart, the
//! CBOR is read outside the library.
use crate::base64_codec::{from_base64, spec_decode};
use crate::byte_search::starts_with;
use crate::raw_token::{is_known_name, Duration, Provider, RawToken, Subject};
use crate::token::{Randomness, UserId};
use vstd::prelude::*;
use vstd::slice::slice_subrange;
use vstd::string::StringSliceAdditionalSpecFns;
use vstd::utf8::encode_utf8;

verus! {

/// Which models count against the usage check.
#[derive(Debug, Clone, Copy, PartialEq, Eq, Structural)]
pub enum Type {
    Default,
    Disabled,
    All,
    Custom,
}

/// Usage check rule: its kind, and the model ids when the kind is `Custom`.
#[derive(Debug, Clone)]
pub struct UsageCheckModel {
    pub kind: Type,
    pub model_ids: Vec<String>,
}

/// A token as a configured key holds it.
#[derive(Debug, Clone)]
pub struct Token {
    pub provider: String,
    pub sub_id: [u8; 16],
    pub randomness: [u8; 8],
    pub start: i64,
    pub end: i64,
    pub signature: [u8; 32],
    pub is_session: bool,
}

/// The token of a configured key and what goes with it.
#[derive(Debug, Clone)]
pub struct TokenInfo {
    pub token: Token,
    pub checksum: [u8; 64],
    pub client_key: [u8; 32],
    pub config_version: Option<[u8; 16]>,
    pub session_id: [u8; 16],
    pub proxy_name: Option<String>,
    pub timezone: Option<String>,
    pub gcpp_host: Option<u8>,
}

/// A key configured with its own token and settings.
#[derive(Debug, Clone)]
pub struct ConfiguredKey {
    pub token_info: Option<TokenInfo>,
    pub secret: Option<[u8; 32]>,
    pub disable_vision: Option<bool>,
    pub enable_slow_pool: Option<bool>,
    pub include_web_references: Option<bool>,
    pub usage_check_models: Option<UsageCheckModel>,
}

/// The settings a request runs with; `None` leaves a setting to the global one.
#[derive(Debug, Clone)]
pub struct KeyConfig {
    pub usage_check_models: Option<UsageCheckModel>,
    pub disable_vision: Option<bool>,
    pub enable_slow_pool: Option<bool>,
    pub include_web_references: Option<bool>,
}

/// A setting moved from a key: taken when the key has it, else left.
pub open spec fn moved<T>(from: Option<T>, to: Option<T>) -> Option<T> {
    if from is Some {
        from
    } else {
        to
    }
}

impl ConfiguredKey {
    /// Moves each setting the key has into `config`, leaving the token.
    pub fn move_without_auth_token(&mut self, config: &mut KeyConfig)
        ensures
            final(config).usage_check_models == moved(
                old(self).usage_check_models,
                old(config).usage_check_models,
            ),
            final(config).disable_vision == moved(old(self).disable_vision, old(config).disable_vision),
            final(config).enable_slow_pool == moved(
                old(self).enable_slow_pool,
                old(config).enable_slow_pool,
            ),
            final(config).include_web_references == moved(
                old(self).include_web_references,
                old(config).include_web_references,
            ),
            final(self).usage_check_models is None,
            final(self).disable_vision is None,
            final(self).enable_slow_pool is None,
            final(self).include_web_references is None,
            final(self).token_info == old(self).token_info,
            final(self).secret == old(self).secret,
    {
        if self.usage_check_models.is_some() {
            config.usage_check_models = self.usage_check_models.take();
        }
        if self.disable_vision.is_some() {
            config.disable_vision = self.disable_vision.take();
        }
        if self.enable_slow_pool.is_some() {
            config.enable_slow_pool = self.enable_slow_pool.take();
        }
        if self.include_web_references.is_some() {
            config.include_web_references = self.include_web_references.take();
        }
    }
}

impl Token {
    /// The stored form of a raw token, its bytes in the machine's order.
    pub fn from_raw(raw: RawToken) -> (t: Token)
        ensures
            exists|little: bool| stored_as(t, raw, little),
    {
        Self::from_raw_in(raw, crate::platform::native_is_little_endian())
    }

    /// The stored form of a raw token, its bytes in the given order.
    pub fn from_raw_in(raw: RawToken, little: bool) -> (t: Token)
        ensures
            stored_as(t, raw, little),
    {
        Token {
            provider: String::from_str(raw.subject.provider.as_str()),
            signature: raw.signature,
            sub_id: raw.subject.id.to_bytes_in(little),
            randomness: raw.randomness.to_bytes_in(little),
            start: raw.duration.start,
            end: raw.duration.end,
            is_session: raw.is_session,
        }
    }

    /// The raw token, bytes in the machine's order; `None` when the
    /// provider is not one of the `known` names.
    pub fn into_raw(self, known: &[String]) -> (r: Option<RawToken>)
        ensures
            exists|little: bool| read_back(self, known@, little, r),
    {
        Self::into_raw_in(self, known, crate::platform::native_is_little_endian())
    }

    /// The raw token, bytes in the given order; `None` when the provider is
    /// not one of the `known` names.
    pub fn into_raw_in(self, known: &[String], little: bool) -> (r: Option<RawToken>)
        ensures
            read_back(self, known@, little, r),
    {
        let provider = match Provider::from_str(self.provider.as_str(), known) {
            Ok(p) => p,
            Err(_) => {
                return None;
            },
        };
        Some(
            RawToken {
                subject: Subject { provider, id: UserId::from_bytes_in(self.sub_id, little) },
                randomness: Randomness::from_bytes_in(self.randomness, little),
                signature: self.signature,
                duration: Duration { start: self.start, end: self.end },
                is_session: self.is_session,
            },
        )
    }
}

/// `t` is the stored form of `raw`, its numbers' bytes in the given order.
pub open spec fn stored_as(t: Token, raw: RawToken, little: bool) -> bool {
    &&& t.provider@ == raw.subject.provider@
    &&& t.signature == raw.signature
    &&& t.sub_id@ == crate::byte_order::ordered_bytes(raw.subject.id@ as nat, 16, little)
    &&& t.randomness@ == crate::byte_order::ordered_bytes(raw.randomness@ as nat, 8, little)
    &&& t.start == raw.duration.start
    &&& t.end == raw.duration.end
    &&& t.is_session == raw.is_session
}

/// `r` is what the stored token `t` reads back as, its numbers' bytes in
/// the given order: `None` exactly when the provider is not known.
pub open spec fn read_back(t: Token, known: Seq<String>, little: bool, r: Option<RawToken>) -> bool {
    match r {
        Some(raw) => {
            &&& is_known_name(encode_utf8(t.provider@), known)
            &&& encode_utf8(raw.subject.provider@) == encode_utf8(t.provider@)
            &&& raw.signature == t.signature
            &&& raw.duration == Duration { start: t.start, end: t.end }
            &&& raw.is_session == t.is_session
            &&& raw.subject.id@ as nat == crate::byte_order::ordered_value(t.sub_id@, little)
            &&& raw.randomness@ as nat == crate::byte_order::ordered_value(t.randomness@, little)
        },
        None => !is_known_name(encode_utf8(t.provider@), known),
    }
}

/// Storing a raw token and reading it back in the same byte order gives its
/// user, random part, signature, validity and kind back, and its provider's
/// name; nothing comes back only when that name is not known.
pub proof fn lemma_stored_roundtrip(
    raw: RawToken,
    t: Token,
    known: Seq<String>,
    little: bool,
    r: Option<RawToken>,
)
    requires
        stored_as(t, raw, little),
        read_back(t, known, little, r),
    ensures
        r is Some <==> is_known_name(encode_utf8(raw.subject.provider@), known),
        r matches Some(back) ==> {
            &&& encode_utf8(back.subject.provider@) == encode_utf8(raw.subject.provider@)
            &&& back.subject.id == raw.subject.id
            &&& back.randomness == raw.randomness
            &&& back.signature == raw.signature
            &&& back.duration == raw.duration
            &&& back.is_session == raw.is_session
        },
{
    crate::byte_order::lemma_pow256_values();
    crate::byte_order::lemma_ordered_roundtrip(raw.subject.id@ as nat, 16, little);
    crate::byte_order::lemma_ordered_roundtrip(raw.randomness@ as nat, 8, little);
    if let Some(back) = r {
        crate::token::lemma_user_id_view_injective(back.subject.id, raw.subject.id);
        crate::token::lemma_randomness_view_injective(back.randomness, raw.randomness);
    }
}

/// What `dynamic_token_payload` gives: the bytes that follow `prefix`, read
/// as base64.
pub open spec fn spec_dynamic_token_payload(auth: Seq<u8>, prefix: Seq<u8>) -> Option<Seq<u8>> {
    if auth.len() >= prefix.len() && auth.take(prefix.len() as int) == prefix {
        spec_decode(auth.skip(prefix.len() as int))
    } else {
        None
    }
}

/// The encoded configured key inside an authorization token: the token must
/// start with `prefix`, and the rest is base64.
pub fn dynamic_token_payload(auth_token: &str, prefix: &str) -> (r: Option<Vec<u8>>)
    ensures
        match r {
            Some(v) => spec_dynamic_token_payload(auth_token.spec_bytes(), prefix.spec_bytes())
                == Some(v@),
            None => spec_dynamic_token_payload(auth_token.spec_bytes(), prefix.spec_bytes()) is None,
        },
{
    let a = auth_token.as_bytes();
    let p = prefix.as_bytes();
    if !starts_with(a, p) {
        return None;
    }
    let rest = slice_subrange(a, p.len(), a.len());
    assert(rest@ =~= a@.skip(p@.len() as int));
    crate::base64_codec::decode_bytes(rest)
}

impl KeyConfig {
    /// No setting of its own.
    pub fn new() -> (r: KeyConfig)
        ensures
            r.usage_check_models is None,
            r.disable_vision is None,
            r.enable_slow_pool is None,
            r.include_web_references is None,
    {
        KeyConfig {
            usage_check_models: None,
            disable_vision: None,
            enable_slow_pool: None,
            include_web_references: None,
        }
    }

    /// Replaces each setting that is present by the global one: vision is
    /// disabled when no vision ability is configured.
    pub fn with_global(&mut self, vision_ability_none: bool, slow_pool: bool, web_refs: bool)
        ensures
            final(self).usage_check_models == old(self).usage_check_models,
            final(self).disable_vision == (if old(self).disable_vision is Some {
                Some(vision_ability_none)
            } else {
                None
            }),
            final(self).enable_slow_pool == (if old(self).enable_slow_pool is Some {
                Some(slow_pool)
            } else {
                None
            }),
            final(self).include_web_references == (if old(self).include_web_references is Some {
                Some(web_refs)
            } else {
                None
            }),
    {
        if self.disable_vision.is_some() {
            self.disable_vision = Some(vision_ability_none);
        }
        if self.enable_slow_pool.is_some() {
            self.enable_slow_pool = Some(slow_pool);
        }
        if self.include_web_references.is_some() {
            self.include_web_references = Some(web_refs);
        }
    }
}

} // verus!
