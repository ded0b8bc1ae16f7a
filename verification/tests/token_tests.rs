use cursor_api::raw_token::{
    format_token, split_token, Duration, Provider, RawToken, Subject, Token, TokenCache, TokenError,
};
use cursor_api::token::{Randomness, RandomnessError, SubjectError, TokenKey, UserId};

fn known() -> Vec<String> {
    vec!["auth0".to_string(), "github".to_string(), "google-oauth2".to_string()]
}

#[test]
fn randomness_text_roundtrip() {
    let r = Randomness::from_u64(0x0123_4567_89ab_cdef);
    assert_eq!(r.as_u64(), 0x0123_4567_89ab_cdef);
    let text = r.to_string();
    assert_eq!(text.len(), 18);
    assert_eq!(&text[8..9], "-");
    assert_eq!(&text[13..14], "-");
    assert_eq!(Randomness::from_str(&text).unwrap(), r);
    assert_eq!(Randomness::from_bytes(r.to_bytes()), r);
    assert_eq!(Randomness::default().as_u64(), 0);
}

#[test]
fn randomness_text_in_native_order() {
    let r = Randomness::from_u64(0x0807_0605_0403_0201);
    let expected = if 1u16.to_ne_bytes()[0] == 1 {
        "01020304-0506-0708"
    } else {
        "08070605-0403-0201"
    };
    assert_eq!(r.to_string(), expected);
    assert_eq!(r.to_bytes(), 0x0807_0605_0403_0201u64.to_ne_bytes());
}

#[test]
fn randomness_errors() {
    assert_eq!(Randomness::from_str("0102"), Err(RandomnessError::InvalidLength));
    assert_eq!(Randomness::from_str("01020304x0506-0708"), Err(RandomnessError::InvalidFormat));
    assert_eq!(Randomness::from_str("0102030g-0506-0708"), Err(RandomnessError::InvalidFormat));
    assert_eq!(RandomnessError::InvalidLength.message(), "Invalid Randomness length");
    assert_eq!(
        Randomness::from_str("0A0B0C0D-0E0F-1011").unwrap().to_string(),
        "0a0b0c0d-0e0f-1011"
    );
}

#[test]
fn user_id_parts_and_legacy() {
    let v = 0x0123_4567_89ab_cdef_fedc_ba98_7654_3210u128;
    let id = UserId::from_u128(v);
    assert_eq!(id.as_u128(), v);
    assert!(!id.is_legacy());
    assert!(UserId::from_u128(1).is_legacy());
    assert!(UserId::from_u128((1u128 << 96) - 1).is_legacy());
    assert!(!UserId::from_u128(1u128 << 96).is_legacy());
    assert_eq!(UserId::from_bytes(v.to_ne_bytes()).as_u128(), v);
    assert_eq!(id.to_bytes(), v.to_ne_bytes());
}

#[test]
fn user_id_ulid_text() {
    let v = 0x4d4e385051444a59454234335a413756u128;
    let id = UserId::from_u128(v);
    let text = id.to_string();
    assert_eq!(text, "user_2D9RW50MA499CMAGHM6DD42DTP");
    assert_eq!(text.len(), 31);
    assert_eq!(UserId::from_str(&text).unwrap(), id);
    assert_eq!(UserId::from_str("user_2d9rw50ma499cmaghm6dd42dtp").unwrap(), id);
}

#[test]
fn user_id_legacy_text() {
    let id = UserId::from_bytes([0, 0, 0, 0, 1, 2, 3, 4, 5, 6, 7, 8, 9, 10, 11, 12]);
    if 1u16.to_ne_bytes()[0] == 0 {
        assert!(id.is_legacy());
        assert_eq!(id.to_string(), "0102030405060708090a0b0c");
    }
    let legacy = UserId::from_u128(0x0102_0304_0000_0000);
    assert!(legacy.is_legacy());
    let text = legacy.to_string();
    assert_eq!(text, "000000000102030400000000");
    assert_eq!(UserId::from_str(&text).unwrap(), legacy);
    // The legacy text is the low 96 bits, whatever the machine.
    let one = UserId::from_u128(1);
    assert_eq!(one.to_string(), "000000000000000000000001");
    assert_eq!(UserId::from_str("000000000000000000000001"), Ok(one));
    let low = UserId::from_u128(0x0102_0304_0506_0708_090a_0b0c);
    assert_eq!(low.to_string(), "0102030405060708090a0b0c");
}

#[test]
fn user_id_errors() {
    assert_eq!(UserId::from_str("user"), Err(SubjectError::MissingUserId));
    assert_eq!(
        UserId::from_str("xxxx_2D9RW50MA499CMAGHM6DD42DTP"),
        Err(SubjectError::InvalidFormat)
    );
    assert_eq!(
        UserId::from_str("user_2D9RW50MA499CMAGHM6DD42DTU"),
        Err(SubjectError::InvalidUlid)
    );
    assert_eq!(UserId::from_str("0102030405060708090a0b0g"), Err(SubjectError::InvalidHex));
    assert_eq!(SubjectError::InvalidHex.message(), "Invalid HEX");
}

#[test]
fn token_key_texts() {
    let key = TokenKey {
        user_id: UserId::from_u128(123456789),
        randomness: Randomness::from_u64(42),
    };
    let t = key.to_string();
    assert_eq!(t.len(), 32);
    assert_eq!(TokenKey::from_string(&t), Some(key));
    let d = key.to_string2();
    assert_eq!(d, "123456789-42");
    assert_eq!(TokenKey::from_string(&d), Some(key));
    assert_eq!(TokenKey::from_string("1_2"), Some(TokenKey {
        user_id: UserId::from_u128(1),
        randomness: Randomness::from_u64(2),
    }));
}

#[test]
fn token_key_refusals() {
    assert_eq!(TokenKey::from_string("123"), None);
    assert_eq!(TokenKey::from_string("1-2-3"), None);
    assert_eq!(TokenKey::from_string("-2"), None);
    assert_eq!(TokenKey::from_string("1-"), None);
    assert_eq!(TokenKey::from_string("1-18446744073709551616"), None);
    assert_eq!(TokenKey::from_string(&"1".repeat(61)), None);
}

#[test]
fn token_key_decimal_of_32_chars_reads_as_base64() {
    let key = TokenKey {
        user_id: UserId::from_u128(10_000_000_000_000_000_000),
        randomness: Randomness::from_u64(10_000_000_000),
    };
    let d = key.to_string2();
    assert_eq!(d.len(), 32);
    assert_ne!(TokenKey::from_string(&d), Some(key));
}

fn sample_raw(known: &[String]) -> RawToken {
    let provider = Provider::from_str("github", known).unwrap();
    RawToken {
        subject: Subject { provider, id: UserId::from_u128(0x4d4e385051444a59454234335a413756) },
        signature: [7u8; 32],
        duration: Duration { start: 10, end: 20 },
        randomness: Randomness::from_u64(5),
        is_session: true,
    }
}

#[test]
fn raw_token_key_and_kind() {
    let k = known();
    let raw = sample_raw(&k);
    assert!(raw.is_session());
    assert!(!raw.is_web());
    let key = raw.key();
    assert_eq!(key.user_id, raw.subject.id);
    assert_eq!(key.randomness, raw.randomness);
    let mut other = raw.clone();
    other.is_session = false;
    assert!(raw == other);
    other.signature[0] = 8;
    assert!(raw != other);
    let token = Token::new(raw.clone(), Some("text".to_string()), "", b"");
    assert_eq!(token.as_str(), "text");
    assert_eq!(token.key(), key);
    assert!(token.is_session());
    assert!(!token.is_web());
}

#[test]
fn subject_text_roundtrip() {
    let k = known();
    let raw = sample_raw(&k);
    let text = raw.subject.to_string();
    assert_eq!(text, "github|user_2D9RW50MA499CMAGHM6DD42DTP");
    let back = Subject::from_str(&text, &k).unwrap();
    assert_eq!(back.provider.as_str(), "github");
    assert_eq!(back.id, raw.subject.id);
}

#[test]
fn subject_errors() {
    let k = known();
    assert_eq!(Subject::from_str("github", &k).err(), Some(SubjectError::InvalidFormat));
    assert_eq!(Subject::from_str("|user_x", &k).err(), Some(SubjectError::MissingProvider));
    assert_eq!(Subject::from_str("github|", &k).err(), Some(SubjectError::MissingUserId));
    assert_eq!(
        Subject::from_str("gitlab|user_2D9RW50MA499CMAGHM6DD42DTP", &k).err(),
        Some(SubjectError::UnsupportedProvider)
    );
    assert_eq!(Subject::from_str("github|nope", &k).err(), Some(SubjectError::InvalidUlid));
}

#[test]
fn token_text_split_roundtrip() {
    let header = "eyJhbGciOiJIUzI1NiIsInR5cCI6IkpXVCJ9.";
    let payload = br#"{"sub":"github|user_x"}"#;
    let signature = [3u8; 32];
    let text = format_token(header, payload, &signature);
    assert!(text.starts_with(header));
    let (p, s) = split_token(&text, header).unwrap();
    assert_eq!(p, payload.to_vec());
    assert_eq!(s, signature);
}

#[test]
fn token_text_errors() {
    let header = "HDR.";
    assert_eq!(split_token("XYZ.abc.def", header).err(), Some(TokenError::InvalidHeader));
    assert_eq!(split_token("HDR.abc", header).err(), Some(TokenError::InvalidFormat));
    assert_eq!(split_token("HDR.a!.AAAA", header).err(), Some(TokenError::InvalidBase64));
    assert_eq!(split_token("HDR.AAAA.AAAA", header).err(), Some(TokenError::InvalidSignatureLength));
    assert_eq!(TokenError::InvalidHeader.message(), "Invalid token header");
}

#[test]
fn token_error_texts() {
    assert_eq!(TokenError::InvalidHeader.to_string(), "Invalid token header");
    assert_eq!(TokenError::InvalidSignatureLength.to_string(), "Invalid signature length");
    assert_eq!(
        TokenError::InvalidSubject(SubjectError::InvalidUlid).to_string(),
        "Invalid subject: Invalid ULID"
    );
    assert_eq!(
        TokenError::InvalidRandomness(RandomnessError::InvalidLength).to_string(),
        "Invalid randomness: Invalid Randomness length"
    );
}

#[test]
fn token_cache_gives_back_the_kept_token() {
    let k = known();
    let raw = sample_raw(&k);
    let mut cache = TokenCache::new();
    assert_eq!(cache.len(), 0);

    let i = cache.get_or_insert(raw.clone(), Some("first".to_string()), "h.", b"{}");
    assert_eq!(i, 0);
    assert_eq!(cache.get(i).as_str(), "first");
    assert_eq!(cache.get(i).key(), raw.key());
    assert_eq!(cache.get(i).raw().signature, raw.signature);

    // An equal raw token gives the kept token back; the new text is not used.
    let j = cache.get_or_insert(raw.clone(), Some("second".to_string()), "h.", b"{}");
    assert_eq!(j, i);
    assert_eq!(cache.get(j).as_str(), "first");
    assert_eq!(cache.len(), 1);

    // The same key with another signature replaces the kept token; with no
    // text given, the new one takes the written form.
    let mut resigned = raw.clone();
    resigned.signature = [9u8; 32];
    let r = cache.get_or_insert(resigned, None, "h.", b"{}");
    assert_eq!(r, i);
    assert_eq!(cache.len(), 1);
    assert_eq!(cache.get(r).raw().signature, [9u8; 32]);
    assert_eq!(cache.get(r).as_str(), "h.e30.CQkJCQkJCQkJCQkJCQkJCQkJCQkJCQkJCQkJCQkJCQk");

    // Another key is kept beside it.
    let mut other = raw.clone();
    other.randomness = Randomness::from_u64(6);
    let m = cache.get_or_insert(other, Some("third".to_string()), "h.", b"{}");
    assert_eq!(m, 1);
    assert_eq!(cache.get(m).as_str(), "third");
    assert_eq!(cache.len(), 2);
}

#[test]
fn formatted_token_text_is_the_written_form() {
    let k = known();
    let raw = sample_raw(&k);
    let t = Token::new(raw.clone(), None, "h.", b"{}");
    assert_eq!(t.as_str(), "h.e30.BwcHBwcHBwcHBwcHBwcHBwcHBwcHBwcHBwcHBwcHBwc");
    assert_eq!(t.key(), raw.key());
}

#[test]
fn token_key_text_in_a_fixed_order() {
    let key = TokenKey {
        user_id: UserId::from_u128(10_000_000_000),
        randomness: Randomness::from_u64(10_000_000_000_000_000_000),
    };
    for little in [false, true] {
        let text = key.to_string_in(little);
        assert_eq!(text.len(), 32);
        assert_eq!(TokenKey::from_string_in(&text, little), Some(key));
    }
    assert_ne!(key.to_string_in(false), key.to_string_in(true));
}

#[test]
fn randomness_text_in_a_fixed_order() {
    let r = Randomness::from_u64(0x0123_4567_89ab_cdef);
    assert_eq!(r.to_string_in(false), "01234567-89ab-cdef");
    assert_eq!(r.to_string_in(true), "efcdab89-6745-2301");
    for little in [false, true] {
        assert_eq!(Randomness::from_str_in(&r.to_string_in(little), little), Ok(r));
    }
}
