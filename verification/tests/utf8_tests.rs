use cursor_api::utf8_check::{is_valid_utf8, string_from_utf8};

#[test]
fn utf8_text_accepted() {
    for text in ["", "hello", "héllo", "日本語", "🦀 crab", "\u{10FFFF}", "\u{7F}\u{80}\u{7FF}\u{800}\u{FFFF}\u{10000}"] {
        assert!(is_valid_utf8(text.as_bytes()));
        assert_eq!(string_from_utf8(text.as_bytes()).as_deref(), Some(text));
    }
}

#[test]
fn utf8_errors_refused() {
    let bad: [&[u8]; 8] = [
        &[0x80],                   // lone continuation byte
        &[0xC0, 0x80],             // overlong encoding of NUL
        &[0xE0, 0x80, 0x80],       // overlong three-byte form
        &[0xED, 0xA0, 0x80],       // surrogate U+D800
        &[0xF4, 0x90, 0x80, 0x80], // above U+10FFFF
        &[0xE6, 0x97],             // cut short
        &[0xF8, 0x88, 0x80, 0x80], // five-byte lead
        &[b'a', 0xFF, b'b'],       // never valid
    ];
    for bytes in bad {
        assert!(!is_valid_utf8(bytes));
        assert_eq!(string_from_utf8(bytes), None);
    }
}

#[test]
fn utf8_check_agrees_with_std() {
    for a in 0..=255u8 {
        assert_eq!(is_valid_utf8(&[a]), std::str::from_utf8(&[a]).is_ok());
        for b in 0..=255u8 {
            let two = [a, b];
            assert_eq!(is_valid_utf8(&two), std::str::from_utf8(&two).is_ok());
        }
    }
    let leads = [0xE0u8, 0xE1, 0xEC, 0xED, 0xEE, 0xEF, 0xF0, 0xF1, 0xF3, 0xF4, 0xF5];
    for lead in leads {
        for b in (0x70..=0xC0u8).step_by(3) {
            for c in (0x70..=0xC0u8).step_by(5) {
                let three = [lead, b, c];
                assert_eq!(is_valid_utf8(&three), std::str::from_utf8(&three).is_ok());
                let four = [lead, b, c, 0x85];
                assert_eq!(is_valid_utf8(&four), std::str::from_utf8(&four).is_ok());
            }
        }
    }
}
