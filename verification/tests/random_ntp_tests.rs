use base64::engine::general_purpose::URL_SAFE_NO_PAD;
use base64::Engine as _;
use cursor_api::ntp::{clock_offset, round_trip_delay};
use cursor_api::build_number::{next_version_number, preview_version_text, read_version_number};
use cursor_api::ntp::{
    answer_timestamps, request_packet, select_samples, sort_by_rtt, validate_ntp_response, NtpError,
    Servers,
};
use cursor_api::random_ids::{generate_pkce_pair, new_uuid_v4, pkce_pair_from, uuid_v4_text_from};
use sha2::Digest as _;

#[test]
fn uuid_v4_text_shape() {
    let id = new_uuid_v4().unwrap();
    for (i, &c) in id.iter().enumerate() {
        if [8, 13, 18, 23].contains(&i) {
            assert_eq!(c, b'-');
        } else {
            assert!(c.is_ascii_digit() || (b'a'..=b'f').contains(&c));
        }
    }
    assert_eq!(id[14], b'4');
    assert!([b'8', b'9', b'a', b'b'].contains(&id[19]));
    assert_ne!(new_uuid_v4().unwrap(), id);
}

#[test]
fn uuid_v4_text_from_known_bytes() {
    let random: [u8; 16] = core::array::from_fn(|i| i as u8);
    assert_eq!(&uuid_v4_text_from(random), b"00010203-0405-4607-8809-0a0b0c0d0e0f");
    let random = [0xFFu8; 16];
    let expected = uuid::Builder::from_random_bytes(random).into_uuid().hyphenated().to_string();
    assert_eq!(&uuid_v4_text_from(random)[..], expected.as_bytes());
    assert_eq!(&uuid_v4_text_from(random), b"ffffffff-ffff-4fff-bfff-ffffffffffff");
}

#[test]
fn pkce_pair_from_known_secret() {
    let secret = [0u8; 32];
    let (verifier, challenge) = pkce_pair_from(&secret);
    assert_eq!(&verifier[..], URL_SAFE_NO_PAD.encode(secret).as_bytes());
    let digest = sha2::Sha256::digest(verifier);
    assert_eq!(&challenge[..], URL_SAFE_NO_PAD.encode(digest).as_bytes());
    assert_eq!(URL_SAFE_NO_PAD.decode(verifier).unwrap(), secret.to_vec());
}

#[test]
fn pkce_pair_random() {
    let (v, c) = generate_pkce_pair().unwrap();
    let digest = sha2::Sha256::digest(v);
    assert_eq!(&c[..], URL_SAFE_NO_PAD.encode(digest).as_bytes());
    assert_eq!(URL_SAFE_NO_PAD.decode(v).unwrap().len(), 32);
}

#[test]
fn ntp_server_list() {
    let servers = Servers::init(" pool.ntp.org, ,time.cloudflare.com,,");
    assert_eq!(servers.len(), 2);
    assert_eq!(servers.get(0), "pool.ntp.org");
    assert_eq!(servers.get(1), "time.cloudflare.com");
    assert_eq!(Servers::init("").len(), 0);
    assert_eq!(Servers::init("a").get(0), "a");
}

#[test]
fn samples_sorted_stably_and_slowest_dropped() {
    let samples: Vec<(i64, i64)> = vec![(10, 30), (11, 10), (12, 30), (13, 20), (14, 10)];
    let sorted = sort_by_rtt(&samples);
    assert_eq!(sorted, vec![(11, 10), (14, 10), (13, 20), (10, 30), (12, 30)]);

    // five samples: the two slowest are dropped
    let kept = select_samples(&samples).unwrap();
    assert_eq!(kept, vec![(11, 10), (14, 10), (13, 20)]);

    // three or four samples: all are kept
    let few: Vec<(i64, i64)> = vec![(1, 5), (2, 3), (3, 4)];
    assert_eq!(select_samples(&few).unwrap(), vec![(2, 3), (3, 4), (1, 5)]);

    // eight samples: three are dropped
    let many: Vec<(i64, i64)> = (0..8).map(|i| (i, 8 - i)).collect();
    let kept = select_samples(&many).unwrap();
    assert_eq!(kept.len(), 5);
    assert_eq!(kept[0], (7, 1));
    assert_eq!(kept[4], (3, 5));

    // fewer than three samples: nothing to average
    assert_eq!(select_samples(&vec![(1, 1), (2, 2)]), None);
}

#[test]
fn build_numbers_and_preview_text() {
    assert_eq!(read_version_number(Some(" 41\n")), 41);
    assert_eq!(read_version_number(Some("x")), 1);
    assert_eq!(read_version_number(Some("+7")), 7);
    assert_eq!(read_version_number(None), 1);
    assert_eq!(next_version_number(Some("41\n")), 42);
    assert_eq!(next_version_number(Some("")), 1);
    assert_eq!(next_version_number(None), 1);
    assert_eq!(next_version_number(Some("18446744073709551615")), 0);
    assert_eq!(preview_version_text("0.4.0", 17), "0.4.0+build.17");
    assert_eq!(preview_version_text("1.2.3", 0), "1.2.3+build.0");
}

#[test]
fn ntp_packets_written_and_read() {
    let t1: u64 = 0xE5F1_2345_8000_0001;
    let request = request_packet(t1);
    assert_eq!(request[0], 0x23);
    assert!(request[1..40].iter().all(|&b| b == 0));
    assert_eq!(&request[40..48], &t1.to_be_bytes());

    let mut answer = [0u8; 48];
    answer[0] = 0x24; // version 4, server mode
    answer[1] = 2;
    answer[32..40].copy_from_slice(&0x0102_0304_0506_0708u64.to_be_bytes());
    answer[40..48].copy_from_slice(&0xA1A2_A3A4_A5A6_A7A8u64.to_be_bytes());
    assert_eq!(answer_timestamps(&answer), (0x0102_0304_0506_0708, 0xA1A2_A3A4_A5A6_A7A8));
    assert!(validate_ntp_response(answer).is_ok());
}

#[test]
fn ntp_error_messages() {
    assert_eq!(NtpError::Protocol("服务器未同步").to_string(), "NTP协议错误: 服务器未同步");
    assert_eq!(NtpError::Io.to_string(), "IO错误");
    assert_eq!(NtpError::Timeout.to_string(), "NTP请求超时");
    assert_eq!(NtpError::TimeParse.to_string(), "时间解析错误");
}

#[test]
fn clock_offset_and_round_trip_of_an_exchange() {
    // Sent at 0, received at 110, answered at 120, back at 40.
    assert_eq!(clock_offset(0, 110, 120, 40), Some(15));
    assert_eq!(round_trip_delay(0, 110, 120, 40), Some(30));
    // Halving rounds down: -1 / 2 is -1.
    assert_eq!(clock_offset(0, 0, 1, 0), Some(-1));
    assert_eq!(clock_offset(0, 3, 0, 0), Some(1));
    let big: i128 = 1 << 70;
    assert_eq!(clock_offset(0, big, 0, 0), None);
    assert_eq!(round_trip_delay(0, 0, 0, big), None);
}
