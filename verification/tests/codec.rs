use base64::Engine;
use leva::codec::{decimal, hex_lower};
use leva::gmail_api::client::{
    decode_data, encode_message, search_url, to_standard_b64_wrapped, wrap_lines76,
};

#[test]
fn decimal_and_hex() {
    assert_eq!(decimal(0), "0");
    assert_eq!(decimal(1234567890), "1234567890");
    assert_eq!(decimal(u64::MAX), "18446744073709551615");
    assert_eq!(hex_lower(0), "0");
    assert_eq!(hex_lower(255), "ff");
    assert_eq!(hex_lower(0xdeadbeef), "deadbeef");
}

#[test]
fn encode_message_is_url_safe_without_padding() {
    assert_eq!(encode_message("hello"), "aGVsbG8");
    assert_eq!(encode_message("abc"), "YWJj");
    assert_eq!(encode_message(""), "");
    // 0xfb 0xff would be "+/8=" in the standard alphabet
    assert_eq!(encode_message("\u{fbff}"), "76-_");
}

#[test]
fn decode_data_accepts_padded_unpadded_and_spaced() {
    assert_eq!(decode_data("aGVsbG8"), Some("hello".to_string()));
    assert_eq!(decode_data("aGVsbG8="), Some("hello".to_string()));
    assert_eq!(decode_data("aGVs\nbG8"), Some("hello".to_string()));
    assert_eq!(decode_data(""), None);
    assert_eq!(decode_data("!!!"), None);
}

#[test]
fn decode_data_is_lossy_utf8() {
    // 0x61 0xff 0x62 in URL-safe base64
    assert_eq!(decode_data("Yf9i"), Some("a\u{FFFD}b".to_string()));
}

#[test]
fn encode_then_decode_round_trip() {
    let raw = "To: a@b.c\r\nSubject: héllo\r\n\r\nbody";
    let enc = encode_message(raw);
    assert_eq!(decode_data(&enc), Some(raw.to_string()));
}

#[test]
fn standard_b64_rewrap() {
    // URL-safe "-_8" is bytes fb ff, standard "+/8="
    assert_eq!(to_standard_b64_wrapped("-_8"), "+/8=");
    assert_eq!(to_standard_b64_wrapped("-_8="), "+/8=");
    assert_eq!(to_standard_b64_wrapped("***"), "");
    let long = "A".repeat(120);
    let out = to_standard_b64_wrapped(&long);
    let lines: Vec<&str> = out.split("\r\n").collect();
    assert_eq!(lines.len(), 2);
    assert_eq!(lines[0].len(), 76);
    assert_eq!(lines[1].len(), 44);
}

#[test]
fn standard_b64_lines_and_alphabet() {
    let bytes: Vec<u8> = (0..=255u8).collect();
    let url = base64::engine::general_purpose::URL_SAFE_NO_PAD.encode(&bytes);
    let out = to_standard_b64_wrapped(&url);
    let lines: Vec<&str> = out.split("\r\n").collect();
    for (i, l) in lines.iter().enumerate() {
        assert!(l.len() <= 76);
        if i + 1 < lines.len() {
            assert_eq!(l.len(), 76);
        }
        assert!(l.chars().all(|c| c.is_ascii_alphanumeric() || c == '+' || c == '/' || c == '='));
    }
    let joined = lines.concat();
    assert_eq!(base64::engine::general_purpose::STANDARD.decode(joined).unwrap(), bytes);
}

#[test]
fn wrap_lines_at_76() {
    assert_eq!(wrap_lines76("abc"), "abc");
    let s = "x".repeat(152);
    assert_eq!(wrap_lines76(&s), format!("{}\r\n{}", "x".repeat(76), "x".repeat(76)));
    let s = "y".repeat(77);
    assert_eq!(wrap_lines76(&s), format!("{}\r\ny", "y".repeat(76)));
}

#[test]
fn search_url_percent_encodes_query() {
    assert_eq!(
        search_url("from:bob is:unread", 10),
        "https://www.googleapis.com/gmail/v1/users/me/messages?q=from%3Abob%20is%3Aunread&maxResults=10"
    );
    assert_eq!(
        search_url("é~", 5),
        "https://www.googleapis.com/gmail/v1/users/me/messages?q=%C3%A9~&maxResults=5"
    );
}

#[test]
fn standard_b64_rewrap_round_trip() {
    for n in 0..200usize {
        let bytes: Vec<u8> = (0..n).map(|i| (i * 37 + 11) as u8).collect();
        let padded = base64::engine::general_purpose::URL_SAFE.encode(&bytes);
        let unpadded = base64::engine::general_purpose::URL_SAFE_NO_PAD.encode(&bytes);
        let std = base64::engine::general_purpose::STANDARD.encode(&bytes);
        let want = std
            .as_bytes()
            .chunks(76)
            .map(|c| std::str::from_utf8(c).unwrap())
            .collect::<Vec<_>>()
            .join("\r\n");
        assert_eq!(to_standard_b64_wrapped(&padded), want);
        assert_eq!(to_standard_b64_wrapped(&unpadded), want);
    }
}
