use message::frame::{decode, encode};

fn padded(text: &[u8], size: usize) -> Vec<u8> {
    let mut v = text.to_vec();
    v.resize(size, 0);
    v
}

#[test]
fn hello_frame_is_text_then_zeros() {
    let frame = encode("hello", 32);
    assert_eq!(frame.len(), 32);
    assert_eq!(&frame[..5], b"hello");
    assert!(frame[5..].iter().all(|&b| b == 0));
    assert_eq!(frame, padded(b"hello", 32));
    assert_eq!(decode(&frame), Some("hello".to_string()));
}

#[test]
fn forty_chars_keep_the_first_thirty_one() {
    let text = "abcdefghijklmnopqrstuvwxyz0123456789ABCD";
    assert_eq!(text.len(), 40);
    let frame = encode(text, 32);
    assert_eq!(frame.len(), 32);
    assert_eq!(frame[31], 0);
    assert_eq!(decode(&frame), Some(text[..31].to_string()));
}

#[test]
fn round_trip_on_texts_that_fit() {
    for text in ["", "a", "hello world", "héllo wörld", "日本語のテキスト", "0123456789012345678901234567890"] {
        assert!(text.len() <= 31);
        let frame = encode(text, 32);
        assert_eq!(frame.len(), 32);
        assert_eq!(decode(&frame), Some(text.to_string()));
    }
}

#[test]
fn text_of_exactly_capacity_fits() {
    let text = "x".repeat(31);
    assert_eq!(decode(&encode(&text, 32)), Some(text));
    let text = "x".repeat(32);
    assert_eq!(decode(&encode(&text, 32)), Some("x".repeat(31)));
}

#[test]
fn truncation_stops_at_a_character_boundary() {
    // 30 ASCII bytes, then a 3-byte character that would end at byte 33.
    let text = format!("{}€z", "a".repeat(30));
    let frame = encode(&text, 32);
    assert_eq!(frame.len(), 32);
    assert_eq!(frame, padded("a".repeat(30).as_bytes(), 32));
    assert_eq!(decode(&frame), Some("a".repeat(30)));
    // 28 ASCII bytes, then the 3-byte character ends exactly at byte 31.
    let text = format!("{}€z", "a".repeat(28));
    let expected = format!("{}€", "a".repeat(28));
    assert_eq!(decode(&encode(&text, 32)), Some(expected));
}

#[test]
fn truncated_text_is_a_prefix() {
    let text = "ünïcødé ünïcødé ünïcødé ünïcødé ünïcødé";
    for size in 0..50 {
        let frame = encode(text, size);
        assert_eq!(frame.len(), size);
        let decoded = decode(&frame).unwrap();
        assert!(text.starts_with(&decoded));
        assert!(decoded.len() + 1 <= size.max(1));
    }
}

#[test]
fn tiny_frames() {
    assert_eq!(encode("abc", 0), Vec::<u8>::new());
    assert_eq!(encode("abc", 1), vec![0u8]);
    assert_eq!(encode("abc", 2), vec![b'a', 0]);
    assert_eq!(decode(&[]), Some(String::new()));
}

#[test]
fn decode_stops_at_first_zero() {
    assert_eq!(decode(b"ab\0cd\0\0"), Some("ab".to_string()));
    assert_eq!(decode(b"\0abc"), Some(String::new()));
}

#[test]
fn decode_of_frame_without_zero_reads_all() {
    assert_eq!(decode(b"full"), Some("full".to_string()));
}

#[test]
fn invalid_utf8_is_dropped() {
    assert_eq!(decode(&[0xff, 0xfe, 0, 0]), None);
    assert_eq!(decode(&[b'a', 0xc3, 0]), None);
    // invalid bytes after the terminator are ignored
    assert_eq!(decode(&[b'a', 0, 0xff]), Some("a".to_string()));
}

#[test]
fn decode_keeps_multibyte_text() {
    let bytes = "ça va €".as_bytes();
    assert_eq!(decode(&padded(bytes, 16)), Some("ça va €".to_string()));
}
