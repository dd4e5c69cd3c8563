use rgrep::sniff::is_text_file;
use rgrep::sniff::SNIFF_LEN;

#[test]
fn is_text_file_utf8_returns_true() {
    let data = b"Hello\nWorld\n".to_vec();
    assert!(is_text_file(&data));
}

#[test]
fn is_text_file_long_file_with_valid_prefix_returns_true() {
    // A valid header, then at least the whole window of valid bytes, then an
    // invalid byte beyond the window: only the window is inspected.
    let mut data = b"Hello\nWorld\n".to_vec();
    data.extend_from_slice(&[b'a'; SNIFF_LEN]);
    data.push(0xFF);
    assert!(is_text_file(&data));
}

#[test]
fn is_text_file_contains_nul_returns_false() {
    let data = b"Hello\n\x00World\n".to_vec();
    assert!(!is_text_file(&data));
}

#[test]
fn is_text_file_invalid_utf8_returns_false() {
    let data = b"Hello\n\xFFWorld\n".to_vec();
    assert!(!is_text_file(&data));
}

#[test]
fn is_text_file_contains_lone_continuation_byte_returns_false() {
    let data = b"Hello\n\x80World\n".to_vec();
    assert!(!is_text_file(&data));
}

#[test]
fn is_text_file_empty_file_returns_true() {
    let data: Vec<u8> = Vec::new();
    assert!(is_text_file(&data));
}

#[test]
fn multibyte_text_is_text() {
    let data = "héllo wörld — naïve café\n".as_bytes().to_vec();
    assert!(is_text_file(&data));
}

#[test]
fn four_byte_scalar_is_text() {
    // U+1F600, encoded F0 9F 98 80.
    let data = vec![0xF0, 0x9F, 0x98, 0x80];
    assert!(is_text_file(&data));
}

#[test]
fn truncated_multibyte_scalar_is_binary() {
    // A 3-byte lead with only one continuation byte.
    let data = vec![b'o', b'k', 0xE2, 0x82];
    assert!(!is_text_file(&data));
}

#[test]
fn overlong_encoding_is_binary() {
    // C0 80 is an overlong encoding of NUL and never valid UTF-8.
    let data = vec![0xC0, 0x80];
    assert!(!is_text_file(&data));
}

#[test]
fn surrogate_encoding_is_binary() {
    // ED A0 80 would encode U+D800, a surrogate, which UTF-8 forbids.
    let data = vec![0xED, 0xA0, 0x80];
    assert!(!is_text_file(&data));
}

#[test]
fn scalar_above_unicode_range_is_binary() {
    // F4 90 80 80 would encode U+110000, past the last Unicode scalar.
    let data = vec![0xF4, 0x90, 0x80, 0x80];
    assert!(!is_text_file(&data));
}

#[test]
fn nul_beyond_window_is_still_text() {
    // The NUL sits after the inspected window, so the verdict stays text.
    let mut data = vec![b'a'; SNIFF_LEN];
    data.push(0x00);
    assert!(is_text_file(&data));
}

#[test]
fn invalid_byte_at_last_window_position_is_binary() {
    let mut data = vec![b'a'; SNIFF_LEN - 1];
    data.push(0xFF);
    data.extend_from_slice(b"more text");
    assert!(!is_text_file(&data));
}

#[test]
fn multibyte_scalar_split_by_window_edge_is_binary() {
    // A 2-byte scalar whose continuation byte falls outside the window: the
    // window alone is inspected, and there it is a truncated encoding.
    let mut data = vec![b'a'; SNIFF_LEN - 1];
    data.push(0xC3);
    data.push(0xA9);
    assert!(!is_text_file(&data));
}
