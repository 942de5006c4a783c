use ffi_bridge::utils::{handle_to_string, path_to_bytes, path_to_cstr, HandleAction, NativePath};

#[test]
fn hello_handle_converts_and_releases() {
    let (s, action) = handle_to_string(Some(b"hello".to_vec()));
    assert_eq!(s, "hello");
    assert_eq!(action, HandleAction::Release);
}

#[test]
fn null_handle_yields_empty_and_keeps() {
    let (s, action) = handle_to_string(None);
    assert_eq!(s, "");
    assert_eq!(action, HandleAction::Keep);
}

#[test]
fn empty_handle_yields_empty_but_releases() {
    let (s, action) = handle_to_string(Some(Vec::new()));
    assert_eq!(s, "");
    assert_eq!(action, HandleAction::Release);
}

#[test]
fn valid_two_byte_sequences_decode() {
    let (s, action) = handle_to_string(Some("héllo wörld".as_bytes().to_vec()));
    assert_eq!(s, "héllo wörld");
    assert_eq!(action, HandleAction::Release);
}

#[test]
fn valid_three_byte_sequences_decode() {
    let (s, _) = handle_to_string(Some("日本語".as_bytes().to_vec()));
    assert_eq!(s, "日本語");
}

#[test]
fn valid_four_byte_sequences_decode() {
    let (s, _) = handle_to_string(Some("a\u{10348}b\u{10FFFF}".as_bytes().to_vec()));
    assert_eq!(s, "a\u{10348}b\u{10FFFF}");
}

#[test]
fn boundary_scalars_decode() {
    let text = "\u{0}\u{7F}\u{80}\u{7FF}\u{800}\u{D7FF}\u{E000}\u{FFFF}\u{10000}";
    let (s, _) = handle_to_string(Some(text.as_bytes().to_vec()));
    assert_eq!(s, text);
}

#[test]
fn lone_continuation_byte_is_replaced() {
    let (s, action) = handle_to_string(Some(vec![0x80]));
    assert_eq!(s, "\u{FFFD}");
    assert_eq!(action, HandleAction::Release);
}

#[test]
fn truncated_two_byte_sequence_is_replaced() {
    let (s, _) = handle_to_string(Some(vec![0x61, 0xC2]));
    assert_eq!(s, "a\u{FFFD}");
}

#[test]
fn truncated_three_byte_sequence_is_one_replacement() {
    let (s, _) = handle_to_string(Some(vec![0xE0, 0xA0]));
    assert_eq!(s, "\u{FFFD}");
}

#[test]
fn interrupted_three_byte_sequence_keeps_following_char() {
    let (s, _) = handle_to_string(Some(vec![0xE0, 0xA0, 0x41]));
    assert_eq!(s, "\u{FFFD}A");
}

#[test]
fn overlong_encoding_is_rejected_byte_by_byte() {
    let (s, _) = handle_to_string(Some(vec![0xC0, 0xAF]));
    assert_eq!(s, "\u{FFFD}\u{FFFD}");
}

#[test]
fn surrogate_encoding_is_rejected_byte_by_byte() {
    let (s, _) = handle_to_string(Some(vec![0xED, 0xA0, 0x80]));
    assert_eq!(s, "\u{FFFD}\u{FFFD}\u{FFFD}");
}

#[test]
fn codepoint_above_maximum_is_rejected() {
    let (s, _) = handle_to_string(Some(vec![0xF4, 0x90, 0x80, 0x80]));
    assert_eq!(s, "\u{FFFD}\u{FFFD}\u{FFFD}\u{FFFD}");
}

#[test]
fn truncated_four_byte_sequence_is_one_replacement() {
    let (s, _) = handle_to_string(Some(vec![0xF0, 0x9F, 0x98]));
    assert_eq!(s, "\u{FFFD}");
}

#[test]
fn decoding_agrees_with_std_lossy_decoding() {
    let cases: Vec<Vec<u8>> = vec![
        vec![],
        b"plain ascii".to_vec(),
        vec![0x61, 0xF1, 0x80, 0x80, 0xE1, 0x80, 0xC2, 0x62, 0x80, 0x63, 0x80, 0xBF, 0x64],
        vec![0xF5, 0x80, 0x80, 0x80],
        vec![0xC1, 0xBF],
        vec![0xE1, 0xA0, 0xC0],
        vec![0xF0, 0x80, 0x80, 0x80],
        vec![0xED, 0x9F, 0xBF, 0xEE, 0x80, 0x80],
        vec![0xF4, 0x8F, 0xBF, 0xBF, 0xFF, 0xFE],
        "mixé\u{10348}".as_bytes().to_vec(),
    ];
    for bytes in cases {
        let expected = String::from_utf8_lossy(&bytes).into_owned();
        let (s, _) = handle_to_string(Some(bytes.clone()));
        assert_eq!(s, expected, "mismatch for input {:?}", bytes);
    }
}

#[test]
fn path_from_text_views_as_utf8_bytes() {
    let p = NativePath::from_text("/tmp/file.txt");
    assert_eq!(path_to_bytes(&p), b"/tmp/file.txt");
}

#[test]
fn path_from_text_encodes_multibyte_text() {
    let text = "/tmp/ünïcodé/日本/🦀.txt";
    let p = NativePath::from_text(text);
    assert_eq!(path_to_bytes(&p), text.as_bytes());
}

#[test]
fn path_from_bytes_views_same_bytes() {
    let raw = vec![0x2F, 0x74, 0x6D, 0x70, 0x2F, 0xFF, 0xFE, 0x00];
    let p = NativePath::from_bytes(raw.clone());
    assert_eq!(path_to_bytes(&p), raw.as_slice());
}

#[test]
fn path_view_is_stable_while_path_lives() {
    let p = NativePath::from_bytes(b"/var/log".to_vec());
    let first = path_to_bytes(&p).to_vec();
    let second = path_to_bytes(&p).to_vec();
    assert_eq!(first, second);
    assert_eq!(first, b"/var/log".to_vec());
}

#[test]
fn path_to_cstr_returns_terminated_bytes() {
    let p = NativePath::from_bytes(b"/tmp/file.txt\0".to_vec());
    let c = path_to_cstr(&p);
    assert_eq!(c, b"/tmp/file.txt\0");
    assert_eq!(*c.last().unwrap(), 0);
}
