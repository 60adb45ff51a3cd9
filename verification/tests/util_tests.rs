use crev_core::b64::{base64_decode, base64_encode};
use crev_core::bytes::{bytes_eq, hex_string, lex_le_bytes, push_le64};
use crev_core::model::CoreError;
use crev_core::util::{is_equal_default, is_vec_empty, sanitize_name, tilda_home_path};

#[test]
fn sanitize_passes_plain_names_through() {
    assert_eq!(sanitize_name("lazy_static"), "lazy_static-05d6bbf07772f618");
}

#[test]
fn sanitize_hashes_short_reserved_names_apart() {
    assert_eq!(sanitize_name("CON"), "CON-f8d86fcc7f21486b");
}

#[test]
fn sanitize_escapes_separator_characters() {
    assert_eq!(sanitize_name("https://crates.io"), "https___crates_io-c931072c02cbd3b6");
}

#[test]
fn sanitize_caps_long_names_at_64_characters() {
    let a64: String = std::iter::repeat("a").take(64).collect();
    let a2048: String = std::iter::repeat("a").take(2048).collect();
    let a2049: String = std::iter::repeat("a").take(2049).collect();
    assert_eq!(sanitize_name(a2048.as_str()), format!("{}-e22ba9260ac1c319", a64));
    assert_eq!(sanitize_name(a2049.as_str()), format!("{}-54c46acba91f5873", a64));
}

#[test]
fn base64_encodes_url_safe_without_padding() {
    assert_eq!(base64_encode(&b"hello".to_vec()), "aGVsbG8");
    assert_eq!(base64_encode(&Vec::new()), "");
    assert_eq!(base64_encode(&vec![0xff]), "_w");
}

#[test]
fn base64_round_trips() {
    let data = b"some binary \x00\xff data".to_vec();
    let encoded = base64_encode(&data);
    let decoded = base64_decode(encoded.as_str()).expect("its own encoding decodes");
    assert_eq!(decoded, data);
}

#[test]
fn base64_rejects_malformed_input() {
    assert_eq!(base64_decode("not base64!!!").err(), Some(CoreError::Collaborator));
}

#[test]
fn is_vec_empty_checks_length() {
    let empty: Vec<u32> = Vec::new();
    assert!(is_vec_empty(&empty));
    assert!(!is_vec_empty(&vec![1u32]));
}

#[test]
fn is_equal_default_compares_against_default() {
    assert!(is_equal_default(&0u64));
    assert!(!is_equal_default(&5u64));
    assert!(is_equal_default(&String::new()));
}

#[test]
fn tilda_path_shortens_under_home() {
    let home = Some("/home/user".to_string());
    assert_eq!(tilda_home_path(&home, &"/home/user/src/dep".to_string()), "~/src/dep");
    assert_eq!(tilda_home_path(&home, &"/home/user".to_string()), "~/");
    assert_eq!(tilda_home_path(&home, &"/home/userx/src".to_string()), "/home/userx/src");
    assert_eq!(tilda_home_path(&home, &"/var/tmp".to_string()), "/var/tmp");
    assert_eq!(tilda_home_path(&None, &"/home/user/src".to_string()), "/home/user/src");
}

#[test]
fn lexicographic_byte_order() {
    assert!(lex_le_bytes(&b"abc".to_vec(), &b"abd".to_vec()));
    assert!(!lex_le_bytes(&b"abd".to_vec(), &b"abc".to_vec()));
    assert!(lex_le_bytes(&b"ab".to_vec(), &b"abc".to_vec()));
    assert!(lex_le_bytes(&b"".to_vec(), &b"a".to_vec()));
    assert!(lex_le_bytes(&b"a".to_vec(), &b"a".to_vec()));
}

#[test]
fn bytes_eq_is_exact() {
    assert!(bytes_eq(&b"abc".to_vec(), &b"abc".to_vec()));
    assert!(!bytes_eq(&b"abc".to_vec(), &b"abd".to_vec()));
    assert!(!bytes_eq(&b"abc".to_vec(), &b"ab".to_vec()));
}

#[test]
fn hex_renders_lower_case_pairs() {
    assert_eq!(hex_string(&vec![0x00, 0x0f, 0xa5, 0xff]), "000fa5ff");
}

#[test]
fn little_endian_length_framing() {
    let mut out = Vec::new();
    push_le64(&mut out, 0x0102);
    assert_eq!(out, vec![0x02, 0x01, 0, 0, 0, 0, 0, 0]);
    let mut big = Vec::new();
    push_le64(&mut big, u64::MAX);
    assert_eq!(big, vec![0xff; 8]);
}
