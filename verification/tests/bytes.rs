use respkv::bytes::{bytes_eq, parse_u64, to_lower};

#[test]
fn parse_u64_accepts_digits() {
    assert_eq!(parse_u64(&b"0".to_vec()), Some(0));
    assert_eq!(parse_u64(&b"50".to_vec()), Some(50));
    assert_eq!(parse_u64(&b"007".to_vec()), Some(7));
    assert_eq!(parse_u64(&b"18446744073709551615".to_vec()), Some(u64::MAX));
}

#[test]
fn parse_u64_rejects_junk() {
    assert_eq!(parse_u64(&b"".to_vec()), None);
    assert_eq!(parse_u64(&b"12a".to_vec()), None);
    assert_eq!(parse_u64(&b"-5".to_vec()), None);
    assert_eq!(parse_u64(&b" 5".to_vec()), None);
    // one past u64::MAX
    assert_eq!(parse_u64(&b"18446744073709551616".to_vec()), None);
}

#[test]
fn to_lower_folds_ascii_letters_only() {
    assert_eq!(to_lower(&b"PiNg".to_vec()), b"ping".to_vec());
    assert_eq!(to_lower(&b"a-Z_0\xC3".to_vec()), b"a-z_0\xC3".to_vec());
}

#[test]
fn bytes_eq_compares_contents() {
    assert!(bytes_eq(&b"abc".to_vec(), &b"abc".to_vec()));
    assert!(!bytes_eq(&b"abc".to_vec(), &b"abd".to_vec()));
    assert!(!bytes_eq(&b"abc".to_vec(), &b"ab".to_vec()));
    assert!(bytes_eq(&b"".to_vec(), &b"".to_vec()));
}
