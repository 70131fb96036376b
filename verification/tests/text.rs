use toastnapi::text::{append, bytes_eq, copy_range, ends_with, starts_with};

#[test]
fn equal_bytes_are_equal() {
    assert!(bytes_eq(b"abc", b"abc"));
    assert!(bytes_eq(b"", b""));
    assert!(!bytes_eq(b"abc", b"abd"));
    assert!(!bytes_eq(b"abc", b"ab"));
    assert!(!bytes_eq(b"", b"a"));
}

#[test]
fn prefixes_and_suffixes_are_told() {
    assert!(starts_with(b"./a", b"./"));
    assert!(starts_with(b"abc", b""));
    assert!(starts_with(b"abc", b"abc"));
    assert!(!starts_with(b"ab", b"abc"));
    assert!(!starts_with(b"abc", b"bc"));
    assert!(ends_with(b"a.js", b".js"));
    assert!(ends_with(b"abc", b""));
    assert!(!ends_with(b"js", b".js"));
    assert!(!ends_with(b"a.jsx", b".js"));
}

#[test]
fn bytes_are_appended_and_copied() {
    let mut v = b"ab".to_vec();
    append(&mut v, b"cd");
    assert_eq!(v, b"abcd".to_vec());
    append(&mut v, b"");
    assert_eq!(v, b"abcd".to_vec());
    assert_eq!(copy_range(b"abcdef", 2, 4), b"cd".to_vec());
    assert_eq!(copy_range(b"abcdef", 3, 3), Vec::<u8>::new());
    assert_eq!(copy_range(b"abcdef", 0, 6), b"abcdef".to_vec());
}
