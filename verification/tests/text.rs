use uniseal::text::{
    contains, decimal, first_line, glue, hex, one_line, owned, push_digit, push_two_digits, same,
};

#[test]
fn numbers() {
    for n in [0, 7, 10, 99, 100, 1234567890, u64::MAX] {
        assert_eq!(decimal(n), format!("{n}"));
    }
    assert_eq!(hex(&[]), "");
    assert_eq!(hex(&[0x00, 0x9A, 0xBC, 0xFF]), "009ABCFF");
    let mut s = String::new();
    for n in 0..16 {
        push_digit(&mut s, n);
    }
    assert_eq!(s, "0123456789ABCDEF");
    let mut s = String::new();
    push_two_digits(&mut s, 7);
    push_two_digits(&mut s, 59);
    assert_eq!(s, "0759");
}

#[test]
fn texts() {
    assert_eq!(owned("ü"), "ü");
    assert_eq!(glue("a·", "b"), "a·b");
    assert!(same("ä", "ä") && !same("a", "ab") && !same("a", "b") && same("", ""));
    for (s, part) in [("hello", "ell"), ("hello", "llo"), ("hello", ""), ("", ""), ("a", "ab"), ("hellö", "lö"), ("aab", "ab"), ("abc", "x")] {
        assert_eq!(contains(s, part), s.contains(part), "{s} {part}");
    }
}

#[test]
fn lines() {
    for s in ["", "a", "a\nb", "a\r\nb", "a\r", "\n", "\r\n", "é\r\r\nx", "a\rb\nc"] {
        assert_eq!(first_line(s), s.lines().next().unwrap_or_default(), "{s:?}");
        assert_eq!(one_line(s), s.replace('\n', " |"), "{s:?}");
    }
}
