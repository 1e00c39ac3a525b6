use proxier::text::{
    contains_text, ends_with_text, last_part, push_decimal, push_hexadecimal, replace_char,
    same_text, starts_with_text, text_in_order, trim_text,
};

#[test]
fn searching() {
    assert!(contains_text("hello", "ell"));
    assert!(contains_text("hello", ""));
    assert!(!contains_text("hello", "elo"));
    assert!(!contains_text("", "a"));
    assert!(contains_text("a\u{e9}b", "\u{e9}"));
    assert!(ends_with_text("hello", "llo"));
    assert!(!ends_with_text("lo", "llo"));
    assert!(starts_with_text("PID_5", "PID_"));
    assert!(!starts_with_text("pID_5", "PID_"));
    assert!(same_text("a", "a"));
    assert!(!same_text("a", "A"));
}

#[test]
fn trimming() {
    assert_eq!(trim_text(" \t\r\n a b \u{a0}\u{2003}"), "a b");
    assert_eq!(trim_text("   "), "");
    assert_eq!(trim_text("x"), "x");
}

#[test]
fn every_white_space_character() {
    let listed = [
        0x09, 0x0A, 0x0B, 0x0C, 0x0D, 0x20, 0x85, 0xA0, 0x1680, 0x2000, 0x2001, 0x2002, 0x2003,
        0x2004, 0x2005, 0x2006, 0x2007, 0x2008, 0x2009, 0x200A, 0x2028, 0x2029, 0x202F, 0x205F,
        0x3000,
    ];
    for n in 0..=0x10FFFFu32 {
        if let Some(c) = char::from_u32(n) {
            assert_eq!(c.is_whitespace(), listed.contains(&n));
        }
    }
    for n in listed {
        let c = char::from_u32(n).unwrap();
        assert_eq!(trim_text(&format!("{}a{}b{}", c, c, c)), format!("a{}b", c));
    }
}

#[test]
fn parts() {
    assert_eq!(last_part("a/b/c", '/'), "c");
    assert_eq!(last_part("abc", '/'), "abc");
    assert_eq!(last_part("abc/", '/'), "");
    assert_eq!(last_part("", '/'), "");
    assert_eq!(replace_char("a.b.c", '.', '-'), "a-b-c");
}

#[test]
fn numbers() {
    let mut s = String::from("n=");
    push_decimal(&mut s, 0);
    s.push(',');
    push_decimal(&mut s, 18446744073709551615);
    s.push(',');
    push_hexadecimal(&mut s, 0);
    s.push(',');
    push_hexadecimal(&mut s, 0xabc9);
    assert_eq!(s, "n=0,18446744073709551615,0,abc9");
}

#[test]
fn order() {
    for a in ["", "A", "B", "a", "ab", "b", "\u{e9}", "\u{1F600}", "\u{FFFD}"] {
        for b in ["", "A", "B", "a", "ab", "b", "\u{e9}", "\u{1F600}", "\u{FFFD}"] {
            assert_eq!(text_in_order(a, b), a <= b);
        }
    }
}
