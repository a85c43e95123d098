use hack_assembler::text::{chars_of, find_comment, is_whitespace, parse_u16, trim_bounds};

fn letters(text: &str) -> Vec<char> {
    text.chars().collect()
}

#[test]
fn characters_of_a_text() {
    assert_eq!(chars_of(""), Vec::<char>::new());
    assert_eq!(chars_of("D=A"), vec!['D', '=', 'A']);
    assert_eq!(
        chars_of("a\u{e9}\u{4e2d}\u{1f600}z"),
        vec!['a', '\u{e9}', '\u{4e2d}', '\u{1f600}', 'z']
    );
}

#[test]
fn white_space_characters() {
    let spaces = [
        ' ', '\t', '\n', '\r', '\u{b}', '\u{c}', '\u{85}', '\u{a0}', '\u{1680}', '\u{2000}',
        '\u{2005}', '\u{200a}', '\u{2028}', '\u{2029}', '\u{202f}', '\u{205f}', '\u{3000}',
    ];
    for c in spaces {
        assert!(is_whitespace(c), "{:?}", c);
    }
    let others = [
        'a', '0', '/', '_', '\u{8}', '\u{e}', '\u{1f}', '\u{84}', '\u{86}', '\u{200b}', '\u{180e}',
        '\u{2060}', '\u{feff}',
    ];
    for c in others {
        assert!(!is_whitespace(c), "{:?}", c);
    }
}

#[test]
fn white_space_is_what_the_standard_library_calls_so() {
    for code in 0..0x11_0000u32 {
        if let Some(c) = char::from_u32(code) {
            assert_eq!(is_whitespace(c), c.is_whitespace(), "{:x}", code);
        }
    }
}

#[test]
fn comment_starts_at_the_first_pair_of_slashes() {
    assert_eq!(find_comment(&letters("")), 0);
    assert_eq!(find_comment(&letters("/")), 1);
    assert_eq!(find_comment(&letters("//")), 0);
    assert_eq!(find_comment(&letters("D=A")), 3);
    assert_eq!(find_comment(&letters("D=A//x")), 3);
    assert_eq!(find_comment(&letters("D=A // x // y")), 4);
    assert_eq!(find_comment(&letters("a/b/c")), 5);
    assert_eq!(find_comment(&letters("a/b//c")), 3);
    assert_eq!(find_comment(&letters("a///")), 1);
    assert_eq!(find_comment(&letters("abc/")), 4);
}

#[test]
fn trimming_finds_the_text_between_the_white_space() {
    let chars = letters("  D=A \t// x");
    assert_eq!(trim_bounds(&chars, 7), (2, 5));
    assert_eq!(trim_bounds(&chars, 5), (2, 5));
    assert_eq!(trim_bounds(&chars, 3), (2, 3));
    assert_eq!(trim_bounds(&chars, chars.len()), (2, chars.len()));
    let inner = letters("a b");
    assert_eq!(trim_bounds(&inner, 3), (0, 3));
}

#[test]
fn trimming_a_blank_text_leaves_nothing() {
    let chars = letters("   ");
    let (from, to) = trim_bounds(&chars, 3);
    assert_eq!(from, to);
    let (from, to) = trim_bounds(&chars, 0);
    assert_eq!((from, to), (0, 0));
    let (from, to) = trim_bounds(&Vec::new(), 0);
    assert_eq!((from, to), (0, 0));
}

#[test]
fn numeral_of_sixteen_bits() {
    let read = |text: &str| {
        let chars = letters(text);
        parse_u16(&chars, 0, chars.len())
    };
    assert_eq!(read("0"), Some(0));
    assert_eq!(read("9"), Some(9));
    assert_eq!(read("10"), Some(10));
    assert_eq!(read("12345"), Some(12345));
    assert_eq!(read("65535"), Some(65535));
    assert_eq!(read("065535"), Some(65535));
    assert_eq!(read("+42"), Some(42));
    assert_eq!(read("65536"), None);
    assert_eq!(read("65540"), None);
    assert_eq!(read("70000"), None);
    assert_eq!(read("655350"), None);
    assert_eq!(read("4294967296"), None);
    assert_eq!(read("18446744073709551616"), None);
    assert_eq!(read(""), None);
    assert_eq!(read("+"), None);
    assert_eq!(read("-1"), None);
    assert_eq!(read("-0"), None);
    assert_eq!(read("1a"), None);
    assert_eq!(read("a1"), None);
    assert_eq!(read(" 1"), None);
    assert_eq!(read("1 "), None);
    assert_eq!(read("1_000"), None);
    assert_eq!(read("0x10"), None);
    assert_eq!(read("\u{ff11}"), None);
}

#[test]
fn numeral_reads_as_the_standard_library_reads_it() {
    let texts = [
        "0", "1", "65535", "65536", "+7", "+", "", "-3", "00012", "99999", "12x", "+00065535",
        "+-1", " 5",
    ];
    for text in texts {
        let chars = letters(text);
        assert_eq!(parse_u16(&chars, 0, chars.len()), text.parse::<u16>().ok(), "{:?}", text);
    }
}

#[test]
fn numeral_within_a_longer_text() {
    let chars = letters("@123 // x");
    assert_eq!(parse_u16(&chars, 1, 4), Some(123));
    assert_eq!(parse_u16(&chars, 1, 3), Some(12));
    assert_eq!(parse_u16(&chars, 0, 4), None);
    assert_eq!(parse_u16(&chars, 2, 2), None);
}
