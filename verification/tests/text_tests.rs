use atrus::digest::{content_hash, to_hex_lower};
use atrus::engine::to_camel_case;
use atrus::text::{
    chars_of, contains, decimal_string, is_whitespace, join_strings, remove_dots, split_text,
    text_eq, text_less, trim_text, Separator,
};

#[test]
fn decimal_string_writes_digits() {
    assert_eq!(decimal_string(0), "0");
    assert_eq!(decimal_string(7), "7");
    assert_eq!(decimal_string(10), "10");
    assert_eq!(decimal_string(1234567890), "1234567890");
    assert_eq!(decimal_string(u64::MAX as u128 * 20), (u64::MAX as u128 * 20).to_string());
}

#[test]
fn whitespace_matches_std_for_every_char() {
    for u in 0u32..=0x10FFFF {
        if let Some(c) = char::from_u32(u) {
            assert_eq!(is_whitespace(c), c.is_whitespace(), "char {:#x}", u);
        }
    }
}

#[test]
fn trim_matches_std() {
    for s in ["", "   ", " a ", "\t x y \n", "\u{3000}wide\u{2028}", "none"] {
        assert_eq!(trim_text(s), s.trim());
    }
}

#[test]
fn contains_finds_substrings() {
    assert!(contains("report.pdf", "port"));
    assert!(contains("abc", ""));
    assert!(!contains("abc", "abcd"));
    assert!(!contains("abc", "ac"));
    assert!(contains("ééa", "éa"));
}

#[test]
fn text_order_is_str_order() {
    let words = ["", "a", "ab", "b", "B", "é", "z", "aa"];
    for a in words {
        for b in words {
            assert_eq!(text_less(a, b), a < b, "{:?} < {:?}", a, b);
        }
    }
    assert!(text_eq("same", "same"));
    assert!(!text_eq("same", "Same"));
}

#[test]
fn split_keeps_empty_pieces() {
    let pieces: Vec<String> = split_text("a,,b,", Separator::Comma)
        .into_iter()
        .map(|w| w.into_iter().collect())
        .collect();
    assert_eq!(pieces, vec!["a", "", "b", ""]);
    let words: Vec<String> = split_text("my_file-name now", Separator::WordBreak)
        .into_iter()
        .map(|w| w.into_iter().collect())
        .collect();
    assert_eq!(words, vec!["my", "file", "name", "now"]);
    assert_eq!(split_text("", Separator::Comma).len(), 1);
}

#[test]
fn camel_case_examples() {
    assert_eq!(to_camel_case("hello_world"), "helloWorld");
    assert_eq!(to_camel_case("Hello World-foo"), "helloWorldFoo");
    assert_eq!(to_camel_case("_foo"), "Foo");
    assert_eq!(to_camel_case("a__b"), "aB");
    assert_eq!(to_camel_case("ALL CAPS"), "allCaps");
    assert_eq!(to_camel_case(""), "");
}

#[test]
fn dots_and_joining() {
    assert_eq!(remove_dots(".j.p.g"), "jpg");
    assert_eq!(join_strings(&vec!["a".to_string(), "b".to_string(), "c".to_string()], ", "), "a, b, c");
    assert_eq!(join_strings(&vec![], ", "), "");
    assert_eq!(chars_of("añb"), vec!['a', 'ñ', 'b']);
}

#[test]
fn content_hash_is_sha256_hex() {
    assert_eq!(
        content_hash(b""),
        "e3b0c44298fc1c149afbf4c8996fb92427ae41e4649b934ca495991b7852b855"
    );
    assert_eq!(
        content_hash(b"abc"),
        "ba7816bf8f01cfea414140de5dae2223b00361a396177a9cb410ff61f20015ad"
    );
    assert_eq!(to_hex_lower(&[0x00, 0x0f, 0xa0, 0xff]), "000fa0ff");
}
