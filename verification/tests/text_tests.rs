use chat::channel::frame_snapshot;
use chat::json::{array, frame_array, quote, quote_all};
use chat::text::{argument_of, chars_of, decimal_text, is_whitespace, trim, verb_of};

#[test]
fn white_space_is_what_unicode_says() {
    for c in ['\t', '\n', '\u{b}', '\u{c}', '\r', ' ', '\u{85}', '\u{a0}', '\u{1680}', '\u{2000}',
        '\u{200a}', '\u{2028}', '\u{2029}', '\u{202f}', '\u{205f}', '\u{3000}']
    {
        assert!(is_whitespace(c));
    }
    for c in ['a', '#', '0', '\u{8}', '\u{e}', '\u{200b}', '\u{1f}', '\u{feff}'] {
        assert!(!is_whitespace(c));
    }
}

#[test]
fn white_space_agrees_with_std_on_every_char() {
    let mut n: u32 = 0;
    while n <= 0x10ffff {
        if let Some(c) = char::from_u32(n) {
            assert_eq!(is_whitespace(c), c.is_whitespace());
        }
        n += 1;
    }
}

#[test]
fn chars_of_keeps_the_characters() {
    assert_eq!(chars_of("a\u{e9}\u{1f600}"), vec!['a', '\u{e9}', '\u{1f600}']);
    assert_eq!(chars_of(""), Vec::<char>::new());
}

#[test]
fn trim_drops_both_ends() {
    assert_eq!(trim("  hello world \r\n"), "hello world");
    assert_eq!(trim("hello"), "hello");
    assert_eq!(trim(""), "");
    assert_eq!(trim(" \t "), "");
    assert_eq!(trim("\u{3000}\u{e9}t\u{e9}\u{a0}"), "\u{e9}t\u{e9}");
}

#[test]
fn trim_agrees_with_std() {
    for s in ["", " ", "a", " a", "a ", " a b ", "\ta\u{2003}b\n", "\u{85}x\u{85}"] {
        assert_eq!(trim(s), s.trim());
    }
}

#[test]
fn verb_is_the_first_word() {
    assert_eq!(verb_of("JOIN #dev"), "JOIN");
    assert_eq!(verb_of("JOIN"), "JOIN");
    assert_eq!(verb_of("JOIN\t#dev"), "JOIN");
    assert_eq!(verb_of("JOINT venture"), "JOINT");
    assert_eq!(verb_of(" JOIN #dev"), "");
    assert_eq!(verb_of(""), "");
}

#[test]
fn argument_is_the_trimmed_rest() {
    assert_eq!(argument_of("JOIN #dev"), "#dev");
    assert_eq!(argument_of("JOIN    #dev  "), "#dev");
    assert_eq!(argument_of("KICK bob"), "bob");
    assert_eq!(argument_of("KICK bob the builder"), "bob the builder");
    assert_eq!(argument_of("JOIN"), "");
    assert_eq!(argument_of(""), "");
}

#[test]
fn decimal_has_no_leading_zeros() {
    assert_eq!(decimal_text(0), "0");
    assert_eq!(decimal_text(5), "5");
    assert_eq!(decimal_text(10), "10");
    assert_eq!(decimal_text(1234567890), "1234567890");
    assert_eq!(decimal_text(usize::MAX), usize::MAX.to_string());
}

#[test]
fn quote_writes_a_json_string() {
    assert_eq!(quote("alice"), "\"alice\"");
    assert_eq!(quote(""), "\"\"");
    assert_eq!(quote("a\"b\\c"), "\"a\\\"b\\\\c\"");
    assert_eq!(quote("line\nbreak\ttab"), "\"line\\nbreak\\ttab\"");
    assert_eq!(quote("\u{1}"), "\"\\u0001\"");
    assert_eq!(quote("\u{e9}"), "\"\u{e9}\"");
}

#[test]
fn quote_reads_back() {
    for s in ["", "plain", "with \"quotes\"", "back\\slash", "\u{0}\u{1f}\u{7f}", "\u{1f600}"] {
        let back: String = serde_json::from_str(&quote(s)).unwrap();
        assert_eq!(back, s);
    }
}

#[test]
fn array_frames_the_strings() {
    assert_eq!(array(&vec![]), "[]");
    assert_eq!(array(&vec!["alice".to_string()]), "[\"alice\"]");
    assert_eq!(array(&vec!["alice".to_string(), "bob".to_string()]), "[\"alice\",\"bob\"]");
    assert_eq!(array(&vec!["a,b".to_string(), "\"".to_string()]), "[\"a,b\",\"\\\"\"]");
}

#[test]
fn array_is_what_serde_json_writes() {
    let names = vec!["alice".to_string(), "b\"ob".to_string(), "".to_string()];
    assert_eq!(array(&names), serde_json::to_string(&names).unwrap());
}

#[test]
fn quote_all_quotes_each() {
    assert_eq!(quote_all(&vec![]), Vec::<String>::new());
    assert_eq!(
        quote_all(&vec!["a".to_string(), "b\\".to_string()]),
        vec!["\"a\"".to_string(), "\"b\\\\\"".to_string()]
    );
}

#[test]
fn frame_array_puts_commas_between() {
    assert_eq!(frame_array(&vec![]), "[]");
    assert_eq!(frame_array(&vec!["1".to_string()]), "[1]");
    assert_eq!(
        frame_array(&vec!["1".to_string(), "true".to_string(), "\"x\"".to_string()]),
        "[1,true,\"x\"]"
    );
}

#[test]
fn frame_snapshot_names_the_fields() {
    assert_eq!(
        frame_snapshot("\"#dev\"", "\"t\"", "\"bob\"", 12, "[\"bob\"]"),
        "{\"name\":\"#dev\",\"topic\":\"t\",\"admin\":\"bob\",\"capacity\":12,\"users\":[\"bob\"]}"
    );
    assert_eq!(
        frame_snapshot("a", "b", "c", 0, "d"),
        "{\"name\":a,\"topic\":b,\"admin\":c,\"capacity\":0,\"users\":d}"
    );
}
