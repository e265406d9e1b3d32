use ontology::text::chars_of;
use ontology::text::is_whitespace;
use ontology::text::join_strings;
use ontology::text::replace;
use ontology::text::starts_at;
use ontology::text::to_lower_char;
use ontology::text::to_lowercase;
use ontology::text::to_upper_char;
use ontology::text::to_uppercase;

#[test]
fn ascii_case_mapping_of_characters() {
    for c in '\0'..='\u{ff}' {
        assert_eq!(to_lower_char(c), c.to_ascii_lowercase());
        assert_eq!(to_upper_char(c), c.to_ascii_uppercase());
    }
    assert_eq!(to_upper_char('è'), 'è');
}

#[test]
fn whitespace_is_unicode_white_space() {
    let mut c = '\0';
    loop {
        assert_eq!(is_whitespace(c), c.is_whitespace(), "{:?}", c);
        if c == char::MAX {
            break;
        }
        c = match char::from_u32(c as u32 + 1) {
            Some(next) => next,
            None => '\u{e000}',
        };
    }
}

#[test]
fn strings_change_case() {
    assert_eq!(to_lowercase("Foo BÈR 21"), "foo bÈr 21");
    assert_eq!(to_uppercase("Foo bèr 21"), "FOO BèR 21");
}

#[test]
fn characters_and_strings_convert() {
    let chars = chars_of("Bèar");
    assert_eq!(chars, vec!['B', 'è', 'a', 'r']);
}

#[test]
fn replace_finds_every_occurrence() {
    assert_eq!(replace("Non-hodgkin", "hodgkin", "Hodgkin"), "Non-Hodgkin");
    assert_eq!(replace("aaaa", "aa", "b"), "bb");
    assert_eq!(replace("aaa", "aa", "b"), "ba");
    assert_eq!(replace("abc", "", "x"), "abc");
    assert_eq!(replace("", "a", "x"), "");
    assert_eq!(replace("a,b;c", ",", ""), "ab;c");
    assert_eq!(replace("abcabc", "bc", "bcbc"), "abcbcabcbc");
}

#[test]
fn pattern_is_found_at_a_position() {
    let text = chars_of("abcabc");
    assert!(starts_at(&text, 3, &chars_of("abc")));
    assert!(!starts_at(&text, 4, &chars_of("abc")));
    assert!(starts_at(&text, 6, &chars_of("")));
    assert!(!starts_at(&text, 2, &chars_of("ca")) == false);
}

#[test]
fn strings_are_joined() {
    let parts = vec![String::from("a"), String::from("b"), String::from("c")];
    assert_eq!(join_strings(&parts, ", "), "a, b, c");
    assert_eq!(join_strings(&vec![String::from("a")], ", "), "a");
    assert_eq!(join_strings(&Vec::new(), ", "), "");
}

#[test]
fn replace_agrees_with_the_standard_library() {
    for (text, from, to) in [
        ("Non-hodgkin", "hodgkin", "Hodgkin"),
        ("aaaa", "aa", "b"),
        ("aaa", "aa", "b"),
        ("", "a", "x"),
        ("abcabc", "bc", "bcbc"),
        ("barrbarr", "barr", "Barr"),
        ("bèr bèr", "è", "e"),
        ("a,b;c", ";", ""),
    ] {
        assert_eq!(replace(text, from, to), text.replace(from, to));
    }
}

#[test]
fn case_agrees_with_the_standard_library() {
    for text in ["", "Foo BÈR 21", "B-cell/T-CELL", "straße", "ÀÉÎ"] {
        assert_eq!(to_lowercase(text), text.to_ascii_lowercase());
        assert_eq!(to_uppercase(text), text.to_ascii_uppercase());
    }
}
