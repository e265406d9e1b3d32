use ontology::node::name::validate_word_case;
use ontology::node::name::AsciiString;
use ontology::node::name::Case;
use ontology::node::name::ParseError;
use ontology::node::Name;

fn ascii(s: &str) -> AsciiString {
    AsciiString::new(String::from(s)).unwrap()
}

#[test]
fn case_validation() {
    let (name, parts) = "Foo Bar BAZ".parse::<Name>().unwrap().into_parts();
    assert_eq!(name, "Foo Bar BAZ");
    assert_eq!(
        parts.into_iter().collect::<Vec<_>>(),
        vec![
            Case::Title(AsciiString::new(String::from("Foo")).unwrap()),
            Case::Title(AsciiString::new(String::from("Bar")).unwrap()),
            Case::Upper(AsciiString::new(String::from("BAZ")).unwrap()),
        ]
    );

    let err = "Foo Bèar BAZ".parse::<Name>().unwrap_err();
    assert_eq!(
        &err.to_string(),
        "some words include non-ASCII characters: Bèar"
    );

    let err = "foo, baR, and bAZ".parse::<Name>().unwrap_err();
    assert_eq!(
        &err.to_string(),
        "some words are incorrectly cased:

* found `foo` but expected `Foo` because the word is neither in the lowercase list nor is fully \
             uppercase
* found `baR` but expected `Bar` because the word is neither in the lowercase list nor is fully \
             uppercase
* found `bAZ` but expected `Baz` because the word is neither in the lowercase list nor is fully \
             uppercase"
    );
}

#[test]
fn special_cases() {
    let err = "Iamp21".parse::<Name>().unwrap_err();
    assert_eq!(
        err.to_string(),
        "some words are incorrectly cased:

* found `Iamp21` but expected `iAMP21` because the word is neither in the lowercase list nor is \
             fully uppercase"
    );

    let _ = "iAMP21".parse::<Name>().unwrap();
}

#[test]
fn lowercase_words_stay_lowercase() {
    for word in ["and", "like", "the", "of", "or", "with"] {
        let name = Name::parse(word).unwrap();
        assert_eq!(name.words(), &vec![Case::Lower(ascii(word))]);
    }
}

#[test]
fn capitalized_lowercase_words_are_rejected() {
    for (found, expected) in [
        ("And", "and"),
        ("Like", "like"),
        ("The", "the"),
        ("Of", "of"),
        ("Or", "or"),
        ("With", "with"),
        ("AND", "and"),
    ] {
        match Name::parse(found).unwrap_err() {
            ParseError::IncorrectlyCasedWords(errors) => {
                assert_eq!(errors.len(), 1);
                assert_eq!(errors[0].found(), found);
                assert_eq!(errors[0].expected(), expected);
                assert_eq!(errors[0].reason(), "the word is in the lowercase list");
            }
            other => panic!("unexpected error: {}", other.to_string()),
        }
    }
}

#[test]
fn uppercase_words_are_kept() {
    let name = Name::parse("BAZ").unwrap();
    assert_eq!(name.words(), &vec![Case::Upper(ascii("BAZ"))]);
    let name = Name::parse("PAX5 P80R").unwrap();
    assert_eq!(
        name.into_words(),
        vec![Case::Upper(ascii("PAX5")), Case::Upper(ascii("P80R"))]
    );
}

#[test]
fn incorrectly_cased_words_are_all_reported() {
    match "foo, baR, and bAZ".parse::<Name>().unwrap_err() {
        ParseError::IncorrectlyCasedWords(errors) => {
            let found: Vec<&str> = errors.iter().map(|e| e.found()).collect();
            assert_eq!(found, vec!["foo", "baR", "bAZ"]);
            let expected: Vec<&str> = errors.iter().map(|e| e.expected()).collect();
            assert_eq!(expected, vec!["Foo", "Bar", "Baz"]);
        }
        other => panic!("unexpected error: {}", other.to_string()),
    }
}

#[test]
fn non_ascii_words_are_all_reported() {
    match "Foo Bèar BAZ naïve".parse::<Name>().unwrap_err() {
        ParseError::NonAsciiWords(words) => {
            assert_eq!(words, vec![String::from("Bèar"), String::from("naïve")]);
        }
        other => panic!("unexpected error: {}", other.to_string()),
    }
}

#[test]
fn non_ascii_words_come_before_casing() {
    assert!(matches!(
        "foo Bèar".parse::<Name>().unwrap_err(),
        ParseError::NonAsciiWords(_)
    ));
}

#[test]
fn punctuation_is_stripped_and_whitespace_splits() {
    let name = Name::parse("  B-cell Acute;  Lymphoblastic\tLeukemia, PAX5 P80R ").unwrap();
    assert_eq!(
        name.inner(),
        "  B-cell Acute;  Lymphoblastic\tLeukemia, PAX5 P80R "
    );
    assert_eq!(
        name.into_words(),
        vec![
            Case::Title(ascii("B-cell")),
            Case::Title(ascii("Acute")),
            Case::Title(ascii("Lymphoblastic")),
            Case::Title(ascii("Leukemia")),
            Case::Upper(ascii("PAX5")),
            Case::Upper(ascii("P80R")),
        ]
    );
}

#[test]
fn words_split_at_unicode_whitespace() {
    let name = Name::parse("Foo\u{a0}Bar\u{3000}BAZ").unwrap();
    assert_eq!(name.words().len(), 3);
}

#[test]
fn empty_name_has_no_words() {
    let name = Name::parse("").unwrap();
    assert_eq!(name.inner(), "");
    assert!(name.words().is_empty());
    let name = Name::parse(" ,; ").unwrap();
    assert!(name.into_words().is_empty());
}

#[test]
fn names_are_equal_by_their_strings() {
    assert_eq!(Name::parse("Foo Bar").unwrap(), Name::parse("Foo Bar").unwrap());
    assert_ne!(Name::parse("Foo Bar").unwrap(), Name::parse("Foo  Bar").unwrap());
    let name = Name::parse("Foo Bar").unwrap();
    assert_eq!(name.clone(), name);
    assert_eq!(name.to_string(), "Foo Bar");
    assert_eq!(name.into_inner(), "Foo Bar");
}

#[test]
fn ascii_string_accepts_ascii_only() {
    assert!(AsciiString::new(String::from("Bèar")).is_none());
    assert_eq!(ascii("Bear").into_inner(), "Bear");
    assert_eq!(ascii("Bear").as_str(), "Bear");
}

#[test]
fn ascii_string_case_transforms() {
    assert_eq!(ascii("B-cell/T-CELL 21").to_lowercase().into_inner(), "b-cell/t-cell 21");
    assert_eq!(ascii("B-cell/t-cell 21").to_uppercase().into_inner(), "B-CELL/T-CELL 21");
    assert_eq!(ascii("b-cell/t-cell").to_title_case().into_inner(), "B-cell/T-cell");
    assert_eq!(ascii("FOO").to_title_case().into_inner(), "Foo");
    assert_eq!(ascii("").to_title_case().into_inner(), "");
}

#[test]
fn title_case_restores_irregular_terms() {
    assert_eq!(ascii("non-hodgkin").to_title_case().into_inner(), "Non-Hodgkin");
    assert_eq!(ascii("epstein-barr").to_title_case().into_inner(), "Epstein-Barr");
    assert_eq!(ascii("rosai-dorfman").to_title_case().into_inner(), "Rosai-Dorfman");
    assert_eq!(ascii("sertoli-leydig").to_title_case().into_inner(), "Sertoli-Leydig");
    assert_eq!(ascii("iamp21").to_title_case().into_inner(), "iAMP21");
    assert_eq!(ascii("hodgkin").to_title_case().into_inner(), "Hodgkin");
    assert_eq!(
        ascii("hodgkinhodgkin/barr").to_title_case().into_inner(),
        "HodgkinHodgkin/Barr"
    );
}

#[test]
fn word_case_is_validated() {
    assert_eq!(
        validate_word_case(ascii("of")).unwrap(),
        Case::Lower(ascii("of"))
    );
    assert_eq!(
        validate_word_case(ascii("KMT2A")).unwrap(),
        Case::Upper(ascii("KMT2A"))
    );
    assert_eq!(
        validate_word_case(ascii("B-cell/T-cell")).unwrap(),
        Case::Title(ascii("B-cell/T-cell"))
    );
    assert_eq!(
        validate_word_case(ascii("Non-Hodgkin")).unwrap(),
        Case::Title(ascii("Non-Hodgkin"))
    );
    let err = validate_word_case(ascii("Non-hodgkin")).unwrap_err();
    assert_eq!(err.found(), "Non-hodgkin");
    assert_eq!(err.expected(), "Non-Hodgkin");
    assert_eq!(
        err.reason(),
        "the word is neither in the lowercase list nor is fully uppercase"
    );
    assert_eq!(
        err.to_string(),
        "found `Non-hodgkin` but expected `Non-Hodgkin` because the word is neither in the \
         lowercase list nor is fully uppercase"
    );
    // A word without letters equals its uppercase form.
    assert_eq!(
        validate_word_case(ascii("21")).unwrap(),
        Case::Upper(ascii("21"))
    );
}

#[test]
fn case_gives_its_word() {
    assert_eq!(Case::Title(ascii("Foo")).into_inner(), ascii("Foo"));
    assert_eq!(Case::Upper(ascii("BAZ")).into_string(), "BAZ");
    assert_eq!(Case::Lower(ascii("of")).clone(), Case::Lower(ascii("of")));
}
