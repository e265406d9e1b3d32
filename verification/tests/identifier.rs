use ontology::identifier::parse_number;
use ontology::identifier::split_char;
use ontology::identifier::Identifier;
use ontology::identifier::ParseError;

#[test]
fn morphological_zero_is_none() {
    assert!(Identifier::morphological(0).is_none());
}

#[test]
fn molecular_zero_is_none() {
    assert!(Identifier::molecular(0).is_none());
}

#[test]
fn identifier_display() {
    assert_eq!(
        Identifier::molecular(1).unwrap().to_string(),
        "ECC-MOLEC-000001"
    );
    assert_eq!(
        Identifier::morphological(1).unwrap().to_string(),
        "ECC-MORPH-000001"
    );
}

#[test]
fn parsing() {
    // Valid identifiers.
    "ECC-MORPH-000001".parse::<Identifier>().unwrap();
    "ECC-MOLEC-999999".parse::<Identifier>().unwrap();

    // An nnvalid number of parts.
    let result = "MORPH-000001".parse::<Identifier>().unwrap_err();
    assert_eq!(
        result.to_string().as_str(),
        "invalid number of parts separated by `-`: found `2` parts, expected `3` parts"
    );

    // An invalid prefix.
    let result = "ECV-MORPH-000001".parse::<Identifier>().unwrap_err();
    assert_eq!(
        result.to_string().as_str(),
        "invalid prefix: found `ECV`, expected `ECC`"
    );

    let result = "ecc-MORPH-000001".parse::<Identifier>().unwrap_err();
    assert_eq!(
        result.to_string().as_str(),
        "invalid prefix: found `ecc`, expected `ECC`"
    );

    // An unknown type.
    let result = "ECC-FOO-000001".parse::<Identifier>().unwrap_err();
    assert_eq!(result.to_string().as_str(), "unknown type: `FOO`");

    // Invalid number.
    let result = "ECC-MOLEC-abcdef".parse::<Identifier>().unwrap_err();
    assert_eq!(
        result.to_string().as_str(),
        "invalid number: found `abcdef`, invalid digit found in string"
    );

    let result = "ECC-MOLEC-000".parse::<Identifier>().unwrap_err();
    assert_eq!(
        result.to_string().as_str(),
        "invalid number: found `000`, the number in an identifier cannot be zero"
    );

    // Invalid number padding.
    //
    let result = "ECC-MOLEC-1".parse::<Identifier>().unwrap_err();
    assert_eq!(
        result.to_string().as_str(),
        "invalid number padding: found `1` but `000001` was expected"
    );
}

#[test]
fn identifiers_are_read_back() {
    for n in [1u64, 9, 10, 42, 99_999, 100_000, 999_999] {
        let id = Identifier::molecular(n).unwrap();
        assert_eq!(Identifier::parse(&id.to_string()).unwrap(), id);
        let id = Identifier::morphological(n).unwrap();
        assert_eq!(id.to_string().parse::<Identifier>().unwrap(), id);
    }
    assert_eq!(
        Identifier::parse("ECC-MOLEC-000042").unwrap(),
        Identifier::Molecular(42)
    );
    assert_eq!(
        Identifier::parse("ECC-MORPH-123456").unwrap(),
        Identifier::Morphological(123456)
    );
}

#[test]
fn long_numbers_are_not_padded() {
    assert_eq!(
        Identifier::molecular(1_234_567).unwrap().to_string(),
        "ECC-MOLEC-1234567"
    );
    assert_eq!(
        Identifier::morphological(u64::MAX).unwrap().to_string(),
        format!("ECC-MORPH-{}", u64::MAX)
    );
    let err = Identifier::parse("ECC-MOLEC-1234567").unwrap_err();
    assert_eq!(
        err.to_string(),
        "invalid number padding: found `1234567` but `1234567` was expected"
    );
}

#[test]
fn each_parse_error_is_reported() {
    assert!(matches!(
        Identifier::parse("").unwrap_err(),
        ParseError::IncorrectNumberOfParts { found: 1, expected: 3 }
    ));
    assert!(matches!(
        Identifier::parse("ECC-MOLEC-000001-").unwrap_err(),
        ParseError::IncorrectNumberOfParts { found: 4, expected: 3 }
    ));
    assert!(matches!(
        Identifier::parse("-MOLEC-000001").unwrap_err(),
        ParseError::InvalidPrefix { found } if found.is_empty()
    ));
    assert!(matches!(
        Identifier::parse("ECC-molec-000001").unwrap_err(),
        ParseError::UnknownType(name) if name == "molec"
    ));
    assert_eq!(
        Identifier::parse("ECC-MOLEC-").unwrap_err().to_string(),
        "invalid number: found ``, cannot parse integer from empty string"
    );
    assert_eq!(
        Identifier::parse("ECC-MOLEC-99999999999999999999")
            .unwrap_err()
            .to_string(),
        "invalid number: found `99999999999999999999`, number too large to fit in target type"
    );
    // The number comes before the padding, and both before the type.
    assert!(matches!(
        Identifier::parse("ECC-FOO-1").unwrap_err(),
        ParseError::InvalidNumberPadding { .. }
    ));
    assert!(matches!(
        Identifier::parse("ECC-FOO-x").unwrap_err(),
        ParseError::InvalidNumber { .. }
    ));
}

#[test]
fn a_sign_may_stand_before_the_digits() {
    assert_eq!(
        Identifier::parse("ECC-MOLEC-+00001").unwrap(),
        Identifier::Molecular(1)
    );
    assert!(Identifier::parse("ECC-MOLEC-+").is_err());
}

#[test]
fn numbers_are_parsed_as_the_standard_library_does() {
    for text in [
        "", "+", "-", "0", "7", "+7", "-7", "007", "12a", "a12", " 12", "12 ", "1_000",
        "18446744073709551615", "18446744073709551616", "184467440737095516150",
        "99999999999999999999x", "x99999999999999999999", "++1", "٣",
    ] {
        match (parse_number(text), text.parse::<u64>()) {
            (Ok(ours), Ok(theirs)) => assert_eq!(ours, theirs, "{:?}", text),
            (Err(ours), Err(theirs)) => assert_eq!(ours, theirs.to_string(), "{:?}", text),
            (ours, theirs) => panic!("{:?}: {:?} against {:?}", text, ours, theirs),
        }
    }
}

#[test]
fn text_is_split_at_each_separator() {
    assert_eq!(split_char("ECC-MOLEC-000001", '-'), vec!["ECC", "MOLEC", "000001"]);
    assert_eq!(split_char("", '-'), vec![""]);
    assert_eq!(split_char("-", '-'), vec!["", ""]);
    assert_eq!(split_char("a--b-", '-'), vec!["a", "", "b", ""]);
}

#[test]
fn numbers_are_padded_as_the_standard_library_pads() {
    for n in [1u64, 12, 123, 1234, 12345, 123456, 1234567, 100000, 999999, 1000000, u64::MAX] {
        assert_eq!(
            Identifier::molecular(n).unwrap().to_string(),
            format!("ECC-MOLEC-{:06}", n)
        );
    }
    for text in ["1", "12345", "123456", "1234567", "+1", "+12345"] {
        match Identifier::parse(&format!("ECC-MOLEC-{}", text)) {
            Err(ParseError::InvalidNumberPadding { found, expected }) => {
                assert_eq!(found, text);
                assert_eq!(expected, format!("{:0>6}", text));
            }
            Ok(_) => assert_eq!(text.chars().count(), 6),
            Err(other) => panic!("unexpected error: {}", other.to_string()),
        }
    }
}
