use nonempty::NonEmpty;
use ontology::characteristic::Status;
use ontology::characteristic::Timestamp;
use ontology::common::value::kind::binary;
use ontology::common::value::kind::numerical;
use ontology::common::value::Kind;
use ontology::common::Common;
use ontology::common::OptionalCommon;
use ontology::common::Reference;
use ontology::field;
use ontology::rfc;
use ontology::rfc::valid_link;
use ontology::sentence;
use ontology::sentence::Sentence;
use ontology::Characteristic;
use ontology::Identifier;
use ontology::Link;
use regex::Regex;
use url::Url;

fn rfc_link() -> Link {
    "https://github.com/stjudecloud/ecc/issues/1"
        .parse::<Link>()
        .unwrap()
}

fn manuscript() -> Reference {
    Reference::Manuscript {
        title: String::from("The Discovery of Foo Bar"),
        authors: String::from("Jane Smith"),
        context: "Some context about the manuscript"
            .parse::<Sentence>()
            .unwrap(),
        url: String::from(
            "https://nature.org/the-discovery-of-foo-bar"
                .parse::<Url>()
                .unwrap(),
        ),
        highlighted: false,
    }
}

fn now() -> Timestamp {
    let now = chrono::Utc::now();
    Timestamp {
        seconds: now.timestamp(),
        nanoseconds: now.timestamp_subsec_nanos(),
    }
}

#[test]
fn features() {
    let identifier = "ECC-MORPH-000001".parse::<Identifier>().unwrap();

    let values = Kind::Binary {
        description: binary::Description {
            when_true: field::Description {
                summary: "Foo".parse::<Sentence>().unwrap(),
                details: "Bar".parse::<Sentence>().unwrap(),
            },
            when_false: field::Description {
                summary: "Baz".parse::<Sentence>().unwrap(),
                details: "Quux".parse::<Sentence>().unwrap(),
            },
        },
    };

    //=======//
    // Draft //
    //=======//

    let draft = Characteristic::Draft {
        common: OptionalCommon {
            name: Some(String::from("A Characteristic Name")),
            identifier: None,
            rfc: Some(rfc_link()),
            values: Some(values.clone()),
            description: Some(String::from("A description")),
            references: Some(NonEmpty::new(manuscript())),
        },
    };

    assert!(draft.identifier().is_none());
    assert_eq!(draft.name().unwrap(), "A Characteristic Name");
    assert_eq!(
        draft.rfc().unwrap().as_str(),
        "https://github.com/stjudecloud/ecc/issues/1"
    );
    assert_eq!(draft.description().unwrap(), "A description");
    assert_eq!(draft.values().unwrap(), &values);
    assert_eq!(draft.references().unwrap().into_iter().count(), 1);
    assert!(draft.adoption_date().is_none());

    //==========//
    // Proposed //
    //==========//

    let common = Common {
        name: String::from("A Characteristic Name"),
        identifier: identifier.clone(),
        rfc: rfc_link(),
        values: values.clone(),
        description: String::from("A description"),
        references: Some(NonEmpty::new(manuscript())),
    };

    let proposed = Characteristic::Proposed {
        common: common.clone(),
    };

    assert_eq!(proposed.identifier().unwrap(), &identifier);
    assert_eq!(draft.name().unwrap(), "A Characteristic Name");
    assert_eq!(
        proposed.rfc().unwrap().as_str(),
        "https://github.com/stjudecloud/ecc/issues/1"
    );
    assert_eq!(draft.description().unwrap(), "A description");
    assert_eq!(draft.values().unwrap(), &values);
    assert_eq!(draft.references().unwrap().into_iter().count(), 1);
    assert!(proposed.adoption_date().is_none());

    //=============//
    // Provisional //
    //=============//

    let provisional = Characteristic::Provisional {
        common: common.clone(),
    };

    assert_eq!(proposed.identifier().unwrap(), &identifier);
    assert_eq!(draft.name().unwrap(), "A Characteristic Name");
    assert_eq!(
        provisional.rfc().unwrap().as_str(),
        "https://github.com/stjudecloud/ecc/issues/1"
    );
    assert_eq!(draft.description().unwrap(), "A description");
    assert_eq!(draft.values().unwrap(), &values);
    assert_eq!(draft.references().unwrap().into_iter().count(), 1);
    assert!(provisional.adoption_date().is_none());

    //=========//
    // Adopted //
    //=========//

    let adopted = Characteristic::Adopted {
        common,
        adoption_date: now(),
    };

    assert_eq!(proposed.identifier().unwrap(), &identifier);
    assert_eq!(draft.name().unwrap(), "A Characteristic Name");
    assert_eq!(
        adopted.rfc().unwrap().as_str(),
        "https://github.com/stjudecloud/ecc/issues/1"
    );
    assert_eq!(draft.description().unwrap(), "A description");
    assert_eq!(draft.values().unwrap(), &values);
    assert_eq!(draft.references().unwrap().into_iter().count(), 1);
    assert!(adopted.adoption_date().is_some());
}

#[test]
fn getters_of_each_state() {
    let identifier = Identifier::molecular(7).unwrap();
    let values = Kind::Numerical {
        kind: numerical::Type::Unsigned,
        units: String::from("copies"),
    };
    let mut references = NonEmpty::new(manuscript());
    references.push(Reference::Preprint {
        title: String::from("An Early Look"),
        authors: String::from("John Doe"),
        context: "Some context".parse::<Sentence>().unwrap(),
        url: String::from("https://example.org/preprint"),
        highlighted: true,
    });
    let common = Common {
        name: String::from("Name"),
        identifier: identifier.clone(),
        rfc: rfc_link(),
        values: values.clone(),
        description: String::from("Text"),
        references: Some(references),
    };
    let date = Timestamp {
        seconds: 0,
        nanoseconds: 0,
    };
    let adopted = Characteristic::Adopted {
        common: common.clone(),
        adoption_date: date,
    };
    assert_eq!(adopted.identifier(), Some(&identifier));
    assert_eq!(adopted.name(), Some("Name"));
    assert_eq!(adopted.description(), Some("Text"));
    assert_eq!(adopted.values(), Some(&values));
    assert_eq!(adopted.rfc(), Some(&rfc_link()));
    assert_eq!(adopted.adoption_date(), Some(&date));
    let listed = adopted.references().unwrap();
    assert_eq!(listed.len(), 2);
    assert_eq!(listed[0], &manuscript());
    assert!(matches!(listed[1], Reference::Preprint { highlighted: true, .. }));

    let empty = Characteristic::Draft {
        common: OptionalCommon {
            name: None,
            identifier: None,
            rfc: None,
            values: None,
            description: None,
            references: None,
        },
    };
    assert!(empty.identifier().is_none());
    assert!(empty.name().is_none());
    assert!(empty.rfc().is_none());
    assert!(empty.values().is_none());
    assert!(empty.description().is_none());
    assert!(empty.references().is_none());
    assert!(empty.adoption_date().is_none());

    let without = Characteristic::Proposed {
        common: Common {
            references: None,
            ..common.clone()
        },
    };
    assert!(without.references().is_none());

    let complete = OptionalCommon {
        name: Some(String::from("Name")),
        identifier: Some(identifier),
        rfc: Some(rfc_link()),
        values: Some(values),
        description: Some(String::from("Text")),
        references: None,
    };
    assert_eq!(
        complete.into_common(),
        Common {
            references: None,
            ..common
        }
    );
}

#[test]
fn lib_identifier() {
    let char = Status::Proposed {
        rfc: String::from("https://github.com/stjudecloud/ecc/issues/1"),
    };
    assert!(char.identifier().is_none());

    let char = Status::Provisional {
        rfc: String::from("https://github.com/stjudecloud/ecc/issues/1"),
    };
    assert!(char.identifier().is_none());

    let identifier = "ECC-MORPH-000001".parse::<Identifier>().unwrap();
    let char = Status::Adopted {
        identifier: identifier.clone(),
        rfc: String::from("https://github.com/stjudecloud/ecc/issues/1"),
        date: now(),
    };
    assert_eq!(char.identifier(), Some(&identifier));
}

#[test]
fn status_identifier() {
    let url = String::from(
        "https://github.com/stjudecloud/ecc/issues/1"
            .parse::<Url>()
            .unwrap(),
    );
    let status = Status::Proposed { rfc: url.clone() };
    assert!(status.identifier().is_none());

    let status = Status::Provisional { rfc: url.clone() };
    assert!(status.identifier().is_none());

    let identifier = "ECC-MORPH-000001".parse::<Identifier>().unwrap();
    let status = Status::Adopted {
        identifier: identifier.clone(),
        rfc: url.clone(),
        date: now(),
    };
    assert_eq!(status.identifier(), Some(&identifier));
}

#[test]
fn categorical_options_occur_once() {
    let kind = Kind::categorical(vec![
        String::from("low"),
        String::from("high"),
        String::from("low"),
        String::from("mid"),
        String::from("high"),
    ]);
    assert_eq!(
        kind,
        Kind::Categorical {
            options: vec![
                String::from("low"),
                String::from("high"),
                String::from("mid")
            ]
        }
    );
    assert_eq!(
        Kind::categorical(Vec::new()),
        Kind::Categorical {
            options: Vec::new()
        }
    );
}

#[test]
fn rfc_display() {
    let link = "https://github.com/stjudecloud/ecc/issues/1"
        .parse::<Link>()
        .unwrap();

    assert_eq!(
        link.to_string(),
        "https://github.com/stjudecloud/ecc/issues/1"
    )
}

#[test]
fn bad_url() {
    let err = "/home/foo/bar".parse::<Link>().unwrap_err();
    assert!(matches!(err, rfc::ParseError::Url { .. }));
}

#[test]
fn invalid() {
    let err = "https://github.com/stjudecloud/ecc/issues/"
        .parse::<Link>()
        .unwrap_err();
    assert_eq!(
        err,
        rfc::ParseError::Invalid {
            value: String::from("https://github.com/stjudecloud/ecc/issues/")
        }
    );

    let err = "https://github.com/stjudecloud/another-repo/issues/1"
        .parse::<Link>()
        .unwrap_err();
    assert_eq!(
        err,
        rfc::ParseError::Invalid {
            value: String::from("https://github.com/stjudecloud/another-repo/issues/1")
        }
    );
}

#[test]
fn link_errors_are_reported() {
    let err = Link::parse("/home/foo/bar").unwrap_err();
    assert_eq!(
        err.to_string(),
        format!(
            "url parse error: `/home/foo/bar`; {}",
            "/home/foo/bar".parse::<Url>().unwrap_err()
        )
    );
    let err = Link::parse("https://github.com/stjudecloud/ecc/issues/").unwrap_err();
    assert_eq!(
        err.to_string(),
        "invalid link: `https://github.com/stjudecloud/ecc/issues/`; must point to a GitHub \
         issue on the `stjudecloud/ecc` repository"
    );
}

#[test]
fn link_holds_the_url_as_it_is_written_out() {
    // The URL is written out in its normal form, not as it was given.
    let link = Link::parse("HTTPS://GitHub.com/stjudecloud/ecc/issues/12#note").unwrap();
    assert_eq!(link.url(), "https://github.com/stjudecloud/ecc/issues/12#note");
    assert_eq!(link.clone().into_url(), link.as_str());
    assert_eq!(link.clone(), link);
    let given = Link::from_parsed(
        "given",
        Ok(String::from("https://github.com/stjudecloud/ecc/issues/3")),
    )
    .unwrap();
    assert_eq!(given.url(), "https://github.com/stjudecloud/ecc/issues/3");
    assert_eq!(
        Link::from_parsed("given", Err(String::from("reason"))).unwrap_err(),
        rfc::ParseError::Url {
            value: String::from("given"),
            error: String::from("reason")
        }
    );
}

#[test]
fn valid_links_are_those_that_the_pattern_finds() {
    let pattern = Regex::new("https://github.com/stjudecloud/ecc/issues/[0-9]+").unwrap();
    for text in [
        "",
        "https://github.com/stjudecloud/ecc/issues/1",
        "https://github.com/stjudecloud/ecc/issues/",
        "https://github.com/stjudecloud/ecc/issues/x1",
        "https://github.com/stjudecloud/ecc/issues/١",
        "https://github.com/stjudecloud/ecc/issues/9x",
        "see https://github.com/stjudecloud/ecc/issues/42 for more",
        "https://github.com/stjudecloud/ecc/issues/https://github.com/stjudecloud/ecc/issues/7",
        "https://github.com/stjudecloud/another-repo/issues/1",
        "http://github.com/stjudecloud/ecc/issues/1",
        "https://github.com/stjudecloud/ecc/issues",
        "https://github_com/stjudecloud/ecc/issues/1",
        "https://githubcom/stjudecloud/ecc/issues/1",
        "https://github\ncom/stjudecloud/ecc/issues/1",
        "https://github.com/stjudecloud/ecc/issues/\n1",
        "https://githubécom/stjudecloud/ecc/issues/5",
        "https://github.com/stjudecloud/ecc/issues/ 1",
        "ahttps://github.com/stjudecloud/ecc/issues/0",
        "https://github.com/stjudecloud/ecc/issues",
        "https://github.com/stjudecloud/ecc/issues/1/2",
        "https://github",
    ] {
        assert_eq!(valid_link(text), pattern.is_match(text), "{:?}", text);
    }
}

#[test]
fn empty() {
    let error = "".parse::<Sentence>().unwrap_err();
    assert_eq!(error, sentence::ParseError::Empty);

    let error = "   ".parse::<Sentence>().unwrap_err();
    assert_eq!(error, sentence::ParseError::Empty);
}

#[test]
fn sentences_are_kept_as_given() {
    let sentence = Sentence::parse("  A sentence. ").unwrap();
    assert_eq!(sentence.as_str(), "  A sentence. ");
    assert_eq!(sentence.clone(), sentence);
    assert_eq!(
        Sentence::parse("\u{a0}\t\u{3000}").unwrap_err(),
        sentence::ParseError::Empty
    );
    assert_eq!(
        sentence::ParseError::Empty.to_string(),
        "the sentence was empty"
    );
    assert_eq!(
        sentence::ParseError::Whitespace.to_string(),
        "the sentence had surrounding whitespace"
    );
    assert_eq!(
        sentence::ParseError::Capitalization(String::from("x")).to_string(),
        "the first letter in this sentence was not capitalized: x"
    );
}

#[test]
fn blank_sentences_are_those_that_trim_to_nothing() {
    for text in ["", " ", "\t\n", "\u{a0}", "\u{2003}\u{3000}", "a", " a ", "\u{200b}", "."] {
        assert_eq!(Sentence::parse(text).is_err(), text.trim().is_empty(), "{:?}", text);
    }
}
