//! Sentences.

use crate::text::is_space;
use crate::text::is_whitespace;
use vstd::prelude::*;

verus! {

/// Whether `s` holds nothing but whitespace.
pub open spec fn is_blank(s: Seq<char>) -> bool {
    forall|i: int| 0 <= i < s.len() ==> is_space(#[trigger] s[i])
}

/// A parse error related to a [`Sentence`].
#[derive(Debug, PartialEq, Eq)]
pub enum ParseError {
    /// The first letter was not capitalized.
    Capitalization(String),
    /// The sentence, with whitespace removed, is empty.
    Empty,
    /// The sentence had surrounding whitespace.
    Whitespace,
}

/// The text that reports an error.
pub open spec fn error_text(e: ParseError) -> Seq<char> {
    match e {
        ParseError::Capitalization(sentence) => {
            "the first letter in this sentence was not capitalized: "@ + sentence@
        },
        ParseError::Empty => "the sentence was empty"@,
        ParseError::Whitespace => "the sentence had surrounding whitespace"@,
    }
}

impl ParseError {
    /// The text that reports this error.
    pub fn to_string(&self) -> (s: String)
        ensures
            s@ == error_text(*self),
    {
        match self {
            ParseError::Capitalization(sentence) => {
                let mut s = String::from_str(
                    "the first letter in this sentence was not capitalized: ",
                );
                s.append(sentence.as_str());
                s
            },
            ParseError::Empty => String::from_str("the sentence was empty"),
            ParseError::Whitespace => String::from_str("the sentence had surrounding whitespace"),
        }
    }
}

/// A sentence: text that holds more than whitespace.
#[derive(Debug)]
pub struct Sentence(String);

impl View for Sentence {
    type V = Seq<char>;

    closed spec fn view(&self) -> Seq<char> {
        self.0@
    }
}

impl Clone for Sentence {
    fn clone(&self) -> (r: Self)
        ensures
            r == *self,
    {
        proof {
            use_type_invariant(self);
        }
        Sentence(self.0.clone())
    }
}

impl PartialEq for Sentence {
    fn eq(&self, other: &Self) -> (r: bool) {
        self.0 == other.0
    }
}

impl Eq for Sentence {}

impl vstd::std_specs::cmp::PartialEqSpecImpl for Sentence {
    open spec fn obeys_eq_spec() -> bool {
        true
    }

    open spec fn eq_spec(&self, other: &Self) -> bool {
        self@ == other@
    }
}

/// Whether `s` holds nothing but whitespace.
fn blank(s: &str) -> (r: bool)
    ensures
        r == is_blank(s@),
{
    for c in it: s.chars()
        invariant
            it.seq() == s@,
            is_blank(s@.take(it.index() as int)),
    {
        if !is_whitespace(c) {
            assert(s@[it.index() as int] == c);
            return false;
        }
        assert forall|i: int| 0 <= i < s@.take(it.index() + 1).len() implies is_space(
            #[trigger] s@.take(it.index() + 1)[i],
        ) by {
            if i < it.index() {
                assert(s@.take(it.index() as int)[i] == s@[i]);
            }
        }
    }
    assert(s@.take(s@.len() as int) =~= s@);
    true
}

impl Sentence {
    /// What holds of every sentence: it holds more than whitespace.
    #[verifier::type_invariant]
    spec fn not_blank(self) -> bool {
        !is_blank(self.0@)
    }

    /// The sentence that `s` is, unless it holds nothing but whitespace.
    pub fn parse(s: &str) -> (r: Result<Sentence, ParseError>)
        ensures
            match r {
                Ok(sentence) => !is_blank(s@) && sentence@ == s@,
                Err(e) => is_blank(s@) && e == ParseError::Empty,
            },
    {
        if blank(s) {
            return Err(ParseError::Empty);
        }
        Ok(Sentence(String::from_str(s)))
    }

    /// The text of the sentence.
    pub fn as_str(&self) -> (s: &str)
        ensures
            s@ == self@,
            !is_blank(s@),
    {
        proof {
            use_type_invariant(self);
        }
        self.0.as_str()
    }
}

impl std::str::FromStr for Sentence {
    type Err = ParseError;

    fn from_str(s: &str) -> (r: Result<Self, Self::Err>)
        ensures
            match r {
                Ok(sentence) => !is_blank(s@) && sentence@ == s@,
                Err(e) => is_blank(s@) && e == ParseError::Empty,
            },
    {
        Sentence::parse(s)
    }
}

} // verus!
