//! Request for comments.

use crate::identifier::is_digit;
use crate::text::chars_of;
use crate::text::starts_at;
use vstd::prelude::*;

verus! {

/// What the `url` crate makes of the text `s`: the text of the URL that it
/// reads from `s`, or the text of its error.
pub uninterp spec fn url_parse(s: Seq<char>) -> Result<Seq<char>, Seq<char>>;

/// `url::Url::parse`, with the URL handed out as its text (`String::from`)
/// and the error as its text (`to_string`).
#[verifier::external_body]
fn parse_url(s: &str) -> (r: Result<String, String>)
    ensures
        match r {
            Ok(text) => url_parse(s@) == Ok::<Seq<char>, Seq<char>>(text@),
            Err(error) => url_parse(s@) == Err::<Seq<char>, Seq<char>>(error@),
        },
{
    match url::Url::parse(s) {
        Ok(url) => Ok(String::from(url)),
        Err(error) => Err(error.to_string()),
    }
}

/// Whether `text` holds, somewhere, the address of the issues of the
/// repository followed by a digit.
pub open spec fn is_issue_link(text: Seq<char>) -> bool {
    exists|i: int| #[trigger] issue_link_at(text, i)
}

/// Whether the address of the issues of the repository stands in `text` at
/// `i` and a digit follows it. In the place of the dot of the address any
/// character but a line feed may stand.
pub open spec fn issue_link_at(text: Seq<char>, i: int) -> bool {
    let scheme_and_host = "https://github"@;
    let domain_and_path = "com/stjudecloud/ecc/issues/"@;
    let dot = i + scheme_and_host.len();
    let number = dot + 1 + domain_and_path.len();
    &&& 0 <= i
    &&& number < text.len()
    &&& scheme_and_host.is_prefix_of(text.skip(i))
    &&& text[dot] != '\n'
    &&& domain_and_path.is_prefix_of(text.skip(dot + 1))
    &&& is_digit(text[number])
}

/// Whether `text` is a link to an issue of the repository.
pub fn valid_link(text: &str) -> (r: bool)
    ensures
        r == is_issue_link(text@),
{
    let chars = chars_of(text);
    let scheme_and_host = chars_of("https://github");
    let domain_and_path = chars_of("com/stjudecloud/ecc/issues/");
    proof {
        reveal_strlit("https://github");
        reveal_strlit("com/stjudecloud/ecc/issues/");
    }
    let needed = scheme_and_host.len() + domain_and_path.len() + 1;
    let mut i: usize = 0;
    while i < chars.len()
        invariant
            i <= chars.len(),
            chars@ == text@,
            scheme_and_host@ == "https://github"@,
            domain_and_path@ == "com/stjudecloud/ecc/issues/"@,
            needed == scheme_and_host.len() + domain_and_path.len() + 1,
            forall|j: int| 0 <= j < i ==> !issue_link_at(text@, j),
        decreases chars.len() - i,
    {
        if needed < chars.len() - i && link_at(&chars, i, &scheme_and_host, &domain_and_path) {
            assert(issue_link_at(text@, i as int));
            return true;
        }
        i += 1;
    }
    assert forall|j: int| !issue_link_at(text@, j) by {
        if j >= chars.len() {
            assert(!issue_link_at(text@, j));
        }
    }
    false
}

/// Whether `first` stands in `text` at `i`, then a character that is no
/// line feed, then `second`, then a digit.
fn link_at(text: &Vec<char>, i: usize, first: &Vec<char>, second: &Vec<char>) -> (r: bool)
    requires
        first.len() + second.len() + 1 < text.len() - i,
        i <= text.len(),
    ensures
        r == {
            &&& first@.is_prefix_of(text@.skip(i as int))
            &&& text@[i + first.len()] != '\n'
            &&& second@.is_prefix_of(text@.skip(i + first.len() + 1))
            &&& is_digit(text@[i + first.len() + 1 + second.len()])
        },
{
    let dot = i + first.len();
    let number = dot + 1 + second.len();
    let c = text[number];
    starts_at(text, i, first) && text[dot] != '\n' && starts_at(text, dot + 1, second) && '0' <= c
        && c <= '9'
}

/// A parsing error for a link.
#[derive(Debug, PartialEq, Eq)]
pub enum ParseError {
    /// An invalid link.
    Invalid {
        /// The value that was attempted to be parsed.
        value: String,
    },
    /// A url parse error.
    Url {
        /// The value that was attempted to be parsed.
        value: String,
        /// The text of the parse error.
        error: String,
    },
}

/// The text that reports an error.
pub open spec fn error_text(e: ParseError) -> Seq<char> {
    match e {
        ParseError::Invalid { value } => {
            "invalid link: `"@ + value@
                + "`; must point to a GitHub issue on the `stjudecloud/ecc` repository"@
        },
        ParseError::Url { value, error } => "url parse error: `"@ + value@ + "`; "@ + error@,
    }
}

impl ParseError {
    /// The text that reports this error.
    pub fn to_string(&self) -> (s: String)
        ensures
            s@ == error_text(*self),
    {
        match self {
            ParseError::Invalid { value } => {
                let mut s = String::from_str("invalid link: `");
                s.append(value.as_str());
                s.append("`; must point to a GitHub issue on the `stjudecloud/ecc` repository");
                s
            },
            ParseError::Url { value, error } => {
                let mut s = String::from_str("url parse error: `");
                s.append(value.as_str());
                s.append("`; ");
                s.append(error.as_str());
                s
            },
        }
    }
}

/// A link to an RFC for a composable characteristic: the text of a URL
/// that is a link to an issue of the repository.
#[derive(Debug)]
pub struct Link(String);

impl View for Link {
    type V = Seq<char>;

    closed spec fn view(&self) -> Seq<char> {
        self.0@
    }
}

impl Clone for Link {
    fn clone(&self) -> (r: Self)
        ensures
            r == *self,
    {
        proof {
            use_type_invariant(self);
        }
        Link(self.0.clone())
    }
}

impl PartialEq for Link {
    fn eq(&self, other: &Self) -> (r: bool) {
        self.0 == other.0
    }
}

impl Eq for Link {}

impl vstd::std_specs::cmp::PartialEqSpecImpl for Link {
    open spec fn obeys_eq_spec() -> bool {
        true
    }

    open spec fn eq_spec(&self, other: &Self) -> bool {
        self@ == other@
    }
}

impl Link {
    /// What holds of every link: it is a link to an issue of the repository.
    #[verifier::type_invariant]
    spec fn valid(self) -> bool {
        is_issue_link(self.0@)
    }

    /// The link that the text `value` gives, where `parsed` is what was
    /// read from it as a URL: the URL, if it is a link to an issue of the
    /// repository.
    pub fn from_parsed(value: &str, parsed: Result<String, String>) -> (r: Result<
        Link,
        ParseError,
    >)
        ensures
            match (r, parsed) {
                (Ok(link), Ok(url)) => link@ == url@ && is_issue_link(url@),
                (Err(ParseError::Invalid { value: v }), Ok(url)) => v@ == value@ && !is_issue_link(
                    url@,
                ),
                (Err(ParseError::Url { value: v, error: e }), Err(error)) => v@ == value@ && e@
                    == error@,
                _ => false,
            },
    {
        match parsed {
            Err(error) => Err(ParseError::Url { value: String::from_str(value), error }),
            Ok(url) => {
                if valid_link(url.as_str()) {
                    Ok(Link(url))
                } else {
                    Err(ParseError::Invalid { value: String::from_str(value) })
                }
            },
        }
    }

    /// Reads a link from its text: the URL that the text spells, if it is
    /// a link to an issue of the repository.
    pub fn parse(s: &str) -> (r: Result<Link, ParseError>)
        ensures
            match r {
                Ok(link) => url_parse(s@) == Ok::<Seq<char>, Seq<char>>(link@) && is_issue_link(
                    link@,
                ),
                Err(ParseError::Invalid { value }) => value@ == s@ && url_parse(s@) is Ok
                    && !is_issue_link(url_parse(s@)->Ok_0),
                Err(ParseError::Url { value, error }) => value@ == s@ && url_parse(s@) == Err::<
                    Seq<char>,
                    Seq<char>,
                >(error@),
            },
    {
        let parsed = parse_url(s);
        Link::from_parsed(s, parsed)
    }

    /// The text of the URL.
    pub fn url(&self) -> (s: &str)
        ensures
            s@ == self@,
            is_issue_link(s@),
    {
        proof {
            use_type_invariant(self);
        }
        self.0.as_str()
    }

    /// The text of the URL.
    pub fn as_str(&self) -> (s: &str)
        ensures
            s@ == self@,
            is_issue_link(s@),
    {
        self.url()
    }

    /// Consumes `self` and returns the text of the URL.
    pub fn into_url(self) -> (s: String)
        ensures
            s@ == self@,
            is_issue_link(s@),
    {
        proof {
            use_type_invariant(&self);
        }
        self.0
    }

    /// The link as text.
    pub fn to_string(&self) -> (s: String)
        ensures
            s@ == self@,
    {
        self.0.clone()
    }
}

impl std::str::FromStr for Link {
    type Err = ParseError;

    fn from_str(s: &str) -> (r: Result<Self, Self::Err>)
        ensures
            match r {
                Ok(link) => url_parse(s@) == Ok::<Seq<char>, Seq<char>>(link@) && is_issue_link(
                    link@,
                ),
                Err(ParseError::Invalid { value }) => value@ == s@ && url_parse(s@) is Ok
                    && !is_issue_link(url_parse(s@)->Ok_0),
                Err(ParseError::Url { value, error }) => value@ == s@ && url_parse(s@) == Err::<
                    Seq<char>,
                    Seq<char>,
                >(error@),
            },
    {
        Link::parse(s)
    }
}

} // verus!
