//! Names of taxonomy nodes, and the rules of casing they follow.

use crate::text::{
    chars_of, is_space, is_whitespace, join, join_strings, lower, lower_char, replace,
    replace_all, strings, to_lower_char, to_lowercase, to_upper_char, to_uppercase, upper,
    upper_char,
};
use vstd::prelude::*;
use vstd::utf8::is_ascii_chars;

verus! {

/// `s` with the first character, and every character that follows a `/`, in
/// uppercase and all others in lowercase.
pub open spec fn capitalized(s: Seq<char>) -> Seq<char> {
    Seq::new(
        s.len(),
        |i: int|
            if i == 0 || s[i - 1] == '/' {
                upper_char(s[i])
            } else {
                lower_char(s[i])
            },
    )
}

/// `s` with the terms that keep a casing of their own put back in it.
pub open spec fn with_irregular_terms(s: Seq<char>) -> Seq<char> {
    let s = replace_all(s, "hodgkin"@, "Hodgkin"@);
    let s = replace_all(s, "barr"@, "Barr"@);
    let s = replace_all(s, "dorfman"@, "Dorfman"@);
    let s = replace_all(s, "leydig"@, "Leydig"@);
    replace_all(s, "Iamp21"@, "iAMP21"@)
}

/// The title-case form of a word.
pub open spec fn title_case(s: Seq<char>) -> Seq<char> {
    with_irregular_terms(capitalized(s))
}

/// Replacing an ASCII term by an ASCII term in ASCII text leaves ASCII text.
pub proof fn lemma_replace_all_ascii(s: Seq<char>, from: Seq<char>, to: Seq<char>)
    requires
        is_ascii_chars(s),
        is_ascii_chars(to),
    ensures
        is_ascii_chars(replace_all(s, from, to)),
    decreases s.len(),
{
    if s.len() == 0 {
    } else if from.len() > 0 && from.is_prefix_of(s) {
        lemma_replace_all_ascii(s.skip(from.len() as int), from, to);
    } else {
        lemma_replace_all_ascii(s.skip(1), from, to);
    }
}

/// A string that holds ASCII characters only.
#[derive(Debug)]
pub struct AsciiString(String);

impl View for AsciiString {
    type V = Seq<char>;

    closed spec fn view(&self) -> Seq<char> {
        self.0@
    }
}

impl Clone for AsciiString {
    fn clone(&self) -> (r: Self)
        ensures
            r == *self,
    {
        proof {
            use_type_invariant(self);
        }
        AsciiString(self.0.clone())
    }
}

impl PartialEq for AsciiString {
    fn eq(&self, other: &Self) -> (r: bool) {
        self.0 == other.0
    }
}

impl Eq for AsciiString {}

impl vstd::std_specs::cmp::PartialEqSpecImpl for AsciiString {
    open spec fn obeys_eq_spec() -> bool {
        true
    }

    open spec fn eq_spec(&self, other: &Self) -> bool {
        self@ == other@
    }
}

impl AsciiString {
    /// What holds of every ASCII string: it holds ASCII characters only.
    #[verifier::type_invariant]
    spec fn ascii_only(self) -> bool {
        is_ascii_chars(self.0@)
    }

    /// Wraps `value` if it holds ASCII characters only.
    pub fn new(value: String) -> (r: Option<Self>)
        ensures
            r is Some <==> is_ascii_chars(value@),
            r matches Some(a) ==> a@ == value@,
    {
        if value.is_ascii() {
            Some(Self(value))
        } else {
            None
        }
    }

    /// The string inside.
    pub fn into_inner(self) -> (s: String)
        ensures
            s@ == self@,
            is_ascii_chars(s@),
    {
        proof {
            use_type_invariant(&self);
        }
        self.0
    }

    /// The string inside, by reference.
    pub fn as_str(&self) -> (s: &str)
        ensures
            s@ == self@,
            is_ascii_chars(s@),
    {
        proof {
            use_type_invariant(self);
        }
        self.0.as_str()
    }

    /// The string in lowercase.
    pub fn to_lowercase(&self) -> (r: Self)
        ensures
            r@ == lower(self@),
    {
        proof {
            use_type_invariant(self);
        }
        Self(to_lowercase(self.0.as_str()))
    }

    /// The string in uppercase.
    pub fn to_uppercase(&self) -> (r: Self)
        ensures
            r@ == upper(self@),
    {
        proof {
            use_type_invariant(self);
        }
        Self(to_uppercase(self.0.as_str()))
    }

    /// The string in title case.
    pub fn to_title_case(&self) -> (r: Self)
        ensures
            r@ == title_case(self@),
    {
        proof {
            use_type_invariant(self);
        }
        let chars = chars_of(self.0.as_str());
        let mut result = String::new();
        let mut next_letter_uppercase = true;
        let mut i: usize = 0;
        while i < chars.len()
            invariant
                i <= chars.len(),
                chars@ == self@,
                result@ == capitalized(chars@).take(i as int),
                next_letter_uppercase == (i == 0 || chars@[i - 1] == '/'),
            decreases chars.len() - i,
        {
            let c = chars[i];
            if next_letter_uppercase {
                result.push(to_upper_char(c));
            } else {
                result.push(to_lower_char(c));
            }
            next_letter_uppercase = c == '/';
            i += 1;
            assert(capitalized(chars@).take(i as int) =~= capitalized(chars@).take(i - 1).push(
                capitalized(chars@)[i - 1],
            ));
        }
        assert(capitalized(chars@).take(i as int) =~= capitalized(chars@));
        proof {
            reveal_strlit("Hodgkin");
            reveal_strlit("Barr");
            reveal_strlit("Dorfman");
            reveal_strlit("Leydig");
            reveal_strlit("iAMP21");
            let s0 = capitalized(self@);
            let s1 = replace_all(s0, "hodgkin"@, "Hodgkin"@);
            let s2 = replace_all(s1, "barr"@, "Barr"@);
            let s3 = replace_all(s2, "dorfman"@, "Dorfman"@);
            let s4 = replace_all(s3, "leydig"@, "Leydig"@);
            lemma_replace_all_ascii(s0, "hodgkin"@, "Hodgkin"@);
            lemma_replace_all_ascii(s1, "barr"@, "Barr"@);
            lemma_replace_all_ascii(s2, "dorfman"@, "Dorfman"@);
            lemma_replace_all_ascii(s3, "leydig"@, "Leydig"@);
            lemma_replace_all_ascii(s4, "Iamp21"@, "iAMP21"@);
        }
        let result = replace(result.as_str(), "hodgkin", "Hodgkin");
        let result = replace(result.as_str(), "barr", "Barr");
        let result = replace(result.as_str(), "dorfman", "Dorfman");
        let result = replace(result.as_str(), "leydig", "Leydig");
        let result = replace(result.as_str(), "Iamp21", "iAMP21");
        Self(result)
    }
}

/// A word together with the casing it was found to follow.
pub enum CasedWord {
    Lower(Seq<char>),
    Title(Seq<char>),
    Upper(Seq<char>),
}

/// The case of a word.
#[derive(Debug, PartialEq, Eq)]
pub enum Case {
    /// A lowercase word.
    Lower(AsciiString),
    /// A title case word.
    Title(AsciiString),
    /// An uppercase word.
    Upper(AsciiString),
}

impl View for Case {
    type V = CasedWord;

    open spec fn view(&self) -> CasedWord {
        match self {
            Case::Lower(w) => CasedWord::Lower(w@),
            Case::Title(w) => CasedWord::Title(w@),
            Case::Upper(w) => CasedWord::Upper(w@),
        }
    }
}

impl Clone for Case {
    fn clone(&self) -> (r: Self)
        ensures
            r == *self,
    {
        match self {
            Case::Lower(w) => Case::Lower(w.clone()),
            Case::Title(w) => Case::Title(w.clone()),
            Case::Upper(w) => Case::Upper(w.clone()),
        }
    }
}

impl Case {
    /// The word, without its case.
    pub fn into_inner(self) -> (w: AsciiString)
        ensures
            self == Case::Lower(w) || self == Case::Title(w) || self == Case::Upper(w),
    {
        match self {
            Case::Lower(v) => v,
            Case::Title(v) => v,
            Case::Upper(v) => v,
        }
    }

    /// The word as a plain string.
    pub fn into_string(self) -> (s: String)
        ensures
            self@ == CasedWord::Lower(s@) || self@ == CasedWord::Title(s@) || self@
                == CasedWord::Upper(s@),
            is_ascii_chars(s@),
    {
        self.into_inner().into_inner()
    }
}

/// The views of the cased words of `v`, in order.
pub open spec fn cased_words(v: Seq<Case>) -> Seq<CasedWord> {
    v.map_values(|c: Case| c@)
}

/// Whether `w` is one of the words that are written in lowercase.
pub open spec fn is_lowercase_word(w: Seq<char>) -> bool {
    w == "and"@ || w == "like"@ || w == "the"@ || w == "of"@ || w == "or"@ || w == "with"@
}

/// A word whose casing breaks the rules: the word, the form that was
/// expected, and why.
pub struct CaseMismatch {
    pub found: Seq<char>,
    pub expected: Seq<char>,
    pub reason: Seq<char>,
}

/// The casing that the rules give to the word `w`, or the way in which `w`
/// breaks them.
pub open spec fn check_word(w: Seq<char>) -> Result<CasedWord, CaseMismatch> {
    if is_lowercase_word(lower(w)) {
        if lower(w) == w {
            Ok(CasedWord::Lower(w))
        } else {
            Err(
                CaseMismatch {
                    found: w,
                    expected: lower(w),
                    reason: "the word is in the lowercase list"@,
                },
            )
        }
    } else if upper(w) == w {
        Ok(CasedWord::Upper(w))
    } else if title_case(w) == w {
        Ok(CasedWord::Title(w))
    } else {
        Err(
            CaseMismatch {
                found: w,
                expected: title_case(w),
                reason: "the word is neither in the lowercase list nor is fully uppercase"@,
            },
        )
    }
}

/// An error that occurs when a word has an incorrect case.
#[derive(Debug)]
pub struct IncorrectCaseError {
    /// The word with the incorrect casing.
    found: String,
    /// The expected word.
    expected: String,
    /// The reason for this expectation.
    reason: String,
}

impl View for IncorrectCaseError {
    type V = CaseMismatch;

    closed spec fn view(&self) -> CaseMismatch {
        CaseMismatch { found: self.found@, expected: self.expected@, reason: self.reason@ }
    }
}

/// The text that reports a mismatch.
pub open spec fn mismatch_message(m: CaseMismatch) -> Seq<char> {
    "found `"@ + m.found + "` but expected `"@ + m.expected + "` because "@ + m.reason
}

impl IncorrectCaseError {
    /// The word with the incorrect casing.
    pub fn found(&self) -> (s: &str)
        ensures
            s@ == self@.found,
    {
        self.found.as_str()
    }

    /// The form that was expected.
    pub fn expected(&self) -> (s: &str)
        ensures
            s@ == self@.expected,
    {
        self.expected.as_str()
    }

    /// The reason for this expectation.
    pub fn reason(&self) -> (s: &str)
        ensures
            s@ == self@.reason,
    {
        self.reason.as_str()
    }

    /// The text that reports this error.
    pub fn to_string(&self) -> (s: String)
        ensures
            s@ == mismatch_message(self@),
    {
        let mut s = String::from_str("found `");
        s.append(self.found.as_str());
        s.append("` but expected `");
        s.append(self.expected.as_str());
        s.append("` because ");
        s.append(self.reason.as_str());
        s
    }
}

/// Whether `word` is one of the words that are written in lowercase.
fn in_lowercase_list(word: &String) -> (r: bool)
    ensures
        r == is_lowercase_word(word@),
{
    *word == String::from_str("and") || *word == String::from_str("like") || *word
        == String::from_str("the") || *word == String::from_str("of") || *word
        == String::from_str("or") || *word == String::from_str("with")
}

/// Validates the case of a word against the policy for names of nodes.
pub fn validate_word_case(input: AsciiString) -> (r: Result<Case, IncorrectCaseError>)
    ensures
        match r {
            Ok(c) => check_word(input@) == Ok::<CasedWord, CaseMismatch>(c@),
            Err(e) => check_word(input@) == Err::<CasedWord, CaseMismatch>(e@),
        },
{
    // Check if the word should be lowercased.
    let lowercased = input.to_lowercase();
    if in_lowercase_list(&lowercased.0) {
        if lowercased == input {
            return Ok(Case::Lower(input));
        } else {
            return Err(
                IncorrectCaseError {
                    found: input.into_inner(),
                    expected: lowercased.into_inner(),
                    reason: String::from_str("the word is in the lowercase list"),
                },
            );
        }
    }
    // Check if the word is uppercase (preserve if so).

    let uppercased = input.to_uppercase();
    if uppercased == input {
        return Ok(Case::Upper(input));
    }
    // Else, assume title case.

    let title_cased = input.to_title_case();
    if title_cased == input {
        Ok(Case::Title(input))
    } else {
        Err(
            IncorrectCaseError {
                found: input.into_inner(),
                expected: title_cased.into_inner(),
                reason: String::from_str(
                    "the word is neither in the lowercase list nor is fully uppercase",
                ),
            },
        )
    }
}

/// Whether `c` is punctuation that is taken out of a name before it is split.
pub open spec fn is_stripped(c: char) -> bool {
    c == ',' || c == ';'
}

/// `s` without its stripped punctuation.
pub open spec fn strip(s: Seq<char>) -> Seq<char> {
    s.filter(|c: char| !is_stripped(c))
}

/// Reading `s` from the left: the words that have ended, and the word that
/// is still open (empty if none is).
pub open spec fn scan(s: Seq<char>) -> (Seq<Seq<char>>, Seq<char>)
    decreases s.len(),
{
    if s.len() == 0 {
        (Seq::empty(), Seq::empty())
    } else {
        let (done, word) = scan(s.drop_last());
        if !is_space(s.last()) {
            (done, word.push(s.last()))
        } else if word.len() > 0 {
            (done.push(word), Seq::empty())
        } else {
            (done, word)
        }
    }
}

/// The maximal runs of characters of `s` that hold no whitespace, in order.
pub open spec fn split_whitespace(s: Seq<char>) -> Seq<Seq<char>> {
    let (done, word) = scan(s);
    if word.len() > 0 {
        done.push(word)
    } else {
        done
    }
}

/// The words of a raw name.
pub open spec fn tokens(raw: Seq<char>) -> Seq<Seq<char>> {
    split_whitespace(strip(raw))
}

/// The words of `words` that hold a character outside ASCII, in order.
pub open spec fn non_ascii_words(words: Seq<Seq<char>>) -> Seq<Seq<char>> {
    words.filter(|w: Seq<char>| !is_ascii_chars(w))
}

/// The ways in which the words of `words` break the rules of casing, in order.
pub open spec fn mismatches(words: Seq<Seq<char>>) -> Seq<CaseMismatch>
    decreases words.len(),
{
    if words.len() == 0 {
        Seq::empty()
    } else {
        match check_word(words.last()) {
            Ok(_) => mismatches(words.drop_last()),
            Err(m) => mismatches(words.drop_last()).push(m),
        }
    }
}

/// The words of `words` that follow the rules of casing, each with its casing, in order.
pub open spec fn well_cased(words: Seq<Seq<char>>) -> Seq<CasedWord>
    decreases words.len(),
{
    if words.len() == 0 {
        Seq::empty()
    } else {
        match check_word(words.last()) {
            Ok(c) => well_cased(words.drop_last()).push(c),
            Err(_) => well_cased(words.drop_last()),
        }
    }
}

/// Why a raw name is not a name.
pub enum ParseFailure {
    /// These words hold a character outside ASCII.
    NonAsciiWords(Seq<Seq<char>>),
    /// These words break the rules of casing.
    IncorrectlyCasedWords(Seq<CaseMismatch>),
}

/// The cased words of the raw name `raw`, or all of its words that are at fault.
pub open spec fn classify(raw: Seq<char>) -> Result<Seq<CasedWord>, ParseFailure> {
    let words = tokens(raw);
    if non_ascii_words(words).len() > 0 {
        Err(ParseFailure::NonAsciiWords(non_ascii_words(words)))
    } else if mismatches(words).len() > 0 {
        Err(ParseFailure::IncorrectlyCasedWords(mismatches(words)))
    } else {
        Ok(well_cased(words))
    }
}

/// The views of the errors of `v`, in order.
pub open spec fn mismatch_views(v: Seq<IncorrectCaseError>) -> Seq<CaseMismatch> {
    v.map_values(|e: IncorrectCaseError| e@)
}

/// An error when parsing a name.
#[derive(Debug)]
pub enum ParseError {
    /// One or more non-ASCII characters were included in the name.
    NonAsciiWords(Vec<String>),
    /// One or more words was incorrectly cased.
    IncorrectlyCasedWords(Vec<IncorrectCaseError>),
}

impl View for ParseError {
    type V = ParseFailure;

    open spec fn view(&self) -> ParseFailure {
        match self {
            ParseError::NonAsciiWords(words) => ParseFailure::NonAsciiWords(strings(words@)),
            ParseError::IncorrectlyCasedWords(words) => ParseFailure::IncorrectlyCasedWords(
                mismatch_views(words@),
            ),
        }
    }
}

/// The text that reports a failure.
pub open spec fn failure_message(f: ParseFailure) -> Seq<char> {
    match f {
        ParseFailure::NonAsciiWords(words) => "some words include non-ASCII characters: "@ + join(
            words,
            ", "@,
        ),
        ParseFailure::IncorrectlyCasedWords(words) => "some words are incorrectly cased:\n\n* "@
            + join(mismatch_messages(words), "\n* "@),
    }
}

/// The texts that report the mismatches of `ms`, in order.
pub open spec fn mismatch_messages(ms: Seq<CaseMismatch>) -> Seq<Seq<char>> {
    ms.map_values(|m: CaseMismatch| mismatch_message(m))
}

/// The texts that report the errors of `words`, in order.
fn issue_list(words: &Vec<IncorrectCaseError>) -> (issues: Vec<String>)
    ensures
        strings(issues@) == mismatch_messages(mismatch_views(words@)),
{
    let mut issues: Vec<String> = Vec::new();
    let mut i: usize = 0;
    while i < words.len()
        invariant
            i <= words.len(),
            strings(issues@) == mismatch_messages(mismatch_views(words@)).take(i as int),
        decreases words.len() - i,
    {
        let ghost before = strings(issues@);
        let issue = words[i].to_string();
        issues.push(issue);
        i += 1;
        assert(strings(issues@) =~= before.push(issue@));
        assert(mismatch_messages(mismatch_views(words@))[i - 1] == issue@);
        assert(strings(issues@) =~= mismatch_messages(mismatch_views(words@)).take(i as int));
    }
    assert(mismatch_messages(mismatch_views(words@)).take(i as int) =~= mismatch_messages(
        mismatch_views(words@),
    ));
    issues
}

impl ParseError {
    /// The text that reports this error.
    pub fn to_string(&self) -> (s: String)
        ensures
            s@ == failure_message(self@),
    {
        match self {
            ParseError::NonAsciiWords(words) => {
                let mut s = String::from_str("some words include non-ASCII characters: ");
                let list = join_strings(words, ", ");
                s.append(list.as_str());
                s
            },
            ParseError::IncorrectlyCasedWords(words) => {
                let issues = issue_list(words);
                let mut s = String::from_str("some words are incorrectly cased:\n\n* ");
                let list = join_strings(&issues, "\n* ");
                s.append(list.as_str());
                s
            },
        }
    }
}

/// Taking the stripped punctuation out of a sequence that grew by one character.
pub proof fn lemma_strip_push(s: Seq<char>, c: char)
    ensures
        strip(s.push(c)) == if is_stripped(c) {
            strip(s)
        } else {
            strip(s).push(c)
        },
{
    reveal(Seq::filter);
    assert(s.push(c).drop_last() =~= s);
}

/// Scanning a sequence that grew by one character.
pub proof fn lemma_scan_push(s: Seq<char>, c: char)
    ensures
        scan(s.push(c)) == if !is_space(c) {
            (scan(s).0, scan(s).1.push(c))
        } else if scan(s).1.len() > 0 {
            (scan(s).0.push(scan(s).1), Seq::<char>::empty())
        } else {
            scan(s)
        },
{
    assert(s.push(c).drop_last() =~= s);
}

/// The words of a raw name, as strings.
pub fn split_words(input: &str) -> (words: Vec<String>)
    ensures
        strings(words@) == tokens(input@),
{
    let mut done: Vec<String> = Vec::new();
    let mut word = String::new();
    assert(input@.take(0) =~= Seq::<char>::empty());
    assert(strings(done@) =~= scan(Seq::empty()).0);
    proof {
        reveal(Seq::filter);
    }
    for c in it: input.chars()
        invariant
            it.seq() == input@,
            strings(done@) == scan(strip(input@.take(it.index() as int))).0,
            word@ == scan(strip(input@.take(it.index() as int))).1,
    {
        proof {
            let before = input@.take(it.index() as int);
            assert(input@.take(it.index() + 1) =~= before.push(c));
            lemma_strip_push(before, c);
            lemma_scan_push(strip(before), c);
        }
        if c == ',' || c == ';' {
        } else if is_whitespace(c) {
            if !word.as_str().is_empty() {
                let ghost ended = strings(done@).push(word@);
                done.push(word);
                word = String::new();
                assert(strings(done@) =~= ended);
            }
        } else {
            word.push(c);
        }
    }
    assert(input@.take(input@.len() as int) =~= input@);
    if !word.as_str().is_empty() {
        let ghost ended = strings(done@).push(word@);
        done.push(word);
        assert(strings(done@) =~= ended);
    }
    done
}

/// The character sequences of the ASCII strings of `v`, in order.
pub open spec fn ascii_strings(v: Seq<AsciiString>) -> Seq<Seq<char>> {
    v.map_values(|a: AsciiString| a@)
}

/// Adding a word to the end of the words adds it to the non-ASCII words if
/// it is one of them.
pub proof fn lemma_non_ascii_words_push(words: Seq<Seq<char>>, w: Seq<char>)
    ensures
        non_ascii_words(words.push(w)) == if is_ascii_chars(w) {
            non_ascii_words(words)
        } else {
            non_ascii_words(words).push(w)
        },
{
    reveal(Seq::filter);
    assert(words.push(w).drop_last() =~= words);
}

/// Splits the words into those that hold a character outside ASCII and,
/// where there is none of these, all the words as ASCII strings.
fn partition_ascii(words: &Vec<String>) -> (r: (Vec<String>, Vec<AsciiString>))
    ensures
        strings(r.0@) == non_ascii_words(strings(words@)),
        r.0@.len() == 0 ==> ascii_strings(r.1@) == strings(words@),
{
    let mut invalid: Vec<String> = Vec::new();
    let mut ascii: Vec<AsciiString> = Vec::new();
    let mut i: usize = 0;
    proof {
        reveal(Seq::filter);
        assert(strings(words@).take(0) =~= Seq::empty());
        assert(strings(invalid@) =~= non_ascii_words(strings(words@).take(0)));
        assert(ascii_strings(ascii@) =~= strings(words@).take(0));
    }
    while i < words.len()
        invariant
            i <= words.len(),
            strings(invalid@) == non_ascii_words(strings(words@).take(i as int)),
            invalid@.len() == 0 ==> ascii_strings(ascii@) == strings(words@).take(i as int),
        decreases words.len() - i,
    {
        let ghost seen = strings(words@).take(i as int);
        let ghost invalid_before = strings(invalid@);
        let ghost ascii_before = ascii_strings(ascii@);
        proof {
            assert(strings(words@).take(i + 1) =~= seen.push(words@[i as int]@));
            lemma_non_ascii_words_push(seen, words@[i as int]@);
        }
        match AsciiString::new(words[i].clone()) {
            Some(word) => {
                ascii.push(word);
                assert(ascii_strings(ascii@) =~= ascii_before.push(word@));
            },
            None => {
                invalid.push(words[i].clone());
                assert(strings(invalid@) =~= invalid_before.push(words@[i as int]@));
            },
        }
        i += 1;
    }
    assert(strings(words@).take(i as int) =~= strings(words@));
    (invalid, ascii)
}

/// Checks the casing of each word: the words that pass with their casing,
/// and the errors of those that fail, each in order.
fn validate_words(words: &Vec<AsciiString>) -> (r: (Vec<Case>, Vec<IncorrectCaseError>))
    ensures
        cased_words(r.0@) == well_cased(ascii_strings(words@)),
        mismatch_views(r.1@) == mismatches(ascii_strings(words@)),
{
    let mut cased: Vec<Case> = Vec::new();
    let mut invalid: Vec<IncorrectCaseError> = Vec::new();
    let mut i: usize = 0;
    proof {
        assert(ascii_strings(words@).take(0) =~= Seq::empty());
        assert(cased_words(cased@) =~= well_cased(ascii_strings(words@).take(0)));
        assert(mismatch_views(invalid@) =~= mismatches(ascii_strings(words@).take(0)));
    }
    while i < words.len()
        invariant
            i <= words.len(),
            cased_words(cased@) == well_cased(ascii_strings(words@).take(i as int)),
            mismatch_views(invalid@) == mismatches(ascii_strings(words@).take(i as int)),
        decreases words.len() - i,
    {
        let ghost seen = ascii_strings(words@).take(i as int);
        let ghost cased_before = cased_words(cased@);
        let ghost invalid_before = mismatch_views(invalid@);
        proof {
            assert(ascii_strings(words@).take(i + 1) =~= seen.push(words@[i as int]@));
            assert(seen.push(words@[i as int]@).drop_last() =~= seen);
        }
        match validate_word_case(words[i].clone()) {
            Ok(word) => {
                cased.push(word);
                assert(cased_words(cased@) =~= cased_before.push(word@));
            },
            Err(error) => {
                invalid.push(error);
                assert(mismatch_views(invalid@) =~= invalid_before.push(error@));
            },
        }
        i += 1;
    }
    assert(ascii_strings(words@).take(i as int) =~= ascii_strings(words@));
    (cased, invalid)
}

/// A node name.
#[derive(Debug)]
pub struct Name {
    /// The inner value.
    inner: String,
    /// The cased words that comprise the name.
    words: Vec<Case>,
}

impl View for Name {
    type V = Seq<char>;

    closed spec fn view(&self) -> Seq<char> {
        self.inner@
    }
}

impl Name {
    /// What holds of every name: its cased words are those of its text.
    #[verifier::type_invariant]
    spec fn classified(self) -> bool {
        classify(self.inner@) == Ok::<Seq<CasedWord>, ParseFailure>(cased_words(self.words@))
    }

    /// The cased words of the name.
    pub closed spec fn cased(&self) -> Seq<CasedWord> {
        cased_words(self.words@)
    }

    /// Classifies the words of `input`: the name, if every word is ASCII
    /// and follows the rules of casing, else every word that is at fault.
    pub fn parse(input: &str) -> (r: Result<Name, ParseError>)
        ensures
            match r {
                Ok(name) => name@ == input@ && classify(input@) == Ok::<
                    Seq<CasedWord>,
                    ParseFailure,
                >(name.cased()),
                Err(e) => classify(input@) == Err::<Seq<CasedWord>, ParseFailure>(e@),
            },
    {
        let tokens = split_words(input);
        let (invalid, ascii_words) = partition_ascii(&tokens);
        if invalid.len() > 0 {
            return Err(ParseError::NonAsciiWords(invalid));
        }
        let (words, invalid) = validate_words(&ascii_words);
        if invalid.len() > 0 {
            return Err(ParseError::IncorrectlyCasedWords(invalid));
        }
        Ok(Name { inner: String::from_str(input), words })
    }

    /// Consumes `self` and gets the cased words of the name.
    pub fn into_words(self) -> (w: Vec<Case>)
        ensures
            cased_words(w@) == self.cased(),
            classify(self@) == Ok::<Seq<CasedWord>, ParseFailure>(self.cased()),
    {
        proof {
            use_type_invariant(&self);
        }
        self.words
    }

    /// Gets the cased words of the name by reference.
    pub fn words(&self) -> (w: &Vec<Case>)
        ensures
            cased_words(w@) == self.cased(),
            classify(self@) == Ok::<Seq<CasedWord>, ParseFailure>(self.cased()),
    {
        proof {
            use_type_invariant(self);
        }
        &self.words
    }

    /// Consumes `self` and gets the inner name.
    pub fn into_inner(self) -> (s: String)
        ensures
            s@ == self@,
    {
        self.inner
    }

    /// Gets the inner name by reference.
    pub fn inner(&self) -> (s: &str)
        ensures
            s@ == self@,
    {
        self.inner.as_str()
    }

    /// Consumes `self` and returns the constituent parts of the name.
    pub fn into_parts(self) -> (parts: (String, Vec<Case>))
        ensures
            parts.0@ == self@,
            cased_words(parts.1@) == self.cased(),
            classify(self@) == Ok::<Seq<CasedWord>, ParseFailure>(self.cased()),
    {
        proof {
            use_type_invariant(&self);
        }
        (self.inner, self.words)
    }

    /// The name as text.
    pub fn to_string(&self) -> (s: String)
        ensures
            s@ == self@,
    {
        self.inner.clone()
    }
}

/// A copy of the cased words of `words`.
fn clone_words(words: &Vec<Case>) -> (r: Vec<Case>)
    ensures
        cased_words(r@) == cased_words(words@),
{
    let mut r: Vec<Case> = Vec::new();
    let mut i: usize = 0;
    while i < words.len()
        invariant
            i <= words.len(),
            cased_words(r@) == cased_words(words@).take(i as int),
        decreases words.len() - i,
    {
        let ghost before = cased_words(r@);
        let word = words[i].clone();
        r.push(word);
        i += 1;
        assert(cased_words(r@) =~= before.push(word@));
        assert(cased_words(r@) =~= cased_words(words@).take(i as int));
    }
    assert(cased_words(words@).take(i as int) =~= cased_words(words@));
    r
}

impl Clone for Name {
    fn clone(&self) -> (r: Self)
        ensures
            r@ == self@,
            r.cased() == self.cased(),
    {
        proof {
            use_type_invariant(self);
        }
        Name { inner: self.inner.clone(), words: clone_words(&self.words) }
    }
}

impl PartialEq for Name {
    fn eq(&self, other: &Self) -> (r: bool) {
        self.inner == other.inner
    }
}

impl Eq for Name {}

impl vstd::std_specs::cmp::PartialEqSpecImpl for Name {
    open spec fn obeys_eq_spec() -> bool {
        true
    }

    open spec fn eq_spec(&self, other: &Self) -> bool {
        self@ == other@
    }
}

impl std::str::FromStr for Name {
    type Err = ParseError;

    fn from_str(input: &str) -> (r: Result<Self, Self::Err>)
        ensures
            match r {
                Ok(name) => name@ == input@ && classify(input@) == Ok::<
                    Seq<CasedWord>,
                    ParseFailure,
                >(name.cased()),
                Err(e) => classify(input@) == Err::<Seq<CasedWord>, ParseFailure>(e@),
            },
    {
        Name::parse(input)
    }
}

} // verus!
