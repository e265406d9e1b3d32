//! Identifiers of characteristics: `ECC-MOLEC-000001`, `ECC-MORPH-000001`.

use crate::text::chars_of;
use crate::text::strings;
use vstd::prelude::*;

verus! {

/// Whether `c` is a decimal digit.
pub open spec fn is_digit(c: char) -> bool {
    '0' <= c && c <= '9'
}

/// The decimal digit for `d`.
pub open spec fn digit_char(d: int) -> char {
    (('0' as u8) + d) as char
}

/// Why a text is not the decimal form of a number that fits in 64 bits.
pub enum NumberFault {
    /// The text is empty.
    Empty,
    /// A character is no digit, or no digit follows the sign.
    InvalidDigit,
    /// The number is too large.
    TooLarge,
}

/// The number that the first `k` characters of `digits` spell, read from
/// the left; the first character at fault decides the failure.
pub open spec fn number_upto(digits: Seq<char>, k: int) -> Result<int, NumberFault>
    decreases k,
{
    if k <= 0 {
        Ok(0)
    } else {
        match number_upto(digits, k - 1) {
            Err(fault) => Err(fault),
            Ok(n) => if !is_digit(digits[k - 1]) {
                Err(NumberFault::InvalidDigit)
            } else if n * 10 + (digits[k - 1] as int - '0' as int) > u64::MAX {
                Err(NumberFault::TooLarge)
            } else {
                Ok(n * 10 + (digits[k - 1] as int - '0' as int))
            },
        }
    }
}

/// The number that `s` spells: decimal digits, with `+` in front of them
/// or not.
pub open spec fn number_of(s: Seq<char>) -> Result<int, NumberFault> {
    if s.len() == 0 {
        Err(NumberFault::Empty)
    } else if s.len() == 1 && (s[0] == '+' || s[0] == '-') {
        Err(NumberFault::InvalidDigit)
    } else if s[0] == '+' {
        number_upto(s.skip(1), s.len() - 1)
    } else {
        number_upto(s, s.len() as int)
    }
}

/// The text that reports a fault.
pub open spec fn fault_message(fault: NumberFault) -> Seq<char> {
    match fault {
        NumberFault::Empty => "cannot parse integer from empty string"@,
        NumberFault::InvalidDigit => "invalid digit found in string"@,
        NumberFault::TooLarge => "number too large to fit in target type"@,
    }
}

/// A failure among the first characters is the failure of the text.
pub proof fn lemma_number_upto_failure(digits: Seq<char>, k: int, m: int)
    requires
        k <= m,
        number_upto(digits, k) is Err,
    ensures
        number_upto(digits, m) == number_upto(digits, k),
    decreases m - k,
{
    if k < m {
        lemma_number_upto_failure(digits, k, m - 1);
    }
}

/// The number that the characters of `digits` from `from` on spell.
fn parse_digits(digits: &Vec<char>, from: usize) -> (r: Result<u64, String>)
    requires
        from <= digits.len(),
    ensures
        match r {
            Ok(n) => number_upto(digits@.skip(from as int), digits.len() - from) == Ok::<
                int,
                NumberFault,
            >(n as int),
            Err(reason) => {
                &&& number_upto(digits@.skip(from as int), digits.len() - from) is Err
                &&& reason@ == fault_message(
                    number_upto(digits@.skip(from as int), digits.len() - from)->Err_0,
                )
            },
        },
{
    let ghost text = digits@.skip(from as int);
    let mut n: u64 = 0;
    let mut i: usize = from;
    while i < digits.len()
        invariant
            from <= i <= digits.len(),
            text == digits@.skip(from as int),
            number_upto(text, i - from) == Ok::<int, NumberFault>(n as int),
        decreases digits.len() - i,
    {
        let c = digits[i];
        assert(text[i - from] == c);
        if !('0' <= c && c <= '9') {
            proof {
                lemma_number_upto_failure(text, i - from + 1, digits.len() - from);
            }
            return Err(String::from_str("invalid digit found in string"));
        }
        let d: u64 = ((c as u8) - ('0' as u8)) as u64;
        if n > (u64::MAX - d) / 10 {
            proof {
                lemma_number_upto_failure(text, i - from + 1, digits.len() - from);
            }
            return Err(String::from_str("number too large to fit in target type"));
        }
        n = n * 10 + d;
        i += 1;
    }
    Ok(n)
}

/// The number that `s` spells, or the text that says why it spells none.
pub fn parse_number(s: &str) -> (r: Result<u64, String>)
    ensures
        match r {
            Ok(n) => number_of(s@) == Ok::<int, NumberFault>(n as int),
            Err(reason) => number_of(s@) is Err && reason@ == fault_message(
                number_of(s@)->Err_0,
            ),
        },
{
    let digits = chars_of(s);
    if digits.len() == 0 {
        return Err(String::from_str("cannot parse integer from empty string"));
    }
    if digits.len() == 1 && (digits[0] == '+' || digits[0] == '-') {
        return Err(String::from_str("invalid digit found in string"));
    }
    if digits[0] == '+' {
        parse_digits(&digits, 1)
    } else {
        assert(digits@.skip(0) =~= digits@);
        parse_digits(&digits, 0)
    }
}

/// Reading `s` from the left: the parts that a separator has ended, and
/// the part that is still open.
pub open spec fn split_scan(s: Seq<char>, sep: char) -> (Seq<Seq<char>>, Seq<char>)
    decreases s.len(),
{
    if s.len() == 0 {
        (Seq::empty(), Seq::empty())
    } else {
        let (done, part) = split_scan(s.drop_last(), sep);
        if s.last() == sep {
            (done.push(part), Seq::empty())
        } else {
            (done, part.push(s.last()))
        }
    }
}

/// The parts of `s` between the occurrences of `sep`: one more than there
/// are occurrences.
pub open spec fn split(s: Seq<char>, sep: char) -> Seq<Seq<char>> {
    split_scan(s, sep).0.push(split_scan(s, sep).1)
}

/// The parts of `s` between the occurrences of `sep`.
pub fn split_char(s: &str, sep: char) -> (parts: Vec<String>)
    ensures
        strings(parts@) == split(s@, sep),
{
    let mut done: Vec<String> = Vec::new();
    let mut part = String::new();
    assert(s@.take(0) =~= Seq::<char>::empty());
    assert(strings(done@) =~= split_scan(s@.take(0), sep).0);
    for c in it: s.chars()
        invariant
            it.seq() == s@,
            strings(done@) == split_scan(s@.take(it.index() as int), sep).0,
            part@ == split_scan(s@.take(it.index() as int), sep).1,
    {
        proof {
            let before = s@.take(it.index() as int);
            assert(s@.take(it.index() + 1) =~= before.push(c));
            assert(before.push(c).drop_last() =~= before);
        }
        if c == sep {
            let ghost ended = strings(done@).push(part@);
            done.push(part);
            part = String::new();
            assert(strings(done@) =~= ended);
        } else {
            part.push(c);
        }
    }
    assert(s@.take(s@.len() as int) =~= s@);
    let ghost ended = strings(done@).push(part@);
    done.push(part);
    assert(strings(done@) =~= ended);
    done
}

/// The decimal digits of `n`, the most significant first.
pub open spec fn digits_of(n: nat) -> Seq<char>
    decreases n,
{
    if n < 10 {
        seq![digit_char(n as int)]
    } else {
        digits_of(n / 10).push(digit_char((n % 10) as int))
    }
}

/// `s` with as many `0` in front of it as it lacks characters to `width`.
pub open spec fn padded(s: Seq<char>, width: nat) -> Seq<char> {
    if s.len() >= width {
        s
    } else {
        Seq::new((width - s.len()) as nat, |i: int| '0') + s
    }
}

/// The decimal digits of `n`, the least significant first.
fn digits_reversed(n: u64) -> (rev: Vec<char>)
    ensures
        rev@.reverse() == digits_of(n as nat),
{
    let mut rev: Vec<char> = Vec::new();
    let mut m = n;
    assert(digits_of(m as nat) + rev@.reverse() =~= digits_of(n as nat));
    while m >= 10
        invariant
            digits_of(m as nat) + rev@.reverse() == digits_of(n as nat),
        decreases m,
    {
        let ghost tail = rev@.reverse();
        let d = ((m % 10) as u8 + ('0' as u8)) as char;
        rev.push(d);
        m = m / 10;
        assert(rev@.reverse() =~= seq![d] + tail);
        assert(digits_of(m as nat) + rev@.reverse() =~= digits_of(n as nat));
    }
    let ghost tail = rev@.reverse();
    let d = ((m as u8) + ('0' as u8)) as char;
    rev.push(d);
    assert(rev@.reverse() =~= seq![d] + tail);
    assert(rev@.reverse() =~= digits_of(n as nat));
    rev
}

/// `padded(digits_of(n), width)` added to the end of `out`.
fn append_number(out: &mut String, n: u64, width: usize)
    ensures
        final(out)@ == old(out)@ + padded(digits_of(n as nat), width as nat),
{
    let rev = digits_reversed(n);
    let ghost start = out@;
    let ghost digits = rev@.reverse();
    let mut k: usize = rev.len();
    while k < width
        invariant
            rev.len() <= k,
            k <= width || k == rev.len(),
            out@ == start + Seq::new((k - rev.len()) as nat, |i: int| '0'),
        decreases width - k,
    {
        out.push('0');
        k += 1;
        assert(out@ =~= start + Seq::new((k - rev.len()) as nat, |i: int| '0'));
    }
    let ghost front = out@;
    assert(front + digits =~= start + padded(digits, width as nat));
    let mut i: usize = rev.len();
    while i > 0
        invariant
            i <= rev.len(),
            digits == rev@.reverse(),
            out@ == front + digits.take(rev.len() - i),
        decreases i,
    {
        i -= 1;
        out.push(rev[i]);
        assert(out@ =~= front + digits.take(rev.len() - i));
    }
    assert(digits.take(rev.len() as int) =~= digits);
}

/// `padded(s, width)` as a string.
fn pad_text(s: &str, width: usize) -> (r: String)
    ensures
        r@ == padded(s@, width as nat),
{
    let n = s.unicode_len();
    let mut r = String::new();
    let mut k: usize = n;
    while k < width
        invariant
            n <= k,
            k <= width || k == n,
            n == s@.len(),
            r@ == Seq::new((k - n) as nat, |i: int| '0'),
        decreases width - k,
    {
        r.push('0');
        k += 1;
        assert(r@ =~= Seq::new((k - n) as nat, |i: int| '0'));
    }
    let ghost front = r@;
    r.append(s);
    assert(r@ =~= padded(s@, width as nat));
    r
}

/// A composable characteristic identifier. Its number is not zero.
#[derive(Clone, Debug, PartialEq, Eq, Structural)]
pub enum Identifier {
    /// A numbered molecular characteristic.
    Molecular(u64),
    /// A numbered morphological characteristic.
    Morphological(u64),
}

/// The text of an identifier: the prefix, the type, and the number in at
/// least six digits.
pub open spec fn identifier_text(id: Identifier) -> Seq<char> {
    match id {
        Identifier::Molecular(n) => "ECC-MOLEC-"@ + padded(digits_of(n as nat), 6),
        Identifier::Morphological(n) => "ECC-MORPH-"@ + padded(digits_of(n as nat), 6),
    }
}

impl Identifier {
    /// The number of the identifier.
    pub open spec fn number(self) -> nat {
        match self {
            Identifier::Molecular(n) => n as nat,
            Identifier::Morphological(n) => n as nat,
        }
    }

    /// What holds of every identifier: its number is not zero.
    pub open spec fn wf(self) -> bool {
        self.number() != 0
    }

    /// Creates a molecular identifier.
    ///
    /// If `n` is 0, [`None`] is returned, as identifiers start at 1.
    pub fn molecular(n: u64) -> (r: Option<Self>)
        ensures
            r == if n == 0 {
                None
            } else {
                Some(Identifier::Molecular(n))
            },
    {
        if n == 0 {
            return None;
        }
        Some(Self::Molecular(n))
    }

    /// Creates a morphological identifier.
    ///
    /// If `n` is 0, [`None`] is returned, as identifiers start at 1.
    pub fn morphological(n: u64) -> (r: Option<Self>)
        ensures
            r == if n == 0 {
                None
            } else {
                Some(Identifier::Morphological(n))
            },
    {
        if n == 0 {
            return None;
        }
        Some(Self::Morphological(n))
    }

    /// The text of the identifier.
    pub fn to_string(&self) -> (s: String)
        ensures
            s@ == identifier_text(*self),
    {
        match self {
            Identifier::Molecular(n) => {
                let mut s = String::from_str("ECC-MOLEC-");
                append_number(&mut s, *n, 6);
                s
            },
            Identifier::Morphological(n) => {
                let mut s = String::from_str("ECC-MORPH-");
                append_number(&mut s, *n, 6);
                s
            },
        }
    }
}

/// Why a text is no identifier.
pub enum IdentifierFailure {
    /// The text has not three parts between its `-`.
    IncorrectNumberOfParts { found: nat, expected: nat },
    /// The first part is not the prefix.
    InvalidPrefix { found: Seq<char> },
    /// The second part names no type.
    UnknownType(Seq<char>),
    /// The third part is no number, or zero.
    InvalidNumber { found: Seq<char>, reason: Seq<char> },
    /// The third part has not six characters.
    InvalidNumberPadding { found: Seq<char>, expected: Seq<char> },
}

/// The identifier that `s` spells, or the first reason why it spells none.
pub open spec fn identifier_of(s: Seq<char>) -> Result<Identifier, IdentifierFailure> {
    let parts = split(s, '-');
    if parts.len() != 3 {
        Err(IdentifierFailure::IncorrectNumberOfParts { found: parts.len(), expected: 3 })
    } else if parts[0] != "ECC"@ {
        Err(IdentifierFailure::InvalidPrefix { found: parts[0] })
    } else {
        match number_of(parts[2]) {
            Err(fault) => Err(
                IdentifierFailure::InvalidNumber { found: parts[2], reason: fault_message(fault) },
            ),
            Ok(n) => if n == 0 {
                Err(
                    IdentifierFailure::InvalidNumber {
                        found: parts[2],
                        reason: "the number in an identifier cannot be zero"@,
                    },
                )
            } else if parts[2].len() != 6 {
                Err(
                    IdentifierFailure::InvalidNumberPadding {
                        found: parts[2],
                        expected: padded(parts[2], 6),
                    },
                )
            } else if parts[1] == "MOLEC"@ {
                Ok(Identifier::Molecular(n as u64))
            } else if parts[1] == "MORPH"@ {
                Ok(Identifier::Morphological(n as u64))
            } else {
                Err(IdentifierFailure::UnknownType(parts[1]))
            },
        }
    }
}

/// An error when parsing an identifier.
#[derive(Debug)]
pub enum ParseError {
    /// An invalid number of parts (as split by `-`).
    IncorrectNumberOfParts {
        /// The number of parts found.
        found: usize,
        /// The number of parts expected.
        expected: usize,
    },
    /// An invalid prefix was found.
    InvalidPrefix {
        /// The prefix that was found.
        found: String,
    },
    /// An unknown type was encountered.
    UnknownType(String),
    /// A invalid number was passed.
    InvalidNumber {
        /// The number that was parsed.
        found: String,
        /// The reason the number was invalid.
        reason: String,
    },
    /// An invalid number padding was used.
    InvalidNumberPadding {
        /// The invalid number padding.
        found: String,
        /// What was expected.
        expected: String,
    },
}

impl View for ParseError {
    type V = IdentifierFailure;

    open spec fn view(&self) -> IdentifierFailure {
        match self {
            ParseError::IncorrectNumberOfParts { found, expected } => {
                IdentifierFailure::IncorrectNumberOfParts {
                    found: *found as nat,
                    expected: *expected as nat,
                }
            },
            ParseError::InvalidPrefix { found } => IdentifierFailure::InvalidPrefix {
                found: found@,
            },
            ParseError::UnknownType(name) => IdentifierFailure::UnknownType(name@),
            ParseError::InvalidNumber { found, reason } => IdentifierFailure::InvalidNumber {
                found: found@,
                reason: reason@,
            },
            ParseError::InvalidNumberPadding { found, expected } => {
                IdentifierFailure::InvalidNumberPadding { found: found@, expected: expected@ }
            },
        }
    }
}

/// The text that reports a failure.
pub open spec fn failure_text(f: IdentifierFailure) -> Seq<char> {
    match f {
        IdentifierFailure::IncorrectNumberOfParts { found, expected } => {
            "invalid number of parts separated by `-`: found `"@ + digits_of(found)
                + "` parts, expected `"@ + digits_of(expected) + "` parts"@
        },
        IdentifierFailure::InvalidPrefix { found } => "invalid prefix: found `"@ + found
            + "`, expected `ECC`"@,
        IdentifierFailure::UnknownType(name) => "unknown type: `"@ + name + "`"@,
        IdentifierFailure::InvalidNumber { found, reason } => "invalid number: found `"@ + found
            + "`, "@ + reason,
        IdentifierFailure::InvalidNumberPadding { found, expected } => {
            "invalid number padding: found `"@ + found + "` but `"@ + expected
                + "` was expected"@
        },
    }
}

impl ParseError {
    /// The text that reports this error.
    pub fn to_string(&self) -> (s: String)
        ensures
            s@ == failure_text(self@),
    {
        match self {
            ParseError::IncorrectNumberOfParts { found, expected } => {
                let mut s = String::from_str("invalid number of parts separated by `-`: found `");
                append_count(&mut s, *found);
                s.append("` parts, expected `");
                append_count(&mut s, *expected);
                s.append("` parts");
                s
            },
            ParseError::InvalidPrefix { found } => {
                let mut s = String::from_str("invalid prefix: found `");
                s.append(found.as_str());
                s.append("`, expected `ECC`");
                s
            },
            ParseError::UnknownType(name) => {
                let mut s = String::from_str("unknown type: `");
                s.append(name.as_str());
                s.append("`");
                s
            },
            ParseError::InvalidNumber { found, reason } => {
                let mut s = String::from_str("invalid number: found `");
                s.append(found.as_str());
                s.append("`, ");
                s.append(reason.as_str());
                s
            },
            ParseError::InvalidNumberPadding { found, expected } => {
                let mut s = String::from_str("invalid number padding: found `");
                s.append(found.as_str());
                s.append("` but `");
                s.append(expected.as_str());
                s.append("` was expected");
                s
            },
        }
    }
}

/// The decimal digits of `n` added to the end of `out`.
fn append_count(out: &mut String, n: usize)
    ensures
        final(out)@ == old(out)@ + digits_of(n as nat),
{
    append_number(out, n as u64, 0);
}

/// The identifier of the type that `name` names, with the number `n`.
fn with_type(name: &String, n: u64) -> (r: Result<Identifier, ParseError>)
    ensures
        match r {
            Ok(id) => id == if name@ == "MOLEC"@ {
                Identifier::Molecular(n)
            } else {
                Identifier::Morphological(n)
            } && (name@ == "MOLEC"@ || name@ == "MORPH"@),
            Err(e) => name@ != "MOLEC"@ && name@ != "MORPH"@ && e@
                == IdentifierFailure::UnknownType(name@),
        },
{
    if *name == String::from_str("MOLEC") {
        Ok(Identifier::Molecular(n))
    } else if *name == String::from_str("MORPH") {
        Ok(Identifier::Morphological(n))
    } else {
        Err(ParseError::UnknownType(name.clone()))
    }
}

impl Identifier {
    /// Reads an identifier from its text.
    pub fn parse(s: &str) -> (r: Result<Identifier, ParseError>)
        ensures
            r matches Ok(id) ==> id.wf(),
            match r {
                Ok(id) => identifier_of(s@) == Ok::<Identifier, IdentifierFailure>(id),
                Err(e) => identifier_of(s@) == Err::<Identifier, IdentifierFailure>(e@),
            },
    {
        let parts = split_char(s, '-');
        if parts.len() != 3 {
            return Err(ParseError::IncorrectNumberOfParts { found: parts.len(), expected: 3 });
        }
        assert(strings(parts@)[0] == parts@[0]@);
        assert(strings(parts@)[1] == parts@[1]@);
        assert(strings(parts@)[2] == parts@[2]@);
        if !(parts[0] == String::from_str("ECC")) {
            return Err(ParseError::InvalidPrefix { found: parts[0].clone() });
        }
        let number = match parse_number(parts[2].as_str()) {
            Ok(number) => number,
            Err(reason) => {
                return Err(ParseError::InvalidNumber { found: parts[2].clone(), reason });
            },
        };
        if number == 0 {
            return Err(
                ParseError::InvalidNumber {
                    found: parts[2].clone(),
                    reason: String::from_str("the number in an identifier cannot be zero"),
                },
            );
        }
        if parts[2].as_str().unicode_len() != 6 {
            return Err(
                ParseError::InvalidNumberPadding {
                    found: parts[2].clone(),
                    expected: pad_text(parts[2].as_str(), 6),
                },
            );
        }
        with_type(&parts[1], number)
    }
}

impl std::str::FromStr for Identifier {
    type Err = ParseError;

    fn from_str(s: &str) -> (r: Result<Self, Self::Err>)
        ensures
            r matches Ok(id) ==> id.wf(),
            match r {
                Ok(id) => identifier_of(s@) == Ok::<Identifier, IdentifierFailure>(id),
                Err(e) => identifier_of(s@) == Err::<Identifier, IdentifierFailure>(e@),
            },
    {
        Identifier::parse(s)
    }
}

} // verus!
