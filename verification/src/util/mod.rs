//! Small helpers shared by the parser and the decorators.

use crate::numeric::{orders, tolerates, Arithmetic, TOLERANCE};
use crate::text::{
    chars_of, find_first, find_last, first_index, last_index, text_of, trimmed, trimmed_chars,
};
use vstd::prelude::*;

verus! {

/// How one number stands to another.
#[derive(Debug, Clone, Copy, PartialEq, Eq, Structural)]
pub enum CompareResult {
    Less,
    Greater,
    Equal,
}

/// The result of a comparison in which the two numbers were found `close`
/// to each other or not, the first `below` the second or not, and the second
/// below the first (the first `above` it) or not. Closeness is looked at
/// first, then whether the first is below. Two numbers that are not close and
/// of which neither is below the other are not set apart: they compare as
/// equal.
pub open spec fn comparison(close: bool, below: bool, above: bool) -> CompareResult {
    if close {
        CompareResult::Equal
    } else if below {
        CompareResult::Less
    } else if above {
        CompareResult::Greater
    } else {
        CompareResult::Equal
    }
}

/// `r` is a result that comparing `a` with `b` may have under `arith`, which
/// is asked whether they are close, then, if they are not, whether `a` is
/// below `b`, and then, if it is not, whether `b` is below `a`.
pub open spec fn compares<A: Arithmetic>(arith: &A, a: u64, b: u64, r: CompareResult) -> bool {
    exists|close: bool, below: bool, above: bool|
        #![trigger comparison(close, below, above)]
        {
            &&& tolerates(arith, a, b, close)
            &&& close || orders(arith, a, b, below)
            &&& close || below || orders(arith, b, a, above)
            &&& r == comparison(close, below, above)
        }
}

impl CompareResult {
    /// The result of a comparison by answers that were given before: whether
    /// the two numbers are close to each other, whether the first is below
    /// the second, and whether the second is below the first.
    pub fn of(close: bool, below: bool, above: bool) -> (r: CompareResult)
        ensures
            r == comparison(close, below, above),
    {
        if close {
            CompareResult::Equal
        } else if below {
            CompareResult::Less
        } else if above {
            CompareResult::Greater
        } else {
            CompareResult::Equal
        }
    }
}

/// Compares two numbers, given by their bit patterns: equal if they differ by
/// less than the tolerance; else less if the first is below the second, and
/// greater if the second is below the first; and equal again if neither is
/// below the other.
pub fn compare<A: Arithmetic>(a: u64, b: u64, arith: &A) -> (r: CompareResult)
    ensures
        compares(arith, a, b, r),
{
    let close = arith.within(a, b, TOLERANCE);
    let below = if close {
        false
    } else {
        arith.less(a, b)
    };
    let above = if close || below {
        false
    } else {
        arith.less(b, a)
    };
    CompareResult::of(close, below, above)
}

/// Numbers with the same bit pattern compare as equal under every arithmetic
/// that finds no number below itself.
pub proof fn law_same_compares_equal<A: Arithmetic>(arith: &A, a: u64, r: CompareResult)
    requires
        compares(arith, a, a, r),
        forall|below: bool| orders(arith, a, a, below) ==> !below,
    ensures
        r == CompareResult::Equal,
{
}

/// `s` without its surrounding quotes: what stands strictly between the first
/// and the last double quote of `s`, and `s` itself if it holds none.
pub open spec fn unquoted(s: Seq<char>) -> Seq<char> {
    let first = first_index(s, '"');
    let last = last_index(s, '"');
    if last < 0 {
        s
    } else if first < last {
        s.subrange(first + 1, last)
    } else {
        Seq::empty()
    }
}

/// The characters of `v` without their surrounding quotes.
pub fn unquote(v: &Vec<char>) -> (r: String)
    ensures
        r@ == unquoted(v@),
{
    let first = find_first(v, '"');
    match find_last(v, '"') {
        None => {
            assert(v@.subrange(0, v.len() as int) =~= v@);
            text_of(v, 0, v.len())
        },
        Some(last) => {
            if first < last {
                text_of(v, first + 1, last)
            } else {
                String::new()
            }
        },
    }
}

/// Trims the quotes around the passed string: returns what stands strictly
/// between its first and its last double quote, and the string unchanged if it
/// holds no double quote.
pub fn trim_quotes(val: &str) -> (trimmed: String)
    ensures
        trimmed@ == unquoted(val@),
{
    let chars = chars_of(val);
    unquote(&chars)
}

/// The decimal digit of `d`.
pub open spec fn digit(d: nat) -> char {
    (('0' as u8) + d) as char
}

/// The decimal spelling of `n`, without leading zeros.
pub open spec fn decimal(n: nat) -> Seq<char>
    decreases n,
{
    if n < 10 {
        seq![digit(n)]
    } else {
        decimal(n / 10).push(digit(n % 10))
    }
}

/// `count` spaces.
pub open spec fn blanks(count: nat) -> Seq<char> {
    Seq::new(count, |i: int| ' ')
}

/// `num` in decimal, with spaces to its left up to `min_length` characters;
/// a number that is longer stands as it is.
pub open spec fn padded(num: nat, min_length: nat) -> Seq<char> {
    if decimal(num).len() <= min_length {
        blanks((min_length - decimal(num).len()) as nat) + decimal(num)
    } else {
        decimal(num)
    }
}

fn decimal_of(n: u32) -> (v: Vec<char>)
    ensures
        v@ == decimal(n as nat),
    decreases n,
{
    if n < 10 {
        let d: u8 = n as u8;
        let c: char = (48u8 + d) as char;
        let mut v: Vec<char> = Vec::new();
        v.push(c);
        assert(v@ =~= seq![digit(n as nat)]);
        v
    } else {
        let mut v = decimal_of(n / 10);
        let d: u8 = (n % 10) as u8;
        let c: char = (48u8 + d) as char;
        v.push(c);
        v
    }
}

/// Adds whitespace to the left of the number so that it meets the
/// `min_length` provided.
pub fn number_pad(num: u32, min_length: usize) -> (result: String)
    ensures
        result@ == padded(num as nat, min_length as nat),
{
    let digits = decimal_of(num);
    let padding = if digits.len() <= min_length {
        min_length - digits.len()
    } else {
        0
    };
    let mut result = String::new();
    let mut i: usize = 0;
    while i < padding
        invariant
            i <= padding,
            result@ == blanks(i as nat),
        decreases padding - i,
    {
        result.push(' ');
        i += 1;
        assert(result@ =~= blanks(i as nat));
    }
    let mut j: usize = 0;
    while j < digits.len()
        invariant
            j <= digits.len(),
            result@ == blanks(padding as nat) + digits@.subrange(0, j as int),
        decreases digits.len() - j,
    {
        result.push(digits[j]);
        j += 1;
        assert(result@ =~= blanks(padding as nat) + digits@.subrange(0, j as int));
    }
    assert(digits@.subrange(0, digits.len() as int) =~= digits@);
    assert(blanks(0) + digits@ =~= digits@);
    result
}

/// The lowercase form of `text`, as Unicode defines it.
pub uninterp spec fn lowercased(text: Seq<char>) -> Seq<char>;

/// `str::to_lowercase`: returns the lowercase equivalent of the text as a new
/// string. What it is depends on the text alone.
#[verifier::external_body]
fn lowercase(text: &str) -> (r: String)
    ensures
        r@ == lowercased(text@),
{
    text.to_lowercase()
}

/// The answer that the word `word` gives: yes for `y` and `yes`, no for `n`
/// and `no`, and the default for every other word.
pub open spec fn answer_of(word: Seq<char>, default: Answer) -> Answer {
    if word == "y"@ || word == "yes"@ {
        Answer::Yes
    } else if word == "n"@ || word == "no"@ {
        Answer::No
    } else {
        default
    }
}

/// A yes or a no.
#[derive(Debug, Clone, Copy, PartialEq, Eq, Structural)]
pub enum Answer {
    Yes,
    No,
}

impl Answer {
    /// The answer that the word `word` gives, as it stands: yes for `y` and
    /// `yes`, no for `n` and `no`, and the default for every other word.
    pub fn of_word(word: &str, default: Answer) -> (r: Answer)
        ensures
            r == answer_of(word@, default),
    {
        let word = String::from_str(word);
        if word == String::from_str("y") || word == String::from_str("yes") {
            Answer::Yes
        } else if word == String::from_str("n") || word == String::from_str("no") {
            Answer::No
        } else {
            default
        }
    }

    /// The answer that a line of input gives: the answer of its word, which
    /// is the line without the whitespace around it, in lowercase.
    pub fn from_input(input: &str, default: Answer) -> (r: Answer)
        ensures
            r == answer_of(lowercased(trimmed(input@)), default),
    {
        let chars = trimmed_chars(input);
        let word = text_of(&chars, 0, chars.len());
        assert(word@ =~= trimmed(input@));
        let lower = lowercase(word.as_str());
        Answer::of_word(lower.as_str(), default)
    }

    /// The letter that stands for the answer where a question shows its
    /// default: `y` for yes, `N` for no.
    pub fn to_string(&self) -> (r: String)
        ensures
            r@ == (match *self {
                Answer::Yes => "y"@,
                Answer::No => "N"@,
            }),
    {
        match self {
            Answer::Yes => String::from_str("y"),
            Answer::No => String::from_str("N"),
        }
    }
}

} // verus!
