//! Numbers and the arithmetic they come from.
//!
//! The numbers of a configuration file are IEEE-754 double-precision values.
//! This library never computes with them: it holds each number by its bit
//! pattern, together with the two decimal texts that spell it, and asks an
//! [`Arithmetic`] for every reading and comparison. What the contracts of this crate say of
//! numbers is therefore said of the answers that the arithmetic gave.

use vstd::prelude::*;

verus! {

/// A double-precision number: its bit pattern, and the two decimal texts
/// that spell it.
#[derive(Debug)]
pub struct Number {
    pub bits: u64,
    /// The text that spells the number where it stands alone, in a message
    /// or as the value of a key: a whole number without a fraction (`15`).
    pub text: String,
    /// The text that spells the number as an element of an array: a whole
    /// number with its fraction (`15.0`).
    pub element: String,
}

pub struct NumberView {
    pub bits: u64,
    pub text: Seq<char>,
    pub element: Seq<char>,
}

impl View for Number {
    type V = NumberView;

    open spec fn view(&self) -> NumberView {
        NumberView { bits: self.bits, text: self.text@, element: self.element@ }
    }
}

impl Clone for Number {
    fn clone(&self) -> (r: Number)
        ensures
            r@ == self@,
    {
        Number { bits: self.bits, text: self.text.clone(), element: self.element.clone() }
    }
}

impl Number {
    pub fn new(bits: u64, text: String, element: String) -> (r: Number)
        ensures
            r@ == (NumberView { bits, text: text@, element: element@ }),
    {
        Number { bits, text, element }
    }
}

/// The views of a sequence of numbers.
pub open spec fn number_views(s: Seq<Number>) -> Seq<NumberView> {
    s.map_values(|n: Number| n@)
}

/// The view of a reading.
pub open spec fn reading_view(r: Option<Number>) -> Option<NumberView> {
    match r {
        Some(n) => Some(n@),
        None => None,
    }
}

/// Bit pattern of the tolerance under which two numbers count as equal: one
/// billionth.
pub const TOLERANCE: u64 = 0x3E11_2E0B_E826_D695;

/// Double-precision arithmetic, as far as this library needs it. All numbers
/// but the result of `read` are passed by their bit patterns.
pub trait Arithmetic {
    /// The number that `text` spells as a whole, if it spells one, with the
    /// two decimal texts that the number prints as: alone, and as an element
    /// of an array.
    fn read(&self, text: &str) -> Option<Number>;

    /// The number nearest to `length`.
    fn count(&self, length: usize) -> u64;

    /// Whether `a` is strictly below `b`.
    fn less(&self, a: u64, b: u64) -> bool;

    /// Whether the absolute difference of `a` and `b` is strictly below
    /// `tolerance`.
    fn within(&self, a: u64, b: u64, tolerance: u64) -> bool;
}

/// `r` is an answer that `arith` may give when it reads `text`.
pub open spec fn reads<A: Arithmetic>(arith: &A, text: Seq<char>, r: Option<NumberView>) -> bool {
    exists|s: &str, n: Option<Number>|
        #[trigger] call_ensures(A::read, (arith, s), n) && s@ == text && reading_view(n) == r
}

/// `bits` is an answer that `arith` may give for the number of `length`.
pub open spec fn counts<A: Arithmetic>(arith: &A, length: usize, bits: u64) -> bool {
    call_ensures(A::count, (arith, length), bits)
}

/// `r` is an answer that `arith` may give to whether `a` is below `b`.
pub open spec fn orders<A: Arithmetic>(arith: &A, a: u64, b: u64, r: bool) -> bool {
    call_ensures(A::less, (arith, a, b), r)
}

/// `r` is an answer that `arith` may give to whether `a` and `b` differ by
/// less than the tolerance.
pub open spec fn tolerates<A: Arithmetic>(arith: &A, a: u64, b: u64, r: bool) -> bool {
    call_ensures(A::within, (arith, a, b, TOLERANCE), r)
}

/// Reads `text` with `arith`.
pub fn read_number<A: Arithmetic>(arith: &A, text: &str) -> (r: Option<Number>)
    ensures
        reads(arith, text@, reading_view(r)),
{
    arith.read(text)
}

} // verus!
