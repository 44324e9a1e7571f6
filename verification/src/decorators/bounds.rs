//! `min` and `max`: bounds on a number, or on the length of a string.

use crate::decorators::report::{
    conclude, error_views, fault, glue3, glue4, glue5, outcome, present, record, refuse,
    DecoratorValidationResult, ErrorView, OutcomeView, ValidationError,
};
use crate::decorators::{ArgumentView, DecoratorValue};
use crate::numeric::{counts, number_views, orders, tolerates, Arithmetic, Number, NumberView};
use crate::parsing::{texts, ValueType, ValueView};
use crate::text::byte_length;
use crate::util::{compare, compares, law_same_compares_equal, CompareResult};
use vstd::prelude::*;

verus! {

/// Which bound a decorator sets.
#[derive(Debug, Clone, Copy, PartialEq, Eq, Structural)]
pub enum Limit {
    Min,
    Max,
}

/// The scalars that a bound applies to: the value itself, or the elements of
/// an array, in order.
pub open spec fn items_of(value: ValueView) -> Seq<ValueView> {
    match value {
        ValueView::Number(n) => seq![value],
        ValueView::String(s) => seq![value],
        ValueView::StringArray(v) => Seq::new(v.len(), |i: int| ValueView::String(v[i])),
        ValueView::NumberArray(v) => Seq::new(v.len(), |i: int| ValueView::Number(v[i])),
    }
}

/// The result of a comparison with the bound that breaks it.
pub open spec fn beyond(limit: Limit) -> CompareResult {
    match limit {
        Limit::Min => CompareResult::Less,
        Limit::Max => CompareResult::Greater,
    }
}

/// `fail` is an answer that `arith` may give to whether the number with the
/// bit pattern `bits` breaks the bound: it breaks a minimum if it compares as
/// less than the bound, a maximum if it compares as greater. A number that
/// is close to the bound, or that is neither below nor above it, breaks
/// neither.
pub open spec fn number_breaks<A: Arithmetic>(
    arith: &A,
    limit: Limit,
    bits: u64,
    bound: u64,
    fail: bool,
) -> bool {
    exists|r: CompareResult|
        #![trigger compares(arith, bits, bound, r)]
        compares(arith, bits, bound, r) && fail == (r == beyond(limit))
}

/// `fail` is an answer that `arith` may give to whether a string of `length`
/// bytes breaks the bound: it breaks a minimum if the number of its length is
/// below the bound, a maximum if the bound is below it.
pub open spec fn length_breaks<A: Arithmetic>(
    arith: &A,
    limit: Limit,
    length: usize,
    bound: u64,
    fail: bool,
) -> bool {
    exists|number: u64|
        #![trigger counts(arith, length, number)]
        counts(arith, length, number) && match limit {
            Limit::Min => orders(arith, number, bound, fail),
            Limit::Max => orders(arith, bound, number, fail),
        }
}

/// `fail` is an answer that `arith` may give to whether the scalar `item`
/// breaks the bound, whose bit pattern is `bound`.
pub open spec fn breaks<A: Arithmetic>(
    arith: &A,
    limit: Limit,
    item: ValueView,
    bound: u64,
    fail: bool,
) -> bool {
    match item {
        ValueView::Number(n) => number_breaks(arith, limit, n.bits, bound, fail),
        ValueView::String(s) => length_breaks(arith, limit, byte_length(s), bound, fail),
        _ => false,
    }
}

/// `fails` are answers that `arith` may give for `items`, one for each.
pub open spec fn bound_answers<A: Arithmetic>(
    arith: &A,
    limit: Limit,
    items: Seq<ValueView>,
    bound: u64,
    fails: Seq<bool>,
) -> bool {
    &&& fails.len() == items.len()
    &&& forall|i: int|
        0 <= i < items.len() ==> breaks(arith, limit, #[trigger] items[i], bound, fails[i])
}

/// What says that a number is beyond the bound.
pub open spec fn number_beyond(limit: Limit) -> Seq<char> {
    match limit {
        Limit::Min => " is too small. Minimum value is "@,
        Limit::Max => " is too large. Maximum value is "@,
    }
}

/// What says that a string is beyond the bound.
pub open spec fn text_beyond(limit: Limit) -> Seq<char> {
    match limit {
        Limit::Min => "' is too short. Minimum length is "@,
        Limit::Max => "' is too long. Maximum length is "@,
    }
}

/// The message for a scalar that breaks the bound, whose text is `bound`.
pub open spec fn breach_message(limit: Limit, item: ValueView, bound: Seq<char>) -> Seq<char> {
    match item {
        ValueView::Number(n) => n.text + number_beyond(limit) + bound + "."@,
        ValueView::String(s) => "'"@ + s + text_beyond(limit) + bound + "."@,
        _ => Seq::empty(),
    }
}

/// The error for a scalar that breaks the bound.
pub open spec fn breach(limit: Limit, item: ValueView, bound: Seq<char>) -> ErrorView {
    ErrorView { message: breach_message(limit, item, bound), value: Some(item) }
}

/// Whether answer `i` of `fails` says that the bound is broken. An answer
/// that is not there says that it is not.
pub open spec fn raised(fails: Seq<bool>, i: int) -> bool {
    0 <= i < fails.len() && fails[i]
}

/// The findings on `items`, by the answers `fails`.
pub open spec fn bound_findings(
    limit: Limit,
    items: Seq<ValueView>,
    bound: Seq<char>,
    fails: Seq<bool>,
) -> Seq<Option<ErrorView>> {
    Seq::new(
        items.len(),
        |i: int|
            if raised(fails, i) {
                Some(breach(limit, items[i], bound))
            } else {
                None
            },
    )
}

/// What follows an argument that is no number.
pub open spec fn not_a_number(limit: Limit) -> Seq<char> {
    match limit {
        Limit::Min => "' is not valid for decorator type 'min'. 'min' requires a number value."@,
        Limit::Max => "' is not valid for decorator type 'max'. 'max' requires a number value."@,
    }
}

/// The message for a bound without an argument.
pub open spec fn no_bound(limit: Limit) -> Seq<char> {
    match limit {
        Limit::Min => "The min decorator requires a value to be provided with it. Ex: `@min(5)`"@,
        Limit::Max => "The max decorator requires a value to be provided with it. Ex: `@max(5)`"@,
    }
}

/// The outcome of a bound on `value`, where the answers to whether each of
/// its scalars breaks the bound were `fails`.
///
/// The argument must be a number. Then each scalar that breaks the bound
/// gives one error, in order, and the bound passes if there is none.
pub open spec fn bounded(
    limit: Limit,
    value: ValueView,
    argument: ArgumentView,
    fails: Seq<bool>,
) -> OutcomeView {
    match argument {
        ArgumentView::String(v) => fault("'"@ + v + not_a_number(limit)),
        ArgumentView::Missing => fault(no_bound(limit)),
        ArgumentView::Integer(bound) => outcome(
            present(bound_findings(limit, items_of(value), bound.text, fails)),
        ),
    }
}

/// `out` is an outcome that the bound may have on `value` under `arith`.
pub open spec fn bounds<A: Arithmetic>(
    arith: &A,
    limit: Limit,
    value: ValueView,
    argument: ArgumentView,
    out: OutcomeView,
) -> bool {
    exists|fails: Seq<bool>|
        #![trigger bounded(limit, value, argument, fails)]
        {
            &&& argument matches ArgumentView::Integer(bound) ==> bound_answers(
                arith,
                limit,
                items_of(value),
                bound.bits,
                fails,
            )
            &&& out == bounded(limit, value, argument, fails)
        }
}

/// A number that has the bit pattern of the bound passes a minimum and a
/// maximum alike, under every arithmetic that finds no number below itself.
pub proof fn law_number_at_bound_passes<A: Arithmetic>(
    arith: &A,
    limit: Limit,
    n: NumberView,
    bound: NumberView,
    out: OutcomeView,
)
    requires
        bounds(arith, limit, ValueView::Number(n), ArgumentView::Integer(bound), out),
        n.bits == bound.bits,
        forall|below: bool| orders(arith, bound.bits, bound.bits, below) ==> !below,
    ensures
        out == OutcomeView::Pass,
{
    let value = ValueView::Number(n);
    let argument = ArgumentView::Integer(bound);
    let fails = choose|fails: Seq<bool>|
        #![trigger bounded(limit, value, argument, fails)]
        bound_answers(arith, limit, items_of(value), bound.bits, fails) && out == bounded(
            limit,
            value,
            argument,
            fails,
        );
    assert(items_of(value)[0] == value);
    assert(breaks(arith, limit, items_of(value)[0], bound.bits, fails[0]));
    lemma_same_number_passes(arith, limit, bound.bits, fails[0]);
    let findings = bound_findings(limit, items_of(value), bound.text, fails);
    lemma_none_present(findings);
}

/// A number with the bit pattern of the bound does not break it.
pub proof fn lemma_same_number_passes<A: Arithmetic>(
    arith: &A,
    limit: Limit,
    bound: u64,
    fail: bool,
)
    requires
        number_breaks(arith, limit, bound, bound, fail),
        forall|below: bool| orders(arith, bound, bound, below) ==> !below,
    ensures
        !fail,
{
    let r = choose|r: CompareResult|
        #![trigger compares(arith, bound, bound, r)]
        compares(arith, bound, bound, r) && fail == (r == beyond(limit));
    law_same_compares_equal(arith, bound, r);
}

/// A string passes a bound if the arithmetic finds the number of its length
/// on the allowed side of the bound: not below a minimum, and the maximum not
/// below it. So it is for a string whose length is the bound.
pub proof fn law_length_at_bound_passes<A: Arithmetic>(
    arith: &A,
    limit: Limit,
    s: Seq<char>,
    bound: NumberView,
    out: OutcomeView,
)
    requires
        bounds(arith, limit, ValueView::String(s), ArgumentView::Integer(bound), out),
        limit == Limit::Min ==> forall|number: u64, below: bool|
            counts(arith, byte_length(s), number) && #[trigger] orders(
                arith,
                number,
                bound.bits,
                below,
            ) ==> !below,
        limit == Limit::Max ==> forall|number: u64, below: bool|
            counts(arith, byte_length(s), number) && #[trigger] orders(
                arith,
                bound.bits,
                number,
                below,
            ) ==> !below,
    ensures
        out == OutcomeView::Pass,
{
    let value = ValueView::String(s);
    let argument = ArgumentView::Integer(bound);
    let fails = choose|fails: Seq<bool>|
        #![trigger bounded(limit, value, argument, fails)]
        bound_answers(arith, limit, items_of(value), bound.bits, fails) && out == bounded(
            limit,
            value,
            argument,
            fails,
        );
    assert(items_of(value)[0] == value);
    assert(breaks(arith, limit, items_of(value)[0], bound.bits, fails[0]));
    assert(length_breaks(arith, limit, byte_length(s), bound.bits, fails[0]));
    let number = choose|number: u64|
        #![trigger counts(arith, byte_length(s), number)]
        counts(arith, byte_length(s), number) && match limit {
            Limit::Min => orders(arith, number, bound.bits, fails[0]),
            Limit::Max => orders(arith, bound.bits, number, fails[0]),
        };
    assert(!fails[0]);
    let findings = bound_findings(limit, items_of(value), bound.text, fails);
    lemma_none_present(findings);
}

/// An array of numbers that all have the bit pattern of the bound passes a
/// minimum and a maximum alike, under every arithmetic that finds no number
/// below itself.
pub proof fn law_numbers_at_bound_pass<A: Arithmetic>(
    arith: &A,
    limit: Limit,
    numbers: Seq<NumberView>,
    bound: NumberView,
    out: OutcomeView,
)
    requires
        bounds(arith, limit, ValueView::NumberArray(numbers), ArgumentView::Integer(bound), out),
        forall|i: int| 0 <= i < numbers.len() ==> (#[trigger] numbers[i]).bits == bound.bits,
        forall|below: bool| orders(arith, bound.bits, bound.bits, below) ==> !below,
    ensures
        out == OutcomeView::Pass,
{
    let value = ValueView::NumberArray(numbers);
    let argument = ArgumentView::Integer(bound);
    let fails = choose|fails: Seq<bool>|
        #![trigger bounded(limit, value, argument, fails)]
        bound_answers(arith, limit, items_of(value), bound.bits, fails) && out == bounded(
            limit,
            value,
            argument,
            fails,
        );
    let items = items_of(value);
    assert forall|i: int| 0 <= i < items.len() implies !fails[i] by {
        assert(breaks(arith, limit, items[i], bound.bits, fails[i]));
        assert(numbers[i].bits == bound.bits);
        lemma_same_number_passes(arith, limit, bound.bits, fails[i]);
    }
    let findings = bound_findings(limit, items, bound.text, fails);
    lemma_none_present(findings);
}

/// An array of strings passes a bound if the arithmetic finds the number of
/// the length of each on the allowed side of the bound. So it is for an
/// array of strings whose lengths are the bound.
pub proof fn law_lengths_at_bound_pass<A: Arithmetic>(
    arith: &A,
    limit: Limit,
    strings: Seq<Seq<char>>,
    bound: NumberView,
    out: OutcomeView,
)
    requires
        bounds(arith, limit, ValueView::StringArray(strings), ArgumentView::Integer(bound), out),
        limit == Limit::Min ==> forall|i: int, number: u64, below: bool|
            #![trigger strings[i], orders(arith, number, bound.bits, below)]
            0 <= i < strings.len() && counts(arith, byte_length(strings[i]), number) && orders(
                arith,
                number,
                bound.bits,
                below,
            ) ==> !below,
        limit == Limit::Max ==> forall|i: int, number: u64, below: bool|
            #![trigger strings[i], orders(arith, bound.bits, number, below)]
            0 <= i < strings.len() && counts(arith, byte_length(strings[i]), number) && orders(
                arith,
                bound.bits,
                number,
                below,
            ) ==> !below,
    ensures
        out == OutcomeView::Pass,
{
    let value = ValueView::StringArray(strings);
    let argument = ArgumentView::Integer(bound);
    let fails = choose|fails: Seq<bool>|
        #![trigger bounded(limit, value, argument, fails)]
        bound_answers(arith, limit, items_of(value), bound.bits, fails) && out == bounded(
            limit,
            value,
            argument,
            fails,
        );
    let items = items_of(value);
    assert forall|i: int| 0 <= i < items.len() implies !fails[i] by {
        assert(breaks(arith, limit, items[i], bound.bits, fails[i]));
        assert(length_breaks(arith, limit, byte_length(strings[i]), bound.bits, fails[i]));
        let number = choose|number: u64|
            #![trigger counts(arith, byte_length(strings[i]), number)]
            counts(arith, byte_length(strings[i]), number) && match limit {
                Limit::Min => orders(arith, number, bound.bits, fails[i]),
                Limit::Max => orders(arith, bound.bits, number, fails[i]),
            };
    }
    let findings = bound_findings(limit, items, bound.text, fails);
    lemma_none_present(findings);
}

/// Findings that hold no error give no error.
pub proof fn lemma_none_present(findings: Seq<Option<ErrorView>>)
    requires
        forall|i: int| 0 <= i < findings.len() ==> findings[i] is None,
    ensures
        present(findings) == Seq::<ErrorView>::empty(),
    decreases findings.len(),
{
    if findings.len() > 0 {
        lemma_none_present(findings.drop_last());
    }
}

fn number_beyond_text(limit: Limit) -> (r: &'static str)
    ensures
        r@ == number_beyond(limit),
{
    match limit {
        Limit::Min => " is too small. Minimum value is ",
        Limit::Max => " is too large. Maximum value is ",
    }
}

fn text_beyond_text(limit: Limit) -> (r: &'static str)
    ensures
        r@ == text_beyond(limit),
{
    match limit {
        Limit::Min => "' is too short. Minimum length is ",
        Limit::Max => "' is too long. Maximum length is ",
    }
}

fn not_a_number_text(limit: Limit) -> (r: &'static str)
    ensures
        r@ == not_a_number(limit),
{
    match limit {
        Limit::Min => "' is not valid for decorator type 'min'. 'min' requires a number value.",
        Limit::Max => "' is not valid for decorator type 'max'. 'max' requires a number value.",
    }
}

fn no_bound_text(limit: Limit) -> (r: &'static str)
    ensures
        r@ == no_bound(limit),
{
    match limit {
        Limit::Min => "The min decorator requires a value to be provided with it. Ex: `@min(5)`",
        Limit::Max => "The max decorator requires a value to be provided with it. Ex: `@max(5)`",
    }
}

/// The finding on a number, by the answer `fail`.
fn number_finding(limit: Limit, n: &Number, bound: &Number, fail: bool) -> (r: Option<
    ValidationError,
>)
    ensures
        crate::decorators::report::finding_view(r) == (if fail {
            Some(breach(limit, ValueView::Number(n@), bound@.text))
        } else {
            None
        }),
{
    if fail {
        let message = glue4(
            n.text.as_str(),
            number_beyond_text(limit),
            bound.text.as_str(),
            ".",
        );
        Some(ValidationError { message, value: Some(ValueType::Number(n.clone())) })
    } else {
        None
    }
}

/// The finding on a string, by the answer `fail`.
fn text_finding(limit: Limit, s: &String, bound: &Number, fail: bool) -> (r: Option<
    ValidationError,
>)
    ensures
        crate::decorators::report::finding_view(r) == (if fail {
            Some(breach(limit, ValueView::String(s@), bound@.text))
        } else {
            None
        }),
{
    if fail {
        let message = glue5(
            "'",
            s.as_str(),
            text_beyond_text(limit),
            bound.text.as_str(),
            ".",
        );
        Some(ValidationError { message, value: Some(ValueType::String(s.clone())) })
    } else {
        None
    }
}

fn answer(fails: &Vec<bool>, i: usize) -> (r: bool)
    ensures
        r == raised(fails@, i as int),
{
    i < fails.len() && fails[i]
}

/// The outcome of a bound on `value` by answers that were given before:
/// answer `i` of `fails` says whether scalar `i` of the value breaks the
/// bound.
pub fn judge_bound(
    limit: Limit,
    value: &ValueType,
    argument: &DecoratorValue,
    fails: &Vec<bool>,
) -> (r: DecoratorValidationResult)
    ensures
        r@ == bounded(limit, value@, argument@, fails@),
{
    match argument {
        DecoratorValue::String(v) => refuse(glue3("'", v.as_str(), not_a_number_text(limit))),
        DecoratorValue::Missing => refuse(String::from_str(no_bound_text(limit))),
        DecoratorValue::Integer(bound) => {
            let ghost items = items_of(value@);
            let ghost findings = bound_findings(limit, items, bound@.text, fails@);
            let mut errors: Vec<ValidationError> = Vec::new();
            assert(error_views(errors@) =~= present(findings.take(0)));
            match value {
                ValueType::Number(n) => {
                    let finding = number_finding(limit, n, bound, answer(fails, 0));
                    record(&mut errors, finding, Ghost(findings.take(0)));
                    assert(findings.take(0).push(findings[0]) =~= findings);
                },
                ValueType::String(s) => {
                    let finding = text_finding(limit, s, bound, answer(fails, 0));
                    record(&mut errors, finding, Ghost(findings.take(0)));
                    assert(findings.take(0).push(findings[0]) =~= findings);
                },
                ValueType::StringArray(v) => {
                    let mut i: usize = 0;
                    while i < v.len()
                        invariant
                            i <= v.len(),
                            items == items_of(value@),
                            value@ == ValueView::StringArray(texts(v@)),
                            findings == bound_findings(limit, items, bound@.text, fails@),
                            error_views(errors@) == present(findings.take(i as int)),
                        decreases v.len() - i,
                    {
                        let finding = text_finding(limit, &v[i], bound, answer(fails, i));
                        record(&mut errors, finding, Ghost(findings.take(i as int)));
                        assert(findings.take(i as int).push(findings[i as int]) =~= findings.take(
                            i + 1,
                        ));
                        i += 1;
                    }
                    assert(findings.take(v.len() as int) =~= findings);
                },
                ValueType::NumberArray(v) => {
                    let mut i: usize = 0;
                    while i < v.len()
                        invariant
                            i <= v.len(),
                            items == items_of(value@),
                            value@ == ValueView::NumberArray(number_views(v@)),
                            findings == bound_findings(limit, items, bound@.text, fails@),
                            error_views(errors@) == present(findings.take(i as int)),
                        decreases v.len() - i,
                    {
                        let finding = number_finding(limit, &v[i], bound, answer(fails, i));
                        record(&mut errors, finding, Ghost(findings.take(i as int)));
                        assert(findings.take(i as int).push(findings[i as int]) =~= findings.take(
                            i + 1,
                        ));
                        i += 1;
                    }
                    assert(findings.take(v.len() as int) =~= findings);
                },
            }
            conclude(errors)
        },
    }
}

/// Asks `arith` whether the number `n` breaks the bound.
fn ask_number<A: Arithmetic>(limit: Limit, n: &Number, bound: &Number, arith: &A) -> (fail:
    bool)
    ensures
        breaks(arith, limit, ValueView::Number(n@), bound@.bits, fail),
{
    let r = compare(n.bits, bound.bits, arith);
    let fail = match limit {
        Limit::Min => match r {
            CompareResult::Less => true,
            _ => false,
        },
        Limit::Max => match r {
            CompareResult::Greater => true,
            _ => false,
        },
    };
    assert(compares(arith, n@.bits, bound@.bits, r) && fail == (r == beyond(limit)));
    assert(number_breaks(arith, limit, n@.bits, bound@.bits, fail));
    fail
}

/// Asks `arith` whether the length of the string `s` breaks the bound.
fn ask_text<A: Arithmetic>(limit: Limit, s: &String, bound: &Number, arith: &A) -> (fail:
    bool)
    ensures
        breaks(arith, limit, ValueView::String(s@), bound@.bits, fail),
{
    let length = arith.count(s.as_str().len());
    let fail = match limit {
        Limit::Min => arith.less(length, bound.bits),
        Limit::Max => arith.less(bound.bits, length),
    };
    assert(counts(arith, byte_length(s@), length) && match limit {
        Limit::Min => orders(arith, length, bound@.bits, fail),
        Limit::Max => orders(arith, bound@.bits, length, fail),
    });
    assert(length_breaks(arith, limit, byte_length(s@), bound@.bits, fail));
    fail
}

/// Holds `value` to the bound that `argument` sets: asks `arith` about each
/// scalar of the value, in order, and reports those that break the bound.
pub fn check_bound<A: Arithmetic>(
    limit: Limit,
    value: &ValueType,
    argument: &DecoratorValue,
    arith: &A,
) -> (r: DecoratorValidationResult)
    ensures
        bounds(arith, limit, value@, argument@, r@),
{
    let mut fails: Vec<bool> = Vec::new();
    if let DecoratorValue::Integer(bound) = argument {
        let ghost items = items_of(value@);
        match value {
            ValueType::Number(n) => {
                fails.push(ask_number(limit, n, bound, arith));
            },
            ValueType::String(s) => {
                fails.push(ask_text(limit, s, bound, arith));
            },
            ValueType::StringArray(v) => {
                let mut i: usize = 0;
                while i < v.len()
                    invariant
                        i <= v.len(),
                        fails.len() == i,
                        items == items_of(value@),
                        value@ == ValueView::StringArray(texts(v@)),
                        forall|k: int|
                            0 <= k < i ==> breaks(
                                arith,
                                limit,
                                #[trigger] items[k],
                                bound@.bits,
                                fails@[k],
                            ),
                    decreases v.len() - i,
                {
                    fails.push(ask_text(limit, &v[i], bound, arith));
                    i += 1;
                }
            },
            ValueType::NumberArray(v) => {
                let mut i: usize = 0;
                while i < v.len()
                    invariant
                        i <= v.len(),
                        fails.len() == i,
                        items == items_of(value@),
                        value@ == ValueView::NumberArray(number_views(v@)),
                        forall|k: int|
                            0 <= k < i ==> breaks(
                                arith,
                                limit,
                                #[trigger] items[k],
                                bound@.bits,
                                fails@[k],
                            ),
                    decreases v.len() - i,
                {
                    fails.push(ask_number(limit, &v[i], bound, arith));
                    i += 1;
                }
            },
        }
        assert(bound_answers(arith, limit, items, bound@.bits, fails@));
    }
    let r = judge_bound(limit, value, argument, &fails);
    assert(r@ == bounded(limit, value@, argument@, fails@));
    r
}

} // verus!
