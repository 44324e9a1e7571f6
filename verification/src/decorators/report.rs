//! What a validator reports: errors, each with the value it is about.

use crate::parsing::{ValueType, ValueView};
use vstd::prelude::*;

verus! {

/// One way in which a value breaks a constraint. `value` is the scalar or the
/// element of an array that the error is about, where there is one.
#[derive(Debug)]
pub struct ValidationError {
    pub message: String,
    pub value: Option<ValueType>,
}

pub struct ErrorView {
    pub message: Seq<char>,
    pub value: Option<ValueView>,
}

/// The view of a value that may be absent.
pub open spec fn value_view(value: Option<ValueType>) -> Option<ValueView> {
    match value {
        Some(v) => Some(v@),
        None => None,
    }
}

impl View for ValidationError {
    type V = ErrorView;

    open spec fn view(&self) -> ErrorView {
        ErrorView { message: self.message@, value: value_view(self.value) }
    }
}

impl Clone for ValidationError {
    fn clone(&self) -> (r: ValidationError)
        ensures
            r@ == self@,
    {
        let value = match &self.value {
            Some(v) => Some(v.clone()),
            None => None,
        };
        ValidationError { message: self.message.clone(), value }
    }
}

impl ValidationError {
    pub fn new(mes: &str, value: Option<ValueType>) -> (r: ValidationError)
        ensures
            r@ == (ErrorView { message: mes@, value: value_view(value) }),
    {
        ValidationError { message: String::from_str(mes), value }
    }
}

/// The views of a sequence of errors.
pub open spec fn error_views(s: Seq<ValidationError>) -> Seq<ErrorView> {
    s.map_values(|e: ValidationError| e@)
}

/// What a validator found.
#[derive(Debug)]
pub enum DecoratorValidationResult {
    /// The value meets the constraint.
    Pass,
    /// The value breaks the constraint, or the constraint cannot be applied.
    Error(Vec<ValidationError>),
}

pub enum OutcomeView {
    Pass,
    Error(Seq<ErrorView>),
}

impl View for DecoratorValidationResult {
    type V = OutcomeView;

    open spec fn view(&self) -> OutcomeView {
        match self {
            DecoratorValidationResult::Pass => OutcomeView::Pass,
            DecoratorValidationResult::Error(errors) => OutcomeView::Error(error_views(errors@)),
        }
    }
}

/// The outcome with the given errors: a pass if there is none.
pub open spec fn outcome(errors: Seq<ErrorView>) -> OutcomeView {
    if errors.len() == 0 {
        OutcomeView::Pass
    } else {
        OutcomeView::Error(errors)
    }
}

/// The outcome of a constraint that cannot be applied: one error, about no
/// value.
pub open spec fn fault(message: Seq<char>) -> OutcomeView {
    OutcomeView::Error(seq![ErrorView { message, value: None }])
}

/// The errors among `findings`, in order.
pub open spec fn present(findings: Seq<Option<ErrorView>>) -> Seq<ErrorView>
    decreases findings.len(),
{
    if findings.len() == 0 {
        Seq::empty()
    } else {
        match findings.last() {
            Some(e) => present(findings.drop_last()).push(e),
            None => present(findings.drop_last()),
        }
    }
}

/// The outcome with the given errors.
pub(crate) fn conclude(errors: Vec<ValidationError>) -> (r: DecoratorValidationResult)
    ensures
        r@ == outcome(error_views(errors@)),
{
    if errors.len() != 0 {
        DecoratorValidationResult::Error(errors)
    } else {
        DecoratorValidationResult::Pass
    }
}

/// The outcome of a constraint that cannot be applied.
pub(crate) fn refuse(message: String) -> (r: DecoratorValidationResult)
    ensures
        r@ == fault(message@),
{
    let mut errors: Vec<ValidationError> = Vec::new();
    let error = ValidationError { message, value: None };
    let ghost view = error@;
    errors.push(error);
    assert(error_views(errors@) =~= seq![view]);
    DecoratorValidationResult::Error(errors)
}

/// The view of a finding: an error or none.
pub open spec fn finding_view(finding: Option<ValidationError>) -> Option<ErrorView> {
    match finding {
        Some(e) => Some(e@),
        None => None,
    }
}

/// Adds the finding on one more item to the errors found so far.
pub(crate) fn record(
    errors: &mut Vec<ValidationError>,
    finding: Option<ValidationError>,
    Ghost(seen): Ghost<Seq<Option<ErrorView>>>,
)
    requires
        error_views(old(errors)@) == present(seen),
    ensures
        error_views(final(errors)@) == present(seen.push(finding_view(finding))),
{
    let ghost before = error_views(errors@);
    let ghost next = seen.push(finding_view(finding));
    assert(next.drop_last() =~= seen);
    match finding {
        Some(e) => {
            let ghost view = e@;
            errors.push(e);
            assert(error_views(errors@) =~= before.push(view));
        },
        None => {},
    }
}

/// `a` followed by `b` and `c`.
pub(crate) fn glue3(a: &str, b: &str, c: &str) -> (r: String)
    ensures
        r@ == a@ + b@ + c@,
{
    let mut r = String::from_str(a);
    r.append(b);
    r.append(c);
    r
}

/// `a` followed by `b`, `c` and `d`.
pub(crate) fn glue4(a: &str, b: &str, c: &str, d: &str) -> (r: String)
    ensures
        r@ == a@ + b@ + c@ + d@,
{
    let mut r = glue3(a, b, c);
    r.append(d);
    r
}

/// `a` followed by `b`, `c`, `d` and `e`.
pub(crate) fn glue5(a: &str, b: &str, c: &str, d: &str, e: &str) -> (r: String)
    ensures
        r@ == a@ + b@ + c@ + d@ + e@,
{
    let mut r = glue4(a, b, c, d);
    r.append(e);
    r
}

} // verus!
