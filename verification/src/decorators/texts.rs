//! `startsWith`, `endsWith`, `matches` and `doesNotMatch`: constraints on
//! strings.

use crate::decorators::pattern::{compile, is_match, pattern_compiles, pattern_matches, Pattern};
use crate::decorators::report::{
    conclude, error_views, fault, glue3, glue5, outcome, present, record, refuse, finding_view,
    DecoratorValidationResult, ErrorView, OutcomeView, ValidationError,
};
use crate::decorators::{ArgumentView, DecoratorValue};
use crate::parsing::{texts, ValueType, ValueView};
use crate::text::chars_of;
use vstd::prelude::*;

verus! {

/// Which constraint a decorator puts on strings.
#[derive(Debug, Clone, Copy, PartialEq, Eq, Structural)]
pub enum TextRule {
    StartsWith,
    EndsWith,
    Matches,
    DoesNotMatch,
}

/// Whether `s` starts with `prefix`.
pub open spec fn starts_with(s: Seq<char>, prefix: Seq<char>) -> bool {
    prefix.len() <= s.len() && s.subrange(0, prefix.len() as int) == prefix
}

/// Whether `s` ends with `suffix`.
pub open spec fn ends_with(s: Seq<char>, suffix: Seq<char>) -> bool {
    suffix.len() <= s.len() && s.subrange(s.len() - suffix.len(), s.len() as int) == suffix
}

/// Whether the rule takes a regular expression.
pub open spec fn takes_pattern(rule: TextRule) -> bool {
    rule == TextRule::Matches || rule == TextRule::DoesNotMatch
}

/// Whether the string `item` breaks the rule with the argument `argument`.
pub open spec fn rejects(rule: TextRule, argument: Seq<char>, item: Seq<char>) -> bool {
    match rule {
        TextRule::StartsWith => !starts_with(item, argument),
        TextRule::EndsWith => !ends_with(item, argument),
        TextRule::Matches => !pattern_matches(argument, item),
        TextRule::DoesNotMatch => pattern_matches(argument, item),
    }
}

/// What stands between the string and the argument in a complaint.
pub open spec fn complaint_middle(rule: TextRule) -> Seq<char> {
    match rule {
        TextRule::StartsWith => "' does not start with '"@,
        TextRule::EndsWith => "' does not end with '"@,
        TextRule::Matches => "' does not match '"@,
        TextRule::DoesNotMatch => "' matches '"@,
    }
}

/// What ends a complaint.
pub open spec fn complaint_end(rule: TextRule) -> Seq<char> {
    match rule {
        TextRule::StartsWith => "'"@,
        TextRule::EndsWith => "'"@,
        TextRule::Matches => "'."@,
        TextRule::DoesNotMatch => "'."@,
    }
}

/// The message for a string that breaks the rule.
pub open spec fn complaint(rule: TextRule, argument: Seq<char>, item: Seq<char>) -> Seq<char> {
    "'"@ + item + complaint_middle(rule) + argument + complaint_end(rule)
}

/// The finding on one string.
pub open spec fn text_finding(rule: TextRule, argument: Seq<char>, item: Seq<char>) -> Option<
    ErrorView,
> {
    if rejects(rule, argument, item) {
        Some(
            ErrorView {
                message: complaint(rule, argument, item),
                value: Some(ValueView::String(item)),
            },
        )
    } else {
        None
    }
}

/// The findings on `items`.
pub open spec fn text_findings(rule: TextRule, argument: Seq<char>, items: Seq<Seq<char>>) -> Seq<
    Option<ErrorView>,
> {
    Seq::new(items.len(), |i: int| text_finding(rule, argument, items[i]))
}

/// The strings that a rule applies to: the value itself, or the elements of
/// an array of strings. Numbers have none.
pub open spec fn text_items(value: ValueView) -> Option<Seq<Seq<char>>> {
    match value {
        ValueView::String(s) => Some(seq![s]),
        ValueView::StringArray(v) => Some(v),
        _ => None,
    }
}

/// The message for an argument that is a number; `shown` is its text.
pub open spec fn number_given(rule: TextRule, shown: Seq<char>) -> Seq<char> {
    match rule {
        TextRule::StartsWith => "'"@ + shown
            + "' is not valid for decorator type 'startsWith'. 'startsWith' requires a string value."@,
        TextRule::EndsWith => "'"@ + shown
            + "' is not valid for decorator type 'endsWith'. 'endsWith' requires a string value."@,
        TextRule::Matches => "You must provide a string value to matches."@,
        TextRule::DoesNotMatch => "You must provide a string value to doesNotMatch."@,
    }
}

/// The message for a rule without an argument.
pub open spec fn no_text(rule: TextRule) -> Seq<char> {
    match rule {
        TextRule::StartsWith => "The startsWith decorator requires a value to be provided with it. Ex: `@startsWith(\"index\")`"@,
        TextRule::EndsWith => "The endsWith decorator requires a value to be provided with it. Ex: `@endsWith(\"index\")`"@,
        TextRule::Matches => "The matches decorator requires a value to be provided with it. Ex: `@matches(\"index\")`"@,
        TextRule::DoesNotMatch => "The doesNotMatch decorator requires a value to be provided with it. Ex: `@doesNotMatch(\"index\")`"@,
    }
}

/// The message for a value that holds numbers.
pub open spec fn unsupported(rule: TextRule) -> Seq<char> {
    match rule {
        TextRule::StartsWith => "startsWith does not support this variable type. startsWith only supports the string and string array types."@,
        TextRule::EndsWith => "endsWith does not support this variable type. endsWith only supports the string and string array types."@,
        TextRule::Matches => "matches does not support this variable type. matches only supports the string and string array types."@,
        TextRule::DoesNotMatch => "doesNotMatch does not support this variable type. doesNotMatch only supports the string and string array types."@,
    }
}

/// The message for a pattern that does not compile.
pub open spec fn bad_pattern(pattern: Seq<char>) -> Seq<char> {
    "Couldn't parse regex "@ + pattern + "."@
}

/// The outcome of a rule on `value`.
///
/// The argument must be a text and the value a string or an array of
/// strings; a pattern must compile. Then each string that breaks the rule
/// gives one error, in order, and the rule passes if there is none.
pub open spec fn ruled(rule: TextRule, value: ValueView, argument: ArgumentView) -> OutcomeView {
    match argument {
        ArgumentView::Integer(n) => fault(number_given(rule, n.text)),
        ArgumentView::Missing => fault(no_text(rule)),
        ArgumentView::String(p) => match text_items(value) {
            None => fault(unsupported(rule)),
            Some(items) => if takes_pattern(rule) && !pattern_compiles(p) {
                fault(bad_pattern(p))
            } else {
                outcome(present(text_findings(rule, p, items)))
            },
        },
    }
}

fn complaint_middle_text(rule: TextRule) -> (r: &'static str)
    ensures
        r@ == complaint_middle(rule),
{
    match rule {
        TextRule::StartsWith => "' does not start with '",
        TextRule::EndsWith => "' does not end with '",
        TextRule::Matches => "' does not match '",
        TextRule::DoesNotMatch => "' matches '",
    }
}

fn complaint_end_text(rule: TextRule) -> (r: &'static str)
    ensures
        r@ == complaint_end(rule),
{
    match rule {
        TextRule::StartsWith => "'",
        TextRule::EndsWith => "'",
        TextRule::Matches => "'.",
        TextRule::DoesNotMatch => "'.",
    }
}

fn number_given_text(rule: TextRule, shown: &str) -> (r: String)
    ensures
        r@ == number_given(rule, shown@),
{
    match rule {
        TextRule::StartsWith => glue3(
            "'",
            shown,
            "' is not valid for decorator type 'startsWith'. 'startsWith' requires a string value.",
        ),
        TextRule::EndsWith => glue3(
            "'",
            shown,
            "' is not valid for decorator type 'endsWith'. 'endsWith' requires a string value.",
        ),
        TextRule::Matches => String::from_str("You must provide a string value to matches."),
        TextRule::DoesNotMatch => String::from_str(
            "You must provide a string value to doesNotMatch.",
        ),
    }
}

fn no_text_text(rule: TextRule) -> (r: &'static str)
    ensures
        r@ == no_text(rule),
{
    match rule {
        TextRule::StartsWith => "The startsWith decorator requires a value to be provided with it. Ex: `@startsWith(\"index\")`",
        TextRule::EndsWith => "The endsWith decorator requires a value to be provided with it. Ex: `@endsWith(\"index\")`",
        TextRule::Matches => "The matches decorator requires a value to be provided with it. Ex: `@matches(\"index\")`",
        TextRule::DoesNotMatch => "The doesNotMatch decorator requires a value to be provided with it. Ex: `@doesNotMatch(\"index\")`",
    }
}

fn unsupported_text(rule: TextRule) -> (r: &'static str)
    ensures
        r@ == unsupported(rule),
{
    match rule {
        TextRule::StartsWith => "startsWith does not support this variable type. startsWith only supports the string and string array types.",
        TextRule::EndsWith => "endsWith does not support this variable type. endsWith only supports the string and string array types.",
        TextRule::Matches => "matches does not support this variable type. matches only supports the string and string array types.",
        TextRule::DoesNotMatch => "doesNotMatch does not support this variable type. doesNotMatch only supports the string and string array types.",
    }
}

/// Whether the characters `s` start with `prefix`.
pub fn has_prefix(s: &Vec<char>, prefix: &Vec<char>) -> (r: bool)
    ensures
        r == starts_with(s@, prefix@),
{
    let n = prefix.len();
    if n > s.len() {
        return false;
    }
    let mut i: usize = 0;
    while i < n
        invariant
            i <= n == prefix.len(),
            n <= s.len(),
            s@.subrange(0, i as int) == prefix@.subrange(0, i as int),
        decreases n - i,
    {
        if s[i] != prefix[i] {
            assert(s@.subrange(0, n as int)[i as int] != prefix@[i as int]);
            return false;
        }
        i += 1;
        assert(s@.subrange(0, i as int) =~= s@.subrange(0, i - 1).push(s@[i - 1]));
        assert(prefix@.subrange(0, i as int) =~= prefix@.subrange(0, i - 1).push(prefix@[i - 1]));
    }
    assert(prefix@.subrange(0, n as int) =~= prefix@);
    true
}

/// Whether the characters `s` end with `suffix`.
pub fn has_suffix(s: &Vec<char>, suffix: &Vec<char>) -> (r: bool)
    ensures
        r == ends_with(s@, suffix@),
{
    let n = suffix.len();
    if n > s.len() {
        return false;
    }
    let from = s.len() - n;
    let mut i: usize = 0;
    while i < n
        invariant
            i <= n == suffix.len(),
            n <= s.len(),
            from == s.len() - n,
            s@.subrange(from as int, from + i) == suffix@.subrange(0, i as int),
        decreases n - i,
    {
        if s[from + i] != suffix[i] {
            assert(s@.subrange(from as int, s.len() as int)[i as int] != suffix@[i as int]);
            return false;
        }
        i += 1;
        assert(s@.subrange(from as int, from + i) =~= s@.subrange(from as int, from + i - 1).push(
            s@[from + i - 1],
        ));
        assert(suffix@.subrange(0, i as int) =~= suffix@.subrange(0, i - 1).push(suffix@[i - 1]));
    }
    assert(suffix@.subrange(0, n as int) =~= suffix@);
    true
}

/// An argument made ready to be held against strings: its characters, and for
/// a pattern the regular expression it compiles to.
struct Prepared {
    chars: Vec<char>,
    pattern: Option<Pattern>,
}

/// The finding on the string `item`.
fn examine(rule: TextRule, argument: &String, prepared: &Prepared, item: &String) -> (r: Option<
    ValidationError,
>)
    requires
        prepared.chars@ == argument@,
        takes_pattern(rule) ==> prepared.pattern is Some && prepared.pattern->0@ == argument@,
    ensures
        finding_view(r) == text_finding(rule, argument@, item@),
{
    let rejected = match rule {
        TextRule::StartsWith => !has_prefix(&chars_of(item.as_str()), &prepared.chars),
        TextRule::EndsWith => !has_suffix(&chars_of(item.as_str()), &prepared.chars),
        TextRule::Matches => match &prepared.pattern {
            Some(pattern) => !is_match(pattern, item.as_str()),
            None => false,
        },
        TextRule::DoesNotMatch => match &prepared.pattern {
            Some(pattern) => is_match(pattern, item.as_str()),
            None => false,
        },
    };
    if rejected {
        let message = glue5(
            "'",
            item.as_str(),
            complaint_middle_text(rule),
            argument.as_str(),
            complaint_end_text(rule),
        );
        Some(ValidationError { message, value: Some(ValueType::String(item.clone())) })
    } else {
        None
    }
}

/// Holds `value` to the rule with the given argument and reports the strings
/// that break it.
pub fn check_texts(rule: TextRule, value: &ValueType, argument: &DecoratorValue) -> (r:
    DecoratorValidationResult)
    ensures
        r@ == ruled(rule, value@, argument@),
{
    match argument {
        DecoratorValue::Integer(n) => refuse(number_given_text(rule, n.text.as_str())),
        DecoratorValue::Missing => refuse(String::from_str(no_text_text(rule))),
        DecoratorValue::String(p) => {
            let is_text = match value {
                ValueType::String(_) => true,
                ValueType::StringArray(_) => true,
                _ => false,
            };
            if !is_text {
                return refuse(String::from_str(unsupported_text(rule)));
            }
            let pattern = match rule {
                TextRule::Matches => true,
                TextRule::DoesNotMatch => true,
                _ => false,
            };
            let mut compiled: Option<Pattern> = None;
            if pattern {
                match compile(p.as_str()) {
                    Ok(made) => {
                        compiled = Some(made);
                    },
                    Err(_) => {
                        return refuse(glue3("Couldn't parse regex ", p.as_str(), "."));
                    },
                }
            }
            let prepared = Prepared { chars: chars_of(p.as_str()), pattern: compiled };
            let ghost items = text_items(value@)->0;
            let ghost findings = text_findings(rule, p@, items);
            let mut errors: Vec<ValidationError> = Vec::new();
            assert(error_views(errors@) =~= present(findings.take(0)));
            match value {
                ValueType::String(s) => {
                    let finding = examine(rule, p, &prepared, s);
                    record(&mut errors, finding, Ghost(findings.take(0)));
                    assert(findings.take(0).push(findings[0]) =~= findings);
                },
                ValueType::StringArray(v) => {
                    let mut i: usize = 0;
                    while i < v.len()
                        invariant
                            i <= v.len(),
                            items == texts(v@),
                            findings == text_findings(rule, p@, items),
                            prepared.chars@ == p@,
                            takes_pattern(rule) ==> prepared.pattern is Some
                                && prepared.pattern->0@ == p@,
                            error_views(errors@) == present(findings.take(i as int)),
                        decreases v.len() - i,
                    {
                        let finding = examine(rule, p, &prepared, &v[i]);
                        record(&mut errors, finding, Ghost(findings.take(i as int)));
                        assert(findings.take(i as int).push(findings[i as int]) =~= findings.take(
                            i + 1,
                        ));
                        i += 1;
                    }
                    assert(findings.take(v.len() as int) =~= findings);
                },
                _ => {},
            }
            conclude(errors)
        },
    }
}

} // verus!
