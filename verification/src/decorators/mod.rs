//! Decorators: the constraints that a file declares for its keys.

pub mod bounds;
pub mod pattern;
pub mod report;
pub mod texts;

pub use crate::decorators::report::{DecoratorValidationResult, ValidationError};

use crate::decorators::bounds::{bounded, bounds, check_bound, judge_bound, Limit};
use crate::decorators::report::{glue5, OutcomeView};
use crate::decorators::texts::{check_texts, ruled, TextRule};
use crate::numeric::{read_number, reading_view, reads, Arithmetic, Number, NumberView};
use crate::parsing::{ValueType, ValueView};
use crate::text::{chars_of, find_first, find_last, first_index, last_index, text_of};
use crate::util::{unquote, unquoted};
use vstd::prelude::*;

verus! {

/// The argument of a decorator: what stands between its parentheses.
#[derive(Debug)]
pub enum DecoratorValue {
    /// A text, held without its surrounding quotes.
    String(String),
    /// A number, whole or not.
    Integer(Number),
    /// No parentheses were written.
    Missing,
}

pub enum ArgumentView {
    String(Seq<char>),
    Integer(NumberView),
    Missing,
}

impl View for DecoratorValue {
    type V = ArgumentView;

    open spec fn view(&self) -> ArgumentView {
        match self {
            DecoratorValue::String(s) => ArgumentView::String(s@),
            DecoratorValue::Integer(n) => ArgumentView::Integer(n@),
            DecoratorValue::Missing => ArgumentView::Missing,
        }
    }
}

impl Clone for DecoratorValue {
    fn clone(&self) -> (r: DecoratorValue)
        ensures
            r@ == self@,
    {
        match self {
            DecoratorValue::String(s) => DecoratorValue::String(s.clone()),
            DecoratorValue::Integer(n) => DecoratorValue::Integer(n.clone()),
            DecoratorValue::Missing => DecoratorValue::Missing,
        }
    }
}

/// The argument that the text `val` is, where reading it gave `reading`: the
/// number if it read as one, and else the text without its surrounding
/// quotes.
pub open spec fn argument_of(val: Seq<char>, reading: Option<NumberView>) -> ArgumentView {
    match reading {
        Some(n) => ArgumentView::Integer(n),
        None => ArgumentView::String(unquoted(val)),
    }
}

impl DecoratorValue {
    /// The argument that `val` is by a reading that was made before.
    pub fn from_reading(val: &str, reading: Option<Number>) -> (r: DecoratorValue)
        ensures
            r@ == argument_of(val@, reading_view(reading)),
    {
        match reading {
            Some(n) => DecoratorValue::Integer(n),
            None => {
                let chars = chars_of(val);
                DecoratorValue::String(unquote(&chars))
            },
        }
    }

    /// The argument that `val` is: a number if `arith` reads it as one, and
    /// else the text without its surrounding quotes.
    pub fn from_str<A: Arithmetic>(val: &str, arith: &A) -> (r: DecoratorValue)
        ensures
            exists|reading: Option<NumberView>|
                reads(arith, val@, reading) && r@ == #[trigger] argument_of(val@, reading),
    {
        let reading = read_number(arith, val);
        let ghost view = reading_view(reading);
        let r = DecoratorValue::from_reading(val, reading);
        assert(r@ == argument_of(val@, view));
        r
    }
}

/// A decorator as it was declared: its name and its argument.
#[derive(Debug)]
pub struct DecoratorParseResult {
    pub key: String,
    pub value: DecoratorValue,
}

pub struct DeclarationView {
    pub key: Seq<char>,
    pub value: ArgumentView,
}

impl View for DecoratorParseResult {
    type V = DeclarationView;

    open spec fn view(&self) -> DeclarationView {
        DeclarationView { key: self.key@, value: self.value@ }
    }
}

impl Clone for DecoratorParseResult {
    fn clone(&self) -> (r: DecoratorParseResult)
        ensures
            r@ == self@,
    {
        DecoratorParseResult { key: self.key.clone(), value: self.value.clone() }
    }
}

/// The text that writes a declaration in a file: `@`, the name, and the
/// argument between parentheses, a text between double quotes.
pub open spec fn declaration_text(d: DeclarationView) -> Seq<char> {
    match d.value {
        ArgumentView::String(v) => "@"@ + d.key + "(\""@ + v + "\")"@,
        ArgumentView::Integer(n) => "@"@ + d.key + "("@ + n.text + ")"@,
        ArgumentView::Missing => "@"@ + d.key,
    }
}

impl DecoratorParseResult {
    /// The text that writes this declaration in a file.
    pub fn to_string(&self) -> (r: String)
        ensures
            r@ == declaration_text(self@),
    {
        match &self.value {
            DecoratorValue::String(v) => glue5("@", self.key.as_str(), "(\"", v.as_str(), "\")"),
            DecoratorValue::Integer(n) => glue5(
                "@",
                self.key.as_str(),
                "(",
                n.text.as_str(),
                ")",
            ),
            DecoratorValue::Missing => {
                let mut r = String::from_str("@");
                r.append(self.key.as_str());
                r
            },
        }
    }
}

/// The views of a sequence of declarations.
pub open spec fn declaration_views(s: Seq<DecoratorParseResult>) -> Seq<DeclarationView> {
    s.map_values(|d: DecoratorParseResult| d@)
}

/// Where the argument of the decorator text `dec` ends: at its last `)`, if
/// that stands behind its first `(`, and else at the end of the text.
pub open spec fn argument_end(dec: Seq<char>) -> int {
    if last_index(dec, ')') > first_index(dec, '(') {
        last_index(dec, ')')
    } else {
        dec.len() as int
    }
}

/// The name in the decorator text `dec`: what stands before its first `(`,
/// or all of it.
pub open spec fn name_of(dec: Seq<char>) -> Seq<char> {
    dec.subrange(0, first_index(dec, '('))
}

/// The text of the argument in the decorator text `dec`: what stands between
/// its first `(` and the end of the argument, if it has a `(`.
pub open spec fn argument_text(dec: Seq<char>) -> Option<Seq<char>> {
    if first_index(dec, '(') < dec.len() {
        Some(dec.subrange(first_index(dec, '(') + 1, argument_end(dec)))
    } else {
        None
    }
}

/// The declaration that the decorator text `dec` makes, where reading the
/// text of its argument gave `reading`.
pub open spec fn declared(dec: Seq<char>, reading: Option<NumberView>) -> DeclarationView {
    DeclarationView {
        key: name_of(dec),
        value: match argument_text(dec) {
            Some(text) => argument_of(text, reading),
            None => ArgumentView::Missing,
        },
    }
}

/// `out` is a declaration that the decorator text `dec` may make under
/// `arith`: the one it makes by what `arith` answered when it read the text
/// of the argument, if there is one.
pub open spec fn declares<A: Arithmetic>(arith: &A, dec: Seq<char>, out: DeclarationView) -> bool {
    exists|reading: Option<NumberView>|
        #![trigger declared(dec, reading)]
        {
            &&& argument_text(dec) matches Some(text) ==> reads(arith, text, reading)
            &&& out == declared(dec, reading)
        }
}

/// The name and the text of the argument in the decorator text `dec`.
pub fn split_call(dec: &str) -> (r: (String, Option<String>))
    ensures
        r.0@ == name_of(dec@),
        match r.1 {
            Some(text) => argument_text(dec@) == Some(text@),
            None => argument_text(dec@) is None,
        },
{
    let chars = chars_of(dec);
    let n = chars.len();
    let open = find_first(&chars, '(');
    let name = text_of(&chars, 0, open);
    if open == n {
        return (name, None);
    }
    let end = match find_last(&chars, ')') {
        Some(close) => if close > open {
            close
        } else {
            n
        },
        None => n,
    };
    let text = text_of(&chars, open + 1, end);
    (name, Some(text))
}

/// The declaration that `dec` makes by a reading of its argument that was
/// made before.
pub fn parse_with(dec: &str, reading: Option<Number>) -> (r: DecoratorParseResult)
    ensures
        r@ == declared(dec@, reading_view(reading)),
{
    let (key, text) = split_call(dec);
    let value = match text {
        Some(text) => DecoratorValue::from_reading(text.as_str(), reading),
        None => DecoratorValue::Missing,
    };
    DecoratorParseResult { key, value }
}

/// Parses the decorator syntax and returns its key and value if it has one.
///
/// `dec` has the form `decorator(value)` or `decorator`: the key is what
/// stands before the first `(`, the value what stands between it and the last
/// `)`. The value is a number if `arith` reads it as one, and else a text,
/// taken without its surrounding quotes.
pub fn parse<A: Arithmetic>(dec: &str, arith: &A) -> (r: DecoratorParseResult)
    ensures
        declares(arith, dec@, r@),
{
    let (key, text) = split_call(dec);
    match text {
        Some(text) => {
            let reading = read_number(arith, text.as_str());
            let ghost view = reading_view(reading);
            let value = DecoratorValue::from_reading(text.as_str(), reading);
            let r = DecoratorParseResult { key, value };
            assert(r@ == declared(dec@, view));
            r
        },
        None => {
            let r = DecoratorParseResult { key, value: DecoratorValue::Missing };
            assert(r@ == declared(dec@, None));
            r
        },
    }
}

/// What a decorator holds a value to.
#[derive(Debug, Clone, Copy, PartialEq, Eq, Structural)]
pub enum Validator {
    /// Nothing: every value passes.
    Always,
    /// A bound on numbers and on the lengths of strings.
    Bound(Limit),
    /// A rule on strings.
    Text(TextRule),
}

/// A decorator of the registry: its name and what it holds a value to.
#[derive(Debug)]
pub struct Decorator {
    pub name: String,
    pub validator: Validator,
}

pub struct DecoratorView {
    pub name: Seq<char>,
    pub validator: Validator,
}

impl View for Decorator {
    type V = DecoratorView;

    open spec fn view(&self) -> DecoratorView {
        DecoratorView { name: self.name@, validator: self.validator }
    }
}

/// The views of a sequence of decorators.
pub open spec fn decorator_views(s: Seq<Decorator>) -> Seq<DecoratorView> {
    s.map_values(|d: Decorator| d@)
}

/// The outcome of a validator on `value` with the argument `argument`, where
/// the answers to whether each scalar of the value breaks a bound were
/// `fails`.
pub open spec fn judged(
    validator: Validator,
    value: ValueView,
    argument: ArgumentView,
    fails: Seq<bool>,
) -> OutcomeView {
    match validator {
        Validator::Always => OutcomeView::Pass,
        Validator::Bound(limit) => bounded(limit, value, argument, fails),
        Validator::Text(rule) => ruled(rule, value, argument),
    }
}

/// `out` is an outcome that the validator may have on `value` under `arith`.
/// Only a bound asks `arith`.
pub open spec fn validates<A: Arithmetic>(
    arith: &A,
    validator: Validator,
    value: ValueView,
    argument: ArgumentView,
    out: OutcomeView,
) -> bool {
    match validator {
        Validator::Bound(limit) => bounds(arith, limit, value, argument, out),
        _ => out == judged(validator, value, argument, Seq::empty()),
    }
}

impl Decorator {
    pub fn new(name: &str, validator: Validator) -> (r: Decorator)
        ensures
            r@ == (DecoratorView { name: name@, validator }),
    {
        Decorator { name: String::from_str(name), validator }
    }

    /// The outcome of this decorator on `value` by answers that were given
    /// before: answer `i` of `fails` says whether scalar `i` of the value
    /// breaks the bound.
    pub fn judge(&self, value: &ValueType, argument: &DecoratorValue, fails: &Vec<bool>) -> (r:
        DecoratorValidationResult)
        ensures
            r@ == judged(self.validator, value@, argument@, fails@),
    {
        match self.validator {
            Validator::Always => DecoratorValidationResult::Pass,
            Validator::Bound(limit) => judge_bound(limit, value, argument, fails),
            Validator::Text(rule) => check_texts(rule, value, argument),
        }
    }

    /// Holds `value` to this decorator with the argument `argument`.
    pub fn validate<A: Arithmetic>(
        &self,
        value: &ValueType,
        argument: &DecoratorValue,
        arith: &A,
    ) -> (r: DecoratorValidationResult)
        ensures
            validates(arith, self.validator, value@, argument@, r@),
    {
        match self.validator {
            Validator::Always => DecoratorValidationResult::Pass,
            Validator::Bound(limit) => check_bound(limit, value, argument, arith),
            Validator::Text(rule) => check_texts(rule, value, argument),
        }
    }
}

/// The decorators that there are, each with its name.
pub open spec fn registry() -> Seq<DecoratorView> {
    seq![
        DecoratorView { name: "private"@, validator: Validator::Always },
        DecoratorView { name: "public"@, validator: Validator::Always },
        DecoratorView { name: "min"@, validator: Validator::Bound(Limit::Min) },
        DecoratorView { name: "max"@, validator: Validator::Bound(Limit::Max) },
        DecoratorView { name: "startsWith"@, validator: Validator::Text(TextRule::StartsWith) },
        DecoratorView { name: "endsWith"@, validator: Validator::Text(TextRule::EndsWith) },
        DecoratorView { name: "matches"@, validator: Validator::Text(TextRule::Matches) },
        DecoratorView { name: "doesNotMatch"@, validator: Validator::Text(TextRule::DoesNotMatch) },
    ]
}

/// No two decorators of the registry have the same name, so a name stands
/// for at most one of them.
pub proof fn law_registry_names_differ()
    ensures
        forall|i: int, j: int|
            0 <= i < j < registry().len() ==> (#[trigger] registry()[i]).name != (
            #[trigger] registry()[j]).name,
{
    reveal_strlit("private");
    reveal_strlit("public");
    reveal_strlit("min");
    reveal_strlit("max");
    reveal_strlit("startsWith");
    reveal_strlit("endsWith");
    reveal_strlit("matches");
    reveal_strlit("doesNotMatch");
    let table = registry();
    assert(table[0].name.len() == 7 && table[1].name.len() == 6 && table[2].name.len() == 3);
    assert(table[3].name.len() == 3 && table[4].name.len() == 10 && table[5].name.len() == 8);
    assert(table[6].name.len() == 7 && table[7].name.len() == 12);
    assert(table[0].name[0] != table[6].name[0]);
    assert(table[2].name[1] != table[3].name[1]);
    assert forall|i: int, j: int| 0 <= i < j < table.len() implies (#[trigger] table[i]).name != (
    #[trigger] table[j]).name by {
        if table[i].name.len() == table[j].name.len() {
            assert((i == 0 && j == 6) || (i == 2 && j == 3));
        }
    }
}

/// The table of the decorators, made anew at each call.
pub fn get() -> (r: Vec<Decorator>)
    ensures
        decorator_views(r@) == registry(),
{
    let mut r: Vec<Decorator> = Vec::new();
    r.push(Decorator::new("private", Validator::Always));
    r.push(Decorator::new("public", Validator::Always));
    r.push(Decorator::new("min", Validator::Bound(Limit::Min)));
    r.push(Decorator::new("max", Validator::Bound(Limit::Max)));
    r.push(Decorator::new("startsWith", Validator::Text(TextRule::StartsWith)));
    r.push(Decorator::new("endsWith", Validator::Text(TextRule::EndsWith)));
    r.push(Decorator::new("matches", Validator::Text(TextRule::Matches)));
    r.push(Decorator::new("doesNotMatch", Validator::Text(TextRule::DoesNotMatch)));
    assert(decorator_views(r@) =~= registry());
    r
}

/// The place of the first decorator of `table` that is named `name`, or the
/// length of the table if none is.
pub open spec fn place_of(table: Seq<DecoratorView>, name: Seq<char>) -> int
    decreases table.len(),
{
    if table.len() == 0 {
        0
    } else if table[0].name == name {
        0
    } else {
        1 + place_of(table.drop_first(), name)
    }
}

/// The decorator of `table` that is named `name`, if there is one.
pub open spec fn found(table: Seq<DecoratorView>, name: Seq<char>) -> Option<DecoratorView> {
    if place_of(table, name) < table.len() {
        Some(table[place_of(table, name)])
    } else {
        None
    }
}

pub proof fn lemma_place_of(table: Seq<DecoratorView>, name: Seq<char>)
    ensures
        0 <= place_of(table, name) <= table.len(),
        place_of(table, name) < table.len() ==> table[place_of(table, name)].name == name,
        forall|i: int| 0 <= i < place_of(table, name) ==> table[i].name != name,
    decreases table.len(),
{
    if table.len() > 0 && table[0].name != name {
        let rest = table.drop_first();
        lemma_place_of(rest, name);
        assert forall|i: int| 0 <= i < place_of(table, name) implies table[i].name != name by {
            if i > 0 {
                assert(table[i] == rest[i - 1]);
            }
        }
    }
}

/// A place that holds the name, with none before it that does, is the place
/// of the name.
pub proof fn lemma_place_of_is(table: Seq<DecoratorView>, name: Seq<char>, k: int)
    requires
        0 <= k <= table.len(),
        k < table.len() ==> table[k].name == name,
        forall|i: int| 0 <= i < k ==> table[i].name != name,
    ensures
        place_of(table, name) == k,
{
    lemma_place_of(table, name);
}

/// Looks up the decorator that is named `name`.
pub fn find<'a>(table: &'a Vec<Decorator>, name: &String) -> (r: Option<&'a Decorator>)
    ensures
        match r {
            Some(d) => found(decorator_views(table@), name@) == Some(d@),
            None => found(decorator_views(table@), name@) is None,
        },
{
    let n = table.len();
    let mut i: usize = 0;
    while i < n && table[i].name != *name
        invariant
            i <= n == table.len(),
            forall|k: int| 0 <= k < i ==> decorator_views(table@)[k].name != name@,
        decreases n - i,
    {
        i += 1;
    }
    proof {
        lemma_place_of_is(decorator_views(table@), name@, i as int);
    }
    if i < n {
        Some(&table[i])
    } else {
        None
    }
}

} // verus!
