//! Parsing of a configuration file.

pub mod assembler;
pub mod config;
pub mod elements;
pub mod scanner;

use crate::decorators::report::{error_views, glue3, ErrorView};
use crate::decorators::{
    declaration_views, decorator_views, found, name_of, registry, DeclarationView,
    DecoratorParseResult, ValidationError,
};
use crate::numeric::{
    number_views, read_number, reading_view, reads, Arithmetic, Number, NumberView,
};
use crate::parsing::assembler::{
    all_valid, distinct_names, duplicate_key, evaluate, evaluates, gathered, holds_name, join,
    law_one_key_for_each_name, law_one_repeat_gives_one_warning, one_repeat,
    law_unknown_decorator_invalidates,
    law_unknown_name_gives_error, lemma_gathered_in_order, seal, sealed, survives,
    EvaluatedView,
};
use crate::parsing::elements::{
    char_views, elements, enclosed, has_quoted, law_quoted_elements_are_kept, listed,
    quoted_span, split_elements, Parts,
};
use crate::parsing::scanner::{entry_views, law_entries_follow_lines, scan, scanned};
use crate::text::{chars_of, lemma_first_index_is, lemma_last_index_is, text_of, trimmed};
use crate::util::{unquote, unquoted};
use vstd::prelude::*;

verus! {

/// A line and a column, both counted from 1.
#[derive(Debug, Clone, Copy)]
pub struct FilePosition {
    pub line: u32,
    pub column: u32,
}

/// A position as a pair of integers.
pub struct Place {
    pub line: int,
    pub column: int,
}

impl View for FilePosition {
    type V = Place;

    open spec fn view(&self) -> Place {
        Place { line: self.line as int, column: self.column as int }
    }
}

impl FilePosition {
    /// The position of the first character of a file.
    pub fn new() -> (r: Self)
        ensures
            r@ == (Place { line: 1, column: 1 }),
    {
        FilePosition { line: 1, column: 1 }
    }
}

/// Whether a key is for this program alone or may be shown to others.
#[derive(Debug, Clone, Copy, PartialEq, Eq, Structural)]
pub enum Scope {
    Private,
    Public,
}

/// The value of a key. An array has at least two elements.
#[derive(Debug)]
pub enum ValueType {
    Number(Number),
    /// A text, held without its surrounding quotes.
    String(String),
    StringArray(Vec<String>),
    NumberArray(Vec<Number>),
}

pub enum ValueView {
    Number(NumberView),
    String(Seq<char>),
    StringArray(Seq<Seq<char>>),
    NumberArray(Seq<NumberView>),
}

/// The views of a sequence of strings.
pub open spec fn texts(s: Seq<String>) -> Seq<Seq<char>> {
    s.map_values(|t: String| t@)
}

impl View for ValueType {
    type V = ValueView;

    open spec fn view(&self) -> ValueView {
        match self {
            ValueType::Number(n) => ValueView::Number(n@),
            ValueType::String(s) => ValueView::String(s@),
            ValueType::StringArray(v) => ValueView::StringArray(texts(v@)),
            ValueType::NumberArray(v) => ValueView::NumberArray(number_views(v@)),
        }
    }
}

/// A copy of the strings of `v`.
pub fn copy_texts(v: &Vec<String>) -> (r: Vec<String>)
    ensures
        texts(r@) == texts(v@),
{
    let mut r: Vec<String> = Vec::new();
    let mut i: usize = 0;
    while i < v.len()
        invariant
            i <= v.len(),
            texts(r@) == texts(v@.take(i as int)),
        decreases v.len() - i,
    {
        let ghost before = texts(r@);
        let item = v[i].clone();
        r.push(item);
        assert(texts(r@) =~= before.push(item@));
        assert(texts(v@.take(i + 1)) =~= texts(v@.take(i as int)).push(item@));
        i += 1;
    }
    assert(v@.take(v.len() as int) =~= v@);
    r
}

/// A copy of the numbers of `v`.
pub fn copy_numbers(v: &Vec<Number>) -> (r: Vec<Number>)
    ensures
        number_views(r@) == number_views(v@),
{
    let mut r: Vec<Number> = Vec::new();
    let mut i: usize = 0;
    while i < v.len()
        invariant
            i <= v.len(),
            number_views(r@) == number_views(v@.take(i as int)),
        decreases v.len() - i,
    {
        let ghost before = number_views(r@);
        let item = v[i].clone();
        r.push(item);
        assert(number_views(r@) =~= before.push(item@));
        assert(number_views(v@.take(i + 1)) =~= number_views(v@.take(i as int)).push(item@));
        i += 1;
    }
    assert(v@.take(v.len() as int) =~= v@);
    r
}

impl Clone for ValueType {
    fn clone(&self) -> (r: ValueType)
        ensures
            r@ == self@,
    {
        match self {
            ValueType::Number(n) => ValueType::Number(n.clone()),
            ValueType::String(s) => ValueType::String(s.clone()),
            ValueType::StringArray(v) => ValueType::StringArray(copy_texts(v)),
            ValueType::NumberArray(v) => ValueType::NumberArray(copy_numbers(v)),
        }
    }
}

/// `text` between two double quotes.
pub open spec fn in_quotes(text: Seq<char>) -> Seq<char> {
    "\""@ + text + "\""@
}

/// The texts `items`, with a comma and a space between them.
pub open spec fn enumerated(items: Seq<Seq<char>>) -> Seq<char>
    decreases items.len(),
{
    if items.len() == 0 {
        Seq::empty()
    } else if items.len() == 1 {
        items[0]
    } else {
        enumerated(items.drop_last()) + ", "@ + items.last()
    }
}

/// The texts of the elements of an array.
pub open spec fn element_texts(value: ValueView) -> Seq<Seq<char>> {
    match value {
        ValueView::StringArray(v) => Seq::new(v.len(), |i: int| in_quotes(v[i])),
        ValueView::NumberArray(v) => Seq::new(v.len(), |i: int| v[i].element),
        _ => Seq::empty(),
    }
}

/// The text that writes `value` in a file: a number by the text that spells
/// it alone, a string between double quotes, an array between brackets with
/// its elements set apart by a comma and a space, a string among them
/// between double quotes and a number by the text that spells it as an
/// element.
pub open spec fn rendered(value: ValueView) -> Seq<char> {
    match value {
        ValueView::Number(n) => n.text,
        ValueView::String(s) => in_quotes(s),
        _ => "["@ + enumerated(element_texts(value)) + "]"@,
    }
}

impl ValueType {
    /// The text that writes this value in a file.
    pub fn to_string(&self) -> (r: String)
        ensures
            r@ == rendered(self@),
    {
        match self {
            ValueType::Number(n) => n.text.clone(),
            ValueType::String(s) => glue3("\"", s.as_str(), "\""),
            ValueType::StringArray(v) => {
                let ghost items = element_texts(self@);
                let mut inner = String::new();
                let mut i: usize = 0;
                assert(items.take(0) =~= Seq::<Seq<char>>::empty());
                while i < v.len()
                    invariant
                        i <= v.len(),
                        items == element_texts(self@),
                        self@ == ValueView::StringArray(texts(v@)),
                        inner@ == enumerated(items.take(i as int)),
                    decreases v.len() - i,
                {
                    let item = glue3("\"", v[i].as_str(), "\"");
                    assert(items.take(i + 1).drop_last() =~= items.take(i as int));
                    assert(item@ == items[i as int]);
                    if i > 0 {
                        inner.append(", ");
                    }
                    inner.append(item.as_str());
                    assert(inner@ =~= enumerated(items.take(i + 1)));
                    i += 1;
                }
                assert(items.take(v.len() as int) =~= items);
                glue3("[", inner.as_str(), "]")
            },
            ValueType::NumberArray(v) => {
                let ghost items = element_texts(self@);
                let mut inner = String::new();
                let mut i: usize = 0;
                assert(items.take(0) =~= Seq::<Seq<char>>::empty());
                while i < v.len()
                    invariant
                        i <= v.len(),
                        items == element_texts(self@),
                        self@ == ValueView::NumberArray(number_views(v@)),
                        inner@ == enumerated(items.take(i as int)),
                    decreases v.len() - i,
                {
                    assert(items.take(i + 1).drop_last() =~= items.take(i as int));
                    assert(v[i as int].element@ == items[i as int]);
                    if i > 0 {
                        inner.append(", ");
                    }
                    inner.append(v[i].element.as_str());
                    assert(inner@ =~= enumerated(items.take(i + 1)));
                    i += 1;
                }
                assert(items.take(v.len() as int) =~= items);
                glue3("[", inner.as_str(), "]")
            },
        }
    }
}

/// A key of the file: its name, its value and what its decorators found.
#[derive(Debug, Clone)]
pub struct Key {
    pub key: String,
    pub scope: Scope,
    pub value: ValueType,
    pub position: FilePosition,
    pub valid: bool,
    pub errors: Vec<ValidationError>,
    pub decorators: Vec<DecoratorParseResult>,
}

pub struct KeyView {
    pub key: Seq<char>,
    pub scope: Scope,
    pub value: ValueView,
    pub place: Place,
    pub valid: bool,
    pub errors: Seq<ErrorView>,
    pub decorators: Seq<DeclarationView>,
}

impl View for Key {
    type V = KeyView;

    open spec fn view(&self) -> KeyView {
        KeyView {
            key: self.key@,
            scope: self.scope,
            value: self.value@,
            place: self.position@,
            valid: self.valid,
            errors: error_views(self.errors@),
            decorators: declaration_views(self.decorators@),
        }
    }
}

/// The views of a sequence of keys.
pub open spec fn key_views(s: Seq<Key>) -> Seq<KeyView> {
    s.map_values(|k: Key| k@)
}

/// A notice about the file as a whole, with the place it is about.
#[derive(Debug, Clone)]
pub struct ParseError {
    pub message: String,
    pub position: FilePosition,
}

pub struct NoticeView {
    pub message: Seq<char>,
    pub place: Place,
}

impl View for ParseError {
    type V = NoticeView;

    open spec fn view(&self) -> NoticeView {
        NoticeView { message: self.message@, place: self.position@ }
    }
}

impl ParseError {
    pub fn new(msg: String, pos: FilePosition) -> (r: Self)
        ensures
            r@ == (NoticeView { message: msg@, place: pos@ }),
    {
        ParseError { message: msg, position: pos }
    }
}

/// The views of a sequence of notices.
pub open spec fn notice_views(s: Seq<ParseError>) -> Seq<NoticeView> {
    s.map_values(|e: ParseError| e@)
}

/// What parsing a file gives: its keys in the order of their lines, the
/// errors and the warnings about the file as a whole, and whether all is
/// valid.
#[derive(Debug, Clone)]
pub struct ParseResult {
    pub keys: Vec<Key>,
    pub valid: bool,
    pub errors: Vec<ParseError>,
    pub warnings: Vec<ParseError>,
}

pub struct ResultView {
    pub keys: Seq<KeyView>,
    pub valid: bool,
    pub errors: Seq<NoticeView>,
    pub warnings: Seq<NoticeView>,
}

impl View for ParseResult {
    type V = ResultView;

    open spec fn view(&self) -> ResultView {
        ResultView {
            keys: key_views(self.keys@),
            valid: self.valid,
            errors: notice_views(self.errors@),
            warnings: notice_views(self.warnings@),
        }
    }
}

/// The result for a file without keys.
pub open spec fn blank() -> ResultView {
    ResultView { keys: Seq::empty(), valid: true, errors: Seq::empty(), warnings: Seq::empty() }
}

impl ParseResult {
    pub fn new() -> (r: Self)
        ensures
            r@ == blank(),
    {
        let r = ParseResult {
            keys: Vec::new(),
            valid: true,
            errors: Vec::new(),
            warnings: Vec::new(),
        };
        assert(r@.keys =~= blank().keys);
        assert(r@.errors =~= blank().errors);
        assert(r@.warnings =~= blank().warnings);
        r
    }
}

/// The views of a sequence of readings.
pub open spec fn reading_views(s: Seq<Option<Number>>) -> Seq<Option<NumberView>> {
    s.map_values(|r: Option<Number>| reading_view(r))
}

/// Whether every reading found a number.
pub open spec fn all_numbers(readings: Seq<Option<NumberView>>) -> bool {
    forall|i: int| 0 <= i < readings.len() ==> (#[trigger] readings[i]) is Some
}

/// The numbers that the readings found.
pub open spec fn numbers_of(readings: Seq<Option<NumberView>>) -> Seq<NumberView> {
    readings.map_values(|r: Option<NumberView>| r->0)
}

/// The quoted spans of the texts `bodies`.
pub open spec fn spans(bodies: Seq<Seq<char>>) -> Seq<Seq<char>> {
    bodies.map_values(|body: Seq<char>| quoted_span(body))
}

/// The elements of an array without their surrounding quotes.
pub open spec fn unquoted_all(parts: Seq<Seq<char>>) -> Seq<Seq<char>> {
    parts.map_values(|e: Seq<char>| unquoted(e))
}

/// The value that the text `val` has, where reading `val` as a whole gave
/// `whole` and reading its elements, one after the other, gave `readings`.
///
/// A text that reads as a number is that number. Else a text of several
/// elements is an array: of numbers if it holds no quoted span and every
/// element reads as a number, and else of the elements without their
/// surrounding quotes. A text of one element is that text without its
/// surrounding quotes.
pub open spec fn coerced(
    val: Seq<char>,
    whole: Option<NumberView>,
    readings: Seq<Option<NumberView>>,
) -> ValueView {
    match whole {
        Some(n) => ValueView::Number(n),
        None => {
            let parts = elements(val);
            if parts.len() > 1 {
                if !has_quoted(val) && readings.len() == parts.len() && all_numbers(readings) {
                    ValueView::NumberArray(numbers_of(readings))
                } else {
                    ValueView::StringArray(unquoted_all(parts))
                }
            } else {
                ValueView::String(unquoted(val))
            }
        },
    }
}

/// `readings` are answers that `arith` may give when it reads the elements
/// `parts` one after the other and stops after the first that is no number.
pub open spec fn element_readings<A: Arithmetic>(
    arith: &A,
    parts: Seq<Seq<char>>,
    readings: Seq<Option<NumberView>>,
) -> bool {
    &&& readings.len() <= parts.len()
    &&& forall|i: int| 0 <= i < readings.len() ==> reads(arith, parts[i], #[trigger] readings[i])
    &&& forall|i: int| 0 <= i < readings.len() - 1 ==> (#[trigger] readings[i]) is Some
    &&& readings.len() == parts.len() || (readings.len() > 0 && readings.last() is None)
}

/// `out` is a value that the text `val` may have under `arith`: the value
/// that it has by what `arith` answered when it read `val` and, where `val` is
/// no number and has several elements and no quoted span, its elements.
pub open spec fn coerces<A: Arithmetic>(arith: &A, val: Seq<char>, out: ValueView) -> bool {
    exists|whole: Option<NumberView>, readings: Seq<Option<NumberView>>|
        #![trigger coerced(val, whole, readings)]
        {
            &&& reads(arith, val, whole)
            &&& whole is None && elements(val).len() > 1 && !has_quoted(val) ==> element_readings(
                arith,
                elements(val),
                readings,
            )
            &&& out == coerced(val, whole, readings)
        }
}

/// A text that the arithmetic reads as a number has that number as its
/// value.
pub proof fn law_number_is_kept<A: Arithmetic>(
    arith: &A,
    val: Seq<char>,
    n: NumberView,
    out: ValueView,
)
    requires
        coerces(arith, val, out),
        forall|r: Option<NumberView>| reads(arith, val, r) ==> r == Some(n),
    ensures
        out == ValueView::Number(n),
{
}

/// A text that is no number as a whole, that has several elements and no
/// quoted span, and whose elements all read as numbers, has the array of
/// these numbers as its value, in the order of the elements.
pub proof fn law_numbers_make_number_array<A: Arithmetic>(
    arith: &A,
    val: Seq<char>,
    numbers: Seq<NumberView>,
    out: ValueView,
)
    requires
        coerces(arith, val, out),
        forall|r: Option<NumberView>| reads(arith, val, r) ==> r is None,
        elements(val).len() > 1,
        !has_quoted(val),
        numbers.len() == elements(val).len(),
        forall|i: int, r: Option<NumberView>|
            0 <= i < numbers.len() && #[trigger] reads(arith, elements(val)[i], r) ==> r == Some(
                numbers[i],
            ),
    ensures
        out == ValueView::NumberArray(numbers),
{
    let (whole, readings) = choose|whole: Option<NumberView>, readings: Seq<Option<NumberView>>|
        #![trigger coerced(val, whole, readings)]
        {
            &&& reads(arith, val, whole)
            &&& whole is None && elements(val).len() > 1 && !has_quoted(val) ==> element_readings(
                arith,
                elements(val),
                readings,
            )
            &&& out == coerced(val, whole, readings)
        };
    assert forall|i: int| 0 <= i < readings.len() implies readings[i] == Some(numbers[i]) by {
        assert(reads(arith, elements(val)[i], readings[i]));
    }
    if readings.len() < numbers.len() {
        assert(readings.last() == Some(numbers[readings.len() - 1]));
    }
    assert(numbers_of(readings) =~= numbers);
}

/// A text that is no number as a whole and that has several elements and a
/// quoted span has the array of its elements as its value, each without its
/// surrounding quotes, whatever the elements read as.
pub proof fn law_quoted_makes_string_array<A: Arithmetic>(
    arith: &A,
    val: Seq<char>,
    out: ValueView,
)
    requires
        coerces(arith, val, out),
        forall|r: Option<NumberView>| reads(arith, val, r) ==> r is None,
        elements(val).len() > 1,
        has_quoted(val),
    ensures
        out == ValueView::StringArray(unquoted_all(elements(val))),
{
}

/// An array has at least two elements, as many as the text has: a text of
/// one element is never an array.
pub proof fn law_arrays_have_several_elements(
    val: Seq<char>,
    whole: Option<NumberView>,
    readings: Seq<Option<NumberView>>,
)
    ensures
        coerced(val, whole, readings) matches ValueView::StringArray(v) ==> v.len() == elements(
            val,
        ).len() && v.len() >= 2,
        coerced(val, whole, readings) matches ValueView::NumberArray(v) ==> v.len() == elements(
            val,
        ).len() && v.len() >= 2,
{
}

/// The value of `chars`, split into `parts`, by the given readings.
fn decide(
    chars: &Vec<char>,
    parts: &Parts,
    whole: Option<Number>,
    readings: &Vec<Option<Number>>,
) -> (r: ValueType)
    requires
        char_views(parts.elements@) == elements(chars@),
        parts.quoted == has_quoted(chars@),
    ensures
        r@ == coerced(chars@, reading_view(whole), reading_views(readings@)),
{
    if let Some(n) = whole {
        return ValueType::Number(n);
    }
    let count = parts.elements.len();
    assert(char_views(parts.elements@).len() == count);
    if count > 1 {
        if !parts.quoted && readings.len() == count {
            let mut numbers: Vec<Number> = Vec::new();
            let mut all = true;
            let mut i: usize = 0;
            while i < count && all
                invariant
                    i <= count == readings.len(),
                    all ==> number_views(numbers@) == numbers_of(
                        reading_views(readings@).take(i as int),
                    ),
                    all ==> all_numbers(reading_views(readings@).take(i as int)),
                    !all ==> !all_numbers(reading_views(readings@)),
                decreases count - i + (if all { 1int } else { 0int }),
            {
                match &readings[i] {
                    Some(n) => {
                        let ghost before = number_views(numbers@);
                        let ghost read = reading_views(readings@);
                        let item = n.clone();
                        numbers.push(item);
                        assert(number_views(numbers@) =~= before.push(item@));
                        assert(read[i as int] == Some(item@));
                        assert(numbers_of(read.take(i + 1)) =~= numbers_of(
                            read.take(i as int),
                        ).push(item@));
                        i += 1;
                    },
                    None => {
                        assert(reading_views(readings@)[i as int] is None);
                        all = false;
                    },
                }
            }
            if all {
                assert(reading_views(readings@).take(count as int) =~= reading_views(readings@));
                return ValueType::NumberArray(numbers);
            }
        }
        let mut strings: Vec<String> = Vec::new();
        let mut j: usize = 0;
        while j < count
            invariant
                j <= count == parts.elements.len(),
                texts(strings@) == unquoted_all(char_views(parts.elements@).take(j as int)),
            decreases count - j,
        {
            let ghost before = texts(strings@);
            let ghost all = char_views(parts.elements@);
            let item = unquote(&parts.elements[j]);
            strings.push(item);
            assert(texts(strings@) =~= before.push(item@));
            assert(all[j as int] == parts.elements@[j as int]@);
            assert(unquoted_all(all.take(j + 1)) =~= unquoted_all(all.take(j as int)).push(
                item@,
            ));
            j += 1;
        }
        assert(char_views(parts.elements@).take(count as int) =~= char_views(parts.elements@));
        ValueType::StringArray(strings)
    } else {
        ValueType::String(unquote(chars))
    }
}

/// The value of the text `val` by readings that were made before: `whole`
/// for `val` itself, `readings` for its elements in their order.
pub fn coerce_with(val: &str, whole: Option<Number>, readings: Vec<Option<Number>>) -> (r:
    ValueType)
    ensures
        r@ == coerced(val@, reading_view(whole), reading_views(readings@)),
{
    let chars = chars_of(val);
    let parts = split_elements(&chars);
    decide(&chars, &parts, whole, &readings)
}

/// Coerces the string value into a value type. `val` is read as a whole; if
/// it is no number and has several elements and no quoted span, its elements
/// are read one after the other, up to the first that is no number.
pub fn coerce_value_type<A: Arithmetic>(val: &str, arith: &A) -> (r: ValueType)
    ensures
        coerces(arith, val@, r@),
{
    let whole = read_number(arith, val);
    let chars = chars_of(val);
    let parts = split_elements(&chars);
    let count = parts.elements.len();
    assert(char_views(parts.elements@).len() == count);
    let mut readings: Vec<Option<Number>> = Vec::new();
    if whole.is_none() && count > 1 && !parts.quoted {
        let mut i: usize = 0;
        let mut open = true;
        assert(reading_views(readings@) =~= Seq::<Option<NumberView>>::empty());
        while i < count && open
            invariant
                i <= count == parts.elements.len(),
                readings.len() == i,
                char_views(parts.elements@) == elements(chars@),
                forall|k: int|
                    0 <= k < i ==> reads(
                        arith,
                        elements(chars@)[k],
                        #[trigger] reading_views(readings@)[k],
                    ),
                open ==> all_numbers(reading_views(readings@)),
                !open ==> i > 0 && reading_views(readings@).last() is None && all_numbers(
                    reading_views(readings@).drop_last(),
                ),
            decreases count - i + (if open { 1int } else { 0int }),
        {
            let element = &parts.elements[i];
            let text = text_of(element, 0, element.len());
            assert(text@ =~= element@);
            assert(text@ == elements(chars@)[i as int]);
            let reading = read_number(arith, text.as_str());
            let ghost before = reading_views(readings@);
            let ghost view = reading_view(reading);
            if reading.is_none() {
                open = false;
            }
            readings.push(reading);
            assert(reading_views(readings@) =~= before.push(view));
            assert(reading_views(readings@).drop_last() =~= before);
            i += 1;
        }
        assert(element_readings(arith, elements(chars@), reading_views(readings@))) by {
            let rs = reading_views(readings@);
            assert forall|k: int| 0 <= k < rs.len() - 1 implies (#[trigger] rs[k]) is Some by {
                if !open {
                    assert(rs.drop_last()[k] is Some);
                }
            }
        }
    }
    let ghost seen = reading_view(whole);
    let r = decide(&chars, &parts, whole, &readings);
    assert(r@ == coerced(val@, seen, reading_views(readings@)));
    r
}

/// `result` is a result that parsing `content` may have under `arith`: the
/// assignments that the scanner finds in the content, each evaluated under
/// `arith` against the registry of the decorators, joined in order, with the
/// validity set at the end.
pub open spec fn parses<A: Arithmetic>(arith: &A, content: Seq<char>, result: ResultView) -> bool {
    let entries = scanned(trimmed(content));
    exists|evs: Seq<EvaluatedView>|
        #![trigger gathered(evs)]
        {
            &&& evs.len() == entries.len()
            &&& forall|i: int|
                0 <= i < entries.len() ==> evaluates(
                    arith,
                    registry(),
                    entries[i],
                    #[trigger] evs[i],
                )
            &&& result == sealed(gathered(evs))
        }
}

/// In a result no two keys have the same name; every assignment of the file
/// either is one of the keys or has given a warning; and the name of every
/// assignment is the name of one of the keys.
pub proof fn law_one_key_for_each_name_of_file<A: Arithmetic>(
    arith: &A,
    content: Seq<char>,
    result: ResultView,
)
    requires
        parses(arith, content, result),
    ensures
        distinct_names(result.keys),
        result.keys.len() + result.warnings.len() == scanned(trimmed(content)).len(),
        forall|i: int|
            0 <= i < scanned(trimmed(content)).len() ==> holds_name(
                result.keys,
                (#[trigger] scanned(trimmed(content))[i]).key,
            ),
{
    let entries = scanned(trimmed(content));
    let evs = choose|evs: Seq<EvaluatedView>|
        #![trigger gathered(evs)]
        {
            &&& evs.len() == entries.len()
            &&& forall|i: int|
                0 <= i < entries.len() ==> evaluates(
                    arith,
                    registry(),
                    entries[i],
                    #[trigger] evs[i],
                )
            &&& result == sealed(gathered(evs))
        };
    law_one_key_for_each_name(evs);
    assert forall|i: int| 0 <= i < entries.len() implies holds_name(
        result.keys,
        (#[trigger] entries[i]).key,
    ) by {
        assert(evaluates(arith, registry(), entries[i], evs[i]));
        assert(evs[i].key.key == entries[i].key);
    }
}

/// A file in which one name is assigned twice and every other name once has
/// exactly one warning, for the second assignment of that name and at its
/// place, and exactly one key of that name.
pub proof fn law_one_repeated_name_gives_one_warning<A: Arithmetic>(
    arith: &A,
    content: Seq<char>,
    result: ResultView,
    a: int,
    b: int,
)
    requires
        parses(arith, content, result),
        0 <= a < b < scanned(trimmed(content)).len(),
        scanned(trimmed(content))[a].key == scanned(trimmed(content))[b].key,
        forall|i: int, j: int|
            0 <= i < j < scanned(trimmed(content)).len() && !(i == a && j == b) ==> (
            #[trigger] scanned(trimmed(content))[i]).key != (#[trigger] scanned(
                trimmed(content),
            )[j]).key,
    ensures
        result.warnings == seq![
            NoticeView {
                message: duplicate_key(scanned(trimmed(content))[b].key),
                place: scanned(trimmed(content))[b].place,
            },
        ],
        result.keys.len() == scanned(trimmed(content)).len() - 1,
        distinct_names(result.keys),
        holds_name(result.keys, scanned(trimmed(content))[b].key),
{
    let entries = scanned(trimmed(content));
    let evs = choose|evs: Seq<EvaluatedView>|
        #![trigger gathered(evs)]
        {
            &&& evs.len() == entries.len()
            &&& forall|i: int|
                0 <= i < entries.len() ==> evaluates(
                    arith,
                    registry(),
                    entries[i],
                    #[trigger] evs[i],
                )
            &&& result == sealed(gathered(evs))
        };
    assert forall|i: int| 0 <= i < evs.len() implies (#[trigger] evs[i]).key.key == entries[i].key
        && evs[i].key.place == entries[i].place by {
        assert(evaluates(arith, registry(), entries[i], evs[i]));
    }
    assert(one_repeat(evs, a, b)) by {
        assert forall|i: int, j: int| 0 <= i < j < evs.len() && !(i == a && j == b) implies (
        #[trigger] evs[i]).key.key != (#[trigger] evs[j]).key.key by {
            assert(entries[i].key != entries[j].key);
        }
    }
    law_one_repeat_gives_one_warning(evs, a, b);
    law_one_key_for_each_name(evs);
}

/// A list of two or more quoted spans is an array of strings, whatever the
/// arithmetic reads its elements as: its elements are exactly what stands
/// between the quotes of each span, in order, so a comma inside quotes never
/// splits an element.
pub proof fn law_quoted_list_is_string_array<A: Arithmetic>(
    arith: &A,
    bodies: Seq<Seq<char>>,
    out: ValueView,
)
    requires
        bodies.len() >= 2,
        forall|i: int| 0 <= i < bodies.len() ==> enclosed(#[trigger] bodies[i]),
        coerces(arith, listed(spans(bodies)), out),
        forall|r: Option<NumberView>| reads(arith, listed(spans(bodies)), r) ==> r is None,
    ensures
        out == ValueView::StringArray(bodies),
{
    let items = spans(bodies);
    assert forall|i: int| 0 <= i < items.len() implies exists|body: Seq<char>|
        enclosed(body) && #[trigger] items[i] == quoted_span(body) by {
        assert(enclosed(bodies[i]) && items[i] == quoted_span(bodies[i]));
    }
    law_quoted_elements_are_kept(items);
    assert forall|i: int| 0 <= i < bodies.len() implies unquoted(items[i]) == bodies[i] by {
        lemma_unquoted_span(bodies[i]);
    }
    assert(unquoted_all(items) =~= bodies);
}

/// What stands in a quoted span without its surrounding quotes is what
/// stands between its two quotes.
pub proof fn lemma_unquoted_span(body: Seq<char>)
    ensures
        unquoted(quoted_span(body)) == body,
{
    let q = quoted_span(body);
    lemma_first_index_is(q, '"', 0);
    lemma_last_index_is(q, '"', q.len() - 1);
    assert(q.subrange(1, q.len() - 1) =~= body);
}

/// A file with a decorator line whose name is not the name of a decorator
/// has a result that is not valid, with an error about the file.
pub proof fn law_unknown_decorator_invalidates_file<A: Arithmetic>(
    arith: &A,
    content: Seq<char>,
    result: ResultView,
    i: int,
    j: int,
)
    requires
        parses(arith, content, result),
        0 <= i < scanned(trimmed(content)).len(),
        0 <= j < scanned(trimmed(content))[i].decorators.len(),
        found(registry(), name_of(scanned(trimmed(content))[i].decorators[j].text)) is None,
    ensures
        !result.valid,
        result.errors.len() > 0,
{
    let entries = scanned(trimmed(content));
    let evs = choose|evs: Seq<EvaluatedView>|
        #![trigger gathered(evs)]
        {
            &&& evs.len() == entries.len()
            &&& forall|i: int|
                0 <= i < entries.len() ==> evaluates(
                    arith,
                    registry(),
                    entries[i],
                    #[trigger] evs[i],
                )
            &&& result == sealed(gathered(evs))
        };
    assert(evaluates(arith, registry(), entries[i], evs[i]));
    law_unknown_name_gives_error(arith, registry(), entries[i], evs[i], j);
    law_unknown_decorator_invalidates(evs, i);
}

/// A result is valid exactly if it has no error about the file and each of
/// its keys is valid, and a key is valid exactly if it has no error.
pub proof fn law_valid_means_no_error<A: Arithmetic>(
    arith: &A,
    content: Seq<char>,
    result: ResultView,
)
    requires
        parses(arith, content, result),
    ensures
        result.valid <==> result.errors.len() == 0 && all_valid(result.keys),
        forall|k: int|
            0 <= k < result.keys.len() ==> ((#[trigger] result.keys[k]).valid
                <==> result.keys[k].errors.len() == 0),
{
    let entries = scanned(trimmed(content));
    let evs = choose|evs: Seq<EvaluatedView>|
        #![trigger gathered(evs)]
        {
            &&& evs.len() == entries.len()
            &&& forall|i: int|
                0 <= i < entries.len() ==> evaluates(
                    arith,
                    registry(),
                    entries[i],
                    #[trigger] evs[i],
                )
            &&& result == sealed(gathered(evs))
        };
    law_one_key_for_each_name(evs);
    assert forall|k: int| 0 <= k < result.keys.len() implies ((#[trigger] result.keys[k]).valid
        <==> result.keys[k].errors.len() == 0) by {
        assert(survives(evs, result.keys[k]));
        let i = choose|i: int| 0 <= i < evs.len() && (#[trigger] evs[i]).key == result.keys[k];
        assert(evaluates(arith, registry(), entries[i], evs[i]));
    }
}

/// The keys of a result stand in the order of their lines: each was
/// assigned on a later line than the one before it.
pub proof fn law_keys_follow_lines<A: Arithmetic>(arith: &A, content: Seq<char>, result: ResultView)
    requires
        parses(arith, content, result),
    ensures
        forall|i: int, j: int|
            0 <= i < j < result.keys.len() ==> (#[trigger] result.keys[i]).place.line < (
            #[trigger] result.keys[j]).place.line,
{
    let entries = scanned(trimmed(content));
    let evs = choose|evs: Seq<EvaluatedView>|
        #![trigger gathered(evs)]
        {
            &&& evs.len() == entries.len()
            &&& forall|i: int|
                0 <= i < entries.len() ==> evaluates(
                    arith,
                    registry(),
                    entries[i],
                    #[trigger] evs[i],
                )
            &&& result == sealed(gathered(evs))
        };
    law_entries_follow_lines(trimmed(content));
    assert forall|i: int| 0 <= i < evs.len() implies (#[trigger] evs[i]).key.place
        == entries[i].place by {
        assert(evaluates(arith, registry(), entries[i], evs[i]));
    }
    assert forall|i: int, j: int| 0 <= i < j < evs.len() implies (
    #[trigger] evs[i]).key.place.line < (#[trigger] evs[j]).key.place.line by {
        assert(entries[i].place.line < entries[j].place.line);
    }
    lemma_gathered_in_order(evs);
}

/// Parses the content of a file: scans it in one pass, gives each key its
/// value, holds it to the decorators declared above it, and gathers the keys
/// with the errors and warnings about the file. Numbers are read and
/// compared by `arith`. The content may hold at most `u32::MAX - 1`
/// characters.
pub fn parse<A: Arithmetic>(content: &str, arith: &A) -> (result: ParseResult)
    requires
        content@.len() < u32::MAX,
    ensures
        parses(arith, content@, result@),
{
    let table = crate::decorators::get();
    let entries = scan(content);
    let mut result = ParseResult::new();
    let ghost found = entry_views(entries@);
    let ghost mut evs: Seq<EvaluatedView> = Seq::empty();
    let n = entries.len();
    let mut i: usize = 0;
    while i < n
        invariant
            i <= n == entries.len(),
            found == entry_views(entries@),
            decorator_views(table@) == registry(),
            evs.len() == i,
            forall|k: int| 0 <= k < i ==> evaluates(arith, registry(), found[k], #[trigger] evs[k]),
            result@ == gathered(evs),
        decreases n - i,
    {
        let ev = evaluate(&entries[i], &table, arith);
        proof {
            let ghost earlier = evs;
            evs = evs.push(ev@);
            assert(evs.drop_last() =~= earlier);
            assert(found[i as int] == entries[i as int]@);
        }
        result = join(result, ev);
        i += 1;
    }
    let result = seal(result);
    assert(result@ == sealed(gathered(evs)));
    result
}

} // verus!
