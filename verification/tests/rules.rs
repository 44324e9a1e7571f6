use vnv::decorators::bounds::{check_bound, judge_bound, Limit};
use vnv::decorators::texts::{check_texts, TextRule};
use vnv::decorators::{
    find, get, parse_with, DecoratorValidationResult, DecoratorValue, ValidationError, Validator,
};
use vnv::numeric::{Arithmetic, Number};
use vnv::parsing::{coerce_value_type, coerce_with, parse, ValueType};

/// Double-precision arithmetic as the machine has it.
struct Doubles;

impl Arithmetic for Doubles {
    fn read(&self, text: &str) -> Option<Number> {
        match text.parse::<f64>() {
            Ok(v) => Some(Number::new(v.to_bits(), v.to_string(), format!("{:?}", v))),
            Err(_) => None,
        }
    }

    fn count(&self, length: usize) -> u64 {
        (length as f64).to_bits()
    }

    fn less(&self, a: u64, b: u64) -> bool {
        f64::from_bits(a) < f64::from_bits(b)
    }

    fn within(&self, a: u64, b: u64, tolerance: u64) -> bool {
        (f64::from_bits(a) - f64::from_bits(b)).abs() < f64::from_bits(tolerance)
    }
}

#[allow(dead_code)]
fn number(n: &Number) -> f64 {
    f64::from_bits(n.bits)
}

#[allow(dead_code)]
fn numbers(v: &Vec<Number>) -> Vec<f64> {
    let mut r = Vec::new();
    for n in v {
        r.push(number(n));
    }
    r
}

#[allow(dead_code)]
fn messages(errors: &Vec<ValidationError>) -> Vec<String> {
    let mut r = Vec::new();
    for e in errors {
        r.push(e.message.clone());
    }
    r
}


fn read(text: &str) -> Number {
    Doubles.read(text).unwrap()
}

fn outcome(result: DecoratorValidationResult) -> Vec<String> {
    match result {
        DecoratorValidationResult::Pass => Vec::new(),
        DecoratorValidationResult::Error(errors) => {
            assert!(errors.len() > 0);
            messages(&errors)
        }
    }
}

fn first_message(content: &str) -> String {
    let result = parse(content, &Doubles);
    assert_eq!(result.keys.len(), 1);
    assert_eq!(result.keys[0].errors.len(), 1);
    assert!(result.keys[0].errors[0].value.is_none());
    assert!(!result.valid);
    result.keys[0].errors[0].message.clone()
}

#[test]
fn coerce_reads_numbers() {
    match coerce_value_type("25", &Doubles) {
        ValueType::Number(n) => {
            assert_eq!(number(&n), 25.0);
            assert_eq!(n.text, "25");
        }
        _ => panic!("expected a number"),
    }
    match coerce_value_type("-2.5e3", &Doubles) {
        ValueType::Number(n) => {
            assert_eq!(number(&n), -2500.0);
            assert_eq!(n.text, "-2500");
        }
        _ => panic!("expected a number"),
    }
    match coerce_value_type("0.1", &Doubles) {
        ValueType::Number(n) => assert_eq!(n.bits, 0.1f64.to_bits()),
        _ => panic!("expected a number"),
    }
}

#[test]
fn coerce_reads_number_arrays_in_order() {
    match coerce_value_type("3, 1,2.5", &Doubles) {
        ValueType::NumberArray(v) => assert_eq!(numbers(&v), vec![3.0, 1.0, 2.5]),
        _ => panic!("expected an array of numbers"),
    }
}

#[test]
fn coerce_keeps_quoted_numbers_as_strings() {
    match coerce_value_type("\"1\", \"2\"", &Doubles) {
        ValueType::StringArray(v) => assert_eq!(v, vec!["1", "2"]),
        _ => panic!("expected an array of strings"),
    }
    match coerce_value_type("1, \"2\"", &Doubles) {
        ValueType::StringArray(v) => assert_eq!(v, vec!["1", "2"]),
        _ => panic!("expected an array of strings"),
    }
}

#[test]
fn coerce_makes_mixed_arrays_strings() {
    match coerce_value_type("1,two,3", &Doubles) {
        ValueType::StringArray(v) => assert_eq!(v, vec!["1", "two", "3"]),
        _ => panic!("expected an array of strings"),
    }
    match coerce_value_type("1,2,", &Doubles) {
        ValueType::StringArray(v) => assert_eq!(v, vec!["1", "2", ""]),
        _ => panic!("expected an array of strings"),
    }
}

#[test]
fn coerce_strips_quotes_of_single_text() {
    match coerce_value_type("\"hello world\"", &Doubles) {
        ValueType::String(s) => assert_eq!(s, "hello world"),
        _ => panic!("expected a string"),
    }
    match coerce_value_type("hello world", &Doubles) {
        ValueType::String(s) => assert_eq!(s, "hello world"),
        _ => panic!("expected a string"),
    }
    match coerce_value_type("", &Doubles) {
        ValueType::String(s) => assert_eq!(s, ""),
        _ => panic!("expected a string"),
    }
    match coerce_value_type("\"open", &Doubles) {
        ValueType::String(s) => assert_eq!(s, ""),
        _ => panic!("expected a string"),
    }
}

#[test]
fn coerce_with_follows_the_readings() {
    match coerce_with("anything", Some(Number::new(7, String::from("seven"), String::from("seven.0"))), Vec::new()) {
        ValueType::Number(n) => {
            assert_eq!(n.bits, 7);
            assert_eq!(n.text, "seven");
            assert_eq!(n.element, "seven.0");
        }
        _ => panic!("expected a number"),
    }
    let both = vec![Some(read("1")), Some(read("2"))];
    match coerce_with("a,b", None, both) {
        ValueType::NumberArray(v) => assert_eq!(numbers(&v), vec![1.0, 2.0]),
        _ => panic!("expected an array of numbers"),
    }
    match coerce_with("a,b", None, vec![Some(read("1")), None]) {
        ValueType::StringArray(v) => assert_eq!(v, vec!["a", "b"]),
        _ => panic!("expected an array of strings"),
    }
    match coerce_with("a,b", None, vec![Some(read("1"))]) {
        ValueType::StringArray(v) => assert_eq!(v, vec!["a", "b"]),
        _ => panic!("expected an array of strings"),
    }
    match coerce_with("\"a\",\"b\"", None, vec![Some(read("1")), Some(read("2"))]) {
        ValueType::StringArray(v) => assert_eq!(v, vec!["a", "b"]),
        _ => panic!("expected an array of strings"),
    }
}

#[test]
fn decorator_text_is_split_at_parentheses() {
    let d = vnv::decorators::parse("startsWith(\"https\")", &Doubles);
    assert_eq!(d.key, "startsWith");
    match d.value {
        DecoratorValue::String(s) => assert_eq!(s, "https"),
        _ => panic!("expected a text"),
    }
    let d = vnv::decorators::parse("min(5)", &Doubles);
    assert_eq!(d.key, "min");
    match d.value {
        DecoratorValue::Integer(n) => {
            assert_eq!(number(&n), 5.0);
            assert_eq!(n.text, "5");
        }
        _ => panic!("expected a number"),
    }
    let d = vnv::decorators::parse("public", &Doubles);
    assert_eq!(d.key, "public");
    assert!(matches!(d.value, DecoratorValue::Missing));
    let d = vnv::decorators::parse("min()", &Doubles);
    match d.value {
        DecoratorValue::String(s) => assert_eq!(s, ""),
        _ => panic!("expected a text"),
    }
    let d = vnv::decorators::parse("max(7", &Doubles);
    assert_eq!(d.key, "max");
    match d.value {
        DecoratorValue::Integer(n) => assert_eq!(number(&n), 7.0),
        _ => panic!("expected a number"),
    }
    let d = vnv::decorators::parse("a)b(c", &Doubles);
    assert_eq!(d.key, "a)b");
    match d.value {
        DecoratorValue::String(s) => assert_eq!(s, "c"),
        _ => panic!("expected a text"),
    }
}

#[test]
fn declaration_follows_the_reading() {
    let d = parse_with("min(x)", Some(Number::new(1, String::from("one"), String::from("one.0"))));
    assert_eq!(d.key, "min");
    match d.value {
        DecoratorValue::Integer(n) => assert_eq!(n.bits, 1),
        _ => panic!("expected a number"),
    }
    let d = parse_with("min(\"x\")", None);
    match d.value {
        DecoratorValue::String(s) => assert_eq!(s, "x"),
        _ => panic!("expected a text"),
    }
    let d = parse_with("min", Some(Number::new(1, String::from("one"), String::from("one.0"))));
    assert!(matches!(d.value, DecoratorValue::Missing));
}

#[test]
fn argument_follows_the_reading() {
    match DecoratorValue::from_str("12", &Doubles) {
        DecoratorValue::Integer(n) => assert_eq!(number(&n), 12.0),
        _ => panic!("expected a number"),
    }
    match DecoratorValue::from_str("\"12\"", &Doubles) {
        DecoratorValue::String(s) => assert_eq!(s, "12"),
        _ => panic!("expected a text"),
    }
    match DecoratorValue::from_reading("12", None) {
        DecoratorValue::String(s) => assert_eq!(s, "12"),
        _ => panic!("expected a text"),
    }
}

#[test]
fn registry_holds_the_eight_decorators() {
    let table = get();
    let names: Vec<&str> = table.iter().map(|d| d.name.as_str()).collect();
    assert_eq!(
        names,
        vec![
            "private",
            "public",
            "min",
            "max",
            "startsWith",
            "endsWith",
            "matches",
            "doesNotMatch"
        ]
    );
    assert!(matches!(
        find(&table, &String::from("max")).unwrap().validator,
        Validator::Bound(Limit::Max)
    ));
    assert!(matches!(
        find(&table, &String::from("endsWith")).unwrap().validator,
        Validator::Text(TextRule::EndsWith)
    ));
    assert!(matches!(find(&table, &String::from("private")).unwrap().validator, Validator::Always));
    assert!(find(&table, &String::from("Min")).is_none());
    assert!(find(&table, &String::from("")).is_none());
}

#[test]
fn bound_needs_a_number() {
    assert_eq!(
        first_message("@min(\"five\")\nA=1"),
        "'five' is not valid for decorator type 'min'. 'min' requires a number value."
    );
    assert_eq!(
        first_message("@max(five)\nA=1"),
        "'five' is not valid for decorator type 'max'. 'max' requires a number value."
    );
    assert_eq!(
        first_message("@min\nA=1"),
        "The min decorator requires a value to be provided with it. Ex: `@min(5)`"
    );
    assert_eq!(
        first_message("@max\nA=1"),
        "The max decorator requires a value to be provided with it. Ex: `@max(5)`"
    );
}

#[test]
fn text_rules_need_a_text() {
    assert_eq!(
        first_message("@startsWith(5)\nA=\"a\""),
        "'5' is not valid for decorator type 'startsWith'. 'startsWith' requires a string value."
    );
    assert_eq!(
        first_message("@endsWith(2.50)\nA=\"a\""),
        "'2.5' is not valid for decorator type 'endsWith'. 'endsWith' requires a string value."
    );
    assert_eq!(first_message("@matches(5)\nA=\"a\""), "You must provide a string value to matches.");
    assert_eq!(
        first_message("@doesNotMatch(5)\nA=\"a\""),
        "You must provide a string value to doesNotMatch."
    );
    assert_eq!(
        first_message("@startsWith\nA=\"a\""),
        "The startsWith decorator requires a value to be provided with it. Ex: `@startsWith(\"index\")`"
    );
    assert_eq!(
        first_message("@endsWith\nA=\"a\""),
        "The endsWith decorator requires a value to be provided with it. Ex: `@endsWith(\"index\")`"
    );
    assert_eq!(
        first_message("@matches\nA=\"a\""),
        "The matches decorator requires a value to be provided with it. Ex: `@matches(\"index\")`"
    );
    assert_eq!(
        first_message("@doesNotMatch\nA=\"a\""),
        "The doesNotMatch decorator requires a value to be provided with it. Ex: `@doesNotMatch(\"index\")`"
    );
}

#[test]
fn text_rules_do_not_take_numbers() {
    assert_eq!(
        first_message("@startsWith(\"a\")\nA=1"),
        "startsWith does not support this variable type. startsWith only supports the string and string array types."
    );
    assert_eq!(
        first_message("@endsWith(\"a\")\nA=[1,2]"),
        "endsWith does not support this variable type. endsWith only supports the string and string array types."
    );
    assert_eq!(
        first_message("@matches(\"(\")\nA=1"),
        "matches does not support this variable type. matches only supports the string and string array types."
    );
    assert_eq!(
        first_message("@doesNotMatch(\"a\")\nA=[1,2]"),
        "doesNotMatch does not support this variable type. doesNotMatch only supports the string and string array types."
    );
}

#[test]
fn pattern_that_does_not_compile_is_reported() {
    assert_eq!(first_message("@matches(\"a(\")\nA=\"a\""), "Couldn't parse regex a(.");
    assert_eq!(
        first_message("@doesNotMatch(\"[\")\nA=[\"a\", \"b\"]"),
        "Couldn't parse regex [."
    );
}

#[test]
fn matches_reports_each_string_that_does_not_match() {
    let rule = DecoratorValue::String(String::from("^\\d+$"));
    let value = ValueType::StringArray(vec![
        String::from("12"),
        String::from("x1"),
        String::from("7"),
        String::from(""),
    ]);
    assert_eq!(
        outcome(check_texts(TextRule::Matches, &value, &rule)),
        vec!["'x1' does not match '^\\d+$'.", "'' does not match '^\\d+$'."]
    );
    assert_eq!(
        outcome(check_texts(TextRule::DoesNotMatch, &value, &rule)),
        vec!["'12' matches '^\\d+$'.", "'7' matches '^\\d+$'."]
    );
    let one = ValueType::String(String::from("123"));
    assert!(outcome(check_texts(TextRule::Matches, &one, &rule)).is_empty());
    let part = DecoratorValue::String(String::from("b"));
    let word = ValueType::String(String::from("abc"));
    assert!(outcome(check_texts(TextRule::Matches, &word, &part)).is_empty());
    assert_eq!(outcome(check_texts(TextRule::DoesNotMatch, &word, &part)), vec!["'abc' matches 'b'."]);
}

#[test]
fn affixes_are_compared_character_by_character() {
    let value = ValueType::StringArray(vec![
        String::from("https://a"),
        String::from("http://b"),
        String::from("https"),
        String::from(""),
    ]);
    let prefix = DecoratorValue::String(String::from("https"));
    assert_eq!(
        outcome(check_texts(TextRule::StartsWith, &value, &prefix)),
        vec!["'http://b' does not start with 'https'", "'' does not start with 'https'"]
    );
    let suffix = DecoratorValue::String(String::from("//b"));
    assert_eq!(
        outcome(check_texts(TextRule::EndsWith, &value, &suffix)),
        vec![
            "'https://a' does not end with '//b'",
            "'https' does not end with '//b'",
            "'' does not end with '//b'"
        ]
    );
    let empty = DecoratorValue::String(String::new());
    assert!(outcome(check_texts(TextRule::StartsWith, &value, &empty)).is_empty());
    assert!(outcome(check_texts(TextRule::EndsWith, &value, &empty)).is_empty());
}

#[test]
fn error_carries_the_element_it_is_about() {
    let value = ValueType::StringArray(vec![String::from("ab"), String::from("cd")]);
    let prefix = DecoratorValue::String(String::from("a"));
    match check_texts(TextRule::StartsWith, &value, &prefix) {
        DecoratorValidationResult::Error(errors) => {
            assert_eq!(errors.len(), 1);
            match &errors[0].value {
                Some(ValueType::String(s)) => assert_eq!(s, "cd"),
                _ => panic!("expected the element"),
            }
        }
        _ => panic!("expected an error"),
    }
    let value = ValueType::NumberArray(vec![read("1"), read("9")]);
    match check_bound(Limit::Max, &value, &DecoratorValue::Integer(read("5")), &Doubles) {
        DecoratorValidationResult::Error(errors) => {
            assert_eq!(errors.len(), 1);
            match &errors[0].value {
                Some(ValueType::Number(n)) => assert_eq!(number(n), 9.0),
                _ => panic!("expected the element"),
            }
        }
        _ => panic!("expected an error"),
    }
}

#[test]
fn value_at_the_bound_passes() {
    let bound = DecoratorValue::Integer(read("10"));
    let at = ValueType::Number(read("10"));
    assert!(outcome(check_bound(Limit::Min, &at, &bound, &Doubles)).is_empty());
    assert!(outcome(check_bound(Limit::Max, &at, &bound, &Doubles)).is_empty());
    let near = ValueType::Number(read("10.0000000001"));
    assert!(outcome(check_bound(Limit::Max, &near, &bound, &Doubles)).is_empty());
    let below = ValueType::Number(read("9.9999999999"));
    assert!(outcome(check_bound(Limit::Min, &below, &bound, &Doubles)).is_empty());
    let all = ValueType::NumberArray(vec![read("10"), read("10.0")]);
    assert!(outcome(check_bound(Limit::Min, &all, &bound, &Doubles)).is_empty());
    assert!(outcome(check_bound(Limit::Max, &all, &bound, &Doubles)).is_empty());
    let five = DecoratorValue::Integer(read("5"));
    let word = ValueType::String(String::from("abcde"));
    assert!(outcome(check_bound(Limit::Min, &word, &five, &Doubles)).is_empty());
    assert!(outcome(check_bound(Limit::Max, &word, &five, &Doubles)).is_empty());
}

#[test]
fn infinite_value_at_infinite_bound_passes() {
    let bound = DecoratorValue::Integer(read("inf"));
    let at = ValueType::Number(read("inf"));
    assert!(outcome(check_bound(Limit::Max, &at, &bound, &Doubles)).is_empty());
    assert!(outcome(check_bound(Limit::Min, &at, &bound, &Doubles)).is_empty());
    let low = DecoratorValue::Integer(read("-inf"));
    let under = ValueType::NumberArray(vec![read("-inf"), read("-infinity")]);
    assert!(outcome(check_bound(Limit::Max, &under, &low, &Doubles)).is_empty());
    assert!(outcome(check_bound(Limit::Min, &under, &low, &Doubles)).is_empty());
    assert_eq!(
        outcome(check_bound(Limit::Max, &at, &low, &Doubles)),
        vec!["inf is too large. Maximum value is -inf."]
    );
    assert_eq!(
        outcome(check_bound(Limit::Min, &under, &bound, &Doubles)),
        vec![
            "-inf is too small. Minimum value is inf.",
            "-inf is too small. Minimum value is inf."
        ]
    );
}

#[test]
fn value_that_is_no_number_is_beyond_no_bound() {
    let bound = DecoratorValue::Integer(read("10"));
    let value = ValueType::Number(read("nan"));
    assert!(outcome(check_bound(Limit::Max, &value, &bound, &Doubles)).is_empty());
    assert!(outcome(check_bound(Limit::Min, &value, &bound, &Doubles)).is_empty());
}

#[test]
fn maximum_fails_only_above_the_bound() {
    let result = parse("@max(10)\nA=[9, 10, 10.5, 11]", &Doubles);
    assert_eq!(
        messages(&result.keys[0].errors),
        vec!["10.5 is too large. Maximum value is 10.", "11 is too large. Maximum value is 10."]
    );
}

#[test]
fn bounds_report_each_scalar_beyond() {
    let bound = DecoratorValue::Integer(read("2.5"));
    let value = ValueType::NumberArray(vec![read("1"), read("3"), read("2.5"), read("-4")]);
    assert_eq!(
        outcome(check_bound(Limit::Min, &value, &bound, &Doubles)),
        vec!["1 is too small. Minimum value is 2.5.", "-4 is too small. Minimum value is 2.5."]
    );
    assert_eq!(
        outcome(check_bound(Limit::Max, &value, &bound, &Doubles)),
        vec!["3 is too large. Maximum value is 2.5."]
    );
    let words = ValueType::StringArray(vec![String::from("ab"), String::from("abc")]);
    assert_eq!(
        outcome(check_bound(Limit::Min, &words, &bound, &Doubles)),
        vec!["'ab' is too short. Minimum length is 2.5."]
    );
    assert_eq!(
        outcome(check_bound(Limit::Max, &words, &bound, &Doubles)),
        vec!["'abc' is too long. Maximum length is 2.5."]
    );
}

#[test]
fn string_length_counts_bytes() {
    let bound = DecoratorValue::Integer(read("3"));
    let word = ValueType::String(String::from("h\u{e9}\u{e9}"));
    assert_eq!(
        outcome(check_bound(Limit::Max, &word, &bound, &Doubles)),
        vec!["'h\u{e9}\u{e9}' is too long. Maximum length is 3."]
    );
}

#[test]
fn judged_bound_follows_the_answers() {
    let bound = DecoratorValue::Integer(read("5"));
    let value = ValueType::NumberArray(vec![read("1"), read("2"), read("3")]);
    assert_eq!(
        outcome(judge_bound(Limit::Min, &value, &bound, &vec![false, true, false])),
        vec!["2 is too small. Minimum value is 5."]
    );
    assert_eq!(
        outcome(judge_bound(Limit::Max, &value, &bound, &vec![true])),
        vec!["1 is too large. Maximum value is 5."]
    );
    assert!(outcome(judge_bound(Limit::Max, &value, &bound, &Vec::new())).is_empty());
    let word = ValueType::String(String::from("ab"));
    assert_eq!(
        outcome(judge_bound(Limit::Min, &word, &bound, &vec![true])),
        vec!["'ab' is too short. Minimum length is 5."]
    );
    let table = get();
    let min = find(&table, &String::from("min")).unwrap();
    assert_eq!(
        outcome(min.judge(&word, &bound, &vec![true])),
        vec!["'ab' is too short. Minimum length is 5."]
    );
    assert!(outcome(min.validate(&word, &DecoratorValue::Integer(read("2")), &Doubles)).is_empty());
    let public = find(&table, &String::from("public")).unwrap();
    assert!(outcome(public.validate(&word, &DecoratorValue::Missing, &Doubles)).is_empty());
}
