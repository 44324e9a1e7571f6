use vnv::decorators::ValidationError;
use vnv::numeric::{Arithmetic, Number, TOLERANCE};
use vnv::parsing::config::Options;
use vnv::parsing::scanner::scan;
use vnv::parsing::{FilePosition, ParseError, ParseResult, ValueType};
use vnv::decorators::{get, find, DecoratorParseResult, DecoratorValidationResult, DecoratorValue};
use vnv::parsing::assembler::Ledger;
use vnv::parsing::Scope;
use vnv::text::is_whitespace;
use vnv::util::{compare, number_pad, trim_quotes, Answer, CompareResult};

/// Double-precision arithmetic as the machine has it.
struct Doubles;

impl Arithmetic for Doubles {
    fn read(&self, text: &str) -> Option<Number> {
        match text.parse::<f64>() {
            Ok(v) => Some(Number::new(v.to_bits(), v.to_string(), format!("{:?}", v))),
            Err(_) => None,
        }
    }

    fn count(&self, length: usize) -> u64 {
        (length as f64).to_bits()
    }

    fn less(&self, a: u64, b: u64) -> bool {
        f64::from_bits(a) < f64::from_bits(b)
    }

    fn within(&self, a: u64, b: u64, tolerance: u64) -> bool {
        (f64::from_bits(a) - f64::from_bits(b)).abs() < f64::from_bits(tolerance)
    }
}

fn bits(v: f64) -> u64 {
    v.to_bits()
}

#[test]
fn tolerance_is_one_billionth() {
    assert_eq!(f64::from_bits(TOLERANCE), 1e-9);
}

#[test]
fn compare_looks_at_closeness_first() {
    assert_eq!(compare(bits(1.0), bits(2.0), &Doubles), CompareResult::Less);
    assert_eq!(compare(bits(2.0), bits(1.0), &Doubles), CompareResult::Greater);
    assert_eq!(compare(bits(2.0), bits(2.0), &Doubles), CompareResult::Equal);
    assert_eq!(compare(bits(2.0), bits(2.0 + 1e-10), &Doubles), CompareResult::Equal);
    assert_eq!(compare(bits(2.0), bits(2.0 + 1e-8), &Doubles), CompareResult::Less);
    assert_eq!(compare(bits(-0.0), bits(0.0), &Doubles), CompareResult::Equal);
    assert_eq!(compare(bits(f64::INFINITY), bits(f64::INFINITY), &Doubles), CompareResult::Equal);
    assert_eq!(compare(bits(f64::INFINITY), bits(1.0), &Doubles), CompareResult::Greater);
    assert_eq!(compare(bits(f64::NEG_INFINITY), bits(1.0), &Doubles), CompareResult::Less);
    assert_eq!(compare(bits(f64::NAN), bits(1.0), &Doubles), CompareResult::Equal);
}

#[test]
fn trim_quotes_takes_what_stands_between_first_and_last() {
    assert_eq!(trim_quotes("say \"a\" and \"b\" now"), "a\" and \"b");
    assert_eq!(trim_quotes("\"\""), "");
    assert_eq!(trim_quotes("\""), "");
    assert_eq!(trim_quotes("a\"b"), "");
    assert_eq!(trim_quotes(""), "");
    assert_eq!(trim_quotes("h\u{e9}\"\u{e9}\u{e9}\"x"), "\u{e9}\u{e9}");
}

#[test]
fn number_pad_fills_to_the_left() {
    assert_eq!(number_pad(0, 1), "0");
    assert_eq!(number_pad(42, 2), "42");
    assert_eq!(number_pad(42, 5), "   42");
    assert_eq!(number_pad(4294967295, 10), "4294967295");
    assert_eq!(number_pad(1000, 6), "  1000");
    assert_eq!(number_pad(1000, 2), "1000");
    assert_eq!(number_pad(7, 0), "7");
}

#[test]
fn answer_is_shown_by_its_letter() {
    assert_eq!(Answer::Yes.to_string(), "y");
    assert_eq!(Answer::No.to_string(), "N");
}

#[test]
fn first_position_is_line_one_column_one() {
    let p = FilePosition::new();
    assert_eq!((p.line, p.column), (1, 1));
}

#[test]
fn parse_error_keeps_message_and_position() {
    let e = ParseError::new(String::from("wrong"), FilePosition { line: 3, column: 9 });
    assert_eq!(e.message, "wrong");
    assert_eq!((e.position.line, e.position.column), (3, 9));
}

#[test]
fn validation_error_keeps_message_and_value() {
    let e = ValidationError::new("bad", Some(ValueType::String(String::from("v"))));
    assert_eq!(e.message, "bad");
    match e.value {
        Some(ValueType::String(s)) => assert_eq!(s, "v"),
        _ => panic!("expected the value"),
    }
    assert!(ValidationError::new("bad", None).value.is_none());
}

#[test]
fn new_result_is_empty_and_valid() {
    let r = ParseResult::new();
    assert!(r.valid);
    assert_eq!(r.keys.len() + r.errors.len() + r.warnings.len(), 0);
}

#[test]
fn values_are_written_as_in_a_file() {
    let n = Doubles.read("2.50").unwrap();
    assert_eq!(ValueType::Number(n).to_string(), "2.5");
    assert_eq!(ValueType::String(String::from("a b")).to_string(), "\"a b\"");
    let words = ValueType::StringArray(vec![String::from("a"), String::from("b,c")]);
    assert_eq!(words.to_string(), "[\"a\", \"b,c\"]");
    let numbers = ValueType::NumberArray(vec![
        Doubles.read("1").unwrap(),
        Doubles.read("0.5").unwrap(),
        Doubles.read("3e2").unwrap(),
    ]);
    assert_eq!(numbers.to_string(), "[1.0, 0.5, 300.0]");
    assert_eq!(ValueType::StringArray(Vec::new()).to_string(), "[]");
    assert_eq!(ValueType::NumberArray(vec![Doubles.read("7").unwrap()]).to_string(), "[7.0]");
}

#[test]
fn number_array_is_written_with_fractions() {
    let array = ValueType::NumberArray(vec![
        Doubles.read("15.0").unwrap(),
        Doubles.read("20").unwrap(),
    ]);
    assert_eq!(array.to_string(), "[15.0, 20.0]");
    assert_eq!(ValueType::Number(Doubles.read("15.0").unwrap()).to_string(), "15");
    let wide = ValueType::NumberArray(vec![
        Doubles.read("1e16").unwrap(),
        Doubles.read("-0.25").unwrap(),
    ]);
    assert_eq!(wide.to_string(), "[1e16, -0.25]");
}

#[test]
fn copies_keep_the_value() {
    let words = ValueType::StringArray(vec![String::from("a"), String::from("b")]);
    match words.clone() {
        ValueType::StringArray(v) => assert_eq!(v, vec!["a", "b"]),
        _ => panic!("expected an array of strings"),
    }
    let n = Doubles.read("4").unwrap();
    let copy = n.clone();
    assert_eq!((copy.bits, copy.text, copy.element), (n.bits, n.text, n.element));
}

#[test]
fn settings_default_where_nothing_is_set() {
    let o = Options::new();
    assert_eq!(o.src, ".vnv");
    assert!(!o.cloak);
    assert_eq!(o.build.output, ".env");
    assert!(!o.build.minify);
    let o = Options::from_parts(None, None, None, None);
    assert_eq!((o.src.as_str(), o.cloak, o.build.output.as_str(), o.build.minify), (".vnv", false, ".env", false));
    let o = Options::from_parts(Some(String::from("a")), Some(true), None, Some(true));
    assert_eq!((o.src.as_str(), o.cloak, o.build.output.as_str(), o.build.minify), ("a", true, ".env", true));
    let o = Options::from_parts(None, None, Some(String::from("out")), None);
    assert_eq!((o.src.as_str(), o.cloak, o.build.output.as_str(), o.build.minify), (".vnv", false, "out", false));
}

#[test]
fn scanner_hands_out_raw_assignments() {
    let entries = scan(" @min(3) \n@public\nNAME = [ \"a\" , \"b\" ] \n@max(1)\nLAST=x");
    assert_eq!(entries.len(), 2);
    assert_eq!(entries[0].key, "NAME ");
    assert_eq!(entries[0].raw, "  \"a\" , \"b\"  ");
    assert_eq!((entries[0].position.line, entries[0].position.column), (3, 1));
    assert_eq!(entries[0].decorators.len(), 2);
    assert_eq!(entries[0].decorators[0].text, "min(3)");
    assert_eq!(
        (entries[0].decorators[0].position.line, entries[0].decorators[0].position.column),
        (1, 9)
    );
    assert_eq!(entries[0].decorators[1].text, "public");
    assert_eq!(
        (entries[0].decorators[1].position.line, entries[0].decorators[1].position.column),
        (2, 8)
    );
    assert_eq!(entries[1].key, "LAST");
    assert_eq!(entries[1].raw, "x");
    assert_eq!(entries[1].decorators.len(), 1);
    assert_eq!(entries[1].decorators[0].text, "max(1)");
    assert_eq!(entries[1].position.line, 5);
}

#[test]
fn scanner_drops_whitespace_of_every_kind_around_the_file() {
    let entries = scan("\u{a0}\r\n\tA=1\u{2003}\n");
    assert_eq!(entries.len(), 1);
    assert_eq!(entries[0].key, "A");
    assert_eq!(entries[0].raw, "1");
}

#[test]
fn scanner_keeps_line_breaks_inside_brackets_and_quotes() {
    let entries = scan("A=[1,\n2]\nB=\"x\ny\"\nC=]");
    assert_eq!(entries.len(), 3);
    assert_eq!(entries[0].raw, "1,\n2");
    assert_eq!(entries[1].raw, "\"x\ny\"");
    assert_eq!(entries[2].raw, "]");
    assert_eq!(entries[2].position.line, 5);
}

#[test]
fn scanner_can_be_stepped_by_hand() {
    let mut scanner = vnv::parsing::scanner::Scanner::new();
    for c in "@public\nA=[1,\n2]".chars() {
        scanner = scanner.step(c);
    }
    let entries = scanner.finish();
    assert_eq!(entries.len(), 1);
    assert_eq!(entries[0].key, "A");
    assert_eq!(entries[0].raw, "1,\n2");
    assert_eq!(entries[0].decorators.len(), 1);
    assert_eq!(entries[0].decorators[0].text, "public");
    assert_eq!((entries[0].position.line, entries[0].position.column), (2, 1));
}

#[test]
fn comparison_is_made_of_two_answers() {
    assert_eq!(CompareResult::of(true, true, false), CompareResult::Equal);
    assert_eq!(CompareResult::of(true, false, true), CompareResult::Equal);
    assert_eq!(CompareResult::of(false, true, false), CompareResult::Less);
    assert_eq!(CompareResult::of(false, true, true), CompareResult::Less);
    assert_eq!(CompareResult::of(false, false, true), CompareResult::Greater);
    assert_eq!(CompareResult::of(false, false, false), CompareResult::Equal);
}

#[test]
fn whitespace_is_what_the_standard_library_takes_for_it() {
    let mut count = 0;
    for n in 0..=0x10FFFFu32 {
        if let Some(c) = char::from_u32(n) {
            assert_eq!(is_whitespace(c), c.is_whitespace(), "U+{:04X}", n);
            if is_whitespace(c) {
                count += 1;
            }
        }
    }
    assert_eq!(count, 25);
}

#[test]
fn answer_is_read_from_a_line_of_input() {
    assert_eq!(Answer::from_input("y\n", Answer::No), Answer::Yes);
    assert_eq!(Answer::from_input("  YES \r\n", Answer::No), Answer::Yes);
    assert_eq!(Answer::from_input("Yes", Answer::No), Answer::Yes);
    assert_eq!(Answer::from_input("n", Answer::Yes), Answer::No);
    assert_eq!(Answer::from_input("\tNo\n", Answer::Yes), Answer::No);
    assert_eq!(Answer::from_input("\n", Answer::Yes), Answer::Yes);
    assert_eq!(Answer::from_input("", Answer::No), Answer::No);
    assert_eq!(Answer::from_input("maybe", Answer::Yes), Answer::Yes);
    assert_eq!(Answer::from_input("y es", Answer::No), Answer::No);
    assert_eq!(Answer::from_input("yess", Answer::No), Answer::No);
    assert_eq!(Answer::of_word("y", Answer::No), Answer::Yes);
    assert_eq!(Answer::of_word("Y", Answer::No), Answer::No);
    assert_eq!(Answer::of_word("no", Answer::Yes), Answer::No);
    assert_eq!(Answer::of_word(" no", Answer::Yes), Answer::Yes);
}

fn declaration(name: &str) -> DecoratorParseResult {
    DecoratorParseResult { key: String::from(name), value: DecoratorValue::Missing }
}

#[test]
fn ledger_enters_outcomes_of_known_decorators() {
    let table = get();
    let min = find(&table, &String::from("min")).unwrap();
    let public = find(&table, &String::from("public")).unwrap();
    let ledger = Ledger::new();
    assert!(matches!(ledger.scope, Scope::Private));
    let errors = vec![ValidationError::new("first", None), ValidationError::new("second", None)];
    let ledger = ledger.accept(min, declaration("min"), DecoratorValidationResult::Error(errors));
    assert!(matches!(ledger.scope, Scope::Private));
    assert_eq!(ledger.errors.len(), 2);
    assert_eq!(ledger.declarations.len(), 1);
    let failed = vec![ValidationError::new("third", None)];
    let ledger =
        ledger.accept(public, declaration("public"), DecoratorValidationResult::Error(failed));
    assert!(matches!(ledger.scope, Scope::Public));
    let ledger = ledger.accept(min, declaration("min"), DecoratorValidationResult::Pass);
    assert!(matches!(ledger.scope, Scope::Public));
    let messages: Vec<&str> = ledger.errors.iter().map(|e| e.message.as_str()).collect();
    assert_eq!(messages, vec!["first", "second", "third"]);
    let names: Vec<&str> = ledger.declarations.iter().map(|d| d.key.as_str()).collect();
    assert_eq!(names, vec!["min", "public", "min"]);
    assert_eq!(ledger.notices.len(), 0);
}

#[test]
fn ledger_enters_unknown_decorators_as_errors_about_the_file() {
    let ledger = Ledger::new().reject(&declaration("bogus"), FilePosition { line: 4, column: 7 });
    assert_eq!(ledger.notices.len(), 1);
    assert_eq!(ledger.notices[0].message, "Invalid decorator 'bogus'");
    assert_eq!((ledger.notices[0].position.line, ledger.notices[0].position.column), (4, 7));
    assert_eq!(ledger.errors.len(), 0);
    assert_eq!(ledger.declarations.len(), 0);
    assert!(matches!(ledger.scope, Scope::Private));
    let entries = scan("A=1");
    let closed = ledger.close(&entries[0], ValueType::String(String::from("v")));
    assert!(closed.key.valid);
    assert_eq!(closed.key.key, "A");
    assert_eq!(closed.notices.len(), 1);
    let table = get();
    let min = find(&table, &String::from("min")).unwrap();
    let failed = vec![ValidationError::new("bad", None)];
    let broken = Ledger::new()
        .accept(min, declaration("min"), DecoratorValidationResult::Error(failed))
        .close(&entries[0], ValueType::String(String::from("v")));
    assert!(!broken.key.valid);
    assert_eq!(broken.key.errors.len(), 1);
    assert_eq!(broken.key.decorators.len(), 1);
}
