use vnv::numeric::{Arithmetic, Number};
use vnv::parsing::{parse, ValueType};

/// Double-precision arithmetic as the machine has it.
struct Doubles;

impl Arithmetic for Doubles {
    fn read(&self, text: &str) -> Option<Number> {
        match text.parse::<f64>() {
            Ok(v) => Some(Number::new(v.to_bits(), v.to_string(), format!("{:?}", v))),
            Err(_) => None,
        }
    }

    fn count(&self, length: usize) -> u64 {
        (length as f64).to_bits()
    }

    fn less(&self, a: u64, b: u64) -> bool {
        f64::from_bits(a) < f64::from_bits(b)
    }

    fn within(&self, a: u64, b: u64, tolerance: u64) -> bool {
        (f64::from_bits(a) - f64::from_bits(b)).abs() < f64::from_bits(tolerance)
    }
}

#[allow(dead_code)]
fn number(n: &Number) -> f64 {
    f64::from_bits(n.bits)
}

#[allow(dead_code)]
fn numbers(v: &Vec<Number>) -> Vec<f64> {
    let mut r = Vec::new();
    for n in v {
        r.push(number(n));
    }
    r
}

#[test]
fn mod_string_correctly_parsed() {
    let content = r#"SOMETHING="something""#;

    let result = parse(content, &Doubles);

    for key in result.keys {
        if key.key != "SOMETHING" {
            panic!("'{}' was found. Expected 'SOMETHING'", key.key);
        } else {
            match key.value {
                ValueType::String(v) => {
                    if v != "something" {
                        panic!("'{v}' was found. Expected 'something'");
                    }
                }
                _ => panic!("Invalid value type expected String"),
            }
        }
    }
}

#[test]
fn mod_number_correctly_parsed() {
    let num: f64 = 25.0;

    let content = format!("SOMETHING={num}");

    let result = parse(&content, &Doubles);

    for key in result.keys {
        if key.key != "SOMETHING" {
            panic!("'{}' was found. Expected 'SOMETHING'", key.key);
        } else {
            match key.value {
                ValueType::Number(v) => {
                    let v = number(&v);
                    if v != num {
                        panic!("'{v}' was found. Expected '{num}'");
                    }
                }
                _ => panic!("Invalid value type expected Number"),
            }
        }
    }
}

#[test]
fn mod_number_array_correctly_parsed() {
    let vec: Vec<f64> = vec![15.0, 20.0, 25.0, 30.0];

    let content = format!("SOMETHING={:?}", vec);

    let result = parse(&content, &Doubles);

    for key in result.keys {
        if key.key != "SOMETHING" {
            panic!("'{}' was found. Expected 'SOMETHING'", key.key);
        } else {
            match key.value {
                ValueType::NumberArray(v) => {
                    assert_eq!(vec, numbers(&v));
                }
                _ => panic!("Invalid value type expected Number Array"),
            }
        }
    }
}

#[test]
fn mod_string_array_correctly_parsed() {
    let vec: Vec<&str> = vec!["first", "second", "third", "fourth"];

    let content = format!("SOMETHING={:?}", vec);

    let result = parse(&content, &Doubles);

    for key in result.keys {
        if key.key != "SOMETHING" {
            panic!("'{}' was found. Expected 'SOMETHING'", key.key);
        } else {
            match key.value {
                ValueType::StringArray(v) => {
                    assert_eq!(vec, v);
                }
                _ => panic!("Invalid value type expected String Array"),
            }
        }
    }
}

#[test]
fn value_types_string_correctly_parsed() {
    let expected_key = "SOMETHING";
    let expected_value = "something";

    let content = format!("{expected_key}=\"{expected_value}\"");

    let result = parse(&content, &Doubles);

    for key in result.keys {
        if key.key != expected_key {
            panic!("'{}' was found. Expected '{expected_key}'", key.key);
        } else {
            match key.value {
                ValueType::String(v) => {
                    if v != expected_value {
                        panic!("'{v}' was found. Expected '{expected_value}'");
                    }
                }
                _ => panic!("Invalid value type. Expected String"),
            }
        }
    }
}

#[test]
fn value_types_number_correctly_parsed() {
    let expected_key = "SOMETHING";
    let expected_value: f64 = 25.0;

    let content = format!("{expected_key}={expected_value}");

    let result = parse(&content, &Doubles);

    for key in result.keys {
        if key.key != expected_key {
            panic!("'{}' was found. Expected '{expected_key}'", key.key);
        } else {
            match key.value {
                ValueType::Number(v) => {
                    let v = number(&v);
                    if v != expected_value {
                        panic!("'{v}' was found. Expected '{expected_value}'");
                    }
                }
                _ => panic!("Invalid value type. Expected Number"),
            }
        }
    }
}

#[test]
fn value_types_number_array_correctly_parsed() {
    let expected_key = "SOMETHING";
    let expected_value: Vec<f64> = vec![15.0, 20.0, 25.0, 30.0];

    let content = format!("{expected_key}={:?}", expected_value);

    let result = parse(&content, &Doubles);

    for key in result.keys {
        if key.key != expected_key {
            panic!("'{}' was found. Expected '{expected_key}'", key.key);
        } else {
            match key.value {
                ValueType::NumberArray(v) => {
                    assert_eq!(expected_value, numbers(&v));
                }
                _ => panic!("Invalid value type. Expected Number Array"),
            }
        }
    }
}

#[test]
fn value_types_string_array_correctly_parsed() {
    let expected_key = "SOMETHING";
    let expected_value: Vec<&str> = vec!["first", "second", "third", "fourth"];

    let content = format!("{expected_key}={:?}", expected_value);

    let result = parse(&content, &Doubles);

    for key in result.keys {
        if key.key != expected_key {
            panic!("'{}' was found. Expected '{expected_key}'", key.key);
        } else {
            match key.value {
                ValueType::StringArray(v) => {
                    assert_eq!(expected_value, v);
                }
                _ => panic!("Invalid value type. Expected String Array"),
            }
        }
    }
}
