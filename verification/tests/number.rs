use simi::error::{NativeResult, RuntimeError};
use simi::float_literal::float_literal_is_finite;
use simi::heap::Heap;
use simi::native::number::{number_from_string, number_to_string, FromString};
use simi::span::Span;
use simi::value::{FloatRepr, Value};

const SPAN: Span = Span { start: 3, end: 9 };

fn string(value: &str) -> Value {
    Value::String(value.to_owned())
}

fn float(x: f64) -> Value {
    Value::Float(FloatRepr::new(x.to_bits(), format!("{:?}", x)))
}

fn result(result: NativeResult) -> Value {
    result.unwrap().unwrap()
}

fn parsed(heap: &mut Heap, text: &str) -> FromString {
    number_from_string(heap, &[string(text)], SPAN).unwrap()
}

fn hard_error(result: NativeResult) -> RuntimeError {
    match result {
        Err(error) => error,
        Ok(Ok(value)) => panic!("expected hard error, got {:?}", value),
        Ok(Err(raised)) => panic!("expected hard error, got {:?}", raised),
    }
}

#[test]
fn from_string_uses_syntax_to_preserve_numeric_categories() {
    let mut heap = Heap::new();
    for text in ["0", "+17", "-42", "001"] {
        assert!(
            matches!(parsed(&mut heap, text), FromString::Ready(Value::Int(_))),
            "{text} should produce an integer"
        );
    }
    for text in ["0.0", "+1.25", "-2.5", "1e3", "2E-2", "3.0e+4"] {
        assert!(
            matches!(parsed(&mut heap, text), FromString::Float(ref t) if t.as_str() == text),
            "{text} should produce a float"
        );
    }
}

#[test]
fn from_string_handles_integer_boundaries_without_float_fallback() {
    let mut heap = Heap::new();
    assert!(matches!(
        parsed(&mut heap, "9223372036854775807"),
        FromString::Ready(Value::Int(i64::MAX))
    ));
    assert!(matches!(
        parsed(&mut heap, "-9223372036854775808"),
        FromString::Ready(Value::Int(i64::MIN))
    ));
    assert!(matches!(parsed(&mut heap, "9223372036854775808"), FromString::Ready(Value::Nil)));
    assert!(matches!(parsed(&mut heap, "-9223372036854775809"), FromString::Ready(Value::Nil)));
    assert!(matches!(parsed(&mut heap, "001"), FromString::Ready(Value::Int(1))));
    assert!(matches!(parsed(&mut heap, "+17"), FromString::Ready(Value::Int(17))));
}

#[test]
fn from_string_rejects_non_finite_and_malformed_forms() {
    let mut heap = Heap::new();
    for text in [
        "", "+", "-", ".5", "1.", "1e", "1e+", "1e-", "1.2.3", "1x", " 1", "1 ", "1_000", "NaN",
        "inf", "Infinity", "0x10", "１２",
    ] {
        assert!(
            matches!(parsed(&mut heap, text), FromString::Ready(Value::Nil)),
            "{text:?} should be rejected"
        );
    }
    // Well-formed float text whose value is beyond the largest finite double.
    let too_large = "1.7976931348623159e308";
    assert!(matches!(parsed(&mut heap, too_large), FromString::Float(_)));
    let chars: Vec<char> = too_large.chars().collect();
    assert!(!float_literal_is_finite(&chars));
    let largest: Vec<char> = "1.7976931348623157e308".chars().collect();
    assert!(float_literal_is_finite(&largest));
}

#[test]
fn to_string_uses_canonical_visible_float_rendering() {
    let mut heap = Heap::new();
    let cases = [
        (Value::Int(i64::MIN), "-9223372036854775808"),
        (Value::Int(i64::MAX), "9223372036854775807"),
        (float(1.0), "1.0"),
        (float(-0.0), "-0.0"),
        (float(12.5), "12.5"),
    ];

    for (value, expected) in cases {
        assert!(matches!(
            result(number_to_string(&mut heap, &[value], SPAN)),
            Value::String(rendered) if rendered == expected
        ));
    }
}

#[test]
fn number_invalid_arity_and_types_are_qualified_hard_errors() {
    let mut heap = Heap::new();
    let from_string_errors = [
        number_from_string(&mut heap, &[], SPAN).err().unwrap(),
        number_from_string(&mut heap, &[Value::Int(1)], SPAN).err().unwrap(),
    ];
    let to_string_errors = [
        hard_error(number_to_string(&mut heap, &[], SPAN)),
        hard_error(number_to_string(&mut heap, &[string("1")], SPAN)),
    ];
    for error in from_string_errors.iter().chain(to_string_errors.iter()) {
        assert!(error.message.starts_with("std/number."), "{}", error.message);
        assert_eq!(error.span, SPAN);
    }
    assert_eq!(
        to_string_errors[1].message,
        "std/number.to_string value must be an integer or float, got string"
    );
    assert_eq!(
        from_string_errors[1].message,
        "std/number.from_string text must be a string, got integer"
    );
}

#[test]
fn float_literal_threshold_is_exact() {
    // 2^1024 - 2^970 rounds to infinity; one less does not.
    let threshold = "179769313486231580793728971405303415079934132710037826936173778980444968292764750946649017977587207096330286416692887910946555547851940402630657488671505820681908902000708383676273854845817711531764475730270069855571366959622842914819860834936475292719074168444365510704342711559699508093042880177904174497792";
    let below = "179769313486231580793728971405303415079934132710037826936173778980444968292764750946649017977587207096330286416692887910946555547851940402630657488671505820681908902000708383676273854845817711531764475730270069855571366959622842914819860834936475292719074168444365510704342711559699508093042880177904174497791";
    let at: Vec<char> = format!("{threshold}.0").chars().collect();
    let under: Vec<char> = format!("{below}.0").chars().collect();
    assert!(!float_literal_is_finite(&at));
    assert!(float_literal_is_finite(&under));
    assert_eq!(format!("{below}.0").parse::<f64>().unwrap(), f64::MAX);
    assert!(format!("{threshold}.0").parse::<f64>().unwrap().is_infinite());
    for text in ["1e309", "1e308", "0.000e99999", "123.456e-99999", "1e-400", "0.0"] {
        let chars: Vec<char> = text.chars().collect();
        assert_eq!(
            float_literal_is_finite(&chars),
            text.parse::<f64>().unwrap().is_finite(),
            "{text}"
        );
    }
}
