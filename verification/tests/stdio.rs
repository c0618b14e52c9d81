use simi::error::Raised;
use simi::heap::Heap;
use simi::native::stdio::{line_value, output_text};
use simi::span::Span;
use simi::value::Value;

#[test]
fn output_requires_strings() {
    let error = match output_text(&Value::Int(7), false, "print", Span { start: 0, end: 0 }) {
        Err(error) => error,
        Ok(_) => panic!("non-string output should be a hard diagnostic"),
    };
    assert_eq!(error.message, "std/io.print value must be a string, got integer");
}

#[test]
fn stream_failures_raise_structured_io_errors() {
    let span = Span { start: 2, end: 4 };
    let mut heap = Heap::new();
    let text = output_text(&Value::String("x".to_owned()), false, "print", span).unwrap();
    assert_eq!(text, "x");
    let raised = Raised::io_error(&mut heap, "print", "closed".to_owned(), span);
    assert_eq!(
        raised.value.render(&heap),
        "{error=\"io_error\", operation=\"print\", message=\"closed\"}"
    );
    assert_eq!(raised.origin, span);
}

#[test]
fn automatic_flush_failures_use_the_print_operation() {
    for (newline, operation) in [(false, "print"), (true, "println")] {
        let mut heap = Heap::new();
        let span = Span { start: 0, end: 0 };
        assert!(output_text(&Value::String("hello".to_owned()), newline, operation, span).is_ok());
        let raised = Raised::io_error(&mut heap, operation, "flush failed".to_owned(), span);
        assert_eq!(
            raised.value.render(&heap),
            format!("{{error=\"io_error\", operation=\"{operation}\", message=\"flush failed\"}}")
        );
    }
}

#[test]
fn newline_output_appends_exactly_one_line_feed() {
    let output =
        output_text(&Value::String("hello".to_owned()), true, "println", Span { start: 0, end: 0 })
            .unwrap();
    assert_eq!(output.as_bytes(), b"hello\n");
}

#[test]
fn read_line_strips_one_line_ending() {
    assert!(matches!(line_value(""), Value::Nil));
    assert!(matches!(line_value("abc\r\n"), Value::String(ref s) if s == "abc"));
    assert!(matches!(line_value("abc\n"), Value::String(ref s) if s == "abc"));
    assert!(matches!(line_value("abc"), Value::String(ref s) if s == "abc"));
    assert!(matches!(line_value("\n"), Value::String(ref s) if s.is_empty()));
    assert!(matches!(line_value("a\r"), Value::String(ref s) if s == "a\r"));
}

#[test]
fn eprint_diagnostics_name_the_operation() {
    let error = output_text(&Value::Nil, true, "eprintln", Span { start: 1, end: 3 }).unwrap_err();
    assert_eq!(error.message, "std/io.eprintln value must be a string, got nil");
    assert_eq!(error.span, Span { start: 1, end: 3 });
}
