use simi::cli::{format_raised_trace, CliError};
use simi::error::{LexError, Raised, SimiError, TraceFrame};
use simi::heap::Heap;
use simi::span::{line_column, Span};
use simi::value::Value;

#[test]
fn formats_single_raises_with_unicode_columns_and_innermost_first_frames() {
    let heap = Heap::new();
    let source = "é fn_call()\nraise \"boom\"";
    let raised = Raised {
        value: Value::String("boom".to_owned()),
        origin: Span::new(source.find("raise").unwrap(), source.len()),
        frames: vec![
            TraceFrame {
                function: "leaf".to_owned(),
                call_span: Span::new(source.find("fn_call").unwrap(), 12),
            },
            TraceFrame { function: "outer".to_owned(), call_span: Span::new(0, 2) },
        ],
        cause: None,
    };

    assert_eq!(
        format_raised_trace("demo.simi", source, &raised, &heap),
        "demo.simi:2:1: raised \"boom\"\n  at leaf (demo.simi:1:3)\n  at outer (demo.simi:1:1)"
    );
}

#[test]
fn formats_newest_raise_first_without_blank_lines() {
    let heap = Heap::new();
    let source = "raise \"old\"\nraise \"new\"";
    let raised = Raised {
        value: Value::String("new".to_owned()),
        origin: Span::new(source.rfind("raise").unwrap(), source.len()),
        frames: Vec::new(),
        cause: Some(Box::new(Raised {
            value: Value::String("old".to_owned()),
            origin: Span::new(0, 11),
            frames: vec![TraceFrame { function: "load".to_owned(), call_span: Span::new(6, 11) }],
            cause: None,
        })),
    };

    assert_eq!(
        format_raised_trace("errors.simi", source, &raised, &heap),
        "errors.simi:2:1: raised \"new\"\ncaused by:\nerrors.simi:1:1: raised \"old\"\n  at load (errors.simi:1:7)"
    );
}

#[test]
fn line_column_counts_lines_and_characters() {
    let source = "é fn_call()\nraise \"boom\"";
    assert_eq!(line_column(source, 0), (1, 1));
    assert_eq!(line_column(source, 3), (1, 3));
    assert_eq!(line_column(source, 13), (2, 1));
    assert_eq!(line_column(source, 15), (2, 3));
    // Past the end stays at the last position.
    assert_eq!(line_column(source, 500), (2, 13));
    // Inside a multi-byte character stays before it.
    assert_eq!(line_column(source, 1), (1, 1));
}

#[test]
fn raised_values_render_like_the_inspector() {
    let mut heap = Heap::new();
    let list = heap.list(vec![Value::Int(1), Value::String("two".to_owned())]);
    let raised = Raised { value: list, origin: Span::new(0, 0), frames: Vec::new(), cause: None };
    assert_eq!(format_raised_trace("x.simi", "", &raised, &heap), "x.simi:1:1: raised [1, \"two\"]");
}

#[test]
fn cli_errors_describe_their_cause() {
    let io = CliError::Io { path: "a.simi".to_owned(), message: "not found".to_owned() };
    assert_eq!(io.describe(), "a.simi: not found");
    let package = CliError::Package { path: "b.simi".to_owned(), message: "bad".to_owned() };
    assert_eq!(package.describe(), "b.simi: bad");
    let simi = CliError::Simi(SimiError::Lex(LexError {
        span: Span::new(1, 2),
        message: "unexpected character '$'".to_owned(),
    }));
    assert_eq!(simi.describe(), "unexpected character '$'");
}
