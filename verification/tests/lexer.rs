use simi::lexer::{lex_lossless, lex_strict, Lexeme};
use simi::syntax::{is_keyword, keyword, token_name, SyntaxKind};

fn kinds(lexemes: &[Lexeme]) -> Vec<SyntaxKind> {
    lexemes.iter().map(|l| l.kind).collect()
}

fn joined(lexemes: &[Lexeme]) -> String {
    lexemes.iter().map(|l| l.text.as_str()).collect()
}

#[test]
fn utf8_tokens_keep_byte_ranges() {
    let source = "let cafe = \"猫\"";
    let (lexemes, errors) = lex_lossless(source);
    assert!(errors.is_empty());
    let string = lexemes.iter().find(|l| l.kind == SyntaxKind::STRING).expect("string");
    assert_eq!(string.span.start, 11);
    assert_eq!(string.span.end, 16);
}

#[test]
fn malformed_lexemes_are_preserved_as_error_tokens() {
    let source = "let x = $\nlet y = 2";
    let (lexemes, errors) = lex_lossless(source);
    assert_eq!(joined(&lexemes), source);
    assert!(lexemes.iter().any(|l| l.kind == SyntaxKind::ERROR_TOKEN));
    assert_eq!(errors.len(), 1);
    assert_eq!(errors[0].message, "unexpected character '$'");
    assert_eq!((errors[0].span.start, errors[0].span.end), (8, 9));
    assert_eq!(
        lexemes.iter().filter(|l| l.kind == SyntaxKind::LET_KW).count(),
        2
    );
}

#[test]
fn lexes_keywords_operators_and_trivia_losslessly() {
    let source = "fn f(a) -- note\n  a |> g <| h ?> x ?. <= >= == != <> -> .. // %";
    let (lexemes, errors) = lex_lossless(source);
    assert_eq!(joined(&lexemes), source);
    let significant: Vec<SyntaxKind> =
        kinds(&lexemes).into_iter().filter(|k| !k.is_trivia()).collect();
    assert_eq!(
        significant,
        vec![
            SyntaxKind::FN_KW,
            SyntaxKind::IDENT,
            SyntaxKind::L_PAREN,
            SyntaxKind::IDENT,
            SyntaxKind::R_PAREN,
            SyntaxKind::IDENT,
            SyntaxKind::PIPE_GREATER,
            SyntaxKind::IDENT,
            SyntaxKind::LESS_PIPE,
            SyntaxKind::IDENT,
            SyntaxKind::QUESTION_GREATER,
            SyntaxKind::IDENT,
            SyntaxKind::QUESTION,
            SyntaxKind::DOT,
            SyntaxKind::LESS_EQ,
            SyntaxKind::GREATER_EQ,
            SyntaxKind::EQ_EQ,
            SyntaxKind::BANG_EQ,
            SyntaxKind::LESS_GREATER,
            SyntaxKind::ARROW,
            SyntaxKind::DOT_DOT,
            SyntaxKind::SLASH_SLASH,
            SyntaxKind::PERCENT,
        ]
    );
    assert!(errors.is_empty());
    assert!(lexemes.iter().any(|l| l.kind == SyntaxKind::COMMENT && l.text == "-- note"));
    // Spans tile the source.
    let mut offset = 0;
    for lexeme in &lexemes {
        assert_eq!(lexeme.span.start, offset);
        assert_eq!(lexeme.span.end - lexeme.span.start, lexeme.text.len());
        offset = lexeme.span.end;
    }
    assert_eq!(offset, source.len());
}

#[test]
fn numbers_and_their_diagnostics() {
    let (lexemes, errors) = lex_lossless("12 1.5 2e3 7.e 1.x 1e+ 99999999999999999999 1e400");
    let significant: Vec<(SyntaxKind, String)> = lexemes
        .iter()
        .filter(|l| !l.kind.is_trivia())
        .map(|l| (l.kind, l.text.clone()))
        .collect();
    assert_eq!(
        significant,
        vec![
            (SyntaxKind::INT, "12".to_owned()),
            (SyntaxKind::FLOAT, "1.5".to_owned()),
            (SyntaxKind::FLOAT, "2e3".to_owned()),
            (SyntaxKind::INT, "7".to_owned()),
            (SyntaxKind::DOT, ".".to_owned()),
            (SyntaxKind::IDENT, "e".to_owned()),
            (SyntaxKind::INT, "1".to_owned()),
            (SyntaxKind::DOT, ".".to_owned()),
            (SyntaxKind::IDENT, "x".to_owned()),
            (SyntaxKind::ERROR_TOKEN, "1e+".to_owned()),
            (SyntaxKind::ERROR_TOKEN, "99999999999999999999".to_owned()),
            (SyntaxKind::ERROR_TOKEN, "1e400".to_owned()),
        ]
    );
    let messages: Vec<&str> = errors.iter().map(|e| e.message.as_str()).collect();
    assert_eq!(
        messages,
        vec![
            "expected digits in floating-point exponent",
            "integer literal is too large for i64",
            "floating-point literal is not finite",
        ]
    );
}

#[test]
fn strings_and_their_diagnostics() {
    let (lexemes, errors) = lex_lossless("\"a\\n\\\"b\"");
    assert_eq!(kinds(&lexemes), vec![SyntaxKind::STRING]);
    assert!(errors.is_empty());

    let (lexemes, errors) = lex_lossless("x \"bad\\q");
    assert_eq!(lexemes[2].kind, SyntaxKind::ERROR_TOKEN);
    assert_eq!(lexemes[2].text, "\"bad\\q");
    assert_eq!(errors[0].message, "invalid string escape \\q");
    assert_eq!((errors[0].span.start, errors[0].span.end), (6, 8));

    let (lexemes, errors) = lex_lossless("\"open");
    assert_eq!(kinds(&lexemes), vec![SyntaxKind::ERROR_TOKEN]);
    assert_eq!(errors[0].message, "unterminated string literal");
    assert_eq!((errors[0].span.start, errors[0].span.end), (0, 5));
}

#[test]
fn empty_source_has_no_lexemes() {
    let (lexemes, errors) = lex_lossless("");
    assert!(lexemes.is_empty());
    assert!(errors.is_empty());
}

#[test]
fn keywords_are_exact_and_case_sensitive() {
    assert_eq!(keyword("elseif"), Some(SyntaxKind::ELSEIF_KW));
    assert_eq!(keyword("Else"), None);
    assert!(is_keyword("catch"));
    assert!(!is_keyword("alias"));
    let (lexemes, _) = lex_lossless("If if _x1");
    assert_eq!(
        kinds(&lexemes),
        vec![
            SyntaxKind::IDENT,
            SyntaxKind::WHITESPACE,
            SyntaxKind::IF_KW,
            SyntaxKind::WHITESPACE,
            SyntaxKind::IDENT,
        ]
    );
}

#[test]
fn kinds_classify_and_name_themselves() {
    assert!(SyntaxKind::COMMENT.is_trivia());
    assert!(!SyntaxKind::IDENT.is_trivia());
    assert!(SyntaxKind::PIPELINE_EXPR.is_expression());
    assert!(!SyntaxKind::LET_STMT.is_expression());
    assert!(SyntaxKind::MAP_PATTERN.is_pattern());
    assert!(!SyntaxKind::REST_PATTERN.is_pattern());
    assert_eq!(token_name(SyntaxKind::INT, false), "integer");
    assert_eq!(token_name(SyntaxKind::LESS_PIPE, false), "<|");
    assert_eq!(token_name(SyntaxKind::COLON, false), "invalid token");
    assert_eq!(token_name(SyntaxKind::INT, true), "end of file");
}

#[test]
fn strict_lexing_stops_at_the_first_malformed_lexeme() {
    let (lexemes, tokens) = lex_strict("a -- note\n1").unwrap();
    assert_eq!(joined(&lexemes), "a -- note\n1");
    let spans: Vec<(usize, usize)> = tokens.iter().map(|t| (t.span.start, t.span.end)).collect();
    assert_eq!(spans, vec![(0, 1), (10, 11)]);
    let error = lex_strict("a $ 1e+ @").unwrap_err();
    assert_eq!(error.message, "unexpected character '$'");
    assert_eq!((error.span.start, error.span.end), (2, 3));
    let (_, errors) = lex_lossless("a $ 1e+ @");
    assert_eq!(errors.len(), 3);
}
