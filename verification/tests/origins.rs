use simi::lexer::Lexeme;
use simi::origins::{token_origins, TokenOrigin, TokenOrigins};
use simi::span::Span;
use simi::syntax::SyntaxKind;

fn lexeme(kind: SyntaxKind, text: &str, start: usize, end: usize) -> Lexeme {
    Lexeme { kind, text: text.to_string(), span: Span::new(start, end) }
}

fn sample() -> TokenOrigins {
    // `let x = 1` arriving as separate tokens at scattered positions.
    let lexemes = vec![
        lexeme(SyntaxKind::LET_KW, "let", 10, 13),
        lexeme(SyntaxKind::WHITESPACE, " ", 13, 14),
        lexeme(SyntaxKind::IDENT, "x", 20, 21),
        lexeme(SyntaxKind::WHITESPACE, " ", 21, 22),
        lexeme(SyntaxKind::EQ, "=", 30, 31),
        lexeme(SyntaxKind::WHITESPACE, " ", 31, 32),
        lexeme(SyntaxKind::INT, "1", 40, 41),
    ];
    token_origins(&lexemes, Span::new(50, 50))
}

#[test]
fn token_origins_lay_lexemes_out_contiguously() {
    let origins = sample();
    let synthetic: Vec<(usize, usize)> =
        origins.entries.iter().map(|e| (e.synthetic.start, e.synthetic.end)).collect();
    assert_eq!(synthetic, vec![(0, 3), (3, 4), (4, 5), (5, 6), (6, 7), (7, 8), (8, 9)]);
    assert_eq!(origins.entries[2].original, Span::new(20, 21));
    assert_eq!(origins.eof_span, Span::new(50, 50));
}

#[test]
fn token_origins_count_utf8_bytes() {
    let lexemes = vec![
        lexeme(SyntaxKind::STRING, "\"猫\"", 0, 5),
        lexeme(SyntaxKind::IDENT, "y", 6, 7),
    ];
    let origins = token_origins(&lexemes, Span::new(7, 7));
    assert_eq!(origins.entries[0].synthetic, Span::new(0, 5));
    assert_eq!(origins.entries[1].synthetic, Span::new(5, 6));
}

#[test]
fn rebasing_a_token_gives_its_original_span() {
    let origins = sample();
    for entry in origins.entries.iter() {
        assert_eq!(origins.rebase(entry.synthetic), entry.original);
    }
}

#[test]
fn rebasing_a_range_merges_its_first_and_last_tokens() {
    let origins = sample();
    assert_eq!(origins.rebase(Span::new(0, 9)), Span::new(10, 41));
    assert_eq!(origins.rebase(Span::new(4, 7)), Span::new(20, 31));
}

#[test]
fn rebasing_an_empty_range() {
    let origins = sample();
    // Ends where `x` ends: the end of `x`'s original span.
    assert_eq!(origins.rebase(Span::new(5, 5)), Span::new(21, 21));
    // Nothing ends at zero, `let` starts there.
    assert_eq!(origins.rebase(Span::new(0, 0)), Span::new(10, 10));
    // Past everything: the end of input.
    assert_eq!(origins.rebase(Span::new(100, 100)), Span::new(50, 50));
}

#[test]
fn rebasing_merges_empty_tokens_laid_out_at_the_same_place() {
    let origins = TokenOrigins {
        entries: vec![
            TokenOrigin { synthetic: Span::new(2, 2), original: Span::new(5, 6) },
            TokenOrigin { synthetic: Span::new(2, 2), original: Span::new(9, 12) },
        ],
        eof_span: Span::new(20, 20),
    };
    assert_eq!(origins.rebase(Span::new(2, 2)), Span::new(5, 12));
}

#[test]
fn rebasing_a_range_without_tokens_gives_the_end_of_input() {
    let origins = sample();
    assert_eq!(origins.rebase(Span::new(9, 12)), Span::new(50, 50));
}
