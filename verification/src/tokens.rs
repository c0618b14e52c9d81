//! The strict lexer: the tokens of a well-formed source with their literal values decoded and
//! trivia left out, or the first lexical diagnostic. It agrees with the lossless lexer: a source
//! lexes strictly exactly when the lossless lexer reports nothing, and the tokens are then its
//! lexemes other than white space and comments, in order, followed by the end of input.
use vstd::prelude::*;
use vstd::utf8::encode_utf8;
use crate::decimal::{digits_end, digits_value, is_digit, lemma_digits_all, lemma_digits_grow, lemma_digits_shift, lemma_digits_value_bounds};
use crate::error::LexError;
use crate::lexer::{is_escape, is_ident_start, is_space, char_at, lemma_lex_from_step, lemma_scan_bounds, lex_error_view, lex_from, lex_spec, lex_strict, lex_step, lexeme_end, scan_at, scan_string, punctuation, Lexeme, LexemeV};
use crate::span::Span;
use crate::syntax::{trivia_kind, SyntaxKind};
use crate::text::{chars_of, i64_to_string, int_decimal, push_char};

verus! {

/// The kind of a token, with the value of a literal or the text of an identifier. A float
/// literal keeps its text, which is known to denote a finite binary64 number.
#[derive(Clone, Debug, PartialEq)]
pub enum TokenKind {
    Int(i64),
    Float(String),
    String(String),
    Ident(String),
    Fn,
    Do,
    End,
    If,
    Then,
    ElseIf,
    Else,
    Let,
    Alias,
    Tap,
    Nil,
    True,
    False,
    And,
    Or,
    Not,
    Loop,
    Break,
    Continue,
    Case,
    Of,
    When,
    Raise,
    Try,
    Catch,
    LParen,
    RParen,
    LBracket,
    RBracket,
    LBrace,
    RBrace,
    Comma,
    Colon,
    Apostrophe,
    Arrow,
    Pipe,
    Dot,
    DotDot,
    Equal,
    EqualEqual,
    FatArrow,
    BangEqual,
    Plus,
    Minus,
    Star,
    Slash,
    SlashSlash,
    Percent,
    Less,
    LessEqual,
    LessGreater,
    Greater,
    GreaterEqual,
    Question,
    QuestionGreater,
    PipeGreater,
    LessPipe,
    Eof,
}

/// A token and its byte span in the source.
#[derive(Clone, Debug, PartialEq)]
pub struct Token {
    pub kind: TokenKind,
    pub span: Span,
}

/// The token of a keyword or punctuation lexeme; `None` for other kinds.
pub open spec fn fixed_token(k: SyntaxKind) -> Option<TokenKind> {
    match k {
        SyntaxKind::FN_KW => Some(TokenKind::Fn),
        SyntaxKind::DO_KW => Some(TokenKind::Do),
        SyntaxKind::END_KW => Some(TokenKind::End),
        SyntaxKind::IF_KW => Some(TokenKind::If),
        SyntaxKind::THEN_KW => Some(TokenKind::Then),
        SyntaxKind::ELSEIF_KW => Some(TokenKind::ElseIf),
        SyntaxKind::ELSE_KW => Some(TokenKind::Else),
        SyntaxKind::LET_KW => Some(TokenKind::Let),
        SyntaxKind::TAP_KW => Some(TokenKind::Tap),
        SyntaxKind::NIL_KW => Some(TokenKind::Nil),
        SyntaxKind::TRUE_KW => Some(TokenKind::True),
        SyntaxKind::FALSE_KW => Some(TokenKind::False),
        SyntaxKind::AND_KW => Some(TokenKind::And),
        SyntaxKind::OR_KW => Some(TokenKind::Or),
        SyntaxKind::NOT_KW => Some(TokenKind::Not),
        SyntaxKind::LOOP_KW => Some(TokenKind::Loop),
        SyntaxKind::BREAK_KW => Some(TokenKind::Break),
        SyntaxKind::CONTINUE_KW => Some(TokenKind::Continue),
        SyntaxKind::CASE_KW => Some(TokenKind::Case),
        SyntaxKind::OF_KW => Some(TokenKind::Of),
        SyntaxKind::WHEN_KW => Some(TokenKind::When),
        SyntaxKind::RAISE_KW => Some(TokenKind::Raise),
        SyntaxKind::TRY_KW => Some(TokenKind::Try),
        SyntaxKind::CATCH_KW => Some(TokenKind::Catch),
        SyntaxKind::L_PAREN => Some(TokenKind::LParen),
        SyntaxKind::R_PAREN => Some(TokenKind::RParen),
        SyntaxKind::L_BRACKET => Some(TokenKind::LBracket),
        SyntaxKind::R_BRACKET => Some(TokenKind::RBracket),
        SyntaxKind::L_BRACE => Some(TokenKind::LBrace),
        SyntaxKind::R_BRACE => Some(TokenKind::RBrace),
        SyntaxKind::COMMA => Some(TokenKind::Comma),
        SyntaxKind::COLON => Some(TokenKind::Colon),
        SyntaxKind::APOSTROPHE => Some(TokenKind::Apostrophe),
        SyntaxKind::ARROW => Some(TokenKind::Arrow),
        SyntaxKind::PIPE => Some(TokenKind::Pipe),
        SyntaxKind::DOT => Some(TokenKind::Dot),
        SyntaxKind::DOT_DOT => Some(TokenKind::DotDot),
        SyntaxKind::EQ => Some(TokenKind::Equal),
        SyntaxKind::EQ_EQ => Some(TokenKind::EqualEqual),
        SyntaxKind::FAT_ARROW => Some(TokenKind::FatArrow),
        SyntaxKind::BANG_EQ => Some(TokenKind::BangEqual),
        SyntaxKind::PLUS => Some(TokenKind::Plus),
        SyntaxKind::MINUS => Some(TokenKind::Minus),
        SyntaxKind::STAR => Some(TokenKind::Star),
        SyntaxKind::SLASH => Some(TokenKind::Slash),
        SyntaxKind::SLASH_SLASH => Some(TokenKind::SlashSlash),
        SyntaxKind::PERCENT => Some(TokenKind::Percent),
        SyntaxKind::LESS => Some(TokenKind::Less),
        SyntaxKind::LESS_EQ => Some(TokenKind::LessEqual),
        SyntaxKind::LESS_GREATER => Some(TokenKind::LessGreater),
        SyntaxKind::GREATER => Some(TokenKind::Greater),
        SyntaxKind::GREATER_EQ => Some(TokenKind::GreaterEqual),
        SyntaxKind::QUESTION => Some(TokenKind::Question),
        SyntaxKind::QUESTION_GREATER => Some(TokenKind::QuestionGreater),
        SyntaxKind::PIPE_GREATER => Some(TokenKind::PipeGreater),
        SyntaxKind::LESS_PIPE => Some(TokenKind::LessPipe),
        _ => None,
    }
}

/// The character a string escape stands for.
pub open spec fn escaped_char(c: char) -> char {
    if c == 'n' {
        '\n'
    } else if c == 'r' {
        '\r'
    } else if c == 't' {
        '\t'
    } else {
        c
    }
}

/// Whether the text of a string literal from position `p` on is a well-formed rest: plain
/// characters and known escapes up to a closing quote that ends the text.
pub open spec fn string_rest(t: Seq<char>, p: nat) -> bool
    decreases t.len() - p,
{
    if p >= t.len() {
        false
    } else if t[p as int] == '"' {
        p + 1 == t.len()
    } else if t[p as int] == '\\' {
        p + 1 < t.len() && is_escape(t[p + 1int]) && string_rest(t, p + 2)
    } else {
        string_rest(t, p + 1)
    }
}

/// The characters a string literal's text denotes from position `p` up to the closing quote.
pub open spec fn unescaped(t: Seq<char>, p: nat) -> Seq<char>
    decreases t.len() - p,
{
    if p >= t.len() || t[p as int] == '"' {
        Seq::empty()
    } else if t[p as int] == '\\' && p + 1 < t.len() {
        seq![escaped_char(t[p + 1int])] + unescaped(t, p + 2)
    } else {
        seq![t[p as int]] + unescaped(t, p + 1)
    }
}

/// Whether a lexeme of a source without diagnostics has the shape its kind promises: an
/// integer's digits fit in `i64`, a string literal is well formed, and any other lexeme is
/// trivia, a float, an identifier, a keyword or punctuation.
pub open spec fn well_formed_lexeme(l: LexemeV) -> bool {
    match l.kind {
        SyntaxKind::INT => l.text.len() > 0 && (forall|k: int|
            0 <= k < l.text.len() ==> is_digit(#[trigger] l.text[k]))
            && digits_value(l.text, 0, l.text.len() as int) <= i64::MAX,
        SyntaxKind::STRING => l.text.len() > 0 && l.text[0] == '"' && string_rest(l.text, 1),
        SyntaxKind::FLOAT | SyntaxKind::IDENT | SyntaxKind::WHITESPACE | SyntaxKind::COMMENT => true,
        k => fixed_token(k) is Some,
    }
}

/// Whether a token is the one a lexeme stands for.
pub open spec fn token_matches(t: TokenKind, l: LexemeV) -> bool {
    match t {
        TokenKind::Int(v) => l.kind == SyntaxKind::INT && v as int == digits_value(
            l.text,
            0,
            l.text.len() as int,
        ),
        TokenKind::Float(x) => l.kind == SyntaxKind::FLOAT && x@ == l.text,
        TokenKind::String(x) => l.kind == SyntaxKind::STRING && x@ == unescaped(l.text, 1),
        TokenKind::Ident(x) => l.kind == SyntaxKind::IDENT && x@ == l.text,
        _ => fixed_token(l.kind) == Some(t),
    }
}

/// The lexemes other than white space and comments, in order.
pub open spec fn significant(ls: Seq<LexemeV>) -> Seq<LexemeV>
    decreases ls.len(),
{
    if ls.len() == 0 {
        Seq::empty()
    } else if trivia_kind(ls.last().kind) {
        significant(ls.drop_last())
    } else {
        significant(ls.drop_last()).push(ls.last())
    }
}

/// Whether tokens stand for the lexemes `ls`, one each with the same span, followed by the end
/// of input at byte `n`.
pub open spec fn tokens_of(ts: Seq<Token>, ls: Seq<LexemeV>, n: nat) -> bool {
    &&& ts.len() == ls.len() + 1
    &&& forall|k: int| 0 <= k < ls.len() ==> #[trigger] ts[k].span == ls[k].span
        && token_matches(ts[k].kind, ls[k])
    &&& ts[ls.len() as int].kind is Eof
    &&& ts[ls.len() as int].span == Span { start: n as usize, end: n as usize }
}

/// Whether tokens stand for the lexemes `ls`, one each with the same span.
pub open spec fn tokens_stand_for(ts: Seq<Token>, ls: Seq<LexemeV>) -> bool {
    &&& ts.len() == ls.len()
    &&& forall|k: int| 0 <= k < ls.len() ==> #[trigger] ts[k].span == ls[k].span
        && token_matches(ts[k].kind, ls[k])
}

/// A string literal scanned without a diagnostic is well formed as a text of its own.
proof fn lemma_string_rest(s: Seq<char>, i: nat, p: nat)
    requires
        i < p <= s.len(),
        scan_string(s, i, p).error is None,
    ensures
        p < scan_string(s, i, p).end <= s.len(),
        scan_string(s, i, p).kind == SyntaxKind::STRING,
        string_rest(s.subrange(i as int, scan_string(s, i, p).end as int), (p - i) as nat),
    decreases s.len() - p,
{
    let e = scan_string(s, i, p).end;
    if p >= s.len() {
    } else if s[p as int] == '"' {
        let t = s.subrange(i as int, e as int);
        assert(t[p - i] == s[p as int]);
    } else if s[p as int] == '\\' {
        if p + 1 >= s.len() {
        } else if is_escape(s[p + 1int]) {
            lemma_string_rest(s, i, p + 2);
            let t = s.subrange(i as int, e as int);
            assert(t[p - i] == s[p as int]);
            assert(t[p - i + 1] == s[p + 1int]);
        }
    } else {
        lemma_string_rest(s, i, p + 1);
        let t = s.subrange(i as int, e as int);
        assert(t[p - i] == s[p as int]);
    }
}

/// A lexeme scanned without a diagnostic is well formed.
pub(crate) proof fn lemma_scan_well_formed(s: Seq<char>, i: nat)
    requires
        i < s.len(),
        scan_at(s, i).error is None,
    ensures
        well_formed_lexeme(lex_step(s, i).0[0]),
{
    reveal(scan_at);
    lemma_scan_bounds(s, i);
    let c = s[i as int];
    let l = lex_step(s, i).0[0];
    let e = lexeme_end(s, i);
    if is_space(c) {
        assert(well_formed_lexeme(l));
    } else if c == '-' && char_at(s, i + 1int, '-') {
        assert(well_formed_lexeme(l));
    } else if is_digit(c) {
        if scan_at(s, i).kind == SyntaxKind::INT {
            lemma_digits_all(s, i);
            let a = digits_end(s, i);
            assert(a > i);
            let fraction = char_at(s, a as int, '.') && a + 1 < s.len() && is_digit(s[a + 1int]);
            assert(!fraction);
            assert(e == a);
            assert(l.text == s.subrange(i as int, a as int));
            assert forall|k: int| 0 <= k < l.text.len() implies is_digit(#[trigger] l.text[k]) by {
                assert(l.text[k] == s[i + k]);
            }
            lemma_digits_shift(l.text, 0, s, i as int, (a - i) as nat);
            assert(well_formed_lexeme(l));
        } else {
            assert(scan_at(s, i).kind == SyntaxKind::FLOAT);
            assert(well_formed_lexeme(l));
        }
    } else if is_ident_start(c) {
        assert(well_formed_lexeme(l));
    } else if c == '"' {
        lemma_string_rest(s, i, i + 1);
        assert(e == scan_string(s, i, i + 1).end);
        assert(l.text == s.subrange(i as int, e as int));
        assert(l.text[0] == '"');
        assert(well_formed_lexeme(l));
    } else {
        assert(punctuation(s, i) is Some);
        assert(well_formed_lexeme(l));
    }
}

/// The token of a keyword or punctuation kind.
fn fixed_token_of(k: SyntaxKind) -> (r: Option<TokenKind>)
    ensures
        r == fixed_token(k),
{
    match k {
        SyntaxKind::FN_KW => Some(TokenKind::Fn),
        SyntaxKind::DO_KW => Some(TokenKind::Do),
        SyntaxKind::END_KW => Some(TokenKind::End),
        SyntaxKind::IF_KW => Some(TokenKind::If),
        SyntaxKind::THEN_KW => Some(TokenKind::Then),
        SyntaxKind::ELSEIF_KW => Some(TokenKind::ElseIf),
        SyntaxKind::ELSE_KW => Some(TokenKind::Else),
        SyntaxKind::LET_KW => Some(TokenKind::Let),
        SyntaxKind::TAP_KW => Some(TokenKind::Tap),
        SyntaxKind::NIL_KW => Some(TokenKind::Nil),
        SyntaxKind::TRUE_KW => Some(TokenKind::True),
        SyntaxKind::FALSE_KW => Some(TokenKind::False),
        SyntaxKind::AND_KW => Some(TokenKind::And),
        SyntaxKind::OR_KW => Some(TokenKind::Or),
        SyntaxKind::NOT_KW => Some(TokenKind::Not),
        SyntaxKind::LOOP_KW => Some(TokenKind::Loop),
        SyntaxKind::BREAK_KW => Some(TokenKind::Break),
        SyntaxKind::CONTINUE_KW => Some(TokenKind::Continue),
        SyntaxKind::CASE_KW => Some(TokenKind::Case),
        SyntaxKind::OF_KW => Some(TokenKind::Of),
        SyntaxKind::WHEN_KW => Some(TokenKind::When),
        SyntaxKind::RAISE_KW => Some(TokenKind::Raise),
        SyntaxKind::TRY_KW => Some(TokenKind::Try),
        SyntaxKind::CATCH_KW => Some(TokenKind::Catch),
        SyntaxKind::L_PAREN => Some(TokenKind::LParen),
        SyntaxKind::R_PAREN => Some(TokenKind::RParen),
        SyntaxKind::L_BRACKET => Some(TokenKind::LBracket),
        SyntaxKind::R_BRACKET => Some(TokenKind::RBracket),
        SyntaxKind::L_BRACE => Some(TokenKind::LBrace),
        SyntaxKind::R_BRACE => Some(TokenKind::RBrace),
        SyntaxKind::COMMA => Some(TokenKind::Comma),
        SyntaxKind::COLON => Some(TokenKind::Colon),
        SyntaxKind::APOSTROPHE => Some(TokenKind::Apostrophe),
        SyntaxKind::ARROW => Some(TokenKind::Arrow),
        SyntaxKind::PIPE => Some(TokenKind::Pipe),
        SyntaxKind::DOT => Some(TokenKind::Dot),
        SyntaxKind::DOT_DOT => Some(TokenKind::DotDot),
        SyntaxKind::EQ => Some(TokenKind::Equal),
        SyntaxKind::EQ_EQ => Some(TokenKind::EqualEqual),
        SyntaxKind::FAT_ARROW => Some(TokenKind::FatArrow),
        SyntaxKind::BANG_EQ => Some(TokenKind::BangEqual),
        SyntaxKind::PLUS => Some(TokenKind::Plus),
        SyntaxKind::MINUS => Some(TokenKind::Minus),
        SyntaxKind::STAR => Some(TokenKind::Star),
        SyntaxKind::SLASH => Some(TokenKind::Slash),
        SyntaxKind::SLASH_SLASH => Some(TokenKind::SlashSlash),
        SyntaxKind::PERCENT => Some(TokenKind::Percent),
        SyntaxKind::LESS => Some(TokenKind::Less),
        SyntaxKind::LESS_EQ => Some(TokenKind::LessEqual),
        SyntaxKind::LESS_GREATER => Some(TokenKind::LessGreater),
        SyntaxKind::GREATER => Some(TokenKind::Greater),
        SyntaxKind::GREATER_EQ => Some(TokenKind::GreaterEqual),
        SyntaxKind::QUESTION => Some(TokenKind::Question),
        SyntaxKind::QUESTION_GREATER => Some(TokenKind::QuestionGreater),
        SyntaxKind::PIPE_GREATER => Some(TokenKind::PipeGreater),
        SyntaxKind::LESS_PIPE => Some(TokenKind::LessPipe),
        _ => None,
    }
}

/// The value of a run of decimal digits that fits in `i64`.
fn digits_to_i64(t: &[char]) -> (v: i64)
    requires
        forall|k: int| 0 <= k < t@.len() ==> is_digit(#[trigger] t@[k]),
        digits_value(t@, 0, t@.len() as int) <= i64::MAX,
    ensures
        v as int == digits_value(t@, 0, t@.len() as int),
{
    let mut value: i64 = 0;
    let mut i: usize = 0;
    while i < t.len()
        invariant
            i <= t@.len(),
            forall|k: int| 0 <= k < t@.len() ==> is_digit(#[trigger] t@[k]),
            digits_value(t@, 0, t@.len() as int) <= i64::MAX,
            value as int == digits_value(t@, 0, i as int),
        decreases t@.len() - i,
    {
        proof {
            lemma_digits_value_bounds(t@, 0, i as int);
            lemma_digits_grow(t@, 0, i + 1, t@.len() as int);
        }
        assert(is_digit(t@[i as int]));
        let digit = (t[i] as u32 - '0' as u32) as i64;
        value = value * 10 + digit;
        i = i + 1;
    }
    value
}

/// A well-formed rest of a string literal starts inside its text.
proof fn lemma_string_rest_inside(t: Seq<char>, p: nat)
    requires
        string_rest(t, p),
    ensures
        p < t.len(),
{
}

/// The characters a well-formed string literal denotes.
pub(crate) fn string_literal_value(t: &[char]) -> (v: String)
    requires
        t@.len() > 0,
        string_rest(t@, 1),
    ensures
        v@ == unescaped(t@, 1),
{
    let mut value = String::new();
    let mut p: usize = 1;
    while t[p] != '"'
        invariant
            1 <= p < t@.len(),
            string_rest(t@, p as nat),
            value@ + unescaped(t@, p as nat) == unescaped(t@, 1),
        decreases t@.len() - p,
    {
        let ghost before = value@;
        if t[p] == '\\' {
            let c = t[p + 1];
            let e = if c == 'n' {
                '\n'
            } else if c == 'r' {
                '\r'
            } else if c == 't' {
                '\t'
            } else {
                c
            };
            push_char(&mut value, e);
            proof {
                lemma_string_rest_inside(t@, (p + 2) as nat);
                assert(before + unescaped(t@, p as nat) =~= value@ + unescaped(t@, (p + 2) as nat));
            }
            p = p + 2;
        } else {
            push_char(&mut value, t[p]);
            proof {
                lemma_string_rest_inside(t@, (p + 1) as nat);
                assert(before + unescaped(t@, p as nat) =~= value@ + unescaped(t@, (p + 1) as nat));
            }
            p = p + 1;
        }
    }
    proof {
        assert(value@ + unescaped(t@, p as nat) =~= value@);
    }
    value
}

/// The token a well-formed lexeme other than trivia stands for.
pub(crate) fn token_kind_of(l: &Lexeme) -> (t: TokenKind)
    requires
        well_formed_lexeme(l@),
        !trivia_kind(l@.kind),
    ensures
        token_matches(t, l@),
{
    match l.kind {
        SyntaxKind::INT => {
            let chars = chars_of(l.text.as_str());
            TokenKind::Int(digits_to_i64(chars.as_slice()))
        },
        SyntaxKind::FLOAT => TokenKind::Float(l.text.clone()),
        SyntaxKind::STRING => {
            let chars = chars_of(l.text.as_str());
            TokenKind::String(string_literal_value(chars.as_slice()))
        },
        SyntaxKind::IDENT => TokenKind::Ident(l.text.clone()),
        k => match fixed_token_of(k) {
            Some(t) => t,
            None => TokenKind::Eof,
        },
    }
}

/// Lexes a whole source into tokens, stopping at the first malformed text.
#[verifier::spinoff_prover]
pub fn lex(source: &str) -> (r: Result<Vec<Token>, LexError>)
    ensures
        match r {
            Ok(tokens) => lex_spec(source@).1.len() == 0 && tokens_of(
                tokens@,
                significant(lex_spec(source@).0),
                encode_utf8(source@).len(),
            ),
            Err(e) => lex_spec(source@).1.len() > 0 && lex_error_view(e) == lex_spec(source@).1[0],
        },
{
    let mut tokens = match lex_strict(source) {
        Ok((_, tokens)) => tokens,
        Err(e) => {
            return Err(e);
        },
    };
    let n = source.len();
    let ghost tokens_before = tokens@;
    tokens.push(Token { kind: TokenKind::Eof, span: Span::new(n, n) });
    proof {
        let sig = significant(lex_spec(source@).0);
        assert forall|j: int| 0 <= j < sig.len() implies #[trigger] tokens@[j].span == sig[j].span
            && token_matches(tokens@[j].kind, sig[j]) by {
            assert(tokens@[j] == tokens_before[j]);
        }
        assert(tokens_of(tokens@, sig, encode_utf8(source@).len()));
    }
    Ok(tokens)
}

/// The escape sequence that stands for a character inside a string literal, or the character
/// itself.
pub open spec fn escape_char(c: char) -> Seq<char> {
    if c == '\\' {
        seq!['\\', '\\']
    } else if c == '"' {
        seq!['\\', '"']
    } else if c == '\n' {
        seq!['\\', 'n']
    } else if c == '\r' {
        seq!['\\', 'r']
    } else if c == '\t' {
        seq!['\\', 't']
    } else {
        seq![c]
    }
}

/// The escaped characters of a string, one after another.
pub open spec fn escaped(v: Seq<char>) -> Seq<char>
    decreases v.len(),
{
    if v.len() == 0 {
        Seq::empty()
    } else {
        escaped(v.drop_last()) + escape_char(v.last())
    }
}

/// Escaping a string escapes its first character, then the rest.
proof fn lemma_escaped_front(v: Seq<char>)
    requires
        v.len() > 0,
    ensures
        escaped(v) == escape_char(v[0]) + escaped(v.drop_first()),
    decreases v.len(),
{
    if v.len() == 1 {
        assert(v.drop_last() =~= Seq::<char>::empty());
        assert(v.drop_first() =~= Seq::<char>::empty());
        assert(escaped(v) =~= escape_char(v[0]) + escaped(v.drop_first()));
    } else {
        lemma_escaped_front(v.drop_last());
        assert(v.drop_last().drop_first() =~= v.drop_first().drop_last());
        assert(v.drop_first().last() == v.last());
        assert(v.drop_last()[0] == v[0]);
        assert(escaped(v) =~= escape_char(v[0]) + escaped(v.drop_first()));
    }
}

/// The text `prefix`, then the escaped characters of `v`, then a quote, reads as `v` from the
/// end of `prefix` on.
proof fn lemma_escaped_reads_back(prefix: Seq<char>, v: Seq<char>)
    ensures
        string_rest(prefix + escaped(v) + seq!['"'], prefix.len()),
        unescaped(prefix + escaped(v) + seq!['"'], prefix.len()) == v,
    decreases v.len(),
{
    let t = prefix + escaped(v) + seq!['"'];
    let p = prefix.len();
    if v.len() == 0 {
        assert(escaped(v) =~= Seq::<char>::empty());
        assert(t[p as int] == '"');
        assert(unescaped(t, p) =~= v);
    } else {
        lemma_escaped_front(v);
        let e = escape_char(v[0]);
        let rest = v.drop_first();
        let prefix2 = prefix + e;
        lemma_escaped_reads_back(prefix2, rest);
        assert(t =~= prefix2 + escaped(rest) + seq!['"']);
        assert(t[p as int] == e[0]);
        if e.len() == 2 {
            assert(t[p + 1int] == e[1]);
            assert(unescaped(t, p) =~= seq![escaped_char(e[1])] + unescaped(t, p + 2));
        } else {
            assert(unescaped(t, p) =~= seq![e[0]] + unescaped(t, p + 1));
        }
        assert(v =~= seq![v[0]] + rest);
    }
}

/// Quoting a string and reading the literal back gives the string: the literal is well formed
/// and denotes exactly the characters quoted.
pub proof fn lemma_quote_reads_back(v: Seq<char>)
    ensures
        quoted(v).len() > 0,
        quoted(v)[0] == '"',
        string_rest(quoted(v), 1),
        unescaped(quoted(v), 1) == v,
{
    lemma_escaped_reads_back(seq!['"'], v);
}

/// A string literal that denotes `v`.
pub open spec fn quoted(v: Seq<char>) -> Seq<char> {
    seq!['"'] + escaped(v) + seq!['"']
}

/// The spelling of a keyword or punctuation kind.
pub open spec fn fixed_text(k: SyntaxKind) -> Seq<char> {
    match k {
        SyntaxKind::FN_KW => "fn"@,
        SyntaxKind::DO_KW => "do"@,
        SyntaxKind::END_KW => "end"@,
        SyntaxKind::IF_KW => "if"@,
        SyntaxKind::THEN_KW => "then"@,
        SyntaxKind::ELSEIF_KW => "elseif"@,
        SyntaxKind::ELSE_KW => "else"@,
        SyntaxKind::LET_KW => "let"@,
        SyntaxKind::TAP_KW => "tap"@,
        SyntaxKind::NIL_KW => "nil"@,
        SyntaxKind::TRUE_KW => "true"@,
        SyntaxKind::FALSE_KW => "false"@,
        SyntaxKind::AND_KW => "and"@,
        SyntaxKind::OR_KW => "or"@,
        SyntaxKind::NOT_KW => "not"@,
        SyntaxKind::LOOP_KW => "loop"@,
        SyntaxKind::BREAK_KW => "break"@,
        SyntaxKind::CONTINUE_KW => "continue"@,
        SyntaxKind::CASE_KW => "case"@,
        SyntaxKind::OF_KW => "of"@,
        SyntaxKind::WHEN_KW => "when"@,
        SyntaxKind::RAISE_KW => "raise"@,
        SyntaxKind::TRY_KW => "try"@,
        SyntaxKind::CATCH_KW => "catch"@,
        SyntaxKind::L_PAREN => "("@,
        SyntaxKind::R_PAREN => ")"@,
        SyntaxKind::L_BRACKET => "["@,
        SyntaxKind::R_BRACKET => "]"@,
        SyntaxKind::L_BRACE => "{"@,
        SyntaxKind::R_BRACE => "}"@,
        SyntaxKind::COMMA => ","@,
        SyntaxKind::COLON => ":"@,
        SyntaxKind::APOSTROPHE => "'"@,
        SyntaxKind::ARROW => "->"@,
        SyntaxKind::PIPE => "|"@,
        SyntaxKind::DOT => "."@,
        SyntaxKind::DOT_DOT => ".."@,
        SyntaxKind::EQ => "="@,
        SyntaxKind::EQ_EQ => "=="@,
        SyntaxKind::FAT_ARROW => "=>"@,
        SyntaxKind::BANG_EQ => "!="@,
        SyntaxKind::PLUS => "+"@,
        SyntaxKind::MINUS => "-"@,
        SyntaxKind::STAR => "*"@,
        SyntaxKind::SLASH => "/"@,
        SyntaxKind::SLASH_SLASH => "//"@,
        SyntaxKind::PERCENT => "%"@,
        SyntaxKind::LESS => "<"@,
        SyntaxKind::LESS_EQ => "<="@,
        SyntaxKind::LESS_GREATER => "<>"@,
        SyntaxKind::GREATER => ">"@,
        SyntaxKind::GREATER_EQ => ">="@,
        SyntaxKind::QUESTION => "?"@,
        SyntaxKind::QUESTION_GREATER => "?>"@,
        SyntaxKind::PIPE_GREATER => "|>"@,
        SyntaxKind::LESS_PIPE => "<|"@,
        _ => Seq::empty(),
    }
}

/// The syntax kind of a keyword or punctuation token.
pub open spec fn fixed_kind(t: TokenKind) -> SyntaxKind {
    match t {
        TokenKind::Fn => SyntaxKind::FN_KW,
        TokenKind::Do => SyntaxKind::DO_KW,
        TokenKind::End => SyntaxKind::END_KW,
        TokenKind::If => SyntaxKind::IF_KW,
        TokenKind::Then => SyntaxKind::THEN_KW,
        TokenKind::ElseIf => SyntaxKind::ELSEIF_KW,
        TokenKind::Else => SyntaxKind::ELSE_KW,
        TokenKind::Let => SyntaxKind::LET_KW,
        TokenKind::Tap => SyntaxKind::TAP_KW,
        TokenKind::Nil => SyntaxKind::NIL_KW,
        TokenKind::True => SyntaxKind::TRUE_KW,
        TokenKind::False => SyntaxKind::FALSE_KW,
        TokenKind::And => SyntaxKind::AND_KW,
        TokenKind::Or => SyntaxKind::OR_KW,
        TokenKind::Not => SyntaxKind::NOT_KW,
        TokenKind::Loop => SyntaxKind::LOOP_KW,
        TokenKind::Break => SyntaxKind::BREAK_KW,
        TokenKind::Continue => SyntaxKind::CONTINUE_KW,
        TokenKind::Case => SyntaxKind::CASE_KW,
        TokenKind::Of => SyntaxKind::OF_KW,
        TokenKind::When => SyntaxKind::WHEN_KW,
        TokenKind::Raise => SyntaxKind::RAISE_KW,
        TokenKind::Try => SyntaxKind::TRY_KW,
        TokenKind::Catch => SyntaxKind::CATCH_KW,
        TokenKind::LParen => SyntaxKind::L_PAREN,
        TokenKind::RParen => SyntaxKind::R_PAREN,
        TokenKind::LBracket => SyntaxKind::L_BRACKET,
        TokenKind::RBracket => SyntaxKind::R_BRACKET,
        TokenKind::LBrace => SyntaxKind::L_BRACE,
        TokenKind::RBrace => SyntaxKind::R_BRACE,
        TokenKind::Comma => SyntaxKind::COMMA,
        TokenKind::Colon => SyntaxKind::COLON,
        TokenKind::Apostrophe => SyntaxKind::APOSTROPHE,
        TokenKind::Arrow => SyntaxKind::ARROW,
        TokenKind::Pipe => SyntaxKind::PIPE,
        TokenKind::Dot => SyntaxKind::DOT,
        TokenKind::DotDot => SyntaxKind::DOT_DOT,
        TokenKind::Equal => SyntaxKind::EQ,
        TokenKind::EqualEqual => SyntaxKind::EQ_EQ,
        TokenKind::FatArrow => SyntaxKind::FAT_ARROW,
        TokenKind::BangEqual => SyntaxKind::BANG_EQ,
        TokenKind::Plus => SyntaxKind::PLUS,
        TokenKind::Minus => SyntaxKind::MINUS,
        TokenKind::Star => SyntaxKind::STAR,
        TokenKind::Slash => SyntaxKind::SLASH,
        TokenKind::SlashSlash => SyntaxKind::SLASH_SLASH,
        TokenKind::Percent => SyntaxKind::PERCENT,
        TokenKind::Less => SyntaxKind::LESS,
        TokenKind::LessEqual => SyntaxKind::LESS_EQ,
        TokenKind::LessGreater => SyntaxKind::LESS_GREATER,
        TokenKind::Greater => SyntaxKind::GREATER,
        TokenKind::GreaterEqual => SyntaxKind::GREATER_EQ,
        TokenKind::Question => SyntaxKind::QUESTION,
        TokenKind::QuestionGreater => SyntaxKind::QUESTION_GREATER,
        TokenKind::PipeGreater => SyntaxKind::PIPE_GREATER,
        TokenKind::LessPipe => SyntaxKind::LESS_PIPE,
        _ => SyntaxKind::ERROR_TOKEN,
    }
}

/// The kind a keyword or punctuation token has names that token again.
pub proof fn lemma_fixed_kind_round_trip(t: TokenKind)
    requires
        !(t is Int || t is Float || t is String || t is Ident || t is Alias || t is Eof),
    ensures
        fixed_token(fixed_kind(t)) == Some(t),
{
}

/// The lexeme a token stands for: its kind and a spelling that lexes back to it. A float keeps
/// the spelling it carries; `alias` is an identifier to the lexer.
pub open spec fn token_lexeme_spec(t: TokenKind) -> (SyntaxKind, Seq<char>) {
    match t {
        TokenKind::Ident(x) => (SyntaxKind::IDENT, x@),
        TokenKind::Int(n) => (SyntaxKind::INT, int_decimal(n as int)),
        TokenKind::Float(x) => (SyntaxKind::FLOAT, x@),
        TokenKind::String(x) => (SyntaxKind::STRING, quoted(x@)),
        TokenKind::Alias => (SyntaxKind::IDENT, "alias"@),
        _ => (fixed_kind(t), fixed_text(fixed_kind(t))),
    }
}

/// The text of a string literal that denotes `value`.
pub fn quote_string(value: &str) -> (text: String)
    ensures
        text@ == quoted(value@),
{
    let chars = chars_of(value);
    let mut text = String::new();
    push_char(&mut text, '"');
    let mut i: usize = 0;
    while i < chars.len()
        invariant
            i <= chars@.len(),
            chars@ == value@,
            text@ == seq!['"'] + escaped(chars@.take(i as int)),
        decreases chars@.len() - i,
    {
        let ghost before = text@;
        let c = chars[i];
        if c == '\\' {
            push_char(&mut text, '\\');
            push_char(&mut text, '\\');
        } else if c == '"' {
            push_char(&mut text, '\\');
            push_char(&mut text, '"');
        } else if c == '\n' {
            push_char(&mut text, '\\');
            push_char(&mut text, 'n');
        } else if c == '\r' {
            push_char(&mut text, '\\');
            push_char(&mut text, 'r');
        } else if c == '\t' {
            push_char(&mut text, '\\');
            push_char(&mut text, 't');
        } else {
            push_char(&mut text, c);
        }
        proof {
            assert(chars@.take(i + 1).drop_last() =~= chars@.take(i as int));
            assert(chars@.take(i + 1).last() == c);
            assert(text@ =~= before + escape_char(c));
            assert(seq!['"'] + escaped(chars@.take(i + 1)) =~= seq!['"'] + escaped(chars@.take(i as int)) + escape_char(c));
        }
        i = i + 1;
    }
    push_char(&mut text, '"');
    proof {
        assert(chars@.take(i as int) =~= chars@);
    }
    text
}

/// The lexeme a token stands for, for a parser that reads tokens as lexemes.
pub fn token_lexeme(kind: TokenKind) -> (r: (SyntaxKind, String))
    requires
        !(kind is Eof),
    ensures
        (r.0, r.1@) == token_lexeme_spec(kind),
{
    match kind {
        TokenKind::Ident(value) => (SyntaxKind::IDENT, value),
        TokenKind::Int(value) => (SyntaxKind::INT, i64_to_string(value)),
        TokenKind::Float(text) => (SyntaxKind::FLOAT, text),
        TokenKind::String(value) => (SyntaxKind::STRING, quote_string(value.as_str())),
        TokenKind::Alias => (SyntaxKind::IDENT, "alias".to_string()),
        TokenKind::Fn => (SyntaxKind::FN_KW, "fn".to_string()),
        TokenKind::Do => (SyntaxKind::DO_KW, "do".to_string()),
        TokenKind::End => (SyntaxKind::END_KW, "end".to_string()),
        TokenKind::If => (SyntaxKind::IF_KW, "if".to_string()),
        TokenKind::Then => (SyntaxKind::THEN_KW, "then".to_string()),
        TokenKind::ElseIf => (SyntaxKind::ELSEIF_KW, "elseif".to_string()),
        TokenKind::Else => (SyntaxKind::ELSE_KW, "else".to_string()),
        TokenKind::Let => (SyntaxKind::LET_KW, "let".to_string()),
        TokenKind::Tap => (SyntaxKind::TAP_KW, "tap".to_string()),
        TokenKind::Nil => (SyntaxKind::NIL_KW, "nil".to_string()),
        TokenKind::True => (SyntaxKind::TRUE_KW, "true".to_string()),
        TokenKind::False => (SyntaxKind::FALSE_KW, "false".to_string()),
        TokenKind::And => (SyntaxKind::AND_KW, "and".to_string()),
        TokenKind::Or => (SyntaxKind::OR_KW, "or".to_string()),
        TokenKind::Not => (SyntaxKind::NOT_KW, "not".to_string()),
        TokenKind::Loop => (SyntaxKind::LOOP_KW, "loop".to_string()),
        TokenKind::Break => (SyntaxKind::BREAK_KW, "break".to_string()),
        TokenKind::Continue => (SyntaxKind::CONTINUE_KW, "continue".to_string()),
        TokenKind::Case => (SyntaxKind::CASE_KW, "case".to_string()),
        TokenKind::Of => (SyntaxKind::OF_KW, "of".to_string()),
        TokenKind::When => (SyntaxKind::WHEN_KW, "when".to_string()),
        TokenKind::Raise => (SyntaxKind::RAISE_KW, "raise".to_string()),
        TokenKind::Try => (SyntaxKind::TRY_KW, "try".to_string()),
        TokenKind::Catch => (SyntaxKind::CATCH_KW, "catch".to_string()),
        TokenKind::LParen => (SyntaxKind::L_PAREN, "(".to_string()),
        TokenKind::RParen => (SyntaxKind::R_PAREN, ")".to_string()),
        TokenKind::LBracket => (SyntaxKind::L_BRACKET, "[".to_string()),
        TokenKind::RBracket => (SyntaxKind::R_BRACKET, "]".to_string()),
        TokenKind::LBrace => (SyntaxKind::L_BRACE, "{".to_string()),
        TokenKind::RBrace => (SyntaxKind::R_BRACE, "}".to_string()),
        TokenKind::Comma => (SyntaxKind::COMMA, ",".to_string()),
        TokenKind::Colon => (SyntaxKind::COLON, ":".to_string()),
        TokenKind::Apostrophe => (SyntaxKind::APOSTROPHE, "'".to_string()),
        TokenKind::Arrow => (SyntaxKind::ARROW, "->".to_string()),
        TokenKind::Pipe => (SyntaxKind::PIPE, "|".to_string()),
        TokenKind::Dot => (SyntaxKind::DOT, ".".to_string()),
        TokenKind::DotDot => (SyntaxKind::DOT_DOT, "..".to_string()),
        TokenKind::Equal => (SyntaxKind::EQ, "=".to_string()),
        TokenKind::EqualEqual => (SyntaxKind::EQ_EQ, "==".to_string()),
        TokenKind::FatArrow => (SyntaxKind::FAT_ARROW, "=>".to_string()),
        TokenKind::BangEqual => (SyntaxKind::BANG_EQ, "!=".to_string()),
        TokenKind::Plus => (SyntaxKind::PLUS, "+".to_string()),
        TokenKind::Minus => (SyntaxKind::MINUS, "-".to_string()),
        TokenKind::Star => (SyntaxKind::STAR, "*".to_string()),
        TokenKind::Slash => (SyntaxKind::SLASH, "/".to_string()),
        TokenKind::SlashSlash => (SyntaxKind::SLASH_SLASH, "//".to_string()),
        TokenKind::Percent => (SyntaxKind::PERCENT, "%".to_string()),
        TokenKind::Less => (SyntaxKind::LESS, "<".to_string()),
        TokenKind::LessEqual => (SyntaxKind::LESS_EQ, "<=".to_string()),
        TokenKind::LessGreater => (SyntaxKind::LESS_GREATER, "<>".to_string()),
        TokenKind::Greater => (SyntaxKind::GREATER, ">".to_string()),
        TokenKind::GreaterEqual => (SyntaxKind::GREATER_EQ, ">=".to_string()),
        TokenKind::Question => (SyntaxKind::QUESTION, "?".to_string()),
        TokenKind::QuestionGreater => (SyntaxKind::QUESTION_GREATER, "?>".to_string()),
        TokenKind::PipeGreater => (SyntaxKind::PIPE_GREATER, "|>".to_string()),
        TokenKind::LessPipe => (SyntaxKind::LESS_PIPE, "<|".to_string()),
        TokenKind::Eof => (SyntaxKind::ERROR_TOKEN, String::new()),
    }
}

/// The position of the first end-of-input token from `k` on.
pub open spec fn first_eof(ts: Seq<Token>, k: nat) -> Option<nat>
    decreases ts.len() - k,
{
    if k >= ts.len() {
        None
    } else if ts[k as int].kind is Eof {
        Some(k)
    } else {
        first_eof(ts, k + 1)
    }
}

/// Where a token vector's input ends: at its end-of-input token, else right after its last
/// token, else at the start.
pub open spec fn tokens_end(ts: Seq<Token>) -> Span {
    match first_eof(ts, 0) {
        Some(k) => ts[k as int].span,
        None => if ts.len() == 0 {
            Span { start: 0, end: 0 }
        } else {
            Span { start: ts.last().span.end, end: ts.last().span.end }
        },
    }
}

/// How many tokens come before the end of input.
pub open spec fn tokens_before_end(ts: Seq<Token>) -> nat {
    match first_eof(ts, 0) {
        Some(k) => k,
        None => ts.len(),
    }
}

/// The lexemes a parser reads for tokens: one per token before the end of input, with the
/// token's span, and where the input ends.
pub fn adapt_tokens(tokens: Vec<Token>) -> (r: (Vec<Lexeme>, Span))
    ensures
        r.0@.len() == tokens_before_end(tokens@),
        forall|k: int| 0 <= k < r.0@.len() ==> (#[trigger] r.0@[k]).span == tokens@[k].span
            && (r.0@[k].kind, r.0@[k].text@) == token_lexeme_spec(tokens@[k].kind),
        r.1 == tokens_end(tokens@),
{
    let ghost orig = tokens@;
    let fallback = if tokens.len() == 0 {
        Span::new(0, 0)
    } else {
        let end = tokens[tokens.len() - 1].span.end;
        Span::new(end, end)
    };
    let mut rest = tokens;
    let mut lexemes: Vec<Lexeme> = Vec::new();
    let mut eof_span = fallback;
    proof {
        assert(rest@ =~= orig.skip(0));
    }
    while rest.len() > 0
        invariant
            orig == tokens@,
            rest@.len() <= orig.len(),
            rest@ == orig.skip(orig.len() - rest@.len()),
            lexemes@.len() == orig.len() - rest@.len(),
            first_eof(orig, 0) == first_eof(orig, lexemes@.len() as nat),
            eof_span == fallback,
            fallback == (if orig.len() == 0 { Span { start: 0, end: 0 } } else { Span { start: orig.last().span.end, end: orig.last().span.end } }),
            forall|k: int| 0 <= k < lexemes@.len() ==> (#[trigger] lexemes@[k]).span == orig[k].span
                && (lexemes@[k].kind, lexemes@[k].text@) == token_lexeme_spec(orig[k].kind),
        decreases rest@.len(),
    {
        let ghost k: int = orig.len() - rest@.len();
        let ghost before = rest@;
        let token = rest.remove(0);
        proof {
            assert(token == before[0]);
            assert(before[0] == orig[k]);
            assert(rest@ =~= orig.skip(k + 1));
        }
        if matches!(token.kind, TokenKind::Eof) {
            proof {
                assert(first_eof(orig, k as nat) == Some(k as nat));
            }
            return (lexemes, token.span);
        }
        let span = token.span;
        let (kind, text) = token_lexeme(token.kind);
        let ghost old_lexemes = lexemes@;
        lexemes.push(Lexeme { kind, text, span });
        proof {
            assert forall|j: int| 0 <= j < lexemes@.len() implies (#[trigger] lexemes@[j]).span == orig[j].span
                && (lexemes@[j].kind, lexemes@[j].text@) == token_lexeme_spec(orig[j].kind) by {
                if j < old_lexemes.len() {
                    assert(lexemes@[j] == old_lexemes[j]);
                }
            }
        }
    }
    proof {
        assert(first_eof(orig, orig.len() as nat) is None);
    }
    (lexemes, eof_span)
}

} // verus!
