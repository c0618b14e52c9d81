//! The lossless lexer. Every character of the source lands in exactly one lexeme, white space
//! and comments included; malformed text becomes an error token and a diagnostic, and lexing
//! goes on after it. Spans are byte offsets into the source.
use vstd::prelude::*;
use vstd::utf8::{encode_scalar, encode_utf8};
use crate::decimal::{digits_end, digits_value, is_digit, lemma_digits_grow};
use crate::error::LexError;
use crate::float_literal::{
    exponent_start, float_literal_finite, float_literal_is_finite, has_point, is_float_literal,
    mantissa_end, whole_end,
};
use crate::span::Span;
use crate::syntax::{keyword, keyword_kind, trivia_kind, SyntaxKind};
use crate::tokens::{lemma_scan_well_formed, significant, token_kind_of, token_matches, tokens_stand_for, Token};
use crate::text::{chars_of, push_str, string_from_range};

verus! {

/// Space, tab, carriage return or line feed.
pub open spec fn is_space(c: char) -> bool {
    c == ' ' || c == '\t' || c == '\r' || c == '\n'
}

/// A character that can start an identifier.
pub open spec fn is_ident_start(c: char) -> bool {
    ('A' <= c && c <= 'Z') || ('a' <= c && c <= 'z') || c == '_'
}

/// A character that can continue an identifier.
pub open spec fn is_ident_continue(c: char) -> bool {
    is_ident_start(c) || is_digit(c)
}

/// Carriage return or line feed: the end of a comment.
pub open spec fn is_line_break(c: char) -> bool {
    c == '\r' || c == '\n'
}

/// Whether position `i` of `s` holds `c`.
pub open spec fn char_at(s: Seq<char>, i: int, c: char) -> bool {
    0 <= i < s.len() && s[i] == c
}

/// The first position at or after `i` that is not white space.
pub open spec fn space_end(s: Seq<char>, i: nat) -> nat
    decreases s.len() - i,
{
    if i < s.len() && is_space(s[i as int]) { space_end(s, i + 1) } else { i }
}

/// The first position at or after `i` that holds a line break, or the end.
pub open spec fn line_end(s: Seq<char>, i: nat) -> nat
    decreases s.len() - i,
{
    if i < s.len() && !is_line_break(s[i as int]) { line_end(s, i + 1) } else { i }
}

/// The first position at or after `i` that cannot continue an identifier.
pub open spec fn ident_end(s: Seq<char>, i: nat) -> nat
    decreases s.len() - i,
{
    if i < s.len() && is_ident_continue(s[i as int]) { ident_end(s, i + 1) } else { i }
}

/// What scanning one lexeme found: its kind, the position after it, and the diagnostic (its
/// range and message) when the text is malformed. Positions count characters.
pub struct Scanned {
    pub kind: SyntaxKind,
    pub end: nat,
    pub error: Option<(nat, nat, Seq<char>)>,
}

/// A well-formed lexeme of `kind` ending at `end`.
pub open spec fn found(kind: SyntaxKind, end: nat) -> Scanned {
    Scanned { kind, end, error: None }
}

/// A malformed lexeme ending at `end`, with a diagnostic on `[from, to)`.
pub open spec fn malformed(end: nat, from: nat, to: nat, message: Seq<char>) -> Scanned {
    Scanned { kind: SyntaxKind::ERROR_TOKEN, end, error: Some((from, to, message)) }
}

/// The `Debug` rendering of a character: quoted, with special characters escaped.
pub uninterp spec fn char_debug(c: char) -> Seq<char>;

/// Formats a character as `Debug` formatting does: quoted, with special characters escaped.
#[verifier::external_body]
fn debug_char(c: char) -> (text: String)
    ensures
        text@ == char_debug(c),
{
    format!("{:?}", c)
}

/// A float literal on `[i, e)`: finite, or a diagnostic.
pub open spec fn scan_float(s: Seq<char>, i: nat, e: nat) -> Scanned {
    if float_literal_finite(s.subrange(i as int, e as int)) {
        found(SyntaxKind::FLOAT, e)
    } else {
        malformed(e, i, e, "floating-point literal is not finite"@)
    }
}

/// A number starting at `i`: digits, then a point only if a digit follows it, then an exponent.
pub open spec fn scan_number(s: Seq<char>, i: nat) -> Scanned {
    let a = digits_end(s, i);
    let fraction = char_at(s, a as int, '.') && a + 1 < s.len() && is_digit(s[a + 1int]);
    let b = if fraction { digits_end(s, a + 1) } else { a };
    if char_at(s, b as int, 'e') || char_at(s, b as int, 'E') {
        let c = if char_at(s, b + 1int, '+') || char_at(s, b + 1int, '-') { b + 2 } else { b + 1 };
        let e = digits_end(s, c);
        if e == c {
            malformed(e, i, e, "expected digits in floating-point exponent"@)
        } else {
            scan_float(s, i, e)
        }
    } else if fraction {
        scan_float(s, i, b)
    } else if digits_value(s, i as int, b as int) <= i64::MAX {
        found(SyntaxKind::INT, b)
    } else {
        malformed(b, i, b, "integer literal is too large for i64"@)
    }
}

/// The escapes a string literal accepts after a backslash.
pub open spec fn is_escape(c: char) -> bool {
    c == '"' || c == '\\' || c == 'n' || c == 'r' || c == 't'
}

/// The rest of a string literal opened at `i`, from position `p` on.
pub open spec fn scan_string(s: Seq<char>, i: nat, p: nat) -> Scanned
    decreases s.len() - p,
{
    if p >= s.len() {
        malformed(s.len(), i, s.len(), "unterminated string literal"@)
    } else if s[p as int] == '"' {
        found(SyntaxKind::STRING, p + 1)
    } else if s[p as int] == '\\' {
        if p + 1 >= s.len() {
            malformed(s.len(), i, s.len(), "unterminated string literal"@)
        } else if is_escape(s[p + 1int]) {
            scan_string(s, i, p + 2)
        } else {
            malformed(p + 2, p, p + 2, "invalid string escape \\"@ + seq![s[p + 1int]])
        }
    } else {
        scan_string(s, i, p + 1)
    }
}

/// The punctuation at `i`: its kind and length in characters, the longest match first.
pub open spec fn punctuation(s: Seq<char>, i: nat) -> Option<(SyntaxKind, nat)> {
    let c = s[i as int];
    let next = |x: char| char_at(s, i + 1int, x);
    if c == '(' { Some((SyntaxKind::L_PAREN, 1)) }
    else if c == ')' { Some((SyntaxKind::R_PAREN, 1)) }
    else if c == '[' { Some((SyntaxKind::L_BRACKET, 1)) }
    else if c == ']' { Some((SyntaxKind::R_BRACKET, 1)) }
    else if c == '{' { Some((SyntaxKind::L_BRACE, 1)) }
    else if c == '}' { Some((SyntaxKind::R_BRACE, 1)) }
    else if c == ',' { Some((SyntaxKind::COMMA, 1)) }
    else if c == ':' { Some((SyntaxKind::COLON, 1)) }
    else if c == '\'' { Some((SyntaxKind::APOSTROPHE, 1)) }
    else if c == '.' { if next('.') { Some((SyntaxKind::DOT_DOT, 2)) } else { Some((SyntaxKind::DOT, 1)) } }
    else if c == '+' { Some((SyntaxKind::PLUS, 1)) }
    else if c == '-' { if next('>') { Some((SyntaxKind::ARROW, 2)) } else { Some((SyntaxKind::MINUS, 1)) } }
    else if c == '*' { Some((SyntaxKind::STAR, 1)) }
    else if c == '/' { if next('/') { Some((SyntaxKind::SLASH_SLASH, 2)) } else { Some((SyntaxKind::SLASH, 1)) } }
    else if c == '%' { Some((SyntaxKind::PERCENT, 1)) }
    else if c == '=' {
        if next('=') { Some((SyntaxKind::EQ_EQ, 2)) }
        else if next('>') { Some((SyntaxKind::FAT_ARROW, 2)) }
        else { Some((SyntaxKind::EQ, 1)) }
    }
    else if c == '!' { if next('=') { Some((SyntaxKind::BANG_EQ, 2)) } else { None } }
    else if c == '<' {
        if next('|') { Some((SyntaxKind::LESS_PIPE, 2)) }
        else if next('>') { Some((SyntaxKind::LESS_GREATER, 2)) }
        else if next('=') { Some((SyntaxKind::LESS_EQ, 2)) }
        else { Some((SyntaxKind::LESS, 1)) }
    }
    else if c == '>' { if next('=') { Some((SyntaxKind::GREATER_EQ, 2)) } else { Some((SyntaxKind::GREATER, 1)) } }
    else if c == '?' { if next('>') { Some((SyntaxKind::QUESTION_GREATER, 2)) } else { Some((SyntaxKind::QUESTION, 1)) } }
    else if c == '|' { if next('>') { Some((SyntaxKind::PIPE_GREATER, 2)) } else { Some((SyntaxKind::PIPE, 1)) } }
    else { None }
}

/// The lexeme starting at `i`, for `i` inside the source.
#[verifier::opaque]
pub open spec fn scan_at(s: Seq<char>, i: nat) -> Scanned {
    let c = s[i as int];
    if is_space(c) {
        found(SyntaxKind::WHITESPACE, space_end(s, i + 1))
    } else if c == '-' && char_at(s, i + 1int, '-') {
        found(SyntaxKind::COMMENT, line_end(s, i + 2))
    } else if is_digit(c) {
        scan_number(s, i)
    } else if is_ident_start(c) {
        let e = ident_end(s, i + 1);
        found(
            match keyword_kind(s.subrange(i as int, e as int)) {
                Some(k) => k,
                None => SyntaxKind::IDENT,
            },
            e,
        )
    } else if c == '"' {
        scan_string(s, i, i + 1)
    } else {
        match punctuation(s, i) {
            Some((k, n)) => found(k, i + n),
            None => malformed(i + 1, i, i + 1, "unexpected character "@ + char_debug(c)),
        }
    }
}

/// Where the lexeme starting at `i` ends: after the scanned text, and never before the next
/// character.
pub open spec fn lexeme_end(s: Seq<char>, i: nat) -> nat {
    let e = scan_at(s, i).end;
    if e > i { e } else { i + 1 }
}

/// The byte offset of character position `i`.
pub open spec fn byte_offset(s: Seq<char>, i: int) -> int {
    encode_utf8(s.subrange(0, i)).len() as int
}

/// The byte span of the character range `[a, b)`.
pub open spec fn byte_span(s: Seq<char>, a: int, b: int) -> Span {
    Span { start: byte_offset(s, a) as usize, end: byte_offset(s, b) as usize }
}

/// A lexeme: its kind, its text, and its byte span.
pub struct LexemeV {
    pub kind: SyntaxKind,
    pub text: Seq<char>,
    pub span: Span,
}

/// A lexical diagnostic: its byte span and message.
pub struct LexErrorV {
    pub span: Span,
    pub message: Seq<char>,
}

/// The lexemes and diagnostics of `s` from position `i` on.
#[verifier::opaque]
pub open spec fn lex_from(s: Seq<char>, i: nat) -> (Seq<LexemeV>, Seq<LexErrorV>)
    decreases s.len() - i,
{
    if i >= s.len() {
        (Seq::empty(), Seq::empty())
    } else {
        let sc = scan_at(s, i);
        let end = lexeme_end(s, i);
        proof {
            lemma_scan_bounds(s, i);
        }
        let lexeme = LexemeV {
            kind: if sc.error is Some { SyntaxKind::ERROR_TOKEN } else { sc.kind },
            text: s.subrange(i as int, end as int),
            span: byte_span(s, i as int, end as int),
        };
        let errors = match sc.error {
            Some((a, b, m)) => seq![LexErrorV { span: byte_span(s, a as int, b as int), message: m }],
            None => Seq::empty(),
        };
        let rest = lex_from(s, end);
        (seq![lexeme] + rest.0, errors + rest.1)
    }
}

/// One step of lexing: the lexeme at `i`, then the rest.
pub proof fn lemma_lex_from_step(s: Seq<char>, i: nat)
    ensures
        i >= s.len() ==> lex_from(s, i) == (Seq::<LexemeV>::empty(), Seq::<LexErrorV>::empty()),
        i < s.len() ==> lex_from(s, i) == (
            lex_step(s, i).0 + lex_from(s, lexeme_end(s, i)).0,
            lex_step(s, i).1 + lex_from(s, lexeme_end(s, i)).1,
        ),
{
    reveal(lex_from);
}

/// The lexemes and diagnostics of a whole source.
pub open spec fn lex_spec(s: Seq<char>) -> (Seq<LexemeV>, Seq<LexErrorV>) {
    lex_from(s, 0)
}

/// Runs of white space, comment text and identifier characters end inside the source, at or
/// after where they started.
pub proof fn lemma_run_ends(s: Seq<char>, i: nat)
    requires
        i <= s.len(),
    ensures
        i <= space_end(s, i) <= s.len(),
        i <= line_end(s, i) <= s.len(),
        i <= ident_end(s, i) <= s.len(),
    decreases s.len() - i,
{
    if i < s.len() {
        lemma_run_ends(s, i + 1);
    }
}

/// Digits end inside the source, at or after where they started.
pub proof fn lemma_digits_end(s: Seq<char>, i: nat)
    requires
        i <= s.len(),
    ensures
        i <= digits_end(s, i) <= s.len(),
        forall|k: int| i <= k < digits_end(s, i) ==> is_digit(#[trigger] s[k]),
    decreases s.len() - i,
{
    if i < s.len() && is_digit(s[i as int]) {
        lemma_digits_end(s, i + 1);
    }
}

/// A string literal's scan ends inside the source, after the opening quote.
proof fn lemma_string_bounds(s: Seq<char>, i: nat, p: nat)
    requires
        i < p <= s.len(),
    ensures
        i < scan_string(s, i, p).end <= s.len(),
        scan_string(s, i, p).error matches Some((a, b, _)) ==> a <= b <= s.len(),
    decreases s.len() - p,
{
    if p >= s.len() {
    } else if s[p as int] == '"' {
    } else if s[p as int] == '\\' {
        if p + 1 >= s.len() {
        } else if is_escape(s[p + 1int]) {
            lemma_string_bounds(s, i, p + 2);
        }
    } else {
        lemma_string_bounds(s, i, p + 1);
    }
}

/// Every lexeme is nonempty and ends inside the source.
pub proof fn lemma_scan_bounds(s: Seq<char>, i: nat)
    requires
        i < s.len(),
    ensures
        i < scan_at(s, i).end <= s.len(),
        i < lexeme_end(s, i) <= s.len(),
        scan_at(s, i).error matches Some((a, b, _)) ==> a <= b <= s.len(),
{
    reveal(scan_at);
    let c = s[i as int];
    if is_space(c) {
        lemma_run_ends(s, i + 1);
    } else if c == '-' && char_at(s, i + 1int, '-') {
        lemma_run_ends(s, i + 2);
    } else if is_digit(c) {
        lemma_digits_end(s, i);
        let a = digits_end(s, i);
        lemma_digits_end(s, i + 1);
        assert(a > i);
        if char_at(s, a as int, '.') && a + 1 < s.len() && is_digit(s[a + 1int]) {
            lemma_digits_end(s, a + 1);
        }
        let b = if char_at(s, a as int, '.') && a + 1 < s.len() && is_digit(s[a + 1int]) {
            digits_end(s, a + 1)
        } else {
            a
        };
        if char_at(s, b as int, 'e') || char_at(s, b as int, 'E') {
            let c0 = if char_at(s, b + 1int, '+') || char_at(s, b + 1int, '-') { b + 2 } else { b + 1 };
            lemma_digits_end(s, c0);
        }
    } else if is_ident_start(c) {
        lemma_run_ends(s, i + 1);
    } else if c == '"' {
        lemma_string_bounds(s, i, i + 1);
    }
}

impl View for Lexeme {
    type V = LexemeV;

    open spec fn view(&self) -> LexemeV {
        LexemeV { kind: self.kind, text: self.text@, span: self.span }
    }
}

/// The view of a lexical diagnostic.
pub open spec fn lex_error_view(e: LexError) -> LexErrorV {
    LexErrorV { span: e.span, message: e.message@ }
}

/// A lexeme of the lossless lexer.
#[derive(Clone, Debug, PartialEq, Eq)]
pub struct Lexeme {
    pub kind: SyntaxKind,
    pub text: String,
    pub span: Span,
}


/// Digits in a slice of the source end where they end in the source, or at the slice's end.
pub proof fn lemma_digits_end_sub(s: Seq<char>, i: nat, e: nat, k: nat)
    requires
        i <= k <= e <= s.len(),
    ensures
        digits_end(s.subrange(i as int, e as int), (k - i) as nat) == (if digits_end(s, k) <= e {
            digits_end(s, k)
        } else {
            e
        }) - i,
    decreases e - k,
{
    let t = s.subrange(i as int, e as int);
    lemma_digits_end(s, k);
    if k < e && is_digit(s[k as int]) {
        assert(t[k - i] == s[k as int]);
        lemma_digits_end_sub(s, i, e, k + 1);
        assert((k - i) as nat + 1 == (k + 1 - i) as nat);
    } else if k < e {
        assert(t[k - i] == s[k as int]);
    }
}

/// What a number scan accepts as a float is a float literal.
pub proof fn lemma_literal_shape(s: Seq<char>, i: nat, e: nat)
    requires
        i < s.len(),
        is_digit(s[i as int]),
        ({
            let a = digits_end(s, i);
            let fraction = char_at(s, a as int, '.') && a + 1 < s.len() && is_digit(s[a + 1int]);
            let b = if fraction { digits_end(s, a + 1) } else { a };
            if char_at(s, b as int, 'e') || char_at(s, b as int, 'E') {
                let c = if char_at(s, b + 1int, '+') || char_at(s, b + 1int, '-') { b + 2 } else { b + 1 };
                e == digits_end(s, c) && e > c
            } else {
                fraction && e == b
            }
        }),
    ensures
        is_float_literal(s.subrange(i as int, e as int)),
{
    let t = s.subrange(i as int, e as int);
    let a = digits_end(s, i);
    let fraction = char_at(s, a as int, '.') && a + 1 < s.len() && is_digit(s[a + 1int]);
    let b = if fraction { digits_end(s, a + 1) } else { a };
    lemma_digits_end(s, i);
    lemma_digits_end(s, i + 1);
    if fraction {
        lemma_digits_end(s, a + 1);
        lemma_digits_end(s, a + 2);
    }
    let exponent = char_at(s, b as int, 'e') || char_at(s, b as int, 'E');
    if exponent {
        let c = if char_at(s, b + 1int, '+') || char_at(s, b + 1int, '-') { b + 2 } else { b + 1 };
        lemma_digits_end(s, c);
    }
    assert(b <= e);
    lemma_digits_end_sub(s, i, e, i);
    assert(whole_end(t) == a - i);
    if a < e {
        assert(t[a - i] == s[a as int]);
    }
    assert(has_point(t) == fraction);
    if fraction {
        lemma_digits_end_sub(s, i, e, a + 1);
        assert((whole_end(t) + 1) as nat == (a + 1 - i) as nat);
    }
    assert(mantissa_end(t) == b - i);
    if exponent {
        let c = if char_at(s, b + 1int, '+') || char_at(s, b + 1int, '-') { b + 2 } else { b + 1 };
        assert(t[b - i] == s[b as int]);
        if b + 1 < e {
            assert(t[b + 1 - i] == s[b + 1int]);
        }
        assert(exponent_start(t) == c - i);
        lemma_digits_end_sub(s, i, e, c);
    }
}

/// `encode_utf8` of a concatenation is the concatenation of the encodings.
pub proof fn lemma_encode_concat(a: Seq<char>, b: Seq<char>)
    ensures
        encode_utf8(a + b) == encode_utf8(a) + encode_utf8(b),
    decreases a.len(),
{
    if a.len() == 0 {
        assert(a + b =~= b);
        assert(encode_utf8(a) =~= Seq::<u8>::empty());
        assert(encode_utf8(a) + encode_utf8(b) =~= encode_utf8(b));
    } else {
        lemma_encode_concat(a.drop_first(), b);
        assert((a + b).drop_first() =~= a.drop_first() + b);
        assert((a + b)[0] == a[0]);
        assert(encode_scalar(a[0] as u32) + (encode_utf8(a.drop_first()) + encode_utf8(b))
            =~= (encode_scalar(a[0] as u32) + encode_utf8(a.drop_first())) + encode_utf8(b));
    }
}

/// The byte offset of the next position adds the width of one character.
pub proof fn lemma_byte_offset_step(s: Seq<char>, i: int)
    requires
        0 <= i < s.len(),
    ensures
        byte_offset(s, i + 1) == byte_offset(s, i) + encode_scalar(s[i] as u32).len(),
        byte_offset(s, i + 1) <= byte_offset(s, s.len() as int),
{
    assert(s.subrange(0, i + 1) =~= s.subrange(0, i) + seq![s[i]]);
    lemma_encode_concat(s.subrange(0, i), seq![s[i]]);
    assert(seq![s[i]].drop_first() =~= Seq::<char>::empty());
    assert(encode_utf8(seq![s[i]]) =~= encode_scalar(s[i] as u32) + encode_utf8(Seq::<char>::empty()));
    assert(s.subrange(0, s.len() as int) =~= s.subrange(0, i + 1) + s.subrange(i + 1, s.len() as int));
    lemma_encode_concat(s.subrange(0, i + 1), s.subrange(i + 1, s.len() as int));
}

/// The number of bytes UTF-8 takes for a character.
pub fn utf8_width(c: char) -> (n: usize)
    ensures
        n == encode_scalar(c as u32).len(),
{
    proof {
        vstd::utf8::char_is_scalar(c);
    }
    let v = c as u32;
    if v <= 0x7f {
        1
    } else if v <= 0x7ff {
        2
    } else if v <= 0xffff {
        3
    } else {
        4
    }
}

/// Whether a character can continue an identifier.
fn ident_char(c: char) -> (r: bool)
    ensures
        r == is_ident_continue(c),
{
    ('A' <= c && c <= 'Z') || ('a' <= c && c <= 'z') || c == '_' || ('0' <= c && c <= '9')
}

/// The outcome of scanning one lexeme.
struct ScanOut {
    kind: SyntaxKind,
    end: usize,
    error: Option<(usize, usize, String)>,
}

/// The model of a scan outcome.
spec fn scan_view(r: ScanOut) -> Scanned {
    Scanned {
        kind: r.kind,
        end: r.end as nat,
        error: match r.error {
            Some((a, b, m)) => Some((a as nat, b as nat, m@)),
            None => None,
        },
    }
}

fn scan_found(kind: SyntaxKind, end: usize) -> (r: ScanOut)
    ensures
        scan_view(r) == found(kind, end as nat),
{
    ScanOut { kind, end, error: None }
}

fn scan_malformed(end: usize, from: usize, to: usize, message: String) -> (r: ScanOut)
    ensures
        scan_view(r) == malformed(end as nat, from as nat, to as nat, message@),
{
    ScanOut { kind: SyntaxKind::ERROR_TOKEN, end, error: Some((from, to, message)) }
}

/// The state of the lexer: the source's characters, the byte offset of each position, where
/// scanning stands, and what it has produced.
struct Scanner {
    chars: Vec<char>,
    offsets: Vec<usize>,
    position: usize,
    tokens: Vec<Token>,
    lexemes: Vec<Lexeme>,
    errors: Vec<LexError>,
}

impl Scanner {
    /// The scanner's source, its offsets, and its position agree.
    spec fn well_formed(&self) -> bool {
        &&& self.offsets@.len() == self.chars@.len() + 1
        &&& forall|k: int| 0 <= k <= self.chars@.len() ==> #[trigger] self.offsets@[k] == byte_offset(self.chars@, k)
        &&& self.position <= self.chars@.len()
    }

    fn new(source: &str) -> (scanner: Scanner)
        ensures
            scanner.well_formed(),
            scanner.chars@ == source@,
            scanner.position == 0,
            scanner.tokens@.len() == 0,
            scanner.lexemes@.len() == 0,
            scanner.errors@.len() == 0,
    {
        let chars = chars_of(source);
        let total = source.as_bytes().len();
        let mut offsets: Vec<usize> = Vec::new();
        let mut offset: usize = 0;
        let mut k: usize = 0;
        proof {
            assert(chars@.subrange(0, 0) =~= Seq::<char>::empty());
            assert(chars@.subrange(0, chars@.len() as int) =~= chars@);
        }
        while k < chars.len()
            invariant
                k <= chars@.len(),
                chars@ == source@,
                total == byte_offset(chars@, chars@.len() as int),
                offset == byte_offset(chars@, k as int),
                offsets@.len() == k,
                forall|q: int| 0 <= q < k ==> #[trigger] offsets@[q] == byte_offset(chars@, q),
            decreases chars@.len() - k,
        {
            offsets.push(offset);
            proof {
                lemma_byte_offset_step(chars@, k as int);
            }
            offset = offset + utf8_width(chars[k]);
            k = k + 1;
        }
        offsets.push(offset);
        Scanner { chars, offsets, position: 0, tokens: Vec::new(), lexemes: Vec::new(), errors: Vec::new() }
    }

    /// The character `offset` places after `at`, if there is one.
    fn peek(&self, at: usize, offset: usize) -> (r: Option<char>)
        requires
            at <= self.chars@.len(),
            offset <= 2,
        ensures
            match r {
                Some(c) => at + offset < self.chars@.len() && c == self.chars@[at + offset],
                None => at + offset >= self.chars@.len(),
            },
    {
        if offset < self.chars.len() - at {
            Some(self.chars[at + offset])
        } else {
            None
        }
    }

    /// The first position at or after `from` that does not hold a digit.
    fn skip_digits(&self, from: usize) -> (end: usize)
        requires
            from <= self.chars@.len(),
        ensures
            end == digits_end(self.chars@, from as nat),
    {
        proof {
            lemma_digits_end(self.chars@, from as nat);
        }
        let mut i = from;
        while i < self.chars.len() && '0' <= self.chars[i] && self.chars[i] <= '9'
            invariant
                from <= i <= self.chars@.len(),
                digits_end(self.chars@, from as nat) == digits_end(self.chars@, i as nat),
            decreases self.chars@.len() - i,
        {
            i = i + 1;
        }
        i
    }

    /// Whether the digits on `[from, to)` stand for at most `i64::MAX`.
    fn fits_i64(&self, from: usize, to: usize) -> (r: bool)
        requires
            from <= to <= self.chars@.len(),
            forall|k: int| from <= k < to ==> is_digit(#[trigger] self.chars@[k]),
        ensures
            r == (digits_value(self.chars@, from as int, to as int) <= i64::MAX),
    {
        let mut value: i128 = 0;
        let mut i = from;
        while i < to
            invariant
                from <= i <= to <= self.chars@.len(),
                forall|k: int| from <= k < to ==> is_digit(#[trigger] self.chars@[k]),
                value == digits_value(self.chars@, from as int, i as int),
                value <= i64::MAX,
            decreases to - i,
        {
            proof {
                crate::decimal::lemma_digits_value_bounds(self.chars@, from as int, i as int);
                lemma_digits_grow(self.chars@, from as int, i + 1, to as int);
            }
            assert(is_digit(self.chars@[i as int]));
            let digit = (self.chars[i] as u32 - '0' as u32) as i128;
            let next = value * 10 + digit;
            if next > i64::MAX as i128 {
                return false;
            }
            value = next;
            i = i + 1;
        }
        true
    }

    /// A float literal on `[start, end)`.
    fn float(&self, start: usize, end: usize) -> (r: ScanOut)
        requires
            start < end <= self.chars@.len(),
            is_float_literal(self.chars@.subrange(start as int, end as int)),
        ensures
            scan_view(r) == scan_float(self.chars@, start as nat, end as nat),
    {
        let mut text: Vec<char> = Vec::new();
        let mut i = start;
        while i < end
            invariant
                start <= i <= end <= self.chars@.len(),
                text@ == self.chars@.subrange(start as int, i as int),
            decreases end - i,
        {
            text.push(self.chars[i]);
            i = i + 1;
            assert(text@ =~= self.chars@.subrange(start as int, i as int));
        }
        if float_literal_is_finite(text.as_slice()) {
            scan_found(SyntaxKind::FLOAT, end)
        } else {
            scan_malformed(end, start, end, "floating-point literal is not finite".to_string())
        }
    }

    /// A number starting at `start`.
    fn number(&self, start: usize) -> (r: ScanOut)
        requires
            start < self.chars@.len(),
            is_digit(self.chars@[start as int]),
        ensures
            scan_view(r) == scan_number(self.chars@, start as nat),
    {
        let s = Ghost(self.chars@);
        let n = self.chars.len();
        let a = self.skip_digits(start);
        proof {
            lemma_digits_end(s@, start as nat);
            lemma_digits_end(s@, (start + 1) as nat);
        }
        let fraction = a < n && self.chars[a] == '.' && a + 1 < n && '0' <= self.chars[a + 1]
            && self.chars[a + 1] <= '9';
        let b = if fraction { self.skip_digits(a + 1) } else { a };
        proof {
            if fraction {
                lemma_digits_end(s@, (a + 1) as nat);
                lemma_digits_end(s@, (a + 2) as nat);
            }
        }
        if b < n && (self.chars[b] == 'e' || self.chars[b] == 'E') {
            let c = if b + 1 < n && (self.chars[b + 1] == '+' || self.chars[b + 1] == '-') {
                b + 2
            } else {
                b + 1
            };
            let e = self.skip_digits(c);
            proof {
                lemma_digits_end(s@, c as nat);
            }
            if e == c {
                return scan_malformed(e, start, e, "expected digits in floating-point exponent".to_string());
            }
            proof {
                lemma_literal_shape(s@, start as nat, e as nat);
            }
            self.float(start, e)
        } else if fraction {
            proof {
                lemma_literal_shape(s@, start as nat, b as nat);
            }
            self.float(start, b)
        } else if self.fits_i64(start, b) {
            scan_found(SyntaxKind::INT, b)
        } else {
            scan_malformed(b, start, b, "integer literal is too large for i64".to_string())
        }
    }
}


impl Scanner {
    /// The first position at or after `from` that is not white space.
    fn skip_spaces(&self, from: usize) -> (end: usize)
        requires
            from <= self.chars@.len(),
        ensures
            end == space_end(self.chars@, from as nat),
    {
        let mut i = from;
        while i < self.chars.len() && (self.chars[i] == ' ' || self.chars[i] == '\t'
            || self.chars[i] == '\r' || self.chars[i] == '\n')
            invariant
                from <= i <= self.chars@.len(),
                space_end(self.chars@, from as nat) == space_end(self.chars@, i as nat),
            decreases self.chars@.len() - i,
        {
            i = i + 1;
        }
        i
    }

    /// The first position at or after `from` that holds a line break, or the end.
    fn skip_line(&self, from: usize) -> (end: usize)
        requires
            from <= self.chars@.len(),
        ensures
            end == line_end(self.chars@, from as nat),
    {
        let mut i = from;
        while i < self.chars.len() && !(self.chars[i] == '\r' || self.chars[i] == '\n')
            invariant
                from <= i <= self.chars@.len(),
                line_end(self.chars@, from as nat) == line_end(self.chars@, i as nat),
            decreases self.chars@.len() - i,
        {
            i = i + 1;
        }
        i
    }

    /// An identifier or keyword starting at `start`.
    fn identifier(&self, start: usize) -> (r: ScanOut)
        requires
            start < self.chars@.len(),
        ensures
            scan_view(r) == found(
                match keyword_kind(self.chars@.subrange(start as int, ident_end(self.chars@, (start + 1) as nat) as int)) {
                    Some(k) => k,
                    None => SyntaxKind::IDENT,
                },
                ident_end(self.chars@, (start + 1) as nat),
            ),
    {
        let n = self.chars.len();
        let mut i = start + 1;
        while i < n && ident_char(self.chars[i])
            invariant
                n == self.chars@.len(),
                start < i <= self.chars@.len(),
                ident_end(self.chars@, (start + 1) as nat) == ident_end(self.chars@, i as nat),
            decreases self.chars@.len() - i,
        {
            i = i + 1;
        }
        let word = string_from_range(self.chars.as_slice(), start, i);
        match keyword(word.as_str()) {
            Some(k) => scan_found(k, i),
            None => scan_found(SyntaxKind::IDENT, i),
        }
    }

    /// A string literal opened at `start`.
    fn string(&self, start: usize) -> (r: ScanOut)
        requires
            start < self.chars@.len(),
        ensures
            scan_view(r) == scan_string(self.chars@, start as nat, (start + 1) as nat),
    {
        let n = self.chars.len();
        let mut p = start + 1;
        loop
            invariant
                start < p <= n + 1,
                n == self.chars@.len(),
                scan_string(self.chars@, start as nat, (start + 1) as nat) == scan_string(
                    self.chars@,
                    start as nat,
                    p as nat,
                ),
            decreases n + 1 - p,
        {
            if p >= n {
                return scan_malformed(n, start, n, "unterminated string literal".to_string());
            }
            let c = self.chars[p];
            if c == '"' {
                return scan_found(SyntaxKind::STRING, p + 1);
            }
            if c == '\\' {
                if p + 1 >= n {
                    return scan_malformed(n, start, n, "unterminated string literal".to_string());
                }
                let escaped = self.chars[p + 1];
                if escaped == '"' || escaped == '\\' || escaped == 'n' || escaped == 'r' || escaped == 't' {
                    p = p + 2;
                } else {
                    let mut message = "invalid string escape \\".to_string();
                    crate::text::push_char(&mut message, escaped);
                    assert(message@ =~= "invalid string escape \\"@ + seq![escaped]);
                    return scan_malformed(p + 2, p, p + 2, message);
                }
            } else {
                p = p + 1;
            }
        }
    }

    /// The punctuation at `at`: its kind and length.
    fn punctuation(&self, at: usize) -> (r: Option<(SyntaxKind, usize)>)
        requires
            at < self.chars@.len(),
        ensures
            match r {
                Some((k, n)) => punctuation(self.chars@, at as nat) == Some((k, n as nat)),
                None => punctuation(self.chars@, at as nat) is None,
            },
    {
        let c = self.chars[at];
        let next = self.peek(at, 1);
        let is_next = |x: char| -> (b: bool)
            ensures
                b == char_at(self.chars@, at + 1int, x),
        {
            match next {
                Some(y) => y == x,
                None => false,
            }
        };
        if c == '(' { Some((SyntaxKind::L_PAREN, 1)) }
        else if c == ')' { Some((SyntaxKind::R_PAREN, 1)) }
        else if c == '[' { Some((SyntaxKind::L_BRACKET, 1)) }
        else if c == ']' { Some((SyntaxKind::R_BRACKET, 1)) }
        else if c == '{' { Some((SyntaxKind::L_BRACE, 1)) }
        else if c == '}' { Some((SyntaxKind::R_BRACE, 1)) }
        else if c == ',' { Some((SyntaxKind::COMMA, 1)) }
        else if c == ':' { Some((SyntaxKind::COLON, 1)) }
        else if c == '\'' { Some((SyntaxKind::APOSTROPHE, 1)) }
        else if c == '.' { if is_next('.') { Some((SyntaxKind::DOT_DOT, 2)) } else { Some((SyntaxKind::DOT, 1)) } }
        else if c == '+' { Some((SyntaxKind::PLUS, 1)) }
        else if c == '-' { if is_next('>') { Some((SyntaxKind::ARROW, 2)) } else { Some((SyntaxKind::MINUS, 1)) } }
        else if c == '*' { Some((SyntaxKind::STAR, 1)) }
        else if c == '/' { if is_next('/') { Some((SyntaxKind::SLASH_SLASH, 2)) } else { Some((SyntaxKind::SLASH, 1)) } }
        else if c == '%' { Some((SyntaxKind::PERCENT, 1)) }
        else if c == '=' {
            if is_next('=') { Some((SyntaxKind::EQ_EQ, 2)) }
            else if is_next('>') { Some((SyntaxKind::FAT_ARROW, 2)) }
            else { Some((SyntaxKind::EQ, 1)) }
        }
        else if c == '!' { if is_next('=') { Some((SyntaxKind::BANG_EQ, 2)) } else { None } }
        else if c == '<' {
            if is_next('|') { Some((SyntaxKind::LESS_PIPE, 2)) }
            else if is_next('>') { Some((SyntaxKind::LESS_GREATER, 2)) }
            else if is_next('=') { Some((SyntaxKind::LESS_EQ, 2)) }
            else { Some((SyntaxKind::LESS, 1)) }
        }
        else if c == '>' { if is_next('=') { Some((SyntaxKind::GREATER_EQ, 2)) } else { Some((SyntaxKind::GREATER, 1)) } }
        else if c == '?' { if is_next('>') { Some((SyntaxKind::QUESTION_GREATER, 2)) } else { Some((SyntaxKind::QUESTION, 1)) } }
        else if c == '|' { if is_next('>') { Some((SyntaxKind::PIPE_GREATER, 2)) } else { Some((SyntaxKind::PIPE, 1)) } }
        else { None }
    }

    /// The lexeme starting at `start`.
    fn scan(&self, start: usize) -> (r: ScanOut)
        requires
            start < self.chars@.len(),
        ensures
            scan_view(r) == scan_at(self.chars@, start as nat),
    {
        reveal(scan_at);
        let n = self.chars.len();
        let c = self.chars[start];
        if c == ' ' || c == '\t' || c == '\r' || c == '\n' {
            return scan_found(SyntaxKind::WHITESPACE, self.skip_spaces(start + 1));
        }
        if c == '-' && self.peek(start, 1) == Some('-') {
            return scan_found(SyntaxKind::COMMENT, self.skip_line(start + 2));
        }
        if '0' <= c && c <= '9' {
            return self.number(start);
        }
        if ('A' <= c && c <= 'Z') || ('a' <= c && c <= 'z') || c == '_' {
            return self.identifier(start);
        }
        if c == '"' {
            return self.string(start);
        }
        match self.punctuation(start) {
            Some((k, n)) => scan_found(k, start + n),
            None => {
                let mut message = "unexpected character ".to_string();
                let quoted = debug_char(c);
                push_str(&mut message, quoted.as_str());
                scan_malformed(start + 1, start, start + 1, message)
            },
        }
    }

    /// Scans one lexeme at the current position and records its diagnostic if it is malformed.
    /// The lexeme is recorded when it is well formed or when `recovering`, and its token when it
    /// is well formed and not white space or a comment; the result is an error exactly when the
    /// lexeme is malformed.
    fn scan_one(&mut self, recovering: bool) -> (r: Result<(), ()>)
        requires
            old(self).well_formed(),
            old(self).position < old(self).chars@.len(),
        ensures
            final(self).well_formed(),
            final(self).chars@ == old(self).chars@,
            final(self).position == lexeme_end(old(self).chars@, old(self).position as nat),
            r is Err <==> scan_at(old(self).chars@, old(self).position as nat).error is Some,
            ({
                let (ls, es) = lex_step(old(self).chars@, old(self).position as nat);
                &&& final(self).lexemes@.map_values(|l: Lexeme| l@) == old(self).lexemes@.map_values(|l: Lexeme| l@)
                    + (if r is Ok || recovering { ls } else { Seq::empty() })
                &&& final(self).errors@.map_values(|e: LexError| lex_error_view(e)) == old(self).errors@.map_values(|e: LexError| lex_error_view(e)) + es
                &&& if r is Ok && !trivia_kind(ls[0].kind) {
                    &&& final(self).tokens@.len() == old(self).tokens@.len() + 1
                    &&& final(self).tokens@.drop_last() == old(self).tokens@
                    &&& final(self).tokens@.last().span == ls[0].span
                    &&& token_matches(final(self).tokens@.last().kind, ls[0])
                } else {
                    final(self).tokens@ == old(self).tokens@
                }
            }),
    {
        let start = self.position;
        let scanned = self.scan(start);
        proof {
            lemma_scan_bounds(self.chars@, start as nat);
        }
        let end = if scanned.end > start { scanned.end } else { start + 1 };
        let kind = if scanned.error.is_some() { SyntaxKind::ERROR_TOKEN } else { scanned.kind };
        let text = string_from_range(self.chars.as_slice(), start, end);
        let span = Span::new(self.offsets[start], self.offsets[end]);
        let ghost lexemes_before = self.lexemes@.map_values(|l: Lexeme| l@);
        let ghost errors_before = self.errors@.map_values(|e: LexError| lex_error_view(e));
        let malformed = scanned.error.is_some();
        let lexeme = Lexeme { kind, text, span };
        if !malformed && !kind.is_trivia() {
            proof {
                lemma_scan_well_formed(self.chars@, start as nat);
                assert(lexeme@ == lex_step(self.chars@, start as nat).0[0]);
            }
            let token = token_kind_of(&lexeme);
            self.tokens.push(Token { kind: token, span });
        }
        if !malformed || recovering {
            self.lexemes.push(lexeme);
        }
        match scanned.error {
            Some((a, b, message)) => {
                let error_span = Span::new(self.offsets[a], self.offsets[b]);
                self.errors.push(LexError { span: error_span, message });
            },
            None => {},
        }
        self.position = end;
        proof {
            let (ls, es) = lex_step(old(self).chars@, start as nat);
            if !malformed || recovering {
                assert(self.lexemes@.map_values(|l: Lexeme| l@) =~= lexemes_before + ls);
            } else {
                assert(self.lexemes@.map_values(|l: Lexeme| l@) =~= lexemes_before + Seq::<LexemeV>::empty());
            }
            assert(self.errors@.map_values(|e: LexError| lex_error_view(e)) =~= errors_before + es);
        }
        if malformed { Err(()) } else { Ok(()) }
    }
}

/// The lexeme and diagnostics of one scan at `i`.
pub open spec fn lex_step(s: Seq<char>, i: nat) -> (Seq<LexemeV>, Seq<LexErrorV>) {
    let sc = scan_at(s, i);
    let end = lexeme_end(s, i);
    (
        seq![LexemeV {
            kind: if sc.error is Some { SyntaxKind::ERROR_TOKEN } else { sc.kind },
            text: s.subrange(i as int, end as int),
            span: byte_span(s, i as int, end as int),
        }],
        match sc.error {
            Some((a, b, m)) => seq![LexErrorV { span: byte_span(s, a as int, b as int), message: m }],
            None => Seq::empty(),
        },
    )
}

/// One scanning step from a position inside the source consumes at least one character and
/// stays inside the source. It yields exactly one lexeme, whose text is the consumed characters
/// and whose span is their byte range, and one diagnostic exactly when that lexeme is malformed.
/// The scanner records the diagnostic in either mode, and the lexeme when it is well formed or
/// when recovering (`Scanner::scan_one`).
pub proof fn lemma_scan_step(s: Seq<char>, i: nat)
    requires
        i < s.len(),
    ensures
        i < lexeme_end(s, i) <= s.len(),
        lex_step(s, i).0.len() == 1,
        lex_step(s, i).0[0].text == s.subrange(i as int, lexeme_end(s, i) as int),
        lex_step(s, i).0[0].span == byte_span(s, i as int, lexeme_end(s, i) as int),
        lex_step(s, i).1.len() == (if scan_at(s, i).error is Some { 1nat } else { 0nat }),
{
    lemma_scan_bounds(s, i);
}

/// Lexes a whole source without stopping at malformed text.
pub fn lex_lossless(source: &str) -> (r: (Vec<Lexeme>, Vec<LexError>))
    ensures
        r.0@.map_values(|l: Lexeme| l@) == lex_spec(source@).0,
        r.1@.map_values(|e: LexError| lex_error_view(e)) == lex_spec(source@).1,
{
    let mut scanner = Scanner::new(source);
    let n = scanner.chars.len();
    proof {
        assert(scanner.lexemes@.map_values(|l: Lexeme| l@) =~= Seq::<LexemeV>::empty());
        assert(scanner.errors@.map_values(|e: LexError| lex_error_view(e)) =~= Seq::<LexErrorV>::empty());
    }
    while scanner.position < n
        invariant
            scanner.well_formed(),
            n == scanner.chars@.len(),
            scanner.chars@ == source@,
            scanner.lexemes@.map_values(|l: Lexeme| l@) + lex_from(source@, scanner.position as nat).0
                == lex_spec(source@).0,
            scanner.errors@.map_values(|e: LexError| lex_error_view(e)) + lex_from(source@, scanner.position as nat).1
                == lex_spec(source@).1,
        decreases n - scanner.position,
    {
        let ghost before = scanner.position;
        let ghost ls_before = scanner.lexemes@.map_values(|l: Lexeme| l@);
        let ghost es_before = scanner.errors@.map_values(|e: LexError| lex_error_view(e));
        let _ = scanner.scan_one(true);
        proof {
            lemma_lex_from_step(source@, before as nat);
            lemma_scan_bounds(source@, before as nat);
            let (ls, es) = lex_step(source@, before as nat);
            let rest = lex_from(source@, lexeme_end(source@, before as nat));
            assert(lex_from(source@, before as nat).0 == ls + rest.0);
            assert(lex_from(source@, before as nat).1 == es + rest.1);
            assert(ls_before + (ls + rest.0) =~= (ls_before + ls) + rest.0);
            assert(es_before + (es + rest.1) =~= (es_before + es) + rest.1);
        }
    }
    proof {
        lemma_lex_from_step(source@, scanner.position as nat);
        assert(scanner.lexemes@.map_values(|l: Lexeme| l@) + lex_from(source@, scanner.position as nat).0
            =~= scanner.lexemes@.map_values(|l: Lexeme| l@));
        assert(scanner.errors@.map_values(|e: LexError| lex_error_view(e)) + lex_from(source@, scanner.position as nat).1
            =~= scanner.errors@.map_values(|e: LexError| lex_error_view(e)));
    }
    (scanner.lexemes, scanner.errors)
}


/// Lexes a whole source, stopping at the first malformed text: the lexemes, or the first
/// diagnostic.
pub fn lex_strict(source: &str) -> (r: Result<(Vec<Lexeme>, Vec<Token>), LexError>)
    ensures
        match r {
            Ok((ls, ts)) => lex_spec(source@).1.len() == 0 && ls@.map_values(|l: Lexeme| l@)
                == lex_spec(source@).0 && tokens_stand_for(ts@, significant(lex_spec(source@).0)),
            Err(e) => lex_spec(source@).1.len() > 0 && lex_error_view(e) == lex_spec(source@).1[0],
        },
{
    let mut scanner = Scanner::new(source);
    let n = scanner.chars.len();
    proof {
        assert(scanner.lexemes@.map_values(|l: Lexeme| l@) =~= Seq::<LexemeV>::empty());
    }
    while scanner.position < n
        invariant
            scanner.well_formed(),
            n == scanner.chars@.len(),
            scanner.chars@ == source@,
            scanner.lexemes@.map_values(|l: Lexeme| l@) + lex_from(source@, scanner.position as nat).0
                == lex_spec(source@).0,
            scanner.errors@.len() == 0,
            lex_from(source@, scanner.position as nat).1 == lex_spec(source@).1,
            tokens_stand_for(scanner.tokens@, significant(scanner.lexemes@.map_values(|l: Lexeme| l@))),
        decreases n - scanner.position,
    {
        let ghost before = scanner.position;
        let ghost ls_before = scanner.lexemes@.map_values(|l: Lexeme| l@);
        let ghost es_before = scanner.errors@.map_values(|e: LexError| lex_error_view(e));
        let ghost ts_before = scanner.tokens@;
        let step = scanner.scan_one(false);
        proof {
            lemma_lex_from_step(source@, before as nat);
            lemma_scan_bounds(source@, before as nat);
            let (ls, es) = lex_step(source@, before as nat);
            let rest = lex_from(source@, lexeme_end(source@, before as nat));
            assert(lex_from(source@, before as nat).0 == ls + rest.0);
            assert(lex_from(source@, before as nat).1 == es + rest.1);
            assert(es_before =~= Seq::<LexErrorV>::empty());
            if step is Ok {
                assert(es =~= Seq::<LexErrorV>::empty());
                assert(es + rest.1 =~= rest.1);
                assert(ls_before + (ls + rest.0) =~= (ls_before + ls) + rest.0);
                let now = scanner.lexemes@.map_values(|l: Lexeme| l@);
                assert(now =~= ls_before.push(ls[0]));
                assert(now.drop_last() =~= ls_before);
                assert(significant(now) == if trivia_kind(ls[0].kind) {
                    significant(ls_before)
                } else {
                    significant(ls_before).push(ls[0])
                });
                if !trivia_kind(ls[0].kind) {
                    assert forall|k: int| 0 <= k < significant(now).len() implies #[trigger] scanner.tokens@[k].span
                        == significant(now)[k].span && token_matches(scanner.tokens@[k].kind, significant(now)[k]) by {
                        if k < ts_before.len() {
                            assert(scanner.tokens@[k] == scanner.tokens@.drop_last()[k]);
                        }
                    }
                }
            } else {
                assert(scanner.errors@.map_values(|e: LexError| lex_error_view(e)) =~= es);
                assert(es.len() == 1);
                assert((es + rest.1)[0] == es[0]);
            }
        }
        if step.is_err() {
            let first = scanner.errors.remove(0);
            proof {
                let (ls, es) = lex_step(source@, before as nat);
                assert(lex_error_view(first) == es[0]);
            }
            return Err(first);
        }
    }
    proof {
        lemma_lex_from_step(source@, scanner.position as nat);
        assert(scanner.lexemes@.map_values(|l: Lexeme| l@) + lex_from(source@, scanner.position as nat).0
            =~= scanner.lexemes@.map_values(|l: Lexeme| l@));
    }
    Ok((scanner.lexemes, scanner.tokens))
}

/// The texts of lexemes, one after another.
pub open spec fn joined(ls: Seq<LexemeV>) -> Seq<char>
    decreases ls.len(),
{
    if ls.len() == 0 {
        Seq::empty()
    } else {
        ls[0].text + joined(ls.drop_first())
    }
}

/// Whether lexeme `k + 1` starts where lexeme `k` ends.
pub open spec fn adjacent(ls: Seq<LexemeV>, k: int) -> bool {
    ls[k].span.end == ls[k + 1].span.start
}

/// Whether lexemes tile the bytes `[from, to)`: each nonempty, each span as long as its text's
/// UTF-8 encoding, each starting where the previous one ended, the first at `from` and the last
/// ending at `to`.
pub open spec fn tiles(ls: Seq<LexemeV>, from: int, to: int) -> bool {
    &&& (ls.len() == 0 <==> from == to)
    &&& forall|k: int| 0 <= k < ls.len() ==> (#[trigger] ls[k]).text.len() > 0
        && ls[k].span.end - ls[k].span.start == encode_utf8(ls[k].text).len()
    &&& forall|k: int| 0 <= k < ls.len() - 1 ==> #[trigger] adjacent(ls, k)
    &&& ls.len() > 0 ==> ls[0].span.start == from && ls[ls.len() - 1].span.end == to
}

/// The byte length of the characters `[a, b)` is the difference of their offsets.
proof fn lemma_byte_span_length(s: Seq<char>, a: int, b: int)
    requires
        0 <= a <= b <= s.len(),
    ensures
        byte_offset(s, b) == byte_offset(s, a) + encode_utf8(s.subrange(a, b)).len(),
        byte_offset(s, b) <= byte_offset(s, s.len() as int),
{
    assert(s.subrange(0, b) =~= s.subrange(0, a) + s.subrange(a, b));
    lemma_encode_concat(s.subrange(0, a), s.subrange(a, b));
    assert(s.subrange(0, s.len() as int) =~= s.subrange(0, b) + s.subrange(b, s.len() as int));
    lemma_encode_concat(s.subrange(0, b), s.subrange(b, s.len() as int));
}

proof fn lemma_lex_from_lossless(s: Seq<char>, i: nat)
    requires
        i <= s.len(),
        encode_utf8(s).len() <= usize::MAX,
    ensures
        joined(lex_from(s, i).0) == s.subrange(i as int, s.len() as int),
        tiles(lex_from(s, i).0, byte_offset(s, i as int), byte_offset(s, s.len() as int)),
    decreases s.len() - i,
{
    assert(s.subrange(0, s.len() as int) =~= s);
    lemma_lex_from_step(s, i);
    if i >= s.len() {
        assert(s.subrange(i as int, s.len() as int) =~= Seq::<char>::empty());
    } else {
        lemma_scan_bounds(s, i);
        let end = lexeme_end(s, i);
        lemma_lex_from_lossless(s, end);
        let (ls, es) = lex_step(s, i);
        let rest = lex_from(s, end).0;
        let all = lex_from(s, i).0;
        assert(all == ls + rest);
        assert(all.drop_first() =~= rest);
        assert(s.subrange(i as int, s.len() as int) =~= s.subrange(i as int, end as int) + s.subrange(
            end as int,
            s.len() as int,
        ));
        lemma_byte_span_length(s, i as int, end as int);
        lemma_byte_span_length(s, end as int, s.len() as int);
        lemma_byte_span_length(s, 0, i as int);
        assert forall|k: int| 0 <= k < all.len() - 1 implies #[trigger] adjacent(all, k) by {
            if k > 0 {
                assert(all[k] == rest[k - 1]);
                assert(all[k + 1] == rest[k]);
                assert(adjacent(rest, k - 1));
            }
        }
        assert forall|k: int| 0 <= k < all.len() implies (#[trigger] all[k]).text.len() > 0
            && all[k].span.end - all[k].span.start == encode_utf8(all[k].text).len() by {
            if k > 0 {
                assert(all[k] == rest[k - 1]);
            }
        }
    }
}

/// The lexer loses nothing: the lexemes' texts, one after another, are the source, and their
/// spans tile the source's bytes from the first to the last.
pub proof fn lemma_lex_lossless(s: Seq<char>)
    requires
        encode_utf8(s).len() <= usize::MAX,
    ensures
        joined(lex_spec(s).0) == s,
        tiles(lex_spec(s).0, 0, encode_utf8(s).len() as int),
{
    lemma_lex_from_lossless(s, 0);
    assert(s.subrange(0, s.len() as int) =~= s);
    assert(s.subrange(0, 0) =~= Seq::<char>::empty());
    assert(encode_utf8(Seq::<char>::empty()) =~= Seq::<u8>::empty());
}

} // verus!
