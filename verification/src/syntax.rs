//! The kinds of tokens and syntax nodes, and what the lexer and parser say about them.
use vstd::prelude::*;
use crate::text::str_equal;

verus! {

/// The kind of a token or of a syntax node. Tokens come first, then nodes.
#[allow(non_camel_case_types)]
#[derive(Clone, Copy, Debug, PartialEq, Eq, Structural, PartialOrd, Ord, Hash)]
pub enum SyntaxKind {
    ERROR_TOKEN,
    WHITESPACE,
    COMMENT,
    INT,
    FLOAT,
    STRING,
    IDENT,
    FN_KW,
    DO_KW,
    END_KW,
    IF_KW,
    THEN_KW,
    ELSEIF_KW,
    ELSE_KW,
    LET_KW,
    TAP_KW,
    NIL_KW,
    TRUE_KW,
    FALSE_KW,
    AND_KW,
    OR_KW,
    NOT_KW,
    LOOP_KW,
    BREAK_KW,
    CONTINUE_KW,
    CASE_KW,
    OF_KW,
    WHEN_KW,
    RAISE_KW,
    TRY_KW,
    CATCH_KW,
    L_PAREN,
    R_PAREN,
    L_BRACKET,
    R_BRACKET,
    L_BRACE,
    R_BRACE,
    COMMA,
    DOT,
    DOT_DOT,
    EQ,
    EQ_EQ,
    BANG_EQ,
    PLUS,
    MINUS,
    STAR,
    SLASH,
    SLASH_SLASH,
    PERCENT,
    LESS,
    LESS_EQ,
    GREATER,
    GREATER_EQ,
    QUESTION,
    QUESTION_GREATER,
    PIPE_GREATER,
    LESS_PIPE,
    LESS_GREATER,
    COLON,
    APOSTROPHE,
    ARROW,
    PIPE,
    FAT_ARROW,
    ROOT,
    FUNCTION_DECL,
    LET_STMT,
    EXPR_STMT,
    PARAM_LIST,
    BLOCK,
    LITERAL_EXPR,
    NAME_EXPR,
    FUNCTION_EXPR,
    BLOCK_EXPR,
    PAREN_EXPR,
    LIST_EXPR,
    MAP_EXPR,
    CALL_EXPR,
    FIELD_EXPR,
    INDEX_EXPR,
    NIL_PROPAGATE_EXPR,
    UNARY_EXPR,
    BINARY_EXPR,
    ASSIGN_EXPR,
    PIPELINE_EXPR,
    TRAILING_ARGUMENT_EXPR,
    RAISE_EXPR,
    TRY_EXPR,
    CASE_EXPR,
    IF_EXPR,
    LOOP_EXPR,
    CONTINUE_EXPR,
    BREAK_EXPR,
    MAP_ENTRY,
    ARG_LIST,
    PIPELINE_STAGE,
    CATCH_CLAUSE,
    CASE_CLAUSE,
    IF_BRANCH,
    ELSE_BRANCH,
    BINDING_PATTERN,
    WILDCARD_PATTERN,
    LITERAL_PATTERN,
    LIST_PATTERN,
    MAP_PATTERN,
    REST_PATTERN,
    MAP_PATTERN_FIELD,
    ERROR,
}

/// Whether a kind is trivia: white space or a comment.
pub open spec fn trivia_kind(k: SyntaxKind) -> bool {
    k is WHITESPACE || k is COMMENT
}

/// Whether a kind is an expression node.
pub open spec fn expression_kind(k: SyntaxKind) -> bool {
    k is LITERAL_EXPR
        || k is NAME_EXPR
        || k is FUNCTION_EXPR
        || k is BLOCK_EXPR
        || k is PAREN_EXPR
        || k is LIST_EXPR
        || k is MAP_EXPR
        || k is CALL_EXPR
        || k is FIELD_EXPR
        || k is INDEX_EXPR
        || k is NIL_PROPAGATE_EXPR
        || k is UNARY_EXPR
        || k is BINARY_EXPR
        || k is ASSIGN_EXPR
        || k is PIPELINE_EXPR
        || k is TRAILING_ARGUMENT_EXPR
        || k is RAISE_EXPR
        || k is TRY_EXPR
        || k is CASE_EXPR
        || k is IF_EXPR
        || k is LOOP_EXPR
        || k is CONTINUE_EXPR
        || k is BREAK_EXPR
}

/// Whether a kind is a pattern node.
pub open spec fn pattern_kind(k: SyntaxKind) -> bool {
    k is BINDING_PATTERN
        || k is WILDCARD_PATTERN
        || k is LITERAL_PATTERN
        || k is LIST_PATTERN
        || k is MAP_PATTERN
}

impl SyntaxKind {
    /// Whether this kind is trivia: white space or a comment.
    pub fn is_trivia(self) -> (r: bool)
        ensures
            r == trivia_kind(self),
    {
        matches!(self, SyntaxKind::WHITESPACE | SyntaxKind::COMMENT)
    }

    /// Whether this kind is an expression node.
    pub fn is_expression(self) -> (r: bool)
        ensures
            r == expression_kind(self),
    {
        matches!(
            self,
            SyntaxKind::LITERAL_EXPR
                | SyntaxKind::NAME_EXPR
                | SyntaxKind::FUNCTION_EXPR
                | SyntaxKind::BLOCK_EXPR
                | SyntaxKind::PAREN_EXPR
                | SyntaxKind::LIST_EXPR
                | SyntaxKind::MAP_EXPR
                | SyntaxKind::CALL_EXPR
                | SyntaxKind::FIELD_EXPR
                | SyntaxKind::INDEX_EXPR
                | SyntaxKind::NIL_PROPAGATE_EXPR
                | SyntaxKind::UNARY_EXPR
                | SyntaxKind::BINARY_EXPR
                | SyntaxKind::ASSIGN_EXPR
                | SyntaxKind::PIPELINE_EXPR
                | SyntaxKind::TRAILING_ARGUMENT_EXPR
                | SyntaxKind::RAISE_EXPR
                | SyntaxKind::TRY_EXPR
                | SyntaxKind::CASE_EXPR
                | SyntaxKind::IF_EXPR
                | SyntaxKind::LOOP_EXPR
                | SyntaxKind::CONTINUE_EXPR
                | SyntaxKind::BREAK_EXPR
        )
    }

    /// Whether this kind is a pattern node.
    pub fn is_pattern(self) -> (r: bool)
        ensures
            r == pattern_kind(self),
    {
        matches!(
            self,
            SyntaxKind::BINDING_PATTERN
                | SyntaxKind::WILDCARD_PATTERN
                | SyntaxKind::LITERAL_PATTERN
                | SyntaxKind::LIST_PATTERN
                | SyntaxKind::MAP_PATTERN
        )
    }
}

/// The keyword a word spells, if any. `alias` is contextual and not a keyword.
pub open spec fn keyword_kind(word: Seq<char>) -> Option<SyntaxKind> {
    if word == "fn"@ {
        Some(SyntaxKind::FN_KW)
    }     else if word == "do"@ {
        Some(SyntaxKind::DO_KW)
    }     else if word == "end"@ {
        Some(SyntaxKind::END_KW)
    }     else if word == "if"@ {
        Some(SyntaxKind::IF_KW)
    }     else if word == "then"@ {
        Some(SyntaxKind::THEN_KW)
    }     else if word == "elseif"@ {
        Some(SyntaxKind::ELSEIF_KW)
    }     else if word == "else"@ {
        Some(SyntaxKind::ELSE_KW)
    }     else if word == "let"@ {
        Some(SyntaxKind::LET_KW)
    }     else if word == "tap"@ {
        Some(SyntaxKind::TAP_KW)
    }     else if word == "nil"@ {
        Some(SyntaxKind::NIL_KW)
    }     else if word == "true"@ {
        Some(SyntaxKind::TRUE_KW)
    }     else if word == "false"@ {
        Some(SyntaxKind::FALSE_KW)
    }     else if word == "and"@ {
        Some(SyntaxKind::AND_KW)
    }     else if word == "or"@ {
        Some(SyntaxKind::OR_KW)
    }     else if word == "not"@ {
        Some(SyntaxKind::NOT_KW)
    }     else if word == "loop"@ {
        Some(SyntaxKind::LOOP_KW)
    }     else if word == "break"@ {
        Some(SyntaxKind::BREAK_KW)
    }     else if word == "continue"@ {
        Some(SyntaxKind::CONTINUE_KW)
    }     else if word == "case"@ {
        Some(SyntaxKind::CASE_KW)
    }     else if word == "of"@ {
        Some(SyntaxKind::OF_KW)
    }     else if word == "when"@ {
        Some(SyntaxKind::WHEN_KW)
    }     else if word == "raise"@ {
        Some(SyntaxKind::RAISE_KW)
    }     else if word == "try"@ {
        Some(SyntaxKind::TRY_KW)
    }     else if word == "catch"@ {
        Some(SyntaxKind::CATCH_KW)
    } else {
        None
    }
}

/// The keyword a word spells, if any.
pub fn keyword(word: &str) -> (r: Option<SyntaxKind>)
    ensures
        r == keyword_kind(word@),
{
    if str_equal(word, "fn") {
        Some(SyntaxKind::FN_KW)
    }     else if str_equal(word, "do") {
        Some(SyntaxKind::DO_KW)
    }     else if str_equal(word, "end") {
        Some(SyntaxKind::END_KW)
    }     else if str_equal(word, "if") {
        Some(SyntaxKind::IF_KW)
    }     else if str_equal(word, "then") {
        Some(SyntaxKind::THEN_KW)
    }     else if str_equal(word, "elseif") {
        Some(SyntaxKind::ELSEIF_KW)
    }     else if str_equal(word, "else") {
        Some(SyntaxKind::ELSE_KW)
    }     else if str_equal(word, "let") {
        Some(SyntaxKind::LET_KW)
    }     else if str_equal(word, "tap") {
        Some(SyntaxKind::TAP_KW)
    }     else if str_equal(word, "nil") {
        Some(SyntaxKind::NIL_KW)
    }     else if str_equal(word, "true") {
        Some(SyntaxKind::TRUE_KW)
    }     else if str_equal(word, "false") {
        Some(SyntaxKind::FALSE_KW)
    }     else if str_equal(word, "and") {
        Some(SyntaxKind::AND_KW)
    }     else if str_equal(word, "or") {
        Some(SyntaxKind::OR_KW)
    }     else if str_equal(word, "not") {
        Some(SyntaxKind::NOT_KW)
    }     else if str_equal(word, "loop") {
        Some(SyntaxKind::LOOP_KW)
    }     else if str_equal(word, "break") {
        Some(SyntaxKind::BREAK_KW)
    }     else if str_equal(word, "continue") {
        Some(SyntaxKind::CONTINUE_KW)
    }     else if str_equal(word, "case") {
        Some(SyntaxKind::CASE_KW)
    }     else if str_equal(word, "of") {
        Some(SyntaxKind::OF_KW)
    }     else if str_equal(word, "when") {
        Some(SyntaxKind::WHEN_KW)
    }     else if str_equal(word, "raise") {
        Some(SyntaxKind::RAISE_KW)
    }     else if str_equal(word, "try") {
        Some(SyntaxKind::TRY_KW)
    }     else if str_equal(word, "catch") {
        Some(SyntaxKind::CATCH_KW)
    } else {
        None
    }
}

/// Whether a word is a keyword.
pub fn is_keyword(word: &str) -> (r: bool)
    ensures
        r == keyword_kind(word@) is Some,
{
    keyword(word).is_some()
}

/// How diagnostics name a token of the given kind; `eof` names the end of the input.
pub open spec fn token_description(kind: SyntaxKind, eof: bool) -> Seq<char> {
    if eof {
        "end of file"@
    } else {
        match kind {
            SyntaxKind::INT => "integer"@,
            SyntaxKind::FLOAT => "float"@,
            SyntaxKind::STRING => "string"@,
            SyntaxKind::IDENT => "identifier"@,
            SyntaxKind::FN_KW => "fn"@,
            SyntaxKind::DO_KW => "do"@,
            SyntaxKind::END_KW => "end"@,
            SyntaxKind::IF_KW => "if"@,
            SyntaxKind::THEN_KW => "then"@,
            SyntaxKind::ELSEIF_KW => "elseif"@,
            SyntaxKind::ELSE_KW => "else"@,
            SyntaxKind::LET_KW => "let"@,
            SyntaxKind::TAP_KW => "tap"@,
            SyntaxKind::NIL_KW => "nil"@,
            SyntaxKind::TRUE_KW => "true"@,
            SyntaxKind::FALSE_KW => "false"@,
            SyntaxKind::AND_KW => "and"@,
            SyntaxKind::OR_KW => "or"@,
            SyntaxKind::NOT_KW => "not"@,
            SyntaxKind::LOOP_KW => "loop"@,
            SyntaxKind::BREAK_KW => "break"@,
            SyntaxKind::CONTINUE_KW => "continue"@,
            SyntaxKind::CASE_KW => "case"@,
            SyntaxKind::OF_KW => "of"@,
            SyntaxKind::WHEN_KW => "when"@,
            SyntaxKind::RAISE_KW => "raise"@,
            SyntaxKind::TRY_KW => "try"@,
            SyntaxKind::CATCH_KW => "catch"@,
            SyntaxKind::L_PAREN => "("@,
            SyntaxKind::R_PAREN => ")"@,
            SyntaxKind::L_BRACKET => "["@,
            SyntaxKind::R_BRACKET => "]"@,
            SyntaxKind::L_BRACE => "{"@,
            SyntaxKind::R_BRACE => "}"@,
            SyntaxKind::COMMA => ","@,
            SyntaxKind::DOT => "."@,
            SyntaxKind::DOT_DOT => ".."@,
            SyntaxKind::EQ => "="@,
            SyntaxKind::EQ_EQ => "=="@,
            SyntaxKind::BANG_EQ => "!="@,
            SyntaxKind::PLUS => "+"@,
            SyntaxKind::MINUS => "-"@,
            SyntaxKind::STAR => "*"@,
            SyntaxKind::SLASH => "/"@,
            SyntaxKind::SLASH_SLASH => "//"@,
            SyntaxKind::PERCENT => "%"@,
            SyntaxKind::LESS => "<"@,
            SyntaxKind::LESS_EQ => "<="@,
            SyntaxKind::GREATER => ">"@,
            SyntaxKind::GREATER_EQ => ">="@,
            SyntaxKind::QUESTION => "?"@,
            SyntaxKind::QUESTION_GREATER => "?>"@,
            SyntaxKind::PIPE_GREATER => "|>"@,
            SyntaxKind::LESS_PIPE => "<|"@,
            _ => "invalid token"@,
        }
    }
}

/// How diagnostics name a token of the given kind; `eof` names the end of the input.
pub fn token_name(kind: SyntaxKind, eof: bool) -> (name: &'static str)
    ensures
        name@ == token_description(kind, eof),
{
    if eof {
        return "end of file";
    }
    match kind {
        SyntaxKind::INT => "integer",
        SyntaxKind::FLOAT => "float",
        SyntaxKind::STRING => "string",
        SyntaxKind::IDENT => "identifier",
        SyntaxKind::FN_KW => "fn",
        SyntaxKind::DO_KW => "do",
        SyntaxKind::END_KW => "end",
        SyntaxKind::IF_KW => "if",
        SyntaxKind::THEN_KW => "then",
        SyntaxKind::ELSEIF_KW => "elseif",
        SyntaxKind::ELSE_KW => "else",
        SyntaxKind::LET_KW => "let",
        SyntaxKind::TAP_KW => "tap",
        SyntaxKind::NIL_KW => "nil",
        SyntaxKind::TRUE_KW => "true",
        SyntaxKind::FALSE_KW => "false",
        SyntaxKind::AND_KW => "and",
        SyntaxKind::OR_KW => "or",
        SyntaxKind::NOT_KW => "not",
        SyntaxKind::LOOP_KW => "loop",
        SyntaxKind::BREAK_KW => "break",
        SyntaxKind::CONTINUE_KW => "continue",
        SyntaxKind::CASE_KW => "case",
        SyntaxKind::OF_KW => "of",
        SyntaxKind::WHEN_KW => "when",
        SyntaxKind::RAISE_KW => "raise",
        SyntaxKind::TRY_KW => "try",
        SyntaxKind::CATCH_KW => "catch",
        SyntaxKind::L_PAREN => "(",
        SyntaxKind::R_PAREN => ")",
        SyntaxKind::L_BRACKET => "[",
        SyntaxKind::R_BRACKET => "]",
        SyntaxKind::L_BRACE => "{",
        SyntaxKind::R_BRACE => "}",
        SyntaxKind::COMMA => ",",
        SyntaxKind::DOT => ".",
        SyntaxKind::DOT_DOT => "..",
        SyntaxKind::EQ => "=",
        SyntaxKind::EQ_EQ => "==",
        SyntaxKind::BANG_EQ => "!=",
        SyntaxKind::PLUS => "+",
        SyntaxKind::MINUS => "-",
        SyntaxKind::STAR => "*",
        SyntaxKind::SLASH => "/",
        SyntaxKind::SLASH_SLASH => "//",
        SyntaxKind::PERCENT => "%",
        SyntaxKind::LESS => "<",
        SyntaxKind::LESS_EQ => "<=",
        SyntaxKind::GREATER => ">",
        SyntaxKind::GREATER_EQ => ">=",
        SyntaxKind::QUESTION => "?",
        SyntaxKind::QUESTION_GREATER => "?>",
        SyntaxKind::PIPE_GREATER => "|>",
        SyntaxKind::LESS_PIPE => "<|",
        _ => "invalid token",
    }
}

} // verus!
