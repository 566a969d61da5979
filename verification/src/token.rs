//! The token model: token kinds, literal payloads, and source positions.
use crate::lox_callable::LoxCallables;
use crate::model::{lit_model, token_model, value_model};
use vstd::prelude::*;

verus! {

/// Kinds of tokens produced by the scanner.
#[derive(Clone, Copy, PartialEq, Eq, Structural, Debug)]
pub enum TokenType {
    LeftParen,
    RightParen,
    LeftBrace,
    RightBrace,
    Comma,
    Dot,
    Minus,
    Plus,
    Star,
    Semicolon,
    Slash,
    Equal,
    EqualEqual,
    Bang,
    BangEqual,
    Less,
    LessEqual,
    Greater,
    GreaterEqual,
    String,
    Number,
    Identifier,
    And,
    Class,
    Else,
    False,
    Fun,
    For,
    If,
    Nil,
    Or,
    Print,
    Return,
    Super,
    This,
    True,
    Var,
    While,
    EOF,
}

impl TokenType {
    /// The screaming-snake-case name under which a token kind is printed.
    pub fn as_str(&self) -> (r: &'static str)
        ensures
            r@ == self.spec_name(),
    {
        match self {
            TokenType::LeftParen => "LEFT_PAREN",
            TokenType::RightParen => "RIGHT_PAREN",
            TokenType::LeftBrace => "LEFT_BRACE",
            TokenType::RightBrace => "RIGHT_BRACE",
            TokenType::Comma => "COMMA",
            TokenType::Dot => "DOT",
            TokenType::Minus => "MINUS",
            TokenType::Plus => "PLUS",
            TokenType::Star => "STAR",
            TokenType::Semicolon => "SEMICOLON",
            TokenType::Slash => "SLASH",
            TokenType::Equal => "EQUAL",
            TokenType::EqualEqual => "EQUAL_EQUAL",
            TokenType::Bang => "BANG",
            TokenType::BangEqual => "BANG_EQUAL",
            TokenType::Less => "LESS",
            TokenType::LessEqual => "LESS_EQUAL",
            TokenType::Greater => "GREATER",
            TokenType::GreaterEqual => "GREATER_EQUAL",
            TokenType::String => "STRING",
            TokenType::Number => "NUMBER",
            TokenType::Identifier => "IDENTIFIER",
            TokenType::And => "AND",
            TokenType::Class => "CLASS",
            TokenType::Else => "ELSE",
            TokenType::False => "FALSE",
            TokenType::Fun => "FUN",
            TokenType::For => "FOR",
            TokenType::If => "IF",
            TokenType::Nil => "NIL",
            TokenType::Or => "OR",
            TokenType::Print => "PRINT",
            TokenType::Return => "RETURN",
            TokenType::Super => "SUPER",
            TokenType::This => "THIS",
            TokenType::True => "TRUE",
            TokenType::Var => "VAR",
            TokenType::While => "WHILE",
            TokenType::EOF => "EOF",
        }
    }

    /// What `as_str` returns, as a sequence of characters.
    pub open spec fn spec_name(self) -> Seq<char> {
        match self {
            TokenType::LeftParen => "LEFT_PAREN"@,
            TokenType::RightParen => "RIGHT_PAREN"@,
            TokenType::LeftBrace => "LEFT_BRACE"@,
            TokenType::RightBrace => "RIGHT_BRACE"@,
            TokenType::Comma => "COMMA"@,
            TokenType::Dot => "DOT"@,
            TokenType::Minus => "MINUS"@,
            TokenType::Plus => "PLUS"@,
            TokenType::Star => "STAR"@,
            TokenType::Semicolon => "SEMICOLON"@,
            TokenType::Slash => "SLASH"@,
            TokenType::Equal => "EQUAL"@,
            TokenType::EqualEqual => "EQUAL_EQUAL"@,
            TokenType::Bang => "BANG"@,
            TokenType::BangEqual => "BANG_EQUAL"@,
            TokenType::Less => "LESS"@,
            TokenType::LessEqual => "LESS_EQUAL"@,
            TokenType::Greater => "GREATER"@,
            TokenType::GreaterEqual => "GREATER_EQUAL"@,
            TokenType::String => "STRING"@,
            TokenType::Number => "NUMBER"@,
            TokenType::Identifier => "IDENTIFIER"@,
            TokenType::And => "AND"@,
            TokenType::Class => "CLASS"@,
            TokenType::Else => "ELSE"@,
            TokenType::False => "FALSE"@,
            TokenType::Fun => "FUN"@,
            TokenType::For => "FOR"@,
            TokenType::If => "IF"@,
            TokenType::Nil => "NIL"@,
            TokenType::Or => "OR"@,
            TokenType::Print => "PRINT"@,
            TokenType::Return => "RETURN"@,
            TokenType::Super => "SUPER"@,
            TokenType::This => "THIS"@,
            TokenType::True => "TRUE"@,
            TokenType::Var => "VAR"@,
            TokenType::While => "WHILE"@,
            TokenType::EOF => "EOF"@,
        }
    }
}

/// A dynamic value of the language: string, number (an IEEE-754 binary64
/// bit pattern), boolean, or callable. A missing value stands for nil.
pub enum LiteralType {
    String(String),
    Number(u64),
    Boolean(bool),
    LoxCallable(LoxCallables),
}

/// One scanned token: its kind, the verbatim source slice, an optional
/// literal payload, and the 1-indexed line it starts on.
pub struct Token {
    pub token_type: TokenType,
    pub lexeme: String,
    pub literal: Option<LiteralType>,
    pub line: usize,
}

impl Token {
    /// A token whose literal payload, if any, is a string.
    pub fn new(token_type: TokenType, lexeme: String, literal: Option<String>, line: usize) -> (r:
        Token)
        ensures
            r.token_type == token_type,
            r.lexeme == lexeme,
            r.line == line,
            r.literal matches Some(LiteralType::String(s)) <==> (literal matches Some(l) && (
            r.literal matches Some(LiteralType::String(s)) && s == l)),
            literal is None ==> r.literal is None,
    {
        let literal = match literal {
            Some(l) => Some(LiteralType::String(l)),
            _ => None,
        };
        Token { token_type, lexeme, literal, line }
    }

    /// A token whose literal payload, if any, is a number bit pattern.
    pub fn new_number(token_type: TokenType, lexeme: String, literal: Option<u64>, line: usize) -> (
        r: Token)
        ensures
            r.token_type == token_type,
            r.lexeme == lexeme,
            r.line == line,
            literal matches Some(n) ==> r.literal == Some(LiteralType::Number(n)),
            literal is None ==> r.literal is None,
    {
        let literal = match literal {
            Some(l) => Some(LiteralType::Number(l)),
            _ => None,
        };
        Token { token_type, lexeme, literal, line }
    }

    /// A copy of the token with the same model.
    pub fn duplicate(&self) -> (r: Token)
        ensures
            token_model(r) == token_model(*self),
        decreases *self,
    {
        Token {
            token_type: self.token_type,
            lexeme: self.lexeme.clone(),
            literal: duplicate_value(&self.literal),
            line: self.line,
        }
    }

    /// Whether two tokens have the same model.
    pub fn same_as(&self, other: &Token) -> (r: bool)
        ensures
            r == (token_model(*self) == token_model(*other)),
        decreases *self,
    {
        self.token_type == other.token_type && self.lexeme == other.lexeme && value_struct_eq(
            &self.literal,
            &other.literal,
        ) && self.line == other.line
    }
}

impl LiteralType {
    /// A copy of the value with the same model.
    pub fn duplicate(&self) -> (r: LiteralType)
        ensures
            lit_model(r) == lit_model(*self),
        decreases *self,
    {
        match self {
            LiteralType::String(s) => LiteralType::String(s.clone()),
            LiteralType::Number(n) => LiteralType::Number(*n),
            LiteralType::Boolean(b) => LiteralType::Boolean(*b),
            LiteralType::LoxCallable(c) => LiteralType::LoxCallable(c.duplicate()),
        }
    }
}

/// A copy of a possibly-nil value with the same model.
pub fn duplicate_value(v: &Option<LiteralType>) -> (r: Option<LiteralType>)
    ensures
        value_model(r) == value_model(*v),
    decreases *v,
{
    match v {
        Some(l) => Some(l.duplicate()),
        None => None,
    }
}

/// Whether two possibly-nil values have exactly the same model (bit
/// equality for numbers; the dynamic equality of the language lives in
/// the evaluator instead).
pub fn value_struct_eq(a: &Option<LiteralType>, b: &Option<LiteralType>) -> (r: bool)
    ensures
        r == (value_model(*a) == value_model(*b)),
    decreases *a,
{
    match (a, b) {
        (None, None) => true,
        (Some(LiteralType::String(x)), Some(LiteralType::String(y))) => *x == *y,
        (Some(LiteralType::Number(x)), Some(LiteralType::Number(y))) => *x == *y,
        (Some(LiteralType::Boolean(x)), Some(LiteralType::Boolean(y))) => *x == *y,
        (Some(LiteralType::LoxCallable(x)), Some(LiteralType::LoxCallable(y))) => x.same_as(y),
        _ => false,
    }
}

} // verus!
