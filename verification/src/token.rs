//! Tokens as the scanner produces them and the parser consumes them: a kind,
//! the lexeme text, an optional literal payload, and a 1-based line number.

use vstd::prelude::*;

use crate::value::{LitV, LiteralValue};

verus! {

/// The token taxonomy of the language.  `class`, `fun`, `return`, `super`
/// and `this` are reserved: they scan, but no grammar rule accepts them.
#[allow(non_camel_case_types)]
#[derive(Clone, Copy, PartialEq, Eq, Structural, Debug)]
pub enum TokenType {
    LEFTPAREN,
    RIGHTPAREN,
    LEFTBRACE,
    RIGHTBRACE,
    COMMA,
    DOT,
    MINUS,
    PLUS,
    SEMICOLON,
    SLASH,
    STAR,
    BANG,
    BANGEQUAL,
    EQUAL,
    EQUALEQUAL,
    GREATER,
    GREATEREQUAL,
    LESS,
    LESSEQUAL,
    IDENTIFIER,
    STRINGLIT,
    NUMBER,
    AND,
    CLASS,
    ELSE,
    FALSE,
    FUN,
    FOR,
    IF,
    NIL,
    OR,
    PRINT,
    RETURN,
    SUPER,
    THIS,
    TRUE,
    VAR,
    WHILE,
    ASSERT,
    EOF,
}

/// The name of a token kind, as its stringification renders it.
pub open spec fn token_type_name(t: TokenType) -> Seq<char> {
    match t {
        TokenType::LEFTPAREN => "LEFTPAREN"@,
        TokenType::RIGHTPAREN => "RIGHTPAREN"@,
        TokenType::LEFTBRACE => "LEFTBRACE"@,
        TokenType::RIGHTBRACE => "RIGHTBRACE"@,
        TokenType::COMMA => "COMMA"@,
        TokenType::DOT => "DOT"@,
        TokenType::MINUS => "MINUS"@,
        TokenType::PLUS => "PLUS"@,
        TokenType::SEMICOLON => "SEMICOLON"@,
        TokenType::SLASH => "SLASH"@,
        TokenType::STAR => "STAR"@,
        TokenType::BANG => "BANG"@,
        TokenType::BANGEQUAL => "BANGEQUAL"@,
        TokenType::EQUAL => "EQUAL"@,
        TokenType::EQUALEQUAL => "EQUALEQUAL"@,
        TokenType::GREATER => "GREATER"@,
        TokenType::GREATEREQUAL => "GREATEREQUAL"@,
        TokenType::LESS => "LESS"@,
        TokenType::LESSEQUAL => "LESSEQUAL"@,
        TokenType::IDENTIFIER => "IDENTIFIER"@,
        TokenType::STRINGLIT => "STRINGLIT"@,
        TokenType::NUMBER => "NUMBER"@,
        TokenType::AND => "AND"@,
        TokenType::CLASS => "CLASS"@,
        TokenType::ELSE => "ELSE"@,
        TokenType::FALSE => "FALSE"@,
        TokenType::FUN => "FUN"@,
        TokenType::FOR => "FOR"@,
        TokenType::IF => "IF"@,
        TokenType::NIL => "NIL"@,
        TokenType::OR => "OR"@,
        TokenType::PRINT => "PRINT"@,
        TokenType::RETURN => "RETURN"@,
        TokenType::SUPER => "SUPER"@,
        TokenType::THIS => "THIS"@,
        TokenType::TRUE => "TRUE"@,
        TokenType::VAR => "VAR"@,
        TokenType::WHILE => "WHILE"@,
        TokenType::ASSERT => "ASSERT"@,
        TokenType::EOF => "EOF"@,
    }
}

impl TokenType {
    /// The kind's name, as a string.
    pub fn to_string(&self) -> (r: String)
        ensures
            r@ == token_type_name(*self),
    {
        match self {
            TokenType::LEFTPAREN => "LEFTPAREN".to_owned(),
            TokenType::RIGHTPAREN => "RIGHTPAREN".to_owned(),
            TokenType::LEFTBRACE => "LEFTBRACE".to_owned(),
            TokenType::RIGHTBRACE => "RIGHTBRACE".to_owned(),
            TokenType::COMMA => "COMMA".to_owned(),
            TokenType::DOT => "DOT".to_owned(),
            TokenType::MINUS => "MINUS".to_owned(),
            TokenType::PLUS => "PLUS".to_owned(),
            TokenType::SEMICOLON => "SEMICOLON".to_owned(),
            TokenType::SLASH => "SLASH".to_owned(),
            TokenType::STAR => "STAR".to_owned(),
            TokenType::BANG => "BANG".to_owned(),
            TokenType::BANGEQUAL => "BANGEQUAL".to_owned(),
            TokenType::EQUAL => "EQUAL".to_owned(),
            TokenType::EQUALEQUAL => "EQUALEQUAL".to_owned(),
            TokenType::GREATER => "GREATER".to_owned(),
            TokenType::GREATEREQUAL => "GREATEREQUAL".to_owned(),
            TokenType::LESS => "LESS".to_owned(),
            TokenType::LESSEQUAL => "LESSEQUAL".to_owned(),
            TokenType::IDENTIFIER => "IDENTIFIER".to_owned(),
            TokenType::STRINGLIT => "STRINGLIT".to_owned(),
            TokenType::NUMBER => "NUMBER".to_owned(),
            TokenType::AND => "AND".to_owned(),
            TokenType::CLASS => "CLASS".to_owned(),
            TokenType::ELSE => "ELSE".to_owned(),
            TokenType::FALSE => "FALSE".to_owned(),
            TokenType::FUN => "FUN".to_owned(),
            TokenType::FOR => "FOR".to_owned(),
            TokenType::IF => "IF".to_owned(),
            TokenType::NIL => "NIL".to_owned(),
            TokenType::OR => "OR".to_owned(),
            TokenType::PRINT => "PRINT".to_owned(),
            TokenType::RETURN => "RETURN".to_owned(),
            TokenType::SUPER => "SUPER".to_owned(),
            TokenType::THIS => "THIS".to_owned(),
            TokenType::TRUE => "TRUE".to_owned(),
            TokenType::VAR => "VAR".to_owned(),
            TokenType::WHILE => "WHILE".to_owned(),
            TokenType::ASSERT => "ASSERT".to_owned(),
            TokenType::EOF => "EOF".to_owned(),
        }
    }
}

/// A scanned token.
pub struct Token {
    pub token_type: TokenType,
    pub lexeme: String,
    pub literal: Option<LiteralValue>,
    pub line_number: usize,
}

/// The mathematical shape of a token.
pub struct TokV {
    pub token_type: TokenType,
    pub lexeme: Seq<char>,
    pub literal: Option<LitV>,
    pub line_number: nat,
}

impl View for Token {
    type V = TokV;

    open spec fn view(&self) -> TokV {
        TokV {
            token_type: self.token_type,
            lexeme: self.lexeme@,
            literal: match &self.literal {
                Some(l) => Some(l@),
                None => None,
            },
            line_number: self.line_number as nat,
        }
    }
}

/// The characters of a token's stringification: kind, lexeme and literal
/// payload, separated by single spaces.
pub open spec fn token_text(t: TokV) -> Seq<char> {
    token_type_name(t.token_type) + " "@ + t.lexeme + " "@ + match t.literal {
        Some(l) => crate::value::lit_text(l),
        None => "none"@,
    }
}

impl Token {
    /// A token from its parts.
    pub fn new(token_type: TokenType, lexeme: String, literal: Option<LiteralValue>, line_number: usize) -> (t: Token)
        ensures
            t.token_type == token_type,
            t@.lexeme == lexeme@,
            t@.literal == (match literal {
                Some(l) => Some(l@),
                None => None::<LitV>,
            }),
            t@.line_number == line_number as nat,
    {
        Token { token_type, lexeme, literal, line_number }
    }

    /// Kind, lexeme and literal payload of the token, as one line of text.
    pub fn to_string(&self) -> (r: String)
        ensures
            r@ == token_text(self@),
    {
        let mut v = crate::text::chars_of_str(self.token_type.to_string().as_str());
        crate::text::push_str_chars(&mut v, " ");
        crate::text::push_str_chars(&mut v, self.lexeme.as_str());
        crate::text::push_str_chars(&mut v, " ");
        match &self.literal {
            Some(l) => {
                let lt = l.to_string();
                crate::text::push_str_chars(&mut v, lt.as_str());
            }
            None => {
                crate::text::push_str_chars(&mut v, "none");
            }
        }
        crate::text::string_from_chars(&v)
    }

    /// A copy of the token whose view is the same.
    pub fn duplicate(&self) -> (t: Token)
        ensures
            t@ == self@,
    {
        Token {
            token_type: self.token_type,
            lexeme: self.lexeme.clone(),
            literal: match &self.literal {
                Some(l) => Some(l.duplicate()),
                None => None,
            },
            line_number: self.line_number,
        }
    }
}

} // verus!
