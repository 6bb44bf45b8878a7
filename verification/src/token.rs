//! Tokens produced by the lexer and read by the parser.
use vstd::prelude::*;

verus! {

/// A token of Lua source. A numeral is carried as the text that the lexer read,
/// which is the decimal form of the binary64 value it denotes.
#[derive(Debug, PartialEq)]
pub enum TokenStream {
    Identifier(String),
    Bool(bool),
    Number(String),
    String(String),
    And,
    Break,
    Do,
    Else,
    Elseif,
    End,
    False,
    For,
    Function,
    Goto,
    If,
    In,
    Local,
    Nil,
    Not,
    Or,
    Repeat,
    Return,
    Then,
    True,
    Until,
    While,
    Equal,
    EqualEqual,
    NotEqual,
    Less,
    LessEqual,
    Greater,
    GreaterEqual,
    Plus,
    Minus,
    Asterisk,
    Slash,
    Percent,
    Caret,
    Hash,
    LParen,
    RParen,
    LBrace,
    RBrace,
    LBracket,
    RBracket,
    Dot,
    DotDot,
    DotDotDot,
    Colon,
    Comma,
    Semicolon,
    EOF,
}

/// What a token says, with the text of its payload in place of the `String` that holds it.
pub enum Lexeme {
    Name(Seq<char>),
    Text(Seq<char>),
    Numeral(Seq<char>),
    Fixed(TokenStream),
}

impl TokenStream {
    /// Whether the token carries a string payload.
    pub open spec fn has_text(self) -> bool {
        self is Identifier || self is String || self is Number
    }

    pub open spec fn lexeme(self) -> Lexeme {
        match self {
            TokenStream::Identifier(s) => Lexeme::Name(s@),
            TokenStream::String(s) => Lexeme::Text(s@),
            TokenStream::Number(s) => Lexeme::Numeral(s@),
            _ => Lexeme::Fixed(self),
        }
    }

    /// The characters of the token's string payload, empty for a token without one.
    pub open spec fn text(self) -> Seq<char> {
        match self {
            TokenStream::Identifier(s) => s@,
            TokenStream::String(s) => s@,
            TokenStream::Number(s) => s@,
            _ => Seq::empty(),
        }
    }

    /// The token's boolean payload, `false` for a token without one.
    pub open spec fn flag(self) -> bool {
        match self {
            TokenStream::Bool(b) => b,
            _ => false,
        }
    }

    /// Token equality: same variant, and payloads that hold the same value.
    pub open spec fn same(self, other: TokenStream) -> bool {
        &&& self.spec_tag() == other.spec_tag()
        &&& self.text() == other.text()
        &&& self.flag() == other.flag()
    }

    /// Whether the two tokens are the same token.
    pub fn same_token(&self, other: &TokenStream) -> (b: bool)
        ensures
            b == self.same(*other),
    {
        if self.tag() != other.tag() {
            return false;
        }
        match self {
            TokenStream::Identifier(a) => match other {
                TokenStream::Identifier(b) => *a == *b,
                _ => false,
            },
            TokenStream::String(a) => match other {
                TokenStream::String(b) => *a == *b,
                _ => false,
            },
            TokenStream::Number(a) => match other {
                TokenStream::Number(b) => *a == *b,
                _ => false,
            },
            TokenStream::Bool(a) => match other {
                TokenStream::Bool(b) => *a == *b,
                _ => false,
            },
            _ => {
                assert(self.spec_tag() >= 4);
                assert(!other.has_text() && !(other is Bool));
                true
            },
        }
    }

    /// A number that identifies the variant of a token.
    pub open spec fn spec_tag(&self) -> u8 {
        match self {
            TokenStream::Identifier(_) => 0,
            TokenStream::Bool(_) => 1,
            TokenStream::Number(_) => 2,
            TokenStream::String(_) => 3,
            TokenStream::And => 4,
            TokenStream::Break => 5,
            TokenStream::Do => 6,
            TokenStream::Else => 7,
            TokenStream::Elseif => 8,
            TokenStream::End => 9,
            TokenStream::False => 10,
            TokenStream::For => 11,
            TokenStream::Function => 12,
            TokenStream::Goto => 13,
            TokenStream::If => 14,
            TokenStream::In => 15,
            TokenStream::Local => 16,
            TokenStream::Nil => 17,
            TokenStream::Not => 18,
            TokenStream::Or => 19,
            TokenStream::Repeat => 20,
            TokenStream::Return => 21,
            TokenStream::Then => 22,
            TokenStream::True => 23,
            TokenStream::Until => 24,
            TokenStream::While => 25,
            TokenStream::Equal => 26,
            TokenStream::EqualEqual => 27,
            TokenStream::NotEqual => 28,
            TokenStream::Less => 29,
            TokenStream::LessEqual => 30,
            TokenStream::Greater => 31,
            TokenStream::GreaterEqual => 32,
            TokenStream::Plus => 33,
            TokenStream::Minus => 34,
            TokenStream::Asterisk => 35,
            TokenStream::Slash => 36,
            TokenStream::Percent => 37,
            TokenStream::Caret => 38,
            TokenStream::Hash => 39,
            TokenStream::LParen => 40,
            TokenStream::RParen => 41,
            TokenStream::LBrace => 42,
            TokenStream::RBrace => 43,
            TokenStream::LBracket => 44,
            TokenStream::RBracket => 45,
            TokenStream::Dot => 46,
            TokenStream::DotDot => 47,
            TokenStream::DotDotDot => 48,
            TokenStream::Colon => 49,
            TokenStream::Comma => 50,
            TokenStream::Semicolon => 51,
            TokenStream::EOF => 52,
        }
    }

    #[verifier::when_used_as_spec(spec_tag)]
    pub fn tag(&self) -> (t: u8)
        ensures
            t == self.spec_tag(),
    {
        match self {
            TokenStream::Identifier(_) => 0,
            TokenStream::Bool(_) => 1,
            TokenStream::Number(_) => 2,
            TokenStream::String(_) => 3,
            TokenStream::And => 4,
            TokenStream::Break => 5,
            TokenStream::Do => 6,
            TokenStream::Else => 7,
            TokenStream::Elseif => 8,
            TokenStream::End => 9,
            TokenStream::False => 10,
            TokenStream::For => 11,
            TokenStream::Function => 12,
            TokenStream::Goto => 13,
            TokenStream::If => 14,
            TokenStream::In => 15,
            TokenStream::Local => 16,
            TokenStream::Nil => 17,
            TokenStream::Not => 18,
            TokenStream::Or => 19,
            TokenStream::Repeat => 20,
            TokenStream::Return => 21,
            TokenStream::Then => 22,
            TokenStream::True => 23,
            TokenStream::Until => 24,
            TokenStream::While => 25,
            TokenStream::Equal => 26,
            TokenStream::EqualEqual => 27,
            TokenStream::NotEqual => 28,
            TokenStream::Less => 29,
            TokenStream::LessEqual => 30,
            TokenStream::Greater => 31,
            TokenStream::GreaterEqual => 32,
            TokenStream::Plus => 33,
            TokenStream::Minus => 34,
            TokenStream::Asterisk => 35,
            TokenStream::Slash => 36,
            TokenStream::Percent => 37,
            TokenStream::Caret => 38,
            TokenStream::Hash => 39,
            TokenStream::LParen => 40,
            TokenStream::RParen => 41,
            TokenStream::LBrace => 42,
            TokenStream::RBrace => 43,
            TokenStream::LBracket => 44,
            TokenStream::RBracket => 45,
            TokenStream::Dot => 46,
            TokenStream::DotDot => 47,
            TokenStream::DotDotDot => 48,
            TokenStream::Colon => 49,
            TokenStream::Comma => 50,
            TokenStream::Semicolon => 51,
            TokenStream::EOF => 52,
        }
    }
}

impl Clone for TokenStream {
    fn clone(&self) -> (t: Self)
        ensures
            t == *self,
    {
        match self {
            TokenStream::Identifier(s) => TokenStream::Identifier(s.clone()),
            TokenStream::Bool(b) => TokenStream::Bool(*b),
            TokenStream::Number(s) => TokenStream::Number(s.clone()),
            TokenStream::String(s) => TokenStream::String(s.clone()),
            TokenStream::And => TokenStream::And,
            TokenStream::Break => TokenStream::Break,
            TokenStream::Do => TokenStream::Do,
            TokenStream::Else => TokenStream::Else,
            TokenStream::Elseif => TokenStream::Elseif,
            TokenStream::End => TokenStream::End,
            TokenStream::False => TokenStream::False,
            TokenStream::For => TokenStream::For,
            TokenStream::Function => TokenStream::Function,
            TokenStream::Goto => TokenStream::Goto,
            TokenStream::If => TokenStream::If,
            TokenStream::In => TokenStream::In,
            TokenStream::Local => TokenStream::Local,
            TokenStream::Nil => TokenStream::Nil,
            TokenStream::Not => TokenStream::Not,
            TokenStream::Or => TokenStream::Or,
            TokenStream::Repeat => TokenStream::Repeat,
            TokenStream::Return => TokenStream::Return,
            TokenStream::Then => TokenStream::Then,
            TokenStream::True => TokenStream::True,
            TokenStream::Until => TokenStream::Until,
            TokenStream::While => TokenStream::While,
            TokenStream::Equal => TokenStream::Equal,
            TokenStream::EqualEqual => TokenStream::EqualEqual,
            TokenStream::NotEqual => TokenStream::NotEqual,
            TokenStream::Less => TokenStream::Less,
            TokenStream::LessEqual => TokenStream::LessEqual,
            TokenStream::Greater => TokenStream::Greater,
            TokenStream::GreaterEqual => TokenStream::GreaterEqual,
            TokenStream::Plus => TokenStream::Plus,
            TokenStream::Minus => TokenStream::Minus,
            TokenStream::Asterisk => TokenStream::Asterisk,
            TokenStream::Slash => TokenStream::Slash,
            TokenStream::Percent => TokenStream::Percent,
            TokenStream::Caret => TokenStream::Caret,
            TokenStream::Hash => TokenStream::Hash,
            TokenStream::LParen => TokenStream::LParen,
            TokenStream::RParen => TokenStream::RParen,
            TokenStream::LBrace => TokenStream::LBrace,
            TokenStream::RBrace => TokenStream::RBrace,
            TokenStream::LBracket => TokenStream::LBracket,
            TokenStream::RBracket => TokenStream::RBracket,
            TokenStream::Dot => TokenStream::Dot,
            TokenStream::DotDot => TokenStream::DotDot,
            TokenStream::DotDotDot => TokenStream::DotDotDot,
            TokenStream::Colon => TokenStream::Colon,
            TokenStream::Comma => TokenStream::Comma,
            TokenStream::Semicolon => TokenStream::Semicolon,
            TokenStream::EOF => TokenStream::EOF,
        }
    }
}

} // verus!
