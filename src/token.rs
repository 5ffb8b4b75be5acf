//! Tokens as the lexer hands them to the parser.
use vstd::prelude::*;
use crate::needle::Loc;

verus! {

#[derive(Clone, Copy, Debug, PartialEq, Eq, Structural)]
pub enum OperatorType {
    Add,
    Subtract,
    Multiply,
    Divide,
    Modulus,
    Equals,
}

#[derive(Clone, Copy, Debug, PartialEq, Eq, Structural)]
pub enum KeywordType {
    If,
    While,
    Loop,
    As,
    Run,
    Assign,
    BlockOpen,
    BlockClose,
    BlockSeparator,
    ArrayOpen,
    ArrayClose,
    ArraySeparator,
}

/// A decimal number with a fractional part: `digits` read as an integer and divided by
/// ten `decimals` times (`1.25` has digits 125 and decimals 2).
#[derive(Clone, Copy, Debug, PartialEq, Eq, Structural)]
pub struct FloatLiteral {
    pub digits: i128,
    pub decimals: usize,
}

#[derive(Clone, Debug, PartialEq, Eq)]
pub enum LiteralType {
    Str(String),
    Integer(i128),
    Float(FloatLiteral),
}

impl LiteralType {
    /// An equal copy.
    pub fn duplicate(&self) -> (r: LiteralType)
        ensures
            r == *self,
    {
        match self {
            LiteralType::Str(s) => LiteralType::Str(s.clone()),
            LiteralType::Integer(v) => LiteralType::Integer(*v),
            LiteralType::Float(f) => LiteralType::Float(*f),
        }
    }
}

#[derive(Clone, Debug, PartialEq, Eq)]
pub enum TokenType {
    Literal(LiteralType),
    Operator(OperatorType),
    Keyword(KeywordType),
    Identifier(String),
}

#[derive(Clone, Debug, PartialEq, Eq)]
pub struct Token {
    pub start: Loc,
    pub token_type: TokenType,
}

impl Token {
    pub open spec fn is_keyword_spec(&self, k: KeywordType) -> bool {
        self.token_type == TokenType::Keyword(k)
    }

    pub fn literal(start: Loc, literal: LiteralType) -> (r: Token)
        ensures
            r == (Token { start: start, token_type: TokenType::Literal(literal) }),
    {
        Token { start: start, token_type: TokenType::Literal(literal) }
    }

    pub fn operator(start: Loc, operator: OperatorType) -> (r: Token)
        ensures
            r == (Token { start: start, token_type: TokenType::Operator(operator) }),
    {
        Token { start: start, token_type: TokenType::Operator(operator) }
    }

    pub fn keyword(start: Loc, keyword: KeywordType) -> (r: Token)
        ensures
            r == (Token { start: start, token_type: TokenType::Keyword(keyword) }),
    {
        Token { start: start, token_type: TokenType::Keyword(keyword) }
    }

    pub fn identifier(start: Loc, identifier: String) -> (r: Token)
        ensures
            r == (Token { start: start, token_type: TokenType::Identifier(identifier) }),
    {
        Token { start: start, token_type: TokenType::Identifier(identifier) }
    }

    pub fn as_literal(&self) -> (r: Option<LiteralType>)
        ensures
            r == match self.token_type {
                TokenType::Literal(l) => Some(l),
                _ => None::<LiteralType>,
            },
    {
        match &self.token_type {
            TokenType::Literal(l) => Some(l.duplicate()),
            _ => None,
        }
    }

    pub fn as_keyword(&self) -> (r: Option<KeywordType>)
        ensures
            r == match self.token_type {
                TokenType::Keyword(k) => Some(k),
                _ => None::<KeywordType>,
            },
    {
        match &self.token_type {
            TokenType::Keyword(k) => Some(*k),
            _ => None,
        }
    }

    pub fn is_keyword(&self, comparer: KeywordType) -> (r: bool)
        ensures
            r == self.is_keyword_spec(comparer),
    {
        match &self.token_type {
            TokenType::Keyword(k) => *k == comparer,
            _ => false,
        }
    }
}

impl OperatorType {
    pub open spec fn name_spec(self) -> Seq<char> {
        match self {
            OperatorType::Add => "add"@,
            OperatorType::Subtract => "sub"@,
            OperatorType::Multiply => "mult"@,
            OperatorType::Divide => "div"@,
            OperatorType::Modulus => "modulus"@,
            OperatorType::Equals => "equals"@,
        }
    }

    pub fn name(&self) -> (r: &'static str)
        ensures
            r@ == self.name_spec(),
    {
        match self {
            OperatorType::Add => "add",
            OperatorType::Subtract => "sub",
            OperatorType::Multiply => "mult",
            OperatorType::Divide => "div",
            OperatorType::Modulus => "modulus",
            OperatorType::Equals => "equals",
        }
    }
}

impl KeywordType {
    pub open spec fn name_spec(self) -> Seq<char> {
        match self {
            KeywordType::If => "if"@,
            KeywordType::While => "while"@,
            KeywordType::Loop => "loop"@,
            KeywordType::As => "as"@,
            KeywordType::Run => "run"@,
            KeywordType::Assign => "assign"@,
            KeywordType::BlockOpen => "block open"@,
            KeywordType::BlockClose => "block close"@,
            KeywordType::BlockSeparator => "block separator"@,
            KeywordType::ArrayOpen => "array open"@,
            KeywordType::ArrayClose => "array close"@,
            KeywordType::ArraySeparator => "array separator"@,
        }
    }

    pub fn name(&self) -> (r: &'static str)
        ensures
            r@ == self.name_spec(),
    {
        match self {
            KeywordType::If => "if",
            KeywordType::While => "while",
            KeywordType::Loop => "loop",
            KeywordType::As => "as",
            KeywordType::Run => "run",
            KeywordType::Assign => "assign",
            KeywordType::BlockOpen => "block open",
            KeywordType::BlockClose => "block close",
            KeywordType::BlockSeparator => "block separator",
            KeywordType::ArrayOpen => "array open",
            KeywordType::ArrayClose => "array close",
            KeywordType::ArraySeparator => "array separator",
        }
    }
}

pub enum LiteralView {
    Str(Seq<char>),
    Integer(i128),
    Float(FloatLiteral),
}

pub enum TokenKindView {
    Literal(LiteralView),
    Operator(OperatorType),
    Keyword(KeywordType),
    Identifier(Seq<char>),
}

/// A token seen as values.
pub struct TokenView {
    pub start: Loc,
    pub kind: TokenKindView,
}

impl View for LiteralType {
    type V = LiteralView;

    open spec fn view(&self) -> LiteralView {
        match self {
            LiteralType::Str(s) => LiteralView::Str(s@),
            LiteralType::Integer(v) => LiteralView::Integer(*v),
            LiteralType::Float(f) => LiteralView::Float(*f),
        }
    }
}

impl View for Token {
    type V = TokenView;

    open spec fn view(&self) -> TokenView {
        TokenView {
            start: self.start,
            kind: match self.token_type {
                TokenType::Literal(l) => TokenKindView::Literal(l@),
                TokenType::Operator(o) => TokenKindView::Operator(o),
                TokenType::Keyword(k) => TokenKindView::Keyword(k),
                TokenType::Identifier(s) => TokenKindView::Identifier(s@),
            },
        }
    }
}

} // verus!
