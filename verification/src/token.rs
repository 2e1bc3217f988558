//! The token model: the closed set of token categories, the literal value
//! carried by string and number tokens, and the immutable token record.

use vstd::prelude::*;

verus! {

/// The closed set of token categories.
#[derive(Clone, Copy, PartialEq, Eq, Structural, Debug)]
pub enum TokenType {
    // Single-character tokens
    LeftParen,
    RightParen,
    LeftBrace,
    RightBrace,
    Comma,
    Dot,
    Minus,
    Plus,
    Semicolon,
    Slash,
    Star,
    // One or two character tokens
    Bang,
    BangEqual,
    Equal,
    EqualEqual,
    Greater,
    GreaterEqual,
    Less,
    LessEqual,
    // Literals
    Identifier,
    String,
    Number,
    // Keywords
    And,
    Class,
    Else,
    False,
    Fun,
    For,
    If,
    Nil,
    Or,
    Print,
    Return,
    Super,
    This,
    True,
    Var,
    While,
    // End of input.
    EOF,
}

/// The value carried by a literal token: the text between the quotes of a
/// string literal, or the exact matched text of a number literal.
///
/// A number literal denotes the IEEE-754 double obtained by parsing its
/// text; the library keeps the text itself, which determines that value
/// exactly. Converting it to a float, or rendering the float's natural
/// decimal form, is floating-point work left to the embedding program.
pub enum TokenLiteral {
    String(std::string::String),
    Number(std::string::String),
}

/// The mathematical value of a `TokenLiteral`: the same tag over character
/// sequences.
pub ghost enum TokenLiteralView {
    String(Seq<char>),
    Number(Seq<char>),
}

impl View for TokenLiteral {
    type V = TokenLiteralView;

    open spec fn view(&self) -> TokenLiteralView {
        match self {
            TokenLiteral::String(s) => TokenLiteralView::String(s@),
            TokenLiteral::Number(s) => TokenLiteralView::Number(s@),
        }
    }
}

/// An immutable token record: category, exact source text, optional literal
/// value, and the 1-based source line it was scanned on.
pub struct Token {
    pub token_type: TokenType,
    pub lexeme: std::string::String,
    pub literal: Option<TokenLiteral>,
    pub line: usize,
}

/// The mathematical value of a `Token`.
pub ghost struct TokenView {
    pub token_type: TokenType,
    pub lexeme: Seq<char>,
    pub literal: Option<TokenLiteralView>,
    pub line: nat,
}

impl View for Token {
    type V = TokenView;

    open spec fn view(&self) -> TokenView {
        TokenView {
            token_type: self.token_type,
            lexeme: self.lexeme@,
            literal: match self.literal {
                Some(l) => Some(l@),
                None => None,
            },
            line: self.line as nat,
        }
    }
}

/// The name of a token category, as rendered.
pub open spec fn category_name(t: TokenType) -> Seq<char> {
    match t {
        TokenType::LeftParen => "LeftParen"@,
        TokenType::RightParen => "RightParen"@,
        TokenType::LeftBrace => "LeftBrace"@,
        TokenType::RightBrace => "RightBrace"@,
        TokenType::Comma => "Comma"@,
        TokenType::Dot => "Dot"@,
        TokenType::Minus => "Minus"@,
        TokenType::Plus => "Plus"@,
        TokenType::Semicolon => "Semicolon"@,
        TokenType::Slash => "Slash"@,
        TokenType::Star => "Star"@,
        TokenType::Bang => "Bang"@,
        TokenType::BangEqual => "BangEqual"@,
        TokenType::Equal => "Equal"@,
        TokenType::EqualEqual => "EqualEqual"@,
        TokenType::Greater => "Greater"@,
        TokenType::GreaterEqual => "GreaterEqual"@,
        TokenType::Less => "Less"@,
        TokenType::LessEqual => "LessEqual"@,
        TokenType::Identifier => "Identifier"@,
        TokenType::String => "String"@,
        TokenType::Number => "Number"@,
        TokenType::And => "And"@,
        TokenType::Class => "Class"@,
        TokenType::Else => "Else"@,
        TokenType::False => "False"@,
        TokenType::Fun => "Fun"@,
        TokenType::For => "For"@,
        TokenType::If => "If"@,
        TokenType::Nil => "Nil"@,
        TokenType::Or => "Or"@,
        TokenType::Print => "Print"@,
        TokenType::Return => "Return"@,
        TokenType::Super => "Super"@,
        TokenType::This => "This"@,
        TokenType::True => "True"@,
        TokenType::Var => "Var"@,
        TokenType::While => "While"@,
        TokenType::EOF => "EOF"@,
    }
}

impl TokenType {
    /// The category's name as a string slice.
    pub fn name(&self) -> (r: &'static str)
        ensures
            r@ == category_name(*self),
    {
        match self {
            TokenType::LeftParen => "LeftParen",
            TokenType::RightParen => "RightParen",
            TokenType::LeftBrace => "LeftBrace",
            TokenType::RightBrace => "RightBrace",
            TokenType::Comma => "Comma",
            TokenType::Dot => "Dot",
            TokenType::Minus => "Minus",
            TokenType::Plus => "Plus",
            TokenType::Semicolon => "Semicolon",
            TokenType::Slash => "Slash",
            TokenType::Star => "Star",
            TokenType::Bang => "Bang",
            TokenType::BangEqual => "BangEqual",
            TokenType::Equal => "Equal",
            TokenType::EqualEqual => "EqualEqual",
            TokenType::Greater => "Greater",
            TokenType::GreaterEqual => "GreaterEqual",
            TokenType::Less => "Less",
            TokenType::LessEqual => "LessEqual",
            TokenType::Identifier => "Identifier",
            TokenType::String => "String",
            TokenType::Number => "Number",
            TokenType::And => "And",
            TokenType::Class => "Class",
            TokenType::Else => "Else",
            TokenType::False => "False",
            TokenType::Fun => "Fun",
            TokenType::For => "For",
            TokenType::If => "If",
            TokenType::Nil => "Nil",
            TokenType::Or => "Or",
            TokenType::Print => "Print",
            TokenType::Return => "Return",
            TokenType::Super => "Super",
            TokenType::This => "This",
            TokenType::True => "True",
            TokenType::Var => "Var",
            TokenType::While => "While",
            TokenType::EOF => "EOF",
        }
    }
}

/// The rendered text of an optional literal: the carried text, or empty
/// text when absent.
pub open spec fn literal_text(l: Option<TokenLiteralView>) -> Seq<char> {
    match l {
        None => Seq::<char>::empty(),
        Some(TokenLiteralView::String(s)) => s,
        Some(TokenLiteralView::Number(s)) => s,
    }
}

/// The rendering format of a token:
/// `{category} {lexeme} {literal-or-empty}` with single space separators.
pub open spec fn token_display(t: TokenView) -> Seq<char> {
    category_name(t.token_type) + " "@ + t.lexeme + " "@ + literal_text(t.literal)
}

impl Token {
    /// Renders the token as `{category} {lexeme} {literal-or-empty}`.
    ///
    /// A number literal is rendered as its exact matched text; an embedder
    /// that wants the floating-point value's own decimal form converts the
    /// text itself.
    pub fn render(&self) -> (r: String)
        ensures
            r@ == token_display(self@),
    {
        let mut s = String::from_str(self.token_type.name());
        s.append(" ");
        s.append(self.lexeme.as_str());
        s.append(" ");
        match &self.literal {
            None => {},
            Some(TokenLiteral::String(t)) => s.append(t.as_str()),
            Some(TokenLiteral::Number(t)) => s.append(t.as_str()),
        }
        proof {
            assert(s@ =~= token_display(self@));
        }
        s
    }
}

} // verus!
