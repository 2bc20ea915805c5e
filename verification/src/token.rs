//! The token model: what kinds of token exist, what a literal can hold, and
//! the record that the scanner produces for each lexeme.

use vstd::prelude::*;

verus! {

/// The closed set of token kinds.
#[derive(Debug, Clone, Copy, PartialEq, Eq, Structural)]
pub enum TokenType {
    // Single-character tokens.
    LeftParen,
    RightParen,
    LeftBrace,
    RightBrace,
    Comma,
    Dot,
    Minus,
    Plus,
    Semicolon,
    Slash,
    Star,
    // One or two character tokens.
    Bang,
    BangEqual,
    Equal,
    EqualEqual,
    Greater,
    GreaterEqual,
    Less,
    LessEqual,
    // Literals.
    Identifier,
    String,
    Number,
    // Keywords.
    And,
    Class,
    Else,
    False,
    Fun,
    For,
    If,
    Nil,
    Or,
    Print,
    Return,
    Super,
    This,
    True,
    Var,
    While,
    /// The sentinel that ends every token sequence.
    EOF,
}

/// Whether `c` is one of the ten decimal digits.
pub open spec fn is_digit(c: char) -> bool {
    '0' <= c <= '9'
}

/// Whether `text` is a decimal numeral whose first `whole` characters are
/// its digits before the point: at least one digit, and then either
/// nothing, or a point and at least one more digit.
pub open spec fn is_numeral_split(text: Seq<char>, whole: int) -> bool {
    &&& 0 < whole <= text.len()
    &&& forall|i: int| 0 <= i < whole ==> is_digit(#[trigger] text[i])
    &&& (whole == text.len() || {
        &&& text[whole] == '.'
        &&& whole + 1 < text.len()
        &&& forall|i: int| whole < i < text.len() ==> is_digit(#[trigger] text[i])
    })
}

/// Whether `text` is a decimal numeral: one or more digits, optionally
/// followed by a point and one or more digits.
pub open spec fn is_numeral(text: Seq<char>) -> bool {
    exists|whole: int| is_numeral_split(text, whole)
}

/// The value that a token or a literal expression carries.
///
/// A number is held as the decimal numeral that denotes it, digit for digit
/// as it was written; turning the numeral into a machine number is left to
/// the consumer of the tree.
#[derive(Debug, PartialEq)]
pub enum Literal {
    String(String),
    Boolean(bool),
    Number(String),
    Nil,
}

/// The mathematical value of a [`Literal`].
pub enum LiteralView {
    String(Seq<char>),
    Boolean(bool),
    Number(Seq<char>),
    Nil,
}

impl View for Literal {
    type V = LiteralView;

    open spec fn view(&self) -> LiteralView {
        match *self {
            Literal::String(text) => LiteralView::String(text@),
            Literal::Boolean(b) => LiteralView::Boolean(b),
            Literal::Number(text) => LiteralView::Number(text@),
            Literal::Nil => LiteralView::Nil,
        }
    }
}

/// The text that a literal is displayed as: `nil` for the absent value,
/// `true` or `false` for a boolean, and the text itself for a string or a
/// numeral.
pub open spec fn literal_text(value: LiteralView) -> Seq<char> {
    match value {
        LiteralView::String(text) => text,
        LiteralView::Boolean(b) => if b {
            seq!['t', 'r', 'u', 'e']
        } else {
            seq!['f', 'a', 'l', 's', 'e']
        },
        LiteralView::Number(text) => text,
        LiteralView::Nil => seq!['n', 'i', 'l'],
    }
}

impl Clone for Literal {
    fn clone(&self) -> (out: Self)
        ensures
            out == *self,
    {
        match self {
            Literal::String(text) => Literal::String(text.clone()),
            Literal::Boolean(b) => Literal::Boolean(*b),
            Literal::Number(text) => Literal::Number(text.clone()),
            Literal::Nil => Literal::Nil,
        }
    }
}

impl Literal {
    /// The display text of the literal.
    pub fn to_string(&self) -> (out: String)
        ensures
            out@ == literal_text(self@),
    {
        match self {
            Literal::String(text) => text.clone(),
            Literal::Boolean(b) => {
                if *b {
                    proof {
                        reveal_strlit("true");
                    }
                    assert("true"@ =~= seq!['t', 'r', 'u', 'e']);
                    "true".to_owned()
                } else {
                    proof {
                        reveal_strlit("false");
                    }
                    assert("false"@ =~= seq!['f', 'a', 'l', 's', 'e']);
                    "false".to_owned()
                }
            },
            Literal::Number(text) => text.clone(),
            Literal::Nil => {
                proof {
                    reveal_strlit("nil");
                }
                assert("nil"@ =~= seq!['n', 'i', 'l']);
                "nil".to_owned()
            },
        }
    }
}

/// A classified, located unit of source text.
#[derive(Debug, PartialEq)]
pub struct Token {
    pub token_type: TokenType,
    pub lexeme: String,
    pub literal: Literal,
    pub line: u32,
}

/// The mathematical value of a [`Token`].
pub struct TokenView {
    pub token_type: TokenType,
    pub lexeme: Seq<char>,
    pub literal: LiteralView,
    pub line: nat,
}

impl View for Token {
    type V = TokenView;

    open spec fn view(&self) -> TokenView {
        TokenView {
            token_type: self.token_type,
            lexeme: self.lexeme@,
            literal: self.literal@,
            line: self.line as nat,
        }
    }
}

impl Clone for Token {
    fn clone(&self) -> (out: Self)
        ensures
            out == *self,
    {
        Token {
            token_type: self.token_type,
            lexeme: self.lexeme.clone(),
            literal: self.literal.clone(),
            line: self.line,
        }
    }
}

impl Token {
    /// A token of kind `token_type` made from the text `lexeme` on `line`.
    pub fn new(token_type: TokenType, lexeme: &str, literal: Literal, line: u32) -> (token: Token)
        ensures
            token@ == (TokenView {
                token_type,
                lexeme: lexeme@,
                literal: literal@,
                line: line as nat,
            }),
            token.literal == literal,
    {
        Token { token_type, lexeme: lexeme.to_owned(), literal, line }
    }
}

/// The views of a vector of tokens, in order.
pub open spec fn token_views(tokens: Seq<Token>) -> Seq<TokenView> {
    tokens.map_values(|t: Token| t@)
}

} // verus!
