//! The parser: from a sequence of tokens to an expression tree, or to the
//! first syntax error.
//!
//! The grammar has one production for each level of precedence, from the
//! loosest to the tightest:
//!
//! ```text
//! expression -> equality
//! equality   -> comparison ( ( "!=" | "==" ) comparison )*
//! comparison -> term ( ( ">" | ">=" | "<" | "<=" ) term )*
//! term       -> factor ( ( "+" | "-" ) factor )*
//! factor     -> unary ( ( "*" | "/" ) unary )*
//! unary      -> ( "!" | "-" ) unary | primary
//! primary    -> NUMBER | STRING | "true" | "false" | "nil" | "(" expression ")"
//! ```
//!
//! The spec functions [`expression`], [`binary`], [`unary`] and [`primary`]
//! say what each production makes of the tokens at a position; [`Parser`]
//! computes exactly that.

use vstd::prelude::*;
use crate::error::{is_parse_error, LoxError};
use crate::expr::{Binary, Expr, ExprView, Grouping, Literal, Unary};
use crate::scanner::{lemma_lexed_ends_with_sentinel, lexed};
use crate::token::{Literal as LoxLiteral, LiteralView, Token, TokenType, TokenView, token_views};

verus! {

/// A syntax error before it is reported: the line of the offending token,
/// where it is (`at end`, or `at '<lexeme>'`), and what was expected.
pub struct Fault {
    pub line: nat,
    pub where_: Seq<char>,
    pub message: Seq<char>,
}

/// The syntax error that `message` is at `token`.
pub open spec fn fault(token: TokenView, message: Seq<char>) -> Fault {
    Fault {
        line: token.line,
        where_: if token.token_type == TokenType::EOF {
            "at end"@
        } else {
            "at '"@ + token.lexeme + "'"@
        },
        message,
    }
}

/// What a production makes of the tokens at a position: a tree or a syntax
/// error, and the number of tokens that it consumed on the way.
pub struct Parsed {
    pub outcome: Result<ExprView, Fault>,
    pub used: nat,
}

impl Parsed {
    /// The same outcome after `by` more tokens were consumed before it.
    pub open spec fn shifted(self, by: nat) -> Parsed {
        Parsed { outcome: self.outcome, used: self.used + by }
    }
}

/// The four levels of binary operators, from the loosest to the tightest.
pub enum Level {
    Equality,
    Comparison,
    Term,
    Factor,
}

/// The operators of a level.
pub open spec fn operators(level: Level) -> Seq<TokenType> {
    match level {
        Level::Equality => seq![TokenType::BangEqual, TokenType::EqualEqual],
        Level::Comparison => seq![
            TokenType::Greater,
            TokenType::GreaterEqual,
            TokenType::Less,
            TokenType::LessEqual,
        ],
        Level::Term => seq![TokenType::Plus, TokenType::Minus],
        Level::Factor => seq![TokenType::Star, TokenType::Slash],
    }
}

/// The operators that stand before their operand.
pub open spec fn prefixes() -> Seq<TokenType> {
    seq![TokenType::Bang, TokenType::Minus]
}

/// How far a level is from the tightest production, for termination.
pub open spec fn rank(level: Level) -> nat {
    match level {
        Level::Equality => 9,
        Level::Comparison => 7,
        Level::Term => 5,
        Level::Factor => 3,
    }
}

/// The number of tokens from `pos` on.
pub open spec fn remaining(ts: Seq<TokenView>, pos: int) -> nat {
    if pos <= ts.len() {
        (ts.len() - pos) as nat
    } else {
        0
    }
}

/// Whether the token at `pos` is the end-of-input sentinel.
pub open spec fn at_end(ts: Seq<TokenView>, pos: int) -> bool {
    ts[pos].token_type == TokenType::EOF
}

/// Whether the token at `pos` is of kind `kind` and not the sentinel.
pub open spec fn holds(ts: Seq<TokenView>, pos: int, kind: TokenType) -> bool {
    !at_end(ts, pos) && ts[pos].token_type == kind
}

/// Whether the token at `pos` is of one of `kinds` and not the sentinel.
pub open spec fn holds_any(ts: Seq<TokenView>, pos: int, kinds: Seq<TokenType>) -> bool {
    exists|i: int| 0 <= i < kinds.len() && holds(ts, pos, #[trigger] kinds[i])
}

/// A literal node.
pub open spec fn leaf(value: LiteralView) -> ExprView {
    ExprView::Literal { value }
}

/// `primary -> NUMBER | STRING | "true" | "false" | "nil" | "(" expression ")"`
pub open spec fn primary(ts: Seq<TokenView>, pos: int) -> Parsed
    decreases remaining(ts, pos), 0nat,
{
    if holds(ts, pos, TokenType::False) {
        Parsed { outcome: Ok(leaf(LiteralView::Boolean(false))), used: 1 }
    } else if holds(ts, pos, TokenType::True) {
        Parsed { outcome: Ok(leaf(LiteralView::Boolean(true))), used: 1 }
    } else if holds(ts, pos, TokenType::Nil) {
        Parsed { outcome: Ok(leaf(LiteralView::Nil)), used: 1 }
    } else if holds_any(ts, pos, seq![TokenType::Number, TokenType::String]) {
        Parsed { outcome: Ok(leaf(ts[pos].literal)), used: 1 }
    } else if 0 <= pos < ts.len() && holds(ts, pos, TokenType::LeftParen) {
        let inner = expression(ts, pos + 1);
        let close = pos + 1 + inner.used;
        match inner.outcome {
            Err(_) => inner.shifted(1),
            Ok(tree) => if holds(ts, close, TokenType::RightParen) {
                Parsed {
                    outcome: Ok(ExprView::Grouping { expression: Box::new(tree) }),
                    used: inner.used + 2,
                }
            } else {
                Parsed {
                    outcome: Err(fault(ts[close], "Expect ')' after expression."@)),
                    used: inner.used + 1,
                }
            },
        }
    } else {
        Parsed { outcome: Err(fault(ts[pos], "Expect expression."@)), used: 0 }
    }
}

/// `unary -> ( "!" | "-" ) unary | primary`
pub open spec fn unary(ts: Seq<TokenView>, pos: int) -> Parsed
    decreases remaining(ts, pos), 1nat,
{
    if 0 <= pos < ts.len() && holds_any(ts, pos, prefixes()) {
        let right = unary(ts, pos + 1);
        match right.outcome {
            Err(_) => right.shifted(1),
            Ok(tree) => Parsed {
                outcome: Ok(ExprView::Unary { operator: ts[pos], right: Box::new(tree) }),
                used: right.used + 1,
            },
        }
    } else {
        primary(ts, pos)
    }
}

/// An operand of a binary operator of `level`: an expression of the next
/// tighter production.
pub open spec fn operand(ts: Seq<TokenView>, pos: int, level: Level) -> Parsed
    decreases remaining(ts, pos), (rank(level) - 1) as nat,
{
    match level {
        Level::Equality => binary(ts, pos, Level::Comparison),
        Level::Comparison => binary(ts, pos, Level::Term),
        Level::Term => binary(ts, pos, Level::Factor),
        Level::Factor => unary(ts, pos),
    }
}

/// What follows the operand `left` of `level` when the next token is at
/// `pos`: as long as an operator of the level comes next, it and the operand
/// after it are consumed, and the tree so far becomes the left operand of a
/// new node. Operators of one level therefore group to the left.
pub open spec fn chain(ts: Seq<TokenView>, pos: int, level: Level, left: ExprView) -> Parsed
    decreases remaining(ts, pos), 0nat,
{
    if 0 <= pos < ts.len() && holds_any(ts, pos, operators(level)) {
        let right = operand(ts, pos + 1, level);
        match right.outcome {
            Err(_) => right.shifted(1),
            Ok(tree) => chain(
                ts,
                pos + 1 + right.used,
                level,
                ExprView::Binary { left: Box::new(left), operator: ts[pos], right: Box::new(tree) },
            ).shifted(1 + right.used),
        }
    } else {
        Parsed { outcome: Ok(left), used: 0 }
    }
}

/// The production of a binary level: an operand, then the chain of
/// operators and operands that follows it.
pub open spec fn binary(ts: Seq<TokenView>, pos: int, level: Level) -> Parsed
    decreases remaining(ts, pos), rank(level),
{
    let first = operand(ts, pos, level);
    match first.outcome {
        Err(_) => first,
        Ok(tree) => chain(ts, pos + first.used, level, tree).shifted(first.used),
    }
}

/// `expression -> equality`
pub open spec fn expression(ts: Seq<TokenView>, pos: int) -> Parsed
    decreases remaining(ts, pos), 10nat,
{
    binary(ts, pos, Level::Equality)
}

/// Where `synchronize` stops when its search is at `pos`: at the sentinel,
/// right after a semicolon, or before a token that starts a statement,
/// whichever comes first.
pub open spec fn resume(ts: Seq<TokenView>, pos: int) -> int
    decreases remaining(ts, pos),
{
    if 0 < pos < ts.len() && !at_end(ts, pos) && ts[pos - 1].token_type != TokenType::Semicolon
        && !starts_statement(ts[pos].token_type) {
        resume(ts, pos + 1)
    } else {
        pos
    }
}

/// Whether a statement can start with a token of kind `kind`.
pub open spec fn starts_statement(kind: TokenType) -> bool {
    kind == TokenType::Class || kind == TokenType::Fun || kind == TokenType::Var || kind
        == TokenType::For || kind == TokenType::If || kind == TokenType::While || kind
        == TokenType::Print || kind == TokenType::Return
}

/// The state of a parser: the tokens and the position of the cursor.
pub struct ParserView {
    pub tokens: Seq<TokenView>,
    pub current: int,
}

/// Whether a sequence of tokens can be parsed: it ends with the sentinel.
pub open spec fn terminated(ts: Seq<TokenView>) -> bool {
    ts.len() > 0 && ts.last().token_type == TokenType::EOF
}

/// Whether `post` and `result` are what `parsed` asks for when the parser
/// starts in `pre`: the cursor has moved over the tokens consumed, and the
/// result is the tree, or the report of the syntax error.
pub open spec fn produced(
    pre: ParserView,
    parsed: Parsed,
    post: ParserView,
    result: Result<Expr, LoxError>,
) -> bool {
    &&& post.tokens == pre.tokens
    &&& post.current == pre.current + parsed.used
    &&& match result {
        Ok(expr) => parsed.outcome == Ok::<ExprView, Fault>(expr@),
        Err(err) => parsed.outcome matches Err(f) && is_parse_error(
            err,
            f.line,
            f.where_,
            f.message,
        ),
    }
}

/// The report of the syntax error that `message` is at `token`.
fn error(token: &Token, message: &str) -> (err: LoxError)
    ensures
        is_parse_error(
            err,
            fault(token@, message@).line,
            fault(token@, message@).where_,
            fault(token@, message@).message,
        ),
{
    if token.token_type == TokenType::EOF {
        LoxError::ParseError {
            line: token.line as usize,
            where_: "at end".to_owned(),
            message: message.to_owned(),
        }
    } else {
        let mut where_ = "at '".to_owned();
        where_.append(token.lexeme.as_str());
        where_.append("'");
        LoxError::ParseError { line: token.line as usize, where_, message: message.to_owned() }
    }
}

/// A recursive-descent parser: the tokens and a cursor into them.
pub struct Parser<'a> {
    tokens: &'a Vec<Token>,
    current: usize,
}

impl<'a> View for Parser<'a> {
    type V = ParserView;

    closed spec fn view(&self) -> ParserView {
        ParserView { tokens: token_views(self.tokens@), current: self.current as int }
    }
}

impl<'a> Parser<'a> {
    /// Whether the parser is in order: its tokens end with the sentinel and
    /// its cursor is on one of them. Every parser made by [`Parser::new`]
    /// is, and every method keeps it so.
    pub open spec fn wf(&self) -> bool {
        &&& terminated(self@.tokens)
        &&& 0 <= self@.current < self@.tokens.len()
    }

    /// A parser at the start of `tokens`. Tokens that do not end with the
    /// end-of-input sentinel are refused.
    pub fn new(tokens: &'a Vec<Token>) -> (result: Result<Self, LoxError>)
        ensures
            match result {
                Ok(parser) => {
                    &&& terminated(token_views(tokens@))
                    &&& parser.wf()
                    &&& parser@ == (ParserView { tokens: token_views(tokens@), current: 0 })
                },
                Err(err) => !terminated(token_views(tokens@)) && err is InvalidParameter,
            },
    {
        if tokens.len() == 0 || tokens[tokens.len() - 1].token_type != TokenType::EOF {
            return Err(LoxError::InvalidParameter);
        }
        Ok(Self { tokens, current: 0 })
    }

    /// Parses one expression from the cursor on.
    pub fn parse(&mut self) -> (result: Result<Expr, LoxError>)
        requires
            old(self).wf(),
        ensures
            final(self).wf(),
            produced(
                old(self)@,
                expression(old(self)@.tokens, old(self)@.current),
                final(self)@,
                result,
            ),
    {
        self.expression()
    }

    /// `expression -> equality`
    fn expression(&mut self) -> (result: Result<Expr, LoxError>)
        requires
            old(self).wf(),
        ensures
            final(self).wf(),
            produced(
                old(self)@,
                expression(old(self)@.tokens, old(self)@.current),
                final(self)@,
                result,
            ),
        decreases remaining(old(self)@.tokens, old(self)@.current), 10nat,
    {
        self.equality()
    }

    /// `equality -> comparison ( ( "!=" | "==" ) comparison )*`
    fn equality(&mut self) -> (result: Result<Expr, LoxError>)
        requires
            old(self).wf(),
        ensures
            final(self).wf(),
            produced(
                old(self)@,
                binary(old(self)@.tokens, old(self)@.current, Level::Equality),
                final(self)@,
                result,
            ),
        decreases remaining(old(self)@.tokens, old(self)@.current), 9nat,
    {
        let ghost ts = self@.tokens;
        let ghost start = self@.current;
        let mut expr = match self.comparison() {
            Ok(expr) => expr,
            Err(err) => {
                return Err(err);
            },
        };
        let types = [TokenType::BangEqual, TokenType::EqualEqual];
        assert(types@ =~= operators(Level::Equality));
        while self.match_(&types)
            invariant
                self.wf(),
                types@ == operators(Level::Equality),
                ts == old(self)@.tokens,
                start == old(self)@.current,
                self@.tokens == ts,
                start <= self@.current,
                binary(ts, start, Level::Equality) == chain(
                    ts,
                    self@.current,
                    Level::Equality,
                    expr@,
                ).shifted((self@.current - start) as nat),
            decreases ts.len() - self@.current,
        {
            let ghost at = self@.current - 1;
            let ghost left = expr@;
            let operator = self.previous();
            let right = match self.comparison() {
                Ok(right) => right,
                Err(err) => {
                    assert(chain(ts, at, Level::Equality, left) == operand(
                        ts,
                        at + 1,
                        Level::Equality,
                    ).shifted(1));
                    return Err(err);
                },
            };
            expr = Expr::Binary(Binary::new(expr, operator, right));
        }
        Ok(expr)
    }

    /// `comparison -> term ( ( ">" | ">=" | "<" | "<=" ) term )*`
    fn comparison(&mut self) -> (result: Result<Expr, LoxError>)
        requires
            old(self).wf(),
        ensures
            final(self).wf(),
            produced(
                old(self)@,
                binary(old(self)@.tokens, old(self)@.current, Level::Comparison),
                final(self)@,
                result,
            ),
        decreases remaining(old(self)@.tokens, old(self)@.current), 7nat,
    {
        let ghost ts = self@.tokens;
        let ghost start = self@.current;
        let mut expr = match self.term() {
            Ok(expr) => expr,
            Err(err) => {
                return Err(err);
            },
        };
        let types = [
            TokenType::Greater,
            TokenType::GreaterEqual,
            TokenType::Less,
            TokenType::LessEqual,
        ];
        assert(types@ =~= operators(Level::Comparison));
        while self.match_(&types)
            invariant
                self.wf(),
                types@ == operators(Level::Comparison),
                ts == old(self)@.tokens,
                start == old(self)@.current,
                self@.tokens == ts,
                start <= self@.current,
                binary(ts, start, Level::Comparison) == chain(
                    ts,
                    self@.current,
                    Level::Comparison,
                    expr@,
                ).shifted((self@.current - start) as nat),
            decreases ts.len() - self@.current,
        {
            let ghost at = self@.current - 1;
            let ghost left = expr@;
            let operator = self.previous();
            let right = match self.term() {
                Ok(right) => right,
                Err(err) => {
                    assert(chain(ts, at, Level::Comparison, left) == operand(
                        ts,
                        at + 1,
                        Level::Comparison,
                    ).shifted(1));
                    return Err(err);
                },
            };
            expr = Expr::Binary(Binary::new(expr, operator, right));
        }
        Ok(expr)
    }

    /// `term -> factor ( ( "+" | "-" ) factor )*`
    fn term(&mut self) -> (result: Result<Expr, LoxError>)
        requires
            old(self).wf(),
        ensures
            final(self).wf(),
            produced(
                old(self)@,
                binary(old(self)@.tokens, old(self)@.current, Level::Term),
                final(self)@,
                result,
            ),
        decreases remaining(old(self)@.tokens, old(self)@.current), 5nat,
    {
        let ghost ts = self@.tokens;
        let ghost start = self@.current;
        let mut expr = match self.factor() {
            Ok(expr) => expr,
            Err(err) => {
                return Err(err);
            },
        };
        let types = [TokenType::Plus, TokenType::Minus];
        assert(types@ =~= operators(Level::Term));
        while self.match_(&types)
            invariant
                self.wf(),
                types@ == operators(Level::Term),
                ts == old(self)@.tokens,
                start == old(self)@.current,
                self@.tokens == ts,
                start <= self@.current,
                binary(ts, start, Level::Term) == chain(
                    ts,
                    self@.current,
                    Level::Term,
                    expr@,
                ).shifted((self@.current - start) as nat),
            decreases ts.len() - self@.current,
        {
            let ghost at = self@.current - 1;
            let ghost left = expr@;
            let operator = self.previous();
            let right = match self.factor() {
                Ok(right) => right,
                Err(err) => {
                    assert(chain(ts, at, Level::Term, left) == operand(
                        ts,
                        at + 1,
                        Level::Term,
                    ).shifted(1));
                    return Err(err);
                },
            };
            expr = Expr::Binary(Binary::new(expr, operator, right));
        }
        Ok(expr)
    }

    /// `factor -> unary ( ( "*" | "/" ) unary )*`
    fn factor(&mut self) -> (result: Result<Expr, LoxError>)
        requires
            old(self).wf(),
        ensures
            final(self).wf(),
            produced(
                old(self)@,
                binary(old(self)@.tokens, old(self)@.current, Level::Factor),
                final(self)@,
                result,
            ),
        decreases remaining(old(self)@.tokens, old(self)@.current), 3nat,
    {
        let ghost ts = self@.tokens;
        let ghost start = self@.current;
        let mut expr = match self.unary() {
            Ok(expr) => expr,
            Err(err) => {
                return Err(err);
            },
        };
        let types = [TokenType::Star, TokenType::Slash];
        assert(types@ =~= operators(Level::Factor));
        while self.match_(&types)
            invariant
                self.wf(),
                types@ == operators(Level::Factor),
                ts == old(self)@.tokens,
                start == old(self)@.current,
                self@.tokens == ts,
                start <= self@.current,
                binary(ts, start, Level::Factor) == chain(
                    ts,
                    self@.current,
                    Level::Factor,
                    expr@,
                ).shifted((self@.current - start) as nat),
            decreases ts.len() - self@.current,
        {
            let ghost at = self@.current - 1;
            let ghost left = expr@;
            let operator = self.previous();
            let right = match self.unary() {
                Ok(right) => right,
                Err(err) => {
                    assert(chain(ts, at, Level::Factor, left) == operand(
                        ts,
                        at + 1,
                        Level::Factor,
                    ).shifted(1));
                    return Err(err);
                },
            };
            expr = Expr::Binary(Binary::new(expr, operator, right));
        }
        Ok(expr)
    }

    /// `unary -> ( "!" | "-" ) unary | primary`
    fn unary(&mut self) -> (result: Result<Expr, LoxError>)
        requires
            old(self).wf(),
        ensures
            final(self).wf(),
            produced(
                old(self)@,
                unary(old(self)@.tokens, old(self)@.current),
                final(self)@,
                result,
            ),
        decreases remaining(old(self)@.tokens, old(self)@.current), 1nat,
    {
        if self.match_(&[TokenType::Bang, TokenType::Minus]) {
            let operator = self.previous();
            let right = match self.unary() {
                Ok(right) => right,
                Err(err) => {
                    return Err(err);
                },
            };
            return Ok(Expr::Unary(Unary::new(operator, right)));
        }
        self.primary()
    }

    /// `primary -> NUMBER | STRING | "true" | "false" | "nil" | "(" expression ")"`
    fn primary(&mut self) -> (result: Result<Expr, LoxError>)
        requires
            old(self).wf(),
        ensures
            final(self).wf(),
            produced(
                old(self)@,
                primary(old(self)@.tokens, old(self)@.current),
                final(self)@,
                result,
            ),
        decreases remaining(old(self)@.tokens, old(self)@.current), 0nat,
    {
        if self.match_(&[TokenType::False]) {
            return Ok(Expr::Literal(Literal::new(LoxLiteral::Boolean(false))));
        }
        if self.match_(&[TokenType::True]) {
            return Ok(Expr::Literal(Literal::new(LoxLiteral::Boolean(true))));
        }
        if self.match_(&[TokenType::Nil]) {
            return Ok(Expr::Literal(Literal::new(LoxLiteral::Nil)));
        }
        if self.match_(&[TokenType::Number, TokenType::String]) {
            return Ok(Expr::Literal(Literal::new(self.previous().literal)));
        }
        if self.match_(&[TokenType::LeftParen]) {
            let expr = match self.expression() {
                Ok(expr) => expr,
                Err(err) => {
                    return Err(err);
                },
            };
            match self.consume(TokenType::RightParen, "Expect ')' after expression.") {
                Ok(_) => {},
                Err(err) => {
                    return Err(err);
                },
            }
            return Ok(Expr::Grouping(Grouping::new(expr)));
        }
        Err(error(&self.peek(), "Expect expression."))
    }

    /// Consumes the token under the cursor if it is of one of `types`.
    fn match_(&mut self, types: &[TokenType]) -> (matched: bool)
        requires
            old(self).wf(),
        ensures
            final(self).wf(),
            matched == holds_any(old(self)@.tokens, old(self)@.current, types@),
            final(self)@ == (ParserView {
                current: if matched {
                    old(self)@.current + 1
                } else {
                    old(self)@.current
                },
                ..old(self)@
            }),
    {
        let mut i: usize = 0;
        while i < types.len()
            invariant
                self.wf(),
                self@ == old(self)@,
                i <= types.len(),
                forall|j: int|
                    0 <= j < i ==> !holds(self@.tokens, self@.current, #[trigger] types@[j]),
            decreases types.len() - i,
        {
            if self.check(&types[i]) {
                self.advance();
                return true;
            }
            i += 1;
        }
        false
    }

    /// Whether the token under the cursor is of kind `token_type`.
    fn check(&self, token_type: &TokenType) -> (same: bool)
        requires
            self.wf(),
        ensures
            same == holds(self@.tokens, self@.current, *token_type),
    {
        if self.is_at_end() {
            false
        } else {
            self.peek().token_type == *token_type
        }
    }

    /// Moves the cursor over the token under it, unless that is the
    /// sentinel, and returns the token before the cursor. Where no token is
    /// before the cursor, the sentinel under it is returned.
    fn advance(&mut self) -> (token: Token)
        requires
            old(self).wf(),
        ensures
            final(self).wf(),
            final(self)@ == (ParserView {
                current: if at_end(old(self)@.tokens, old(self)@.current) {
                    old(self)@.current
                } else {
                    old(self)@.current + 1
                },
                ..old(self)@
            }),
            token@ == if final(self)@.current > 0 {
                final(self)@.tokens[final(self)@.current - 1]
            } else {
                final(self)@.tokens[0]
            },
    {
        if !self.is_at_end() {
            assert(self.tokens@.len() == self.tokens.len());
            self.current += 1;
        }
        if self.current > 0 {
            self.previous()
        } else {
            self.peek()
        }
    }

    /// Whether the cursor is on the end-of-input sentinel.
    pub fn is_at_end(&self) -> (ended: bool)
        requires
            self.wf(),
        ensures
            ended == at_end(self@.tokens, self@.current),
    {
        self.tokens[self.current].token_type == TokenType::EOF
    }

    /// The token under the cursor.
    pub fn peek(&self) -> (token: Token)
        requires
            self.wf(),
        ensures
            token@ == self@.tokens[self@.current],
    {
        self.tokens[self.current].clone()
    }

    /// The token before the cursor.
    fn previous(&self) -> (token: Token)
        requires
            self.wf(),
            self@.current > 0,
        ensures
            token@ == self@.tokens[self@.current - 1],
    {
        self.tokens[self.current - 1].clone()
    }

    /// Consumes the token under the cursor if it is of kind `token_type`,
    /// and reports `message` at it if it is not.
    fn consume(&mut self, token_type: TokenType, message: &str) -> (result: Result<Token, LoxError>)
        requires
            old(self).wf(),
        ensures
            final(self).wf(),
            final(self)@.tokens == old(self)@.tokens,
            match result {
                Ok(token) => {
                    &&& holds(old(self)@.tokens, old(self)@.current, token_type)
                    &&& final(self)@.current == old(self)@.current + 1
                    &&& token@ == old(self)@.tokens[old(self)@.current]
                },
                Err(err) => {
                    let f = fault(old(self)@.tokens[old(self)@.current], message@);
                    &&& !holds(old(self)@.tokens, old(self)@.current, token_type)
                    &&& final(self)@.current == old(self)@.current
                    &&& is_parse_error(err, f.line, f.where_, f.message)
                },
            },
    {
        if self.check(&token_type) {
            Ok(self.advance())
        } else {
            Err(error(&self.peek(), message))
        }
    }

    /// Skips tokens after a syntax error up to a likely statement boundary:
    /// the token under the cursor is skipped, and then every token up to
    /// the first that follows a semicolon, or starts a statement, or is the
    /// sentinel.
    pub fn synchronize(&mut self)
        requires
            old(self).wf(),
        ensures
            final(self).wf(),
            final(self)@.tokens == old(self)@.tokens,
            final(self)@.current == if at_end(old(self)@.tokens, old(self)@.current) {
                old(self)@.current
            } else {
                resume(old(self)@.tokens, old(self)@.current + 1)
            },
    {
        self.advance();
        while !self.is_at_end()
            invariant
                self.wf(),
                self@.tokens == old(self)@.tokens,
                self@.current > 0 || at_end(self@.tokens, self@.current),
                at_end(old(self)@.tokens, old(self)@.current) ==> self@.current == old(
                    self,
                )@.current,
                !at_end(old(self)@.tokens, old(self)@.current) ==> resume(
                    self@.tokens,
                    self@.current,
                ) == resume(old(self)@.tokens, old(self)@.current + 1),
            decreases self@.tokens.len() - self@.current,
        {
            if self.previous().token_type == TokenType::Semicolon {
                return ;
            }
            match self.peek().token_type {
                TokenType::Class
                | TokenType::Fun
                | TokenType::Var
                | TokenType::For
                | TokenType::If
                | TokenType::While
                | TokenType::Print
                | TokenType::Return => {
                    return ;
                },
                _ => {
                    self.advance();
                },
            }
        }
    }
}

/// Parses the expression that `tokens` spell: its tree, or the first
/// syntax error. Tokens that do not end with the end-of-input sentinel are
/// refused.
pub fn parse(tokens: &Vec<Token>) -> (result: Result<Expr, LoxError>)
    ensures
        match result {
            Ok(expr) => {
                &&& terminated(token_views(tokens@))
                &&& expression(token_views(tokens@), 0).outcome == Ok::<ExprView, Fault>(expr@)
            },
            Err(err) => if terminated(token_views(tokens@)) {
                expression(token_views(tokens@), 0).outcome matches Err(f) && is_parse_error(
                    err,
                    f.line,
                    f.where_,
                    f.message,
                )
            } else {
                err is InvalidParameter
            },
        },
{
    match Parser::new(tokens) {
        Ok(mut parser) => parser.parse(),
        Err(err) => Err(err),
    }
}

/// Where nothing stands before the sentinel there is no expression: the
/// error is at the end.
pub proof fn lemma_nothing_to_parse(ts: Seq<TokenView>, pos: int)
    requires
        0 <= pos < ts.len(),
        at_end(ts, pos),
    ensures
        expression(ts, pos) == (Parsed {
            outcome: Err(
                Fault { line: ts[pos].line, where_: "at end"@, message: "Expect expression."@ },
            ),
            used: 0,
        }),
{
    reveal_with_fuel(binary, 5);
    reveal_with_fuel(operand, 5);
}

/// Whether `synchronize` stops its search at `pos`.
pub open spec fn stops(ts: Seq<TokenView>, pos: int) -> bool {
    at_end(ts, pos) || ts[pos - 1].token_type == TokenType::Semicolon || starts_statement(
        ts[pos].token_type,
    )
}

/// `synchronize` stops at the first position at which it can stop, and
/// at the sentinel at the latest.
pub proof fn lemma_resume_is_first(ts: Seq<TokenView>, pos: int)
    requires
        terminated(ts),
        0 < pos < ts.len(),
    ensures
        pos <= resume(ts, pos) < ts.len(),
        stops(ts, resume(ts, pos)),
        forall|i: int| pos <= i < resume(ts, pos) ==> !stops(ts, i),
    decreases ts.len() - pos,
{
    if !stops(ts, pos) {
        lemma_resume_is_first(ts, pos + 1);
    }
}

/// Where an expression in parentheses is not followed by the closing
/// parenthesis, the error is at the token that follows it instead.
pub proof fn lemma_missing_parenthesis(ts: Seq<TokenView>, pos: int)
    requires
        0 <= pos < ts.len(),
        holds(ts, pos, TokenType::LeftParen),
        expression(ts, pos + 1).outcome is Ok,
        !holds(ts, pos + 1 + expression(ts, pos + 1).used, TokenType::RightParen),
    ensures
        primary(ts, pos) == (Parsed {
            outcome: Err(
                fault(
                    ts[pos + 1 + expression(ts, pos + 1).used],
                    "Expect ')' after expression."@,
                ),
            ),
            used: expression(ts, pos + 1).used + 1,
        }),
{
    let kinds = seq![TokenType::Number, TokenType::String];
    assert forall|i: int| 0 <= i < kinds.len() implies !holds(ts, pos, #[trigger] kinds[i]) by {}
}

/// What the scanner makes of a source, the parser takes: the tokens end
/// with the sentinel.
pub proof fn lemma_scanned_is_terminated(source: Seq<char>)
    ensures
        lexed(source) matches Ok(tokens) ==> terminated(tokens),
{
    lemma_lexed_ends_with_sentinel(source);
}

} // verus!
