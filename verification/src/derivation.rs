//! What the trees of the parser have to do with its tokens.
//!
//! A tree that the parser returns is a derivation of the tokens that it
//! consumed: it [`spans`] them, token for token, and it is [`in_shape`],
//! that is, nested as the levels of the grammar ask. The shape is where
//! precedence and associativity show: an operand is never an application
//! of a looser operator, and a right operand never one of the same level,
//! unless it stands in parentheses.

use vstd::prelude::*;
use crate::expr::ExprView;
use crate::parser::{
    at_end, binary, chain, expression, fault, holds, holds_any, operand, operators, prefixes,
    primary, terminated, unary, Level, Parsed,
};
use crate::token::{LiteralView, TokenType, TokenView};

verus! {

/// The level whose operators are of kind `kind`, if it is a binary
/// operator.
pub open spec fn level_of(kind: TokenType) -> Option<Level> {
    match kind {
        TokenType::BangEqual | TokenType::EqualEqual => Some(Level::Equality),
        TokenType::Greater
        | TokenType::GreaterEqual
        | TokenType::Less
        | TokenType::LessEqual => Some(Level::Comparison),
        TokenType::Plus | TokenType::Minus => Some(Level::Term),
        TokenType::Star | TokenType::Slash => Some(Level::Factor),
        _ => None,
    }
}

/// How tightly the operators of a level bind: the higher, the tighter.
pub open spec fn binding(level: Level) -> nat {
    match level {
        Level::Equality => 0,
        Level::Comparison => 1,
        Level::Term => 2,
        Level::Factor => 3,
    }
}

/// How tightly the operands of a prefix operator are bound.
pub open spec fn prefix_binding() -> nat {
    4
}

/// How tightly a tree holds together: as its operator binds, if it is an
/// application, and more tightly than any operator if it is a literal or
/// stands in parentheses.
pub open spec fn tightness(e: ExprView) -> nat {
    match e {
        ExprView::Binary { operator, .. } => match level_of(operator.token_type) {
            Some(level) => binding(level),
            None => 0,
        },
        ExprView::Unary { .. } => prefix_binding(),
        ExprView::Grouping { .. } => 5,
        ExprView::Literal { .. } => 5,
    }
}

/// Whether a tree is nested as the grammar asks: the left operand of a
/// binary operator holds together at least as tightly as the operator
/// binds, its right operand more tightly, and the operand of a prefix
/// operator as tightly as a prefix operator binds. Inside parentheses the
/// count starts anew.
pub open spec fn in_shape(e: ExprView) -> bool
    decreases e,
{
    match e {
        ExprView::Binary { left, operator, right } => {
            &&& level_of(operator.token_type) matches Some(level)
            &&& in_shape(*left)
            &&& in_shape(*right)
            &&& tightness(*left) >= binding(level)
            &&& tightness(*right) > binding(level)
        },
        ExprView::Unary { operator, right } => {
            &&& prefixes().contains(operator.token_type)
            &&& in_shape(*right)
            &&& tightness(*right) >= prefix_binding()
        },
        ExprView::Grouping { expression } => in_shape(*expression),
        ExprView::Literal { .. } => true,
    }
}

/// The number of tokens that a tree is written with.
pub open spec fn width(e: ExprView) -> nat
    decreases e,
{
    match e {
        ExprView::Binary { left, operator, right } => width(*left) + 1 + width(*right),
        ExprView::Unary { operator, right } => 1 + width(*right),
        ExprView::Grouping { expression } => 2 + width(*expression),
        ExprView::Literal { .. } => 1,
    }
}

/// The value that a token denotes, if it is the token of a literal.
pub open spec fn value_of(token: TokenView) -> Option<LiteralView> {
    match token.token_type {
        TokenType::False => Some(LiteralView::Boolean(false)),
        TokenType::True => Some(LiteralView::Boolean(true)),
        TokenType::Nil => Some(LiteralView::Nil),
        TokenType::Number | TokenType::String => Some(token.literal),
        _ => None,
    }
}

/// Whether the tree `e` is written with the tokens of `ts` from `from` on:
/// a literal with the token of its value, a group with its tree between
/// two parentheses, and an application with its operator before its
/// operand, or between its operands.
pub open spec fn spans(e: ExprView, ts: Seq<TokenView>, from: int) -> bool
    decreases e,
{
    match e {
        ExprView::Binary { left, operator, right } => {
            &&& spans(*left, ts, from)
            &&& ts[from + width(*left)] == operator
            &&& spans(*right, ts, from + width(*left) + 1)
        },
        ExprView::Unary { operator, right } => ts[from] == operator && spans(*right, ts, from + 1),
        ExprView::Grouping { expression } => {
            &&& ts[from].token_type == TokenType::LeftParen
            &&& spans(*expression, ts, from + 1)
            &&& ts[from + 1 + width(*expression)].token_type == TokenType::RightParen
        },
        ExprView::Literal { value } => value_of(ts[from]) == Some(value),
    }
}

/// Whether a binary operator of kind `kind` binds as tightly as `tight`, or
/// more tightly: a production that is as tight as `tight` takes a token of
/// this kind for an operator where it comes after an operand.
pub open spec fn continues(kind: TokenType, tight: nat) -> bool {
    level_of(kind) matches Some(level) && binding(level) >= tight
}

/// Whether `tree` is a derivation of the `used` tokens of `ts` from `pos`
/// on, by a production as tight as `tight`: it is in shape, at least as
/// tight as `tight`, and written with exactly these tokens, after which
/// at least the sentinel is left.
pub open spec fn derives(
    tree: ExprView,
    ts: Seq<TokenView>,
    pos: int,
    used: nat,
    tight: nat,
) -> bool {
    &&& 0 <= pos
    &&& pos + used < ts.len()
    &&& in_shape(tree)
    &&& tightness(tree) >= tight
    &&& width(tree) == used
    &&& spans(tree, ts, pos)
}

/// Whether `parsed`, made of the tokens of `ts` from `pos` on, is sound:
/// the tokens consumed stop short of the sentinel; a tree is a derivation
/// of the tokens consumed, at least as tight as `tight`, and followed by
/// no operator that would continue it; and a syntax error is at the token
/// after those consumed.
pub open spec fn sound(parsed: Parsed, ts: Seq<TokenView>, pos: int, tight: nat) -> bool {
    &&& pos + parsed.used < ts.len()
    &&& forall|i: int| pos <= i < pos + parsed.used ==> !at_end(ts, i)
    &&& match parsed.outcome {
        Ok(tree) => {
            &&& derives(tree, ts, pos, parsed.used, tight)
            &&& !continues(ts[pos + parsed.used].token_type, tight)
        },
        Err(f) => {
            &&& f == fault(ts[pos + parsed.used], f.message)
            &&& (f.message == "Expect expression."@ || f.message
                == "Expect ')' after expression."@)
        },
    }
}

/// How tightly the operands of the operators of a level are bound.
pub open spec fn operand_binding(level: Level) -> nat {
    binding(level) + 1
}

/// An operator of `level` is of a kind of that level, and no sentinel.
proof fn lemma_operator_level(ts: Seq<TokenView>, pos: int, level: Level)
    requires
        holds_any(ts, pos, operators(level)),
    ensures
        level_of(ts[pos].token_type) == Some(level),
        !at_end(ts, pos),
{
    let kinds = operators(level);
    let i = choose|i: int| 0 <= i < kinds.len() && holds(ts, pos, #[trigger] kinds[i]);
    assert(ts[pos].token_type == kinds[i]);
}

/// A prefix operator is of the kind of one, and no sentinel.
proof fn lemma_prefix(ts: Seq<TokenView>, pos: int)
    requires
        holds_any(ts, pos, prefixes()),
    ensures
        prefixes().contains(ts[pos].token_type),
        !at_end(ts, pos),
{
    let kinds = prefixes();
    let i = choose|i: int| 0 <= i < kinds.len() && holds(ts, pos, #[trigger] kinds[i]);
    assert(ts[pos].token_type == kinds[i]);
}

/// `primary` is sound.
pub proof fn lemma_primary_is_sound(ts: Seq<TokenView>, pos: int)
    requires
        terminated(ts),
        0 <= pos < ts.len(),
    ensures
        sound(primary(ts, pos), ts, pos, 5),
    decreases crate::parser::remaining(ts, pos), 0nat,
{
    let kinds = seq![TokenType::Number, TokenType::String];
    if holds(ts, pos, TokenType::False) || holds(ts, pos, TokenType::True) || holds(
        ts,
        pos,
        TokenType::Nil,
    ) {
    } else if holds_any(ts, pos, kinds) {
        let i = choose|i: int| 0 <= i < kinds.len() && holds(ts, pos, #[trigger] kinds[i]);
        assert(ts[pos].token_type == kinds[i]);
    } else if holds(ts, pos, TokenType::LeftParen) {
        lemma_expression_is_sound(ts, pos + 1);
    }
}

/// `unary` is sound.
pub proof fn lemma_unary_is_sound(ts: Seq<TokenView>, pos: int)
    requires
        terminated(ts),
        0 <= pos < ts.len(),
    ensures
        sound(unary(ts, pos), ts, pos, prefix_binding()),
    decreases crate::parser::remaining(ts, pos), 1nat,
{
    if holds_any(ts, pos, prefixes()) {
        lemma_prefix(ts, pos);
        lemma_unary_is_sound(ts, pos + 1);
    } else {
        lemma_primary_is_sound(ts, pos);
    }
}

/// The operands of a level are sound.
pub proof fn lemma_operand_is_sound(ts: Seq<TokenView>, pos: int, level: Level)
    requires
        terminated(ts),
        0 <= pos < ts.len(),
    ensures
        sound(operand(ts, pos, level), ts, pos, operand_binding(level)),
    decreases crate::parser::remaining(ts, pos), (crate::parser::rank(level) - 1) as nat,
{
    match level {
        Level::Equality => lemma_binary_is_sound(ts, pos, Level::Comparison),
        Level::Comparison => lemma_binary_is_sound(ts, pos, Level::Term),
        Level::Term => lemma_binary_is_sound(ts, pos, Level::Factor),
        Level::Factor => lemma_unary_is_sound(ts, pos),
    }
}

/// Where no operator of `level` is at `pos`, no token of the kind of one
/// is there.
proof fn lemma_no_operator(ts: Seq<TokenView>, pos: int, level: Level)
    requires
        !holds_any(ts, pos, operators(level)),
    ensures
        level_of(ts[pos].token_type) != Some(level),
{
    let kinds = operators(level);
    if level_of(ts[pos].token_type) == Some(level) {
        let kind = ts[pos].token_type;
        let i = if kind == kinds[0] {
            0int
        } else if kind == kinds[1] {
            1int
        } else if kind == kinds[2] {
            2int
        } else {
            3int
        };
        assert(holds(ts, pos, kinds[i]));
    }
}

/// A chain of operators of one level keeps a derivation a derivation:
/// what stands to the left of an operator becomes its left operand, whole.
pub proof fn lemma_chain_is_sound(
    ts: Seq<TokenView>,
    start: int,
    pos: int,
    level: Level,
    left: ExprView,
)
    requires
        terminated(ts),
        0 <= start <= pos < ts.len(),
        derives(left, ts, start, (pos - start) as nat, binding(level)),
        forall|i: int| start <= i < pos ==> !at_end(ts, i),
        !continues(ts[pos].token_type, operand_binding(level)),
    ensures
        sound(
            chain(ts, pos, level, left).shifted((pos - start) as nat),
            ts,
            start,
            binding(level),
        ),
    decreases crate::parser::remaining(ts, pos), 0nat,
{
    if holds_any(ts, pos, operators(level)) {
        lemma_operator_level(ts, pos, level);
        lemma_operand_is_sound(ts, pos + 1, level);
        let right = operand(ts, pos + 1, level);
        if let Ok(tree) = right.outcome {
            let joined = ExprView::Binary {
                left: Box::new(left),
                operator: ts[pos],
                right: Box::new(tree),
            };
            let next = pos + 1 + right.used;
            assert(derives(joined, ts, start, (next - start) as nat, binding(level)));
            lemma_chain_is_sound(ts, start, next, level, joined);
            assert(chain(ts, pos, level, left).shifted((pos - start) as nat) == chain(
                ts,
                next,
                level,
                joined,
            ).shifted((next - start) as nat));
        }
    } else {
        lemma_no_operator(ts, pos, level);
    }
}

/// The production of a binary level is sound.
pub proof fn lemma_binary_is_sound(ts: Seq<TokenView>, pos: int, level: Level)
    requires
        terminated(ts),
        0 <= pos < ts.len(),
    ensures
        sound(binary(ts, pos, level), ts, pos, binding(level)),
    decreases crate::parser::remaining(ts, pos), crate::parser::rank(level),
{
    lemma_operand_is_sound(ts, pos, level);
    let first = operand(ts, pos, level);
    if let Ok(tree) = first.outcome {
        lemma_chain_is_sound(ts, pos, pos + first.used, level, tree);
    }
}

/// The tree of an expression is a derivation of the tokens consumed, in
/// the shape that the grammar asks for; a syntax error is at the token on
/// which the parser stops; and the parser never passes the sentinel.
pub proof fn lemma_expression_is_sound(ts: Seq<TokenView>, pos: int)
    requires
        terminated(ts),
        0 <= pos < ts.len(),
    ensures
        sound(expression(ts, pos), ts, pos, 0),
    decreases crate::parser::remaining(ts, pos), 10nat,
{
    lemma_binary_is_sound(ts, pos, Level::Equality);
}

/// A token of the kind of an operator of `level` is taken for one.
proof fn lemma_is_operator(ts: Seq<TokenView>, pos: int, level: Level)
    requires
        level_of(ts[pos].token_type) == Some(level),
    ensures
        holds_any(ts, pos, operators(level)),
{
    let kinds = operators(level);
    let kind = ts[pos].token_type;
    let i = if kind == kinds[0] {
        0int
    } else if kind == kinds[1] {
        1int
    } else if kind == kinds[2] {
        2int
    } else {
        3int
    };
    assert(holds(ts, pos, kinds[i]));
}

/// `primary` makes every derivation that is as tight as a literal.
pub proof fn lemma_primary_is_complete(ts: Seq<TokenView>, pos: int, tree: ExprView)
    requires
        derives(tree, ts, pos, width(tree), 5),
    ensures
        primary(ts, pos) == (Parsed { outcome: Ok(tree), used: width(tree) }),
    decreases tree, 0nat,
{
    let kinds = seq![TokenType::Number, TokenType::String];
    match tree {
        ExprView::Literal { value } => {
            let kind = ts[pos].token_type;
            if kind == TokenType::Number {
                assert(holds(ts, pos, kinds[0]));
            } else if kind == TokenType::String {
                assert(holds(ts, pos, kinds[1]));
            }
        },
        ExprView::Grouping { expression: inner } => {
            assert forall|i: int| 0 <= i < kinds.len() implies !holds(
                ts,
                pos,
                #[trigger] kinds[i],
            ) by {}
            lemma_binary_is_complete(ts, pos + 1, *inner, Level::Equality);
        },
        _ => {},
    }
}

/// `unary` makes every derivation that is as tight as a prefix operator
/// binds.
pub proof fn lemma_unary_is_complete(ts: Seq<TokenView>, pos: int, tree: ExprView)
    requires
        derives(tree, ts, pos, width(tree), prefix_binding()),
    ensures
        unary(ts, pos) == (Parsed { outcome: Ok(tree), used: width(tree) }),
    decreases tree, 1nat,
{
    let kinds = prefixes();
    match tree {
        ExprView::Unary { operator, right } => {
            let i = choose|i: int| 0 <= i < kinds.len() && kinds[i] == operator.token_type;
            assert(holds(ts, pos, kinds[i]));
            lemma_unary_is_complete(ts, pos + 1, *right);
        },
        _ => {
            assert forall|i: int| 0 <= i < kinds.len() implies !holds(
                ts,
                pos,
                #[trigger] kinds[i],
            ) by {}
            lemma_primary_is_complete(ts, pos, tree);
        },
    }
}

/// What a level takes for an operand: every derivation that is tight
/// enough and that no operator of a tighter level follows.
pub proof fn lemma_operand_is_complete(
    ts: Seq<TokenView>,
    pos: int,
    tree: ExprView,
    level: Level,
)
    requires
        derives(tree, ts, pos, width(tree), operand_binding(level)),
        !continues(ts[pos + width(tree)].token_type, operand_binding(level)),
    ensures
        operand(ts, pos, level) == (Parsed { outcome: Ok(tree), used: width(tree) }),
    decreases tree, 3 * (4 - binding(level)) + 1,
{
    match level {
        Level::Equality => lemma_binary_is_complete(ts, pos, tree, Level::Comparison),
        Level::Comparison => lemma_binary_is_complete(ts, pos, tree, Level::Term),
        Level::Term => lemma_binary_is_complete(ts, pos, tree, Level::Factor),
        Level::Factor => lemma_unary_is_complete(ts, pos, tree),
    }
}

/// The production of a level comes to every derivation of the level that
/// no operator of a tighter level follows: from there on it goes as the
/// chain goes that has the derivation for its left operand.
pub proof fn lemma_chain_reaches(ts: Seq<TokenView>, pos: int, tree: ExprView, level: Level)
    requires
        derives(tree, ts, pos, width(tree), binding(level)),
        !continues(ts[pos + width(tree)].token_type, operand_binding(level)),
    ensures
        binary(ts, pos, level) == chain(ts, pos + width(tree), level, tree).shifted(width(tree)),
    decreases tree, 3 * (4 - binding(level)) + 2,
{
    match tree {
        ExprView::Binary { left, operator, right } if level_of(operator.token_type) == Some(
            level,
        ) => {
            let at = pos + width(*left);
            lemma_chain_reaches(ts, pos, *left, level);
            lemma_is_operator(ts, at, level);
            lemma_operand_is_complete(ts, at + 1, *right, level);
            assert(chain(ts, at, level, *left) == chain(
                ts,
                at + 1 + width(*right),
                level,
                tree,
            ).shifted(1 + width(*right)));
        },
        _ => {
            lemma_operand_is_complete(ts, pos, tree, level);
        },
    }
}

/// The production of a level makes every derivation of the level that no
/// operator of the level, or of a tighter one, follows.
pub proof fn lemma_binary_is_complete(
    ts: Seq<TokenView>,
    pos: int,
    tree: ExprView,
    level: Level,
)
    requires
        derives(tree, ts, pos, width(tree), binding(level)),
        !continues(ts[pos + width(tree)].token_type, binding(level)),
    ensures
        binary(ts, pos, level) == (Parsed { outcome: Ok(tree), used: width(tree) }),
    decreases tree, 3 * (4 - binding(level)) + 3,
{
    lemma_chain_reaches(ts, pos, tree, level);
    if holds_any(ts, pos + width(tree), operators(level)) {
        lemma_operator_level(ts, pos + width(tree), level);
    }
}

/// The parser makes every derivation: where the tokens from `pos` on are
/// those of a tree in shape, and no binary operator follows them, the
/// tree of the expression at `pos` is this tree.
pub proof fn lemma_expression_is_complete(ts: Seq<TokenView>, pos: int, tree: ExprView)
    requires
        derives(tree, ts, pos, width(tree), 0),
        level_of(ts[pos + width(tree)].token_type) is None,
    ensures
        expression(ts, pos) == (Parsed { outcome: Ok(tree), used: width(tree) }),
{
    lemma_binary_is_complete(ts, pos, tree, Level::Equality);
}

/// The trees of the parser are the derivations, and nothing else: the
/// expression at `pos` is `tree`, made of `used` tokens, if and only if
/// `tree` is a derivation of these tokens that no binary operator follows.
/// So the tokens determine the tree.
pub proof fn lemma_expression_is_the_derivation(
    ts: Seq<TokenView>,
    pos: int,
    tree: ExprView,
    used: nat,
)
    requires
        terminated(ts),
        0 <= pos < ts.len(),
    ensures
        expression(ts, pos) == (Parsed { outcome: Ok(tree), used }) <==> {
            &&& derives(tree, ts, pos, used, 0)
            &&& level_of(ts[pos + used].token_type) is None
        },
{
    lemma_expression_is_sound(ts, pos);
    if derives(tree, ts, pos, used, 0) && level_of(ts[pos + used].token_type) is None {
        lemma_expression_is_complete(ts, pos, tree);
    }
}

} // verus!
