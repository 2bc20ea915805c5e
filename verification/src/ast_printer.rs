//! The tree printer: renders an expression in prefix form, every
//! application in parentheses.

use vstd::prelude::*;
use crate::expr::{Binary, Expr, ExprView, Grouping, Literal, Unary, Visitor};
use crate::token::literal_text;

verus! {

/// The texts, each with a space before it, one after the other.
pub open spec fn spaced(texts: Seq<Seq<char>>) -> Seq<char>
    decreases texts.len(),
{
    if texts.len() == 0 {
        Seq::empty()
    } else {
        spaced(texts.drop_last()) + seq![' '] + texts.last()
    }
}

/// `(name text text ...)`, the form in which an application is printed.
pub open spec fn parenthesized(name: Seq<char>, texts: Seq<Seq<char>>) -> Seq<char> {
    seq!['('] + name + spaced(texts) + seq![')']
}

/// The text of an expression: a literal is printed as its value is
/// displayed, a group as `(group inner)`, and an operator with its operands
/// as `(operator operand ...)`, the operator being printed as its lexeme.
pub open spec fn render(e: ExprView) -> Seq<char>
    decreases e,
{
    match e {
        ExprView::Binary { left, operator, right } => parenthesized(
            operator.lexeme,
            seq![render(*left), render(*right)],
        ),
        ExprView::Grouping { expression } => parenthesized(
            seq!['g', 'r', 'o', 'u', 'p'],
            seq![render(*expression)],
        ),
        ExprView::Literal { value } => literal_text(value),
        ExprView::Unary { operator, right } => parenthesized(operator.lexeme, seq![render(*right)]),
    }
}

/// The number of nodes of a tree.
pub open spec fn size(e: ExprView) -> nat
    decreases e,
{
    match e {
        ExprView::Binary { left, operator, right } => 1 + size(*left) + size(*right),
        ExprView::Grouping { expression } => 1 + size(*expression),
        ExprView::Literal { value } => 1,
        ExprView::Unary { operator, right } => 1 + size(*right),
    }
}

/// The number of nodes of all the trees together.
pub open spec fn total_size(exprs: Seq<&Expr>) -> nat
    decreases exprs.len(),
{
    if exprs.len() == 0 {
        0
    } else {
        total_size(exprs.drop_last()) + size(exprs.last()@)
    }
}

/// The texts of the trees, in order.
pub open spec fn rendered(exprs: Seq<&Expr>) -> Seq<Seq<char>> {
    exprs.map_values(|e: &Expr| render(e@))
}

proof fn lemma_total_size(exprs: Seq<&Expr>, i: int)
    requires
        0 <= i < exprs.len(),
    ensures
        size(exprs[i]@) <= total_size(exprs),
    decreases exprs.len(),
{
    if i < exprs.len() - 1 {
        lemma_total_size(exprs.drop_last(), i);
    }
}

/// The printer. It has no state: what it prints depends on the tree alone.
pub struct AstPrinter;

impl Visitor<String> for AstPrinter {
    open spec fn visits(pre: Self, expr: Expr, post: Self, out: String) -> bool {
        out@ == render(expr@)
    }

    fn visit_unary_expr(&mut self, unary: &Unary) -> (out: String)
        decreases size(Expr::Unary(*unary)@), 0nat,
    {
        let exprs = [&*unary.right];
        proof {
            reveal_with_fuel(total_size, 2);
            assert(rendered(exprs@) =~= seq![render(unary.right@)]);
        }
        self.parenthesize(unary.operator.lexeme.as_str(), &exprs)
    }

    fn visit_binary_expr(&mut self, binary: &Binary) -> (out: String)
        decreases size(Expr::Binary(*binary)@), 0nat,
    {
        let exprs = [&*binary.left, &*binary.right];
        proof {
            reveal_with_fuel(total_size, 3);
            assert(exprs@.drop_last() =~= seq![&*binary.left]);
            assert(rendered(exprs@) =~= seq![render(binary.left@), render(binary.right@)]);
        }
        self.parenthesize(binary.operator.lexeme.as_str(), &exprs)
    }

    fn visit_literal_expr(&mut self, literal: &Literal) -> (out: String)
        decreases size(Expr::Literal(*literal)@), 0nat,
    {
        literal.value.to_string()
    }

    fn visit_grouping_expr(&mut self, grouping: &Grouping) -> (out: String)
        decreases size(Expr::Grouping(*grouping)@), 0nat,
    {
        let exprs = [&*grouping.expression];
        proof {
            reveal_with_fuel(total_size, 2);
            reveal_strlit("group");
            assert("group"@ =~= seq!['g', 'r', 'o', 'u', 'p']);
            assert(rendered(exprs@) =~= seq![render(grouping.expression@)]);
        }
        self.parenthesize("group", &exprs)
    }
}

impl AstPrinter {
    /// The text of `expr`.
    pub fn print(&mut self, expr: &Expr) -> (out: String)
        ensures
            out@ == render(expr@),
        decreases size(expr@), 1nat,
    {
        match expr {
            Expr::Binary(binary) => self.visit_binary_expr(binary),
            Expr::Grouping(grouping) => self.visit_grouping_expr(grouping),
            Expr::Literal(literal) => self.visit_literal_expr(literal),
            Expr::Unary(unary) => self.visit_unary_expr(unary),
        }
    }

    /// `(name text text ...)`, with the texts of `exprs` in order.
    fn parenthesize(&mut self, name: &str, exprs: &[&Expr]) -> (out: String)
        ensures
            out@ == parenthesized(name@, rendered(exprs@)),
        decreases total_size(exprs@), 2nat,
    {
        let mut result = String::new();
        proof {
            reveal_strlit("(");
            reveal_strlit(" ");
            reveal_strlit(")");
        }
        result.append("(");
        result.append(name);
        let mut i: usize = 0;
        while i < exprs.len()
            invariant
                i <= exprs.len(),
                "("@ == seq!['('],
                " "@ == seq![' '],
                result@ == seq!['('] + name@ + spaced(rendered(exprs@).take(i as int)),
            decreases exprs.len() - i,
        {
            proof {
                lemma_total_size(exprs@, i as int);
            }
            result.append(" ");
            let text = self.print(exprs[i]);
            result.append(text.as_str());
            proof {
                let before = rendered(exprs@).take(i as int);
                let now = rendered(exprs@).take(i + 1);
                assert(now.drop_last() =~= before);
                assert(now.last() == render(exprs@[i as int]@));
            }
            i += 1;
        }
        assert(rendered(exprs@).take(i as int) =~= rendered(exprs@));
        result.append(")");
        result
    }
}

/// Printing is a function of the tree alone: two visits of one tree, by
/// whatever printers, return the same text.
pub proof fn lemma_print_is_repeatable(
    first: AstPrinter,
    second: AstPrinter,
    expr: Expr,
    again: Expr,
    after_first: AstPrinter,
    after_second: AstPrinter,
    text: String,
    text_again: String,
)
    requires
        expr@ == again@,
        AstPrinter::visits(first, expr, after_first, text),
        AstPrinter::visits(second, again, after_second, text_again),
    ensures
        text@ == text_again@,
{
}

} // verus!
