//! The expression tree: a closed set of node kinds (binary, grouping,
//! literal, unary) and its canonical traversal, a fully parenthesized
//! prefix printer.

use vstd::prelude::*;

use crate::token::Token;
use crate::token::TokenLiteral;
use crate::token::TokenLiteralView;

verus! {

/// A binary operation: left operand, operator token, right operand.
pub struct BinaryExpr {
    pub left: Box<Expr>,
    pub operator: Token,
    pub right: Box<Expr>,
}

/// A parenthesized sub-expression.
pub struct GroupingExpr {
    pub expression: Box<Expr>,
}

/// A literal value; absence denotes the language's null value.
pub struct LiteralExpr {
    pub value: Option<TokenLiteral>,
}

/// A unary operation: operator token and operand.
pub struct UnaryExpr {
    pub operator: Token,
    pub right: Box<Expr>,
}

/// An expression node: a strict ownership tree, each node exclusively
/// owning its children.
pub enum Expr {
    Binary(BinaryExpr),
    Grouping(GroupingExpr),
    Literal(LiteralExpr),
    Unary(UnaryExpr),
}

/// How a literal node renders: the literal's text, or `nil` when absent.
pub open spec fn literal_value_text(v: Option<TokenLiteral>) -> Seq<char> {
    match v {
        None => "nil"@,
        Some(l) => match l@ {
            TokenLiteralView::String(s) => s,
            TokenLiteralView::Number(s) => s,
        },
    }
}

/// The canonical parenthesized-prefix rendering of an expression tree.
pub open spec fn printed(e: Expr) -> Seq<char>
    decreases e,
{
    match e {
        Expr::Binary(b) => "("@ + b.operator@.lexeme + " "@ + printed(*b.left) + " "@ + printed(
            *b.right,
        ) + ")"@,
        Expr::Grouping(g) => "(group "@ + printed(*g.expression) + ")"@,
        Expr::Literal(l) => literal_value_text(l.value),
        Expr::Unary(u) => "("@ + u.operator@.lexeme + " "@ + printed(*u.right) + ")"@,
    }
}

/// The canonical printer traversal.
pub struct AstPrinter {}

impl AstPrinter {
    /// Renders a binary node as `({operator} {left} {right})`.
    pub fn visit_binary_expr(&mut self, expr: &BinaryExpr) -> (r: String)
        ensures
            r@ == printed(Expr::Binary(*expr)),
        decreases *expr,
    {
        let mut s = String::from_str("(");
        s.append(expr.operator.lexeme.as_str());
        s.append(" ");
        let left = self.print(&expr.left);
        s.append(left.as_str());
        s.append(" ");
        let right = self.print(&expr.right);
        s.append(right.as_str());
        s.append(")");
        s
    }

    /// Renders a grouping node as `(group {inner})`.
    pub fn visit_grouping_expr(&mut self, expr: &GroupingExpr) -> (r: String)
        ensures
            r@ == printed(Expr::Grouping(*expr)),
        decreases *expr,
    {
        let mut s = String::from_str("(group ");
        let inner = self.print(&expr.expression);
        s.append(inner.as_str());
        s.append(")");
        s
    }

    /// Renders a literal node as its literal text, or `nil` when absent.
    pub fn visit_literal_expr(&mut self, expr: &LiteralExpr) -> (r: String)
        ensures
            r@ == printed(Expr::Literal(*expr)),
        decreases *expr,
    {
        match &expr.value {
            None => String::from_str("nil"),
            Some(TokenLiteral::String(t)) => String::from_str(t.as_str()),
            Some(TokenLiteral::Number(t)) => String::from_str(t.as_str()),
        }
    }

    /// Renders a unary node as `({operator} {operand})`.
    pub fn visit_unary_expr(&mut self, expr: &UnaryExpr) -> (r: String)
        ensures
            r@ == printed(Expr::Unary(*expr)),
        decreases *expr,
    {
        let mut s = String::from_str("(");
        s.append(expr.operator.lexeme.as_str());
        s.append(" ");
        let right = self.print(&expr.right);
        s.append(right.as_str());
        s.append(")");
        s
    }

    /// Renders any expression tree: dispatches to the visit operation of
    /// the node's kind.
    pub fn print(&mut self, expr: &Expr) -> (r: String)
        ensures
            r@ == printed(*expr),
        decreases *expr,
    {
        match expr {
            Expr::Binary(b) => self.visit_binary_expr(b),
            Expr::Grouping(g) => self.visit_grouping_expr(g),
            Expr::Literal(l) => self.visit_literal_expr(l),
            Expr::Unary(u) => self.visit_unary_expr(u),
        }
    }
}

} // verus!
