use rlox::ast::AstPrinter;
use rlox::ast::BinaryExpr;
use rlox::ast::Expr;
use rlox::ast::GroupingExpr;
use rlox::ast::LiteralExpr;
use rlox::ast::UnaryExpr;
use rlox::token::Token;
use rlox::token::TokenLiteral;
use rlox::token::TokenType;

fn operator(token_type: TokenType, lexeme: &str) -> Token {
    Token { token_type, lexeme: lexeme.to_string(), literal: None, line: 1 }
}

fn number(text: &str) -> Expr {
    Expr::Literal(LiteralExpr { value: Some(TokenLiteral::Number(text.to_string())) })
}

#[test]
fn printer_renders_the_canonical_example() {
    // The tree for `-123 * (45.67)`.
    let expression = Expr::Binary(BinaryExpr {
        left: Box::new(Expr::Unary(UnaryExpr {
            operator: operator(TokenType::Minus, "-"),
            right: Box::new(number("123")),
        })),
        operator: operator(TokenType::Star, "*"),
        right: Box::new(Expr::Grouping(GroupingExpr {
            expression: Box::new(number("45.67")),
        })),
    });
    let mut printer = AstPrinter {};
    assert_eq!(printer.print(&expression), "(* (- 123) (group 45.67))");
}

#[test]
fn printer_renders_absent_literal_as_nil() {
    let mut printer = AstPrinter {};
    assert_eq!(printer.print(&Expr::Literal(LiteralExpr { value: None })), "nil");
}

#[test]
fn printer_renders_string_literal_verbatim() {
    let mut printer = AstPrinter {};
    let tree = Expr::Literal(LiteralExpr {
        value: Some(TokenLiteral::String("hi there".to_string())),
    });
    assert_eq!(printer.print(&tree), "hi there");
}

#[test]
fn printer_nests_groupings() {
    let mut printer = AstPrinter {};
    let tree = Expr::Grouping(GroupingExpr {
        expression: Box::new(Expr::Grouping(GroupingExpr {
            expression: Box::new(number("1")),
        })),
    });
    assert_eq!(printer.print(&tree), "(group (group 1))");
}
