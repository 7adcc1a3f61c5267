use radish::{ASTNode, BinaryExpr, Literal, Op, ParenExpr, Parser, Source, Span, UnaryExpr};
use std::rc::Rc;

fn parse_one(text: &str) -> ASTNode {
    let source = Source::source(text);
    let mut ast = Parser::new(Rc::clone(&source)).parse().unwrap();
    ast.items.remove(0)
}

fn number(digits: &str, start: usize, end: usize) -> ASTNode {
    ASTNode::Literal(Literal::Number(digits.to_string()), Span::new(start, end))
}

fn binary(left: ASTNode, op: Op, right: ASTNode, start: usize, end: usize) -> ASTNode {
    ASTNode::BinaryExpr(Box::new(BinaryExpr { left, op, right }), Span::new(start, end))
}

#[test]
fn test_binary_add_expr() {
    let source = Source::source("1 + 23");
    let result = &Parser::new(Rc::clone(&source)).parse().unwrap().items[0];
    assert_eq!(
        *result,
        ASTNode::BinaryExpr(
            Box::new(BinaryExpr {
                left: ASTNode::Literal(Literal::Number("1".to_string()), Span::new(0, 1)),
                op: Op::Add,
                right: ASTNode::Literal(Literal::Number("23".to_string()), Span::new(4, 6)),
            }),
            Span::new(0, 6),
        )
    )
}

#[test]
fn test_binary_sub_expr() {
    let source = Source::source("1 - 23");
    let result = &Parser::new(Rc::clone(&source)).parse().unwrap().items[0];
    assert_eq!(
        *result,
        ASTNode::BinaryExpr(
            Box::new(BinaryExpr {
                left: ASTNode::Literal(Literal::Number("1".to_string()), Span::new(0, 1)),
                op: Op::Subtract,
                right: ASTNode::Literal(Literal::Number("23".to_string()), Span::new(4, 6)),
            }),
            Span::new(0, 6),
        )
    )
}

#[test]
fn test_binary_mul_expr() {
    let source = Source::source("1 * 23");
    let result = &Parser::new(Rc::clone(&source)).parse().unwrap().items[0];
    assert_eq!(
        *result,
        ASTNode::BinaryExpr(
            Box::new(BinaryExpr {
                left: ASTNode::Literal(Literal::Number("1".to_string()), Span::new(0, 1)),
                op: Op::Multiply,
                right: ASTNode::Literal(Literal::Number("23".to_string()), Span::new(4, 6)),
            }),
            Span::new(0, 6),
        )
    )
}

#[test]
fn test_binary_div_expr() {
    let source = Source::source("1 / 23");
    let result = &Parser::new(Rc::clone(&source)).parse().unwrap().items[0];
    assert_eq!(
        *result,
        ASTNode::BinaryExpr(
            Box::new(BinaryExpr {
                left: ASTNode::Literal(Literal::Number("1".to_string()), Span::new(0, 1)),
                op: Op::Divide,
                right: ASTNode::Literal(Literal::Number("23".to_string()), Span::new(4, 6)),
            }),
            Span::new(0, 6),
        )
    )
}

#[test]
fn test_boolean_literal() {
    let source = Source::source("true");
    let result = &Parser::new(Rc::clone(&source)).parse().unwrap().items[0];
    assert_eq!(*result, ASTNode::Literal(Literal::Bool(true), Span::new(0, 4)));

    let source = Source::source("false");
    let result = &Parser::new(Rc::clone(&source)).parse().unwrap().items[0];
    assert_eq!(*result, ASTNode::Literal(Literal::Bool(false), Span::new(0, 5)));
}

#[test]
fn sums_group_to_the_left() {
    let expected = binary(
        binary(number("1", 0, 1), Op::Add, number("2", 4, 5), 0, 5),
        Op::Subtract,
        number("3", 8, 9),
        0,
        9,
    );
    assert_eq!(parse_one("1 + 2 - 3"), expected);
}

#[test]
fn terms_group_to_the_left() {
    let expected = binary(
        binary(number("8", 0, 1), Op::Divide, number("4", 2, 3), 0, 3),
        Op::Multiply,
        number("2", 4, 5),
        0,
        5,
    );
    assert_eq!(parse_one("8/4*2"), expected);
}

#[test]
fn product_binds_tighter_than_sum() {
    let expected = binary(
        number("1", 0, 1),
        Op::Add,
        binary(number("2", 2, 3), Op::Multiply, number("3", 4, 5), 2, 5),
        0,
        5,
    );
    assert_eq!(parse_one("1+2*3"), expected);
}

#[test]
fn binary_span_runs_from_left_start_to_right_end() {
    let node = parse_one("1 + 23");
    assert_eq!(node.position(), Span::new(0, 6));
    match node {
        ASTNode::BinaryExpr(b, _) => {
            assert_eq!(b.left.position(), Span::new(0, 1));
            assert_eq!(b.right.position(), Span::new(4, 6));
        }
        _ => panic!("expected a binary expression"),
    }
}

#[test]
fn unary_minus_binds_to_factor() {
    let negated = ASTNode::UnaryExpr(
        Box::new(UnaryExpr { op: Op::Subtract, arg: number("1", 1, 2) }),
        Span::new(0, 2),
    );
    let expected = binary(negated, Op::Add, number("2", 5, 6), 0, 6);
    assert_eq!(parse_one("-1 + 2"), expected);
}

#[test]
fn parenthesized_span_includes_delimiters() {
    let node = parse_one("(1+2)");
    let outer = node.position();
    match node {
        ASTNode::ParenExpr(p, _) => {
            let inner = p.expr.position();
            assert_eq!(outer.end - outer.start, inner.end - inner.start + 2);
            assert_eq!(inner, Span::new(1, 4));
        }
        _ => panic!("expected a parenthesized expression"),
    }
    assert_eq!(outer, Span::new(0, 5));
}

#[test]
fn parentheses_override_precedence() {
    let inner = binary(number("1", 1, 2), Op::Add, number("2", 3, 4), 1, 4);
    let paren = ASTNode::ParenExpr(Box::new(ParenExpr { expr: inner }), Span::new(0, 5));
    let expected = binary(paren, Op::Multiply, number("3", 6, 7), 0, 7);
    assert_eq!(parse_one("(1+2)*3"), expected);
}

#[test]
fn unexpected_token_is_a_syntax_error() {
    let source = Source::source("+");
    let err = Parser::new(source).parse().unwrap_err();
    assert_eq!(err.0, "Error, unexpected token: 'Plus'.");
    let source = Source::source("1 +");
    let err = Parser::new(source).parse().unwrap_err();
    assert_eq!(err.0, "Error, unexpected token: 'Eof'.");
}

#[test]
fn missing_close_paren_fails() {
    let source = Source::source("(1 + 2");
    let err = Parser::new(source).parse().unwrap_err();
    assert_eq!(err.0, "Expect ')' after grouping expression.");
}

#[test]
fn lexical_errors_are_passed_over() {
    assert_eq!(parse_one("猫 4"), number("4", 2, 3));
}

#[test]
fn parser_collects_lexical_diagnostics() {
    let source = Source::source("猫 1 + ? 2");
    let mut parser = Parser::new(source);
    let ast = parser.parse().unwrap();
    assert_eq!(ast.items.len(), 1);
    assert_eq!(parser.diagnostics.len(), 2);
    assert_eq!(parser.diagnostics[0].value, "Unexpected character: '猫'");
    assert_eq!(parser.diagnostics[0].span, Span::new(0, 1));
    assert_eq!(parser.diagnostics[1].value, "Unexpected character: '?'");
    assert_eq!(parser.diagnostics[1].span, Span::new(6, 7));
}
