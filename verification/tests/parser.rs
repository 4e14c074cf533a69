use calculator::ast::{
    Ast, BinOp, BinOpKind, Decl, DeclKind, Expr, ExprKind, Spanned, Stmt, StmtKind, UnOp,
    UnOpKind,
};
use calculator::lexer::span::Span;
use calculator::lexer::token::{Token, TokenKind};
use calculator::lexer::{LexicalError, LexicalErrorKind};
use calculator::parser::{
    infix_binding_power, infix_op, prefix_binding_power, prefix_op, ParseError, Parser,
    SyntacticError,
};

fn literal_bits(text: &str) -> u64 {
    text.parse::<f64>().unwrap().to_bits()
}

fn parse_source(source: &str) -> (Ast, Vec<ParseError>) {
    let mut parser = Parser::new(source);
    let ast = parser.parse(literal_bits);
    (ast, parser.errors)
}

fn shape(expr: &Expr) -> String {
    match expr.kind() {
        ExprKind::Number(bits) => format!("{}", f64::from_bits(*bits)),
        ExprKind::Unary(op, operand) => match op.kind() {
            UnOpKind::Neg => format!("(neg {})", shape(operand)),
        },
        ExprKind::Binary(op, left, right) => {
            let sign = match op.kind() {
                BinOpKind::Add => "+",
                BinOpKind::Sub => "-",
                BinOpKind::Mul => "*",
                BinOpKind::Div => "/",
                BinOpKind::Rem => "%",
            };
            format!("({} {} {})", sign, shape(left), shape(right))
        }
    }
}

fn decl_expr(decl: &Decl) -> &Expr {
    match decl.kind() {
        DeclKind::Stmt(stmt) => match stmt.kind() {
            StmtKind::Expr(expr) => expr,
        },
    }
}

fn shapes(source: &str) -> Vec<String> {
    let (ast, errors) = parse_source(source);
    assert!(ast.complete(), "errors: {:?}", errors);
    assert!(errors.is_empty());
    ast.decls().iter().map(|decl| shape(decl_expr(decl))).collect()
}

fn syntax_errors(source: &str) -> Vec<(Span, String)> {
    let (ast, errors) = parse_source(source);
    assert!(!ast.complete());
    errors
        .into_iter()
        .map(|error| match error {
            ParseError::SyntacticError(error) => (error.span, error.message),
            ParseError::LexicalError(error) => (error.span, "lexical error".to_string()),
        })
        .collect()
}

#[test]
fn multiplication_binds_tighter_than_addition() {
    assert_eq!(shapes("1 + 2 * 3;"), vec!["(+ 1 (* 2 3))"]);
    assert_eq!(shapes("1 * 2 + 3;"), vec!["(+ (* 1 2) 3)"]);
    assert_eq!(shapes("1 - 2 / 3 + 4 % 5;"), vec!["(+ (- 1 (/ 2 3)) (% 4 5))"]);
}

#[test]
fn operators_associate_to_the_left() {
    assert_eq!(shapes("10 - 2 - 3;"), vec!["(- (- 10 2) 3)"]);
    assert_eq!(shapes("8 / 4 / 2;"), vec!["(/ (/ 8 4) 2)"]);
    assert_eq!(shapes("1 + 2 - 3 + 4;"), vec!["(+ (- (+ 1 2) 3) 4)"]);
    assert_eq!(shapes("9 % 5 * 2;"), vec!["(* (% 9 5) 2)"]);
}

#[test]
fn parentheses_override_precedence() {
    assert_eq!(shapes("(1 + 2) * 3;"), vec!["(* (+ 1 2) 3)"]);
    assert_eq!(shapes("10 - (2 - 3);"), vec!["(- 10 (- 2 3))"]);
    assert_eq!(shapes("((7));"), vec!["7"]);
}

#[test]
fn negation_binds_tighter_than_binary_operators() {
    assert_eq!(shapes("-2 * 3;"), vec!["(* (neg 2) 3)"]);
    assert_eq!(shapes("- -5;"), vec!["(neg (neg 5))"]);
    assert_eq!(shapes("1 - -2;"), vec!["(- 1 (neg 2))"]);
    assert_eq!(shapes("-(1 + 2);"), vec!["(neg (+ 1 2))"]);
    assert_eq!(shapes("-1 + 2;"), vec!["(+ (neg 1) 2)"]);
}

#[test]
fn programs_are_sequences_of_statements() {
    assert_eq!(shapes(""), Vec::<String>::new());
    assert_eq!(shapes("  \n "), Vec::<String>::new());
    assert_eq!(shapes("1; 2 + 3;\n4.5;"), vec!["1", "(+ 2 3)", "4.5"]);
}

#[test]
fn literals_are_decoded_from_their_text() {
    let mut parser = Parser::new("3.14 + 007;");
    let ast = parser.parse(|text: &str| match text {
        "3.14" => 1,
        "007" => 2,
        other => panic!("unexpected literal {:?}", other),
    });
    assert!(ast.complete());
    match decl_expr(&ast.decls()[0]).kind() {
        ExprKind::Binary(_, left, right) => {
            assert!(matches!(left.kind(), ExprKind::Number(1)));
            assert!(matches!(right.kind(), ExprKind::Number(2)));
        }
        other => panic!("unexpected tree {:?}", other),
    }
}

#[test]
fn spans_cover_operands_and_operators() {
    let (ast, _) = parse_source(" 1 + (2 * -3);");
    let decl = &ast.decls()[0];
    let expr = decl_expr(decl);
    // A parenthesised operand keeps its own span, without the parentheses.
    assert_eq!(expr.span(), Span::new(1, 12));
    assert_eq!(decl.span(), expr.span());
    match expr.kind() {
        ExprKind::Binary(op, left, right) => {
            assert_eq!(op.span(), Span::new(3, 4));
            assert_eq!(left.span(), Span::new(1, 2));
            assert_eq!(right.span(), Span::new(6, 12));
            match right.kind() {
                ExprKind::Binary(op, left, right) => {
                    assert_eq!(op.span(), Span::new(8, 9));
                    assert_eq!(left.span(), Span::new(6, 7));
                    assert_eq!(right.span(), Span::new(10, 12));
                    match right.kind() {
                        ExprKind::Unary(op, operand) => {
                            assert_eq!(op.span(), Span::new(10, 11));
                            assert_eq!(operand.span(), Span::new(11, 12));
                        }
                        other => panic!("unexpected tree {:?}", other),
                    }
                }
                other => panic!("unexpected tree {:?}", other),
            }
        }
        other => panic!("unexpected tree {:?}", other),
    }
}

#[test]
fn recovery_resumes_behind_the_semicolon() {
    let (ast, errors) = parse_source("1 + ;  2 + 3;");
    assert!(!ast.complete());
    assert_eq!(errors.len(), 1);
    match &errors[0] {
        ParseError::SyntacticError(error) => {
            assert_eq!(error.message, "expected expression");
            assert_eq!(error.span, Span::new(4, 5));
        }
        other => panic!("unexpected error {:?}", other),
    }
    assert_eq!(ast.decls().len(), 1);
    assert_eq!(shape(decl_expr(&ast.decls()[0])), "(+ 2 3)");
}

#[test]
fn missing_semicolon() {
    assert_eq!(
        syntax_errors("1 2;"),
        vec![(Span::new(2, 3), "expected ';', got <number>".to_string())]
    );
    assert_eq!(
        syntax_errors("1 + 2"),
        vec![(Span::new(5, 5), "expected ';', got <eof>".to_string())]
    );
}

#[test]
fn missing_parenthesis() {
    assert_eq!(
        syntax_errors("(1 + 2;"),
        vec![(Span::new(6, 7), "expected ')', got ';'".to_string())]
    );
    assert_eq!(
        syntax_errors("(1"),
        vec![(Span::new(2, 2), "expected ')', got <eof>".to_string())]
    );
}

#[test]
fn missing_expression() {
    assert_eq!(
        syntax_errors(";"),
        vec![(Span::new(0, 1), "expected expression".to_string())]
    );
    assert_eq!(
        syntax_errors("1 + * 2;"),
        vec![(Span::new(4, 5), "expected expression".to_string())]
    );
    assert_eq!(
        syntax_errors("()"),
        vec![(Span::new(1, 2), "expected expression".to_string())]
    );
    assert_eq!(
        syntax_errors("1 +"),
        vec![(Span::new(3, 3), "expected expression".to_string())]
    );
}

#[test]
fn unexpected_token_is_not_consumed() {
    // The semicolon that stands where an expression is due still ends the
    // statement, so that the next statement is parsed.
    let (ast, errors) = parse_source("2 * ; 7; -; 8 + 1;");
    assert_eq!(errors.len(), 2);
    let parsed: Vec<String> = ast.decls().iter().map(|decl| shape(decl_expr(decl))).collect();
    assert_eq!(parsed, vec!["7", "(+ 8 1)"]);
}

#[test]
fn several_errors_in_one_text() {
    let messages: Vec<String> =
        syntax_errors("1 +; (2; 3 3; 4;").into_iter().map(|(_, message)| message).collect();
    assert_eq!(
        messages,
        vec!["expected expression", "expected ')', got ';'", "expected ';', got <number>"]
    );
    let (ast, _) = parse_source("1 +; (2; 3 3; 4;");
    assert_eq!(ast.decls().len(), 1);
    assert_eq!(shape(decl_expr(&ast.decls()[0])), "4");
}

#[test]
fn lexical_errors_are_kept() {
    let (ast, errors) = parse_source("1 + #; 2;");
    assert!(!ast.complete());
    assert_eq!(errors.len(), 1);
    match &errors[0] {
        ParseError::LexicalError(error) => {
            assert_eq!(error.kind, LexicalErrorKind::Unexpected);
            assert_eq!(error.span, Span::new(4, 5));
        }
        other => panic!("unexpected error {:?}", other),
    }
    assert_eq!(ast.decls().len(), 1);
    assert_eq!(shape(decl_expr(&ast.decls()[0])), "2");
}

#[test]
fn lexical_error_at_the_start() {
    let mut parser = Parser::new("# 1; 2;");
    assert!(parser.had_error);
    assert_eq!(parser.errors.len(), 1);
    assert_eq!(parser.current.kind, TokenKind::Number);
    assert_eq!(parser.current.lexeme, "2");
    let ast = parser.parse(literal_bits);
    assert!(!ast.complete());
    assert_eq!(ast.decls().len(), 1);
    assert_eq!(shape(decl_expr(&ast.decls()[0])), "2");
}

#[test]
fn lexical_errors_during_recovery() {
    let (ast, errors) = parse_source("1 1 # @; 5;");
    assert!(!ast.complete());
    let spans: Vec<Span> = errors
        .iter()
        .map(|error| match error {
            ParseError::SyntacticError(error) => error.span,
            ParseError::LexicalError(error) => error.span,
        })
        .collect();
    assert_eq!(spans, vec![Span::new(2, 3), Span::new(4, 5), Span::new(6, 7)]);
    assert!(matches!(errors[0], ParseError::SyntacticError(_)));
    assert!(matches!(errors[1], ParseError::LexicalError(_)));
    assert!(matches!(errors[2], ParseError::LexicalError(_)));
    assert_eq!(ast.decls().len(), 1);
    assert_eq!(shape(decl_expr(&ast.decls()[0])), "5");
}

#[test]
fn parser_holds_two_tokens() {
    let parser = Parser::new("1 + 2;");
    assert!(!parser.had_error);
    assert_eq!(parser.current.kind, TokenKind::Number);
    assert_eq!(parser.current.lexeme, "1");
    assert_eq!(parser.previous.kind, TokenKind::Dummy);
    let mut parser = parser;
    parser.parse(literal_bits);
    assert_eq!(parser.current.kind, TokenKind::Eof);
    assert_eq!(parser.previous.kind, TokenKind::Semicolon);
}

#[test]
fn operators_of_tokens() {
    let token = |kind, lexeme| Token { lexeme, span: Span::new(2, 3), kind };
    assert!(prefix_op(&token(TokenKind::Plus, "+")).is_none());
    let neg = prefix_op(&token(TokenKind::Minus, "-")).unwrap();
    assert_eq!(*neg.kind(), UnOpKind::Neg);
    assert_eq!(neg.span(), Span::new(2, 3));
    assert_eq!(prefix_binding_power(&neg), ((), 5));
    let kinds = [
        (TokenKind::Plus, "+", BinOpKind::Add, (1, 2)),
        (TokenKind::Minus, "-", BinOpKind::Sub, (1, 2)),
        (TokenKind::Star, "*", BinOpKind::Mul, (3, 4)),
        (TokenKind::Slash, "/", BinOpKind::Div, (3, 4)),
        (TokenKind::Percent, "%", BinOpKind::Rem, (3, 4)),
    ];
    for (token_kind, lexeme, kind, power) in kinds {
        let op = infix_op(&token(token_kind, lexeme)).unwrap();
        assert_eq!(*op.kind(), kind);
        assert_eq!(op.span(), Span::new(2, 3));
        assert_eq!(infix_binding_power(&op), power);
    }
    for kind in [TokenKind::LParen, TokenKind::Number, TokenKind::Semicolon, TokenKind::Eof] {
        assert!(infix_op(&token(kind, "")).is_none());
        assert!(prefix_op(&token(kind, "")).is_none());
    }
}

#[test]
fn tree_is_built_by_hand() {
    let one = Expr::new(Span::new(0, 1), ExprKind::Number(1.0f64.to_bits()));
    let two = Expr::new(Span::new(4, 5), ExprKind::Number(2.0f64.to_bits()));
    let minus = UnOp::new(Span::new(3, 4), UnOpKind::Neg);
    let negated = Expr::unary(minus, two);
    assert_eq!(negated.span(), Span::new(3, 5));
    let plus = BinOp::new(Span::new(2, 3), BinOpKind::Add);
    let sum = Expr::binary(plus, one, negated);
    assert_eq!(sum.span(), Span::new(0, 5));
    assert_eq!(shape(&sum), "(+ 1 (neg 2))");
    let copy = sum.clone();
    assert_eq!(shape(&copy), shape(&sum));

    let stmt = Stmt::expr(sum);
    assert_eq!(stmt.span(), Span::new(0, 5));
    let decl = Decl::stmt(stmt.clone());
    assert_eq!(decl.span(), Span::new(0, 5));
    let same: Decl = stmt.clone().into();
    assert_eq!(same.span(), decl.span());
    let wrapped: Decl = Spanned::new(DeclKind::Stmt(Box::new(stmt)), Span::new(0, 6)).into();
    assert_eq!(wrapped.span(), Span::new(0, 6));

    let other = Stmt::new(Span::new(1, 2), StmtKind::Expr(Box::new(copy)));
    assert_eq!(other.span(), Span::new(1, 2));
    let decl = Decl::new(Span::new(1, 3), DeclKind::Stmt(Box::new(other)));
    assert_eq!(decl.span(), Span::new(1, 3));
    let ast = Ast::new(vec![decl], true);
    assert!(ast.complete());
    assert_eq!(ast.decls().len(), 1);
}

#[test]
fn errors_convert() {
    let lexical = LexicalError { span: Span::new(1, 2), kind: LexicalErrorKind::Unexpected };
    assert!(matches!(ParseError::from(lexical), ParseError::LexicalError(_)));
    let syntactic = SyntacticError { span: Span::new(1, 2), message: "expected expression".into() };
    assert!(matches!(ParseError::from(syntactic), ParseError::SyntacticError(_)));
}
