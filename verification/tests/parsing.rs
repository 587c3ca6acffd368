use lox::grammar::Recovery;
use lox::lexer::Lexer;
use lox::number::decimal;
use lox::parser::{kind_starts_statement, AstPrinter, Expr, Literal, Parser};
use lox::token::{Token, TokenType};

fn dump(source: &str) -> (Vec<String>, Vec<(usize, String)>) {
    let (tokens, _) = Lexer::new(source).tokenize();
    let mut parser = Parser::new(tokens.iter().collect());
    let exprs = parser.parse();
    let printed = exprs.iter().map(|e| AstPrinter::print(e)).collect();
    let errors = parser.err.reports.iter().map(|r| (r.line, r.message.clone())).collect();
    (printed, errors)
}

fn printed(source: &str) -> Vec<String> {
    let (printed, errors) = dump(source);
    assert!(errors.is_empty());
    printed
}

#[test]
fn multiplication_binds_tighter_than_addition() {
    assert_eq!(printed("1 + 2 * 3"), vec!["(+ 1 (* 2 3))"]);
}

#[test]
fn grouping_is_kept() {
    assert_eq!(printed("(1 + 2) * 3"), vec!["(* (group (+ 1 2)) 3)"]);
}

#[test]
fn equality_is_looser_than_comparison() {
    assert_eq!(printed("1 < 2 == true"), vec!["(== (< 1 2) true)"]);
}

#[test]
fn unmatched_paren_is_a_syntax_error() {
    let (printed, errors) = dump("(1 + 2");
    assert!(printed.is_empty());
    assert_eq!(errors, vec![(1, String::from("Expected ')' after expression."))]);
}

#[test]
fn binary_operators_fold_to_the_left() {
    assert_eq!(printed("1 - 2 - 3"), vec!["(- (- 1 2) 3)"]);
    assert_eq!(printed("8 / 4 / 2"), vec!["(/ (/ 8 4) 2)"]);
    assert_eq!(printed("1 < 2 < 3"), vec!["(< (< 1 2) 3)"]);
    assert_eq!(printed("1 == 2 != 3"), vec!["(!= (== 1 2) 3)"]);
}

#[test]
fn all_levels_together() {
    assert_eq!(
        printed("1 + 2 * 3 >= 4 - 5 / 6 != !true"),
        vec!["(!= (>= (+ 1 (* 2 3)) (- 4 (/ 5 6))) (! true))"]
    );
    assert_eq!(printed("1 <= 2"), vec!["(<= 1 2)"]);
    assert_eq!(printed("1 > 2"), vec!["(> 1 2)"]);
}

#[test]
fn prefix_operators_nest_to_the_right() {
    assert_eq!(printed("-1"), vec!["(- 1)"]);
    assert_eq!(printed("!true"), vec!["(! true)"]);
    assert_eq!(printed("!!false"), vec!["(! (! false))"]);
    assert_eq!(printed("- - 1"), vec!["(- (- 1))"]);
    assert_eq!(printed("1 - -2"), vec!["(- 1 (- 2))"]);
    assert_eq!(printed("-1 * 2"), vec!["(* (- 1) 2)"]);
}

#[test]
fn literals_print_in_their_natural_form() {
    assert_eq!(printed("nil"), vec!["nil"]);
    assert_eq!(printed("true"), vec!["true"]);
    assert_eq!(printed("false"), vec!["false"]);
    assert_eq!(printed("\"some text\""), vec!["some text"]);
    assert_eq!(printed("12.5"), vec!["12.5"]);
}

#[test]
fn numbers_print_in_shortest_decimal_form() {
    assert_eq!(decimal("1"), "1");
    assert_eq!(decimal("1.0"), "1");
    assert_eq!(decimal("1.50"), "1.5");
    assert_eq!(decimal("007"), "7");
    assert_eq!(decimal("0"), "0");
    assert_eq!(decimal("000"), "0");
    assert_eq!(decimal("0.5"), "0.5");
    assert_eq!(decimal("00.250"), "0.25");
    assert_eq!(decimal("10.000"), "10");
    assert_eq!(decimal("100"), "100");
    assert_eq!(decimal("45.67"), "45.67");
}

#[test]
fn shortest_decimal_form_agrees_with_float_formatting() {
    for text in ["1", "1.0", "1.50", "007", "0.5", "00.250", "10.000", "123", "45.67", "3.14"] {
        let value: f64 = text.parse().unwrap();
        assert_eq!(decimal(text), value.to_string());
    }
}

#[test]
fn several_top_level_expressions() {
    assert_eq!(printed("1 2 3"), vec!["1", "2", "3"]);
    assert_eq!(printed("1 + 2 (3)"), vec!["(+ 1 2)", "(group 3)"]);
}

#[test]
fn empty_input_has_no_expression() {
    let (printed, errors) = dump("");
    assert!(printed.is_empty());
    assert!(errors.is_empty());
}

#[test]
fn nested_groups() {
    assert_eq!(printed("((1))"), vec!["(group (group 1))"]);
    assert_eq!(printed("(1 + (2 * 3))"), vec!["(group (+ 1 (group (* 2 3))))"]);
}

#[test]
fn lone_dot_is_a_syntax_error() {
    let (printed, errors) = dump(".");
    assert!(printed.is_empty());
    assert_eq!(errors, vec![(1, String::from("Expected expression."))]);
}

#[test]
fn trailing_operator_is_a_syntax_error() {
    let (printed, errors) = dump("1 +");
    assert!(printed.is_empty());
    assert_eq!(errors, vec![(1, String::from("Expected expression."))]);
}

#[test]
fn error_drops_the_rest_of_the_statement() {
    let (printed, errors) = dump("1 + 2\n3 *\n) 4");
    assert_eq!(printed, vec!["(+ 1 2)"]);
    assert_eq!(errors, vec![(3, String::from("Expected expression."))]);
}

#[test]
fn parse_resumes_after_a_semicolon() {
    let (printed, errors) = dump("1 + ; 2 * 3");
    assert_eq!(printed, vec!["(* 2 3)"]);
    assert_eq!(errors, vec![(1, String::from("Expected expression."))]);
}

#[test]
fn parse_resumes_at_a_statement_keyword() {
    let (printed, errors) = dump("+ 1 var 2");
    assert!(printed.is_empty());
    assert_eq!(
        errors,
        vec![(1, String::from("Expected expression.")), (1, String::from("Expected expression."))]
    );
    let (printed, errors) = dump("* 1 2 print\n(3)");
    assert!(printed.is_empty());
    assert_eq!(
        errors,
        vec![(1, String::from("Expected expression.")), (1, String::from("Expected expression."))]
    );
}

#[test]
fn every_broken_statement_is_reported() {
    let (printed, errors) = dump("(1 ; ) ; 2\n* ; 3");
    assert_eq!(printed, vec!["3"]);
    assert_eq!(
        errors,
        vec![
            (1, String::from("Expected ')' after expression.")),
            (1, String::from("Expected expression.")),
            (2, String::from("Expected expression.")),
        ]
    );
}

#[test]
fn aborting_parser_stops_at_the_first_error() {
    let (tokens, _) = Lexer::new("1 ; 2 ; 3").tokenize();
    let mut parser = Parser::new(tokens.iter().collect());
    parser.recovery = Recovery::Abort;
    let exprs = parser.parse();
    assert_eq!(exprs.len(), 1);
    assert_eq!(AstPrinter::print(&exprs[0]), "1");
    assert_eq!(parser.err.reports.len(), 1);
    assert_eq!(parser.err.reports[0].message, "Expected expression.");

    let mut parser = Parser::new(tokens.iter().collect());
    let exprs = parser.parse();
    assert_eq!(exprs.len(), 3);
    assert_eq!(parser.err.reports.len(), 2);
}

#[test]
fn statement_keywords() {
    assert!(kind_starts_statement(&TokenType::Class));
    assert!(kind_starts_statement(&TokenType::Fun));
    assert!(kind_starts_statement(&TokenType::Var));
    assert!(kind_starts_statement(&TokenType::For));
    assert!(kind_starts_statement(&TokenType::If));
    assert!(kind_starts_statement(&TokenType::While));
    assert!(kind_starts_statement(&TokenType::Print));
    assert!(kind_starts_statement(&TokenType::Return));
    assert!(!kind_starts_statement(&TokenType::Else));
    assert!(!kind_starts_statement(&TokenType::Semicolon));
    assert!(!kind_starts_statement(&TokenType::Num("1")));
}

#[test]
fn wrong_closer_is_reported_at_its_line() {
    let (printed, errors) = dump("(1\n;");
    assert!(printed.is_empty());
    assert_eq!(errors, vec![(2, String::from("Expected ')' after expression."))]);
}

#[test]
fn identifier_is_not_a_primary() {
    let (printed, errors) = dump("x");
    assert!(printed.is_empty());
    assert_eq!(errors, vec![(1, String::from("Expected expression."))]);
}

#[test]
fn syntax_errors_name_their_token() {
    let (tokens, _) = Lexer::new("(1 ;\n+").tokenize();
    let mut parser = Parser::new(tokens.iter().collect());
    let exprs = parser.parse();
    assert!(exprs.is_empty());
    assert_eq!(parser.err.reports.len(), 2);
    assert_eq!(parser.err.reports[0].line, 1);
    assert_eq!(parser.err.reports[0].location, "at ';'");
    assert_eq!(parser.err.reports[0].message, "Expected ')' after expression.");
    assert_eq!(parser.err.reports[1].line, 2);
    assert_eq!(parser.err.reports[1].location, "at '+'");
    assert_eq!(parser.err.reports[1].message, "Expected expression.");

    let (tokens, _) = Lexer::new("(1").tokenize();
    let mut parser = Parser::new(tokens.iter().collect());
    parser.parse();
    assert_eq!(parser.err.reports.len(), 1);
    assert_eq!(parser.err.reports[0].location, "at end");
}

#[test]
fn parser_flags_errors() {
    let (tokens, _) = Lexer::new("(").tokenize();
    let mut parser = Parser::new(tokens.iter().collect());
    assert!(!parser.err.had_error());
    let exprs = parser.parse();
    assert!(exprs.is_empty());
    assert!(parser.err.had_error());
}

#[test]
fn printing_twice_gives_the_same_text() {
    let (tokens, _) = Lexer::new("-(1 + 2) * 3 == nil").tokenize();
    let mut parser = Parser::new(tokens.iter().collect());
    let exprs = parser.parse();
    assert_eq!(exprs.len(), 1);
    let first = AstPrinter::print(&exprs[0]);
    let second = AstPrinter::print(&exprs[0]);
    assert_eq!(first, second);
    assert_eq!(first, "(== (* (- (group (+ 1 2))) 3) nil)");
}

#[test]
fn printing_a_tree_built_by_hand() {
    let minus = Token::new(TokenType::Minus, "-", 1);
    let star = Token::new(TokenType::Star, "*", 1);
    let expr = Expr::Binary(
        Box::new(Expr::Unary(&minus, Box::new(Expr::Literal(Literal::Num("123"))))),
        &star,
        Box::new(Expr::Grouping(Box::new(Expr::Literal(Literal::Num("45.67"))))),
    );
    assert_eq!(AstPrinter::print(&expr), "(* (- 123) (group 45.67))");
}

#[test]
fn operator_tokens_keep_their_line() {
    let (tokens, _) = Lexer::new("1\n+\n2").tokenize();
    let mut parser = Parser::new(tokens.iter().collect());
    let exprs = parser.parse();
    assert_eq!(exprs.len(), 1);
    match &exprs[0] {
        Expr::Binary(_, op, _) => {
            assert_eq!(op.line, 2);
            assert_eq!(op.lexeme, "+");
        }
        _ => panic!("not a binary node"),
    }
}
