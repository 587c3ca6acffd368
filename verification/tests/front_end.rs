use lox::front::run;

fn lines(source: &str) -> Vec<String> {
    run(source).unwrap().printed
}

#[test]
fn run_prints_each_expression() {
    assert_eq!(lines("1 + 2 * 3"), vec!["(+ 1 (* 2 3))"]);
    assert_eq!(lines("(1 + 2) * 3\n1 < 2 == true"), vec!["(* (group (+ 1 2)) 3)", "(== (< 1 2) true)"]);
    assert_eq!(lines("// nothing here"), Vec::<String>::new());
}

#[test]
fn run_on_clean_text_has_no_error() {
    let o = run("-1.50 * \"x\"").unwrap();
    assert_eq!(o.printed, vec!["(* (- 1.5) x)"]);
    assert!(!o.lexical.had_error());
    assert!(!o.syntax.had_error());
    assert!(o.lexical.reports.is_empty());
    assert!(o.syntax.reports.is_empty());
}

#[test]
fn run_keeps_lexical_and_syntax_errors_apart() {
    let o = run("1 + 2\n@ (3").unwrap();
    assert_eq!(o.printed, vec!["(+ 1 2)"]);
    assert!(o.lexical.had_error());
    assert_eq!(o.lexical.reports.len(), 1);
    assert_eq!(o.lexical.reports[0].line, 2);
    assert_eq!(o.lexical.reports[0].message, "unexpected @.");
    assert!(o.syntax.had_error());
    assert_eq!(o.syntax.reports.len(), 1);
    assert_eq!(o.syntax.reports[0].line, 2);
    assert_eq!(o.syntax.reports[0].location, "at end");
    assert_eq!(o.syntax.reports[0].message, "Expected ')' after expression.");
}

#[test]
fn run_ends_on_malformed_text() {
    let o = run(".").unwrap();
    assert!(o.printed.is_empty());
    assert!(o.syntax.had_error());
    let o = run("1 +").unwrap();
    assert!(o.printed.is_empty());
    assert!(o.syntax.had_error());
    let o = run("\"open").unwrap();
    assert!(o.printed.is_empty());
    assert!(o.lexical.had_error());
    assert!(!o.syntax.had_error());
}

#[test]
fn run_resumes_after_each_error() {
    let o = run("1 + ; 2 * 3 ; (4").unwrap();
    assert_eq!(o.printed, vec!["(* 2 3)"]);
    assert!(!o.lexical.had_error());
    assert_eq!(o.syntax.reports.len(), 3);
    assert_eq!(o.syntax.reports[0].message, "Expected expression.");
    assert_eq!(o.syntax.reports[1].message, "Expected expression.");
    assert_eq!(o.syntax.reports[2].message, "Expected ')' after expression.");
}
