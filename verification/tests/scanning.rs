use lox::error::ErrorReporter;
use lox::lexer::{char_is_alnum, char_is_alpha, char_is_digit, keyword, same_text, Lexer};
use lox::token::{Token, TokenType};

fn kinds(source: &str) -> Vec<String> {
    let (tokens, _) = Lexer::new(source).tokenize();
    tokens.iter().map(|t| format!("{:?}", t.t)).collect()
}

fn lexemes(source: &str) -> Vec<String> {
    let (tokens, _) = Lexer::new(source).tokenize();
    tokens.iter().map(|t| t.lexeme.to_string()).collect()
}

fn lines(source: &str) -> Vec<usize> {
    let (tokens, _) = Lexer::new(source).tokenize();
    tokens.iter().map(|t| t.line).collect()
}

fn errors(source: &str) -> Vec<(usize, String, String)> {
    let (_, err) = Lexer::new(source).tokenize();
    err.reports.iter().map(|r| (r.line, r.location.clone(), r.message.clone())).collect()
}

#[test]
fn empty_source_is_only_the_end_marker() {
    let (tokens, err) = Lexer::new("").tokenize();
    assert_eq!(tokens.len(), 1);
    assert!(matches!(tokens[0].t, TokenType::EOF));
    assert_eq!(tokens[0].lexeme, "");
    assert_eq!(tokens[0].line, 1);
    assert!(!err.had_error());
}

#[test]
fn integer_literal_is_one_number() {
    let (tokens, err) = Lexer::new("42").tokenize();
    assert_eq!(tokens.len(), 2);
    assert!(matches!(tokens[0].t, TokenType::Num("42")));
    assert_eq!(tokens[0].lexeme, "42");
    assert_eq!(tokens[0].line, 1);
    assert!(matches!(tokens[1].t, TokenType::EOF));
    assert!(!err.had_error());
}

#[test]
fn decimal_literal_is_one_number() {
    let (tokens, _) = Lexer::new("3.14").tokenize();
    assert_eq!(tokens.len(), 2);
    assert!(matches!(tokens[0].t, TokenType::Num("3.14")));
    let value: f64 = match tokens[0].t {
        TokenType::Num(text) => text.parse().unwrap(),
        _ => unreachable!(),
    };
    assert_eq!(value, 3.14);
}

#[test]
fn trailing_dot_is_not_part_of_the_number() {
    assert_eq!(kinds("1."), vec!["Num(\"1\")", "Dot", "EOF"]);
    assert_eq!(kinds("1.x"), vec!["Num(\"1\")", "Dot", "Id", "EOF"]);
    assert_eq!(kinds("1.2.3"), vec!["Num(\"1.2\")", "Dot", "Num(\"3\")", "EOF"]);
}

#[test]
fn leading_dot_is_a_dot() {
    assert_eq!(kinds(".5"), vec!["Dot", "Num(\"5\")", "EOF"]);
    assert_eq!(kinds("."), vec!["Dot", "EOF"]);
}

#[test]
fn quoted_text_is_one_string() {
    let (tokens, err) = Lexer::new("\"hello world\"").tokenize();
    assert_eq!(tokens.len(), 2);
    assert!(matches!(tokens[0].t, TokenType::Str("hello world")));
    assert_eq!(tokens[0].lexeme, "\"hello world\"");
    assert!(!err.had_error());
}

#[test]
fn string_keeps_backslashes_as_they_stand() {
    let (tokens, _) = Lexer::new("\"a\\nb\"").tokenize();
    assert!(matches!(tokens[0].t, TokenType::Str("a\\nb")));
}

#[test]
fn empty_string_literal() {
    let (tokens, _) = Lexer::new("\"\"").tokenize();
    assert_eq!(tokens.len(), 2);
    assert!(matches!(tokens[0].t, TokenType::Str("")));
}

#[test]
fn string_with_non_ascii_text() {
    let (tokens, _) = Lexer::new("\"h\u{e9}llo\" 1").tokenize();
    assert_eq!(tokens.len(), 3);
    assert!(matches!(tokens[0].t, TokenType::Str("h\u{e9}llo")));
    assert!(matches!(tokens[1].t, TokenType::Num("1")));
}

#[test]
fn multi_line_string_counts_lines() {
    let (tokens, _) = Lexer::new("\"a\nb\nc\" 7").tokenize();
    assert_eq!(tokens.len(), 3);
    assert!(matches!(tokens[0].t, TokenType::Str("a\nb\nc")));
    assert_eq!(tokens[0].line, 1);
    assert_eq!(tokens[1].line, 3);
    assert_eq!(tokens[2].line, 3);
}

#[test]
fn unterminated_string_is_reported_and_skipped() {
    assert_eq!(kinds("1 \"abc"), vec!["Num(\"1\")", "EOF"]);
    assert_eq!(
        errors("1 \"abc"),
        vec![(1, String::new(), String::from("Unterminated string."))]
    );
    assert_eq!(errors("\"a\nb"), vec![(2, String::new(), String::from("Unterminated string."))]);
}

#[test]
fn unexpected_character_is_reported_and_skipped() {
    assert_eq!(kinds("1 @ 2"), vec!["Num(\"1\")", "Num(\"2\")", "EOF"]);
    assert_eq!(errors("1 @ 2"), vec![(1, String::new(), String::from("unexpected @."))]);
    assert_eq!(
        errors("\n#\n_"),
        vec![
            (2, String::new(), String::from("unexpected #.")),
            (3, String::new(), String::from("unexpected _.")),
        ]
    );
}

#[test]
fn every_keyword_has_its_kind() {
    assert_eq!(
        kinds("and class else false fun for if nil or print return super this true var while"),
        vec![
            "And", "Class", "Else", "False", "Fun", "For", "If", "Nil", "Or", "Print", "Return",
            "Super", "This", "True", "Var", "While", "EOF"
        ]
    );
}

#[test]
fn keyword_with_suffix_is_an_identifier() {
    assert_eq!(kinds("while"), vec!["While", "EOF"]);
    assert_eq!(kinds("whileX"), vec!["Id", "EOF"]);
    assert_eq!(kinds("whil"), vec!["Id", "EOF"]);
    assert_eq!(kinds("While"), vec!["Id", "EOF"]);
    assert_eq!(kinds("nil0"), vec!["Id", "EOF"]);
    assert_eq!(lexemes("whileX"), vec!["whileX", ""]);
}

#[test]
fn comment_produces_no_token() {
    let (tokens, err) = Lexer::new("// comment\n42").tokenize();
    assert_eq!(tokens.len(), 2);
    assert!(matches!(tokens[0].t, TokenType::Num("42")));
    assert_eq!(tokens[0].line, 2);
    assert!(matches!(tokens[1].t, TokenType::EOF));
    assert_eq!(tokens[1].line, 2);
    assert!(!err.had_error());
}

#[test]
fn comment_at_end_of_text_ends_the_scan() {
    assert_eq!(kinds("1 // no newline"), vec!["Num(\"1\")", "EOF"]);
    assert_eq!(kinds("//"), vec!["EOF"]);
}

#[test]
fn punctuation() {
    assert_eq!(
        kinds("(){},.-+;*/"),
        vec![
            "LeftParen", "RightParen", "LeftBrace", "RightBrace", "Comma", "Dot", "Minus", "Plus",
            "Semicolon", "Star", "Slash", "EOF"
        ]
    );
}

#[test]
fn one_and_two_character_operators() {
    assert_eq!(
        kinds("! != = == < <= > >="),
        vec![
            "Bang", "BangEqual", "Equal", "EqualEqual", "Less", "LessEqual", "Greater",
            "GreaterEqual", "EOF"
        ]
    );
    assert_eq!(lexemes("!= >="), vec!["!=", ">=", ""]);
    assert_eq!(kinds("==="), vec!["EqualEqual", "Equal", "EOF"]);
    assert_eq!(kinds("!"), vec!["Bang", "EOF"]);
}

#[test]
fn whitespace_and_newlines() {
    assert_eq!(kinds(" \t\r\n "), vec!["EOF"]);
    assert_eq!(lines("1\n2\n\n3"), vec![1, 2, 4, 4]);
    assert_eq!(lines("\n\n"), vec![3]);
}

#[test]
fn lexemes_are_the_source_text() {
    assert_eq!(lexemes("var x1=12.5;"), vec!["var", "x1", "=", "12.5", ";", ""]);
}

#[test]
fn malformed_input_still_ends() {
    assert_eq!(kinds(". . ."), vec!["Dot", "Dot", "Dot", "EOF"]);
    assert_eq!(kinds("1 +"), vec!["Num(\"1\")", "Plus", "EOF"]);
    assert_eq!(kinds("\u{e9}"), vec!["EOF"]);
}

#[test]
fn character_classes_are_ascii() {
    assert!(char_is_digit('0') && char_is_digit('9') && !char_is_digit('a'));
    assert!(!char_is_digit('\u{663}'));
    assert!(char_is_alpha('a') && char_is_alpha('Z') && !char_is_alpha('_'));
    assert!(!char_is_alpha('\u{e9}'));
    assert!(char_is_alnum('a') && char_is_alnum('5') && !char_is_alnum(' '));
}

#[test]
fn same_text_compares_characters() {
    assert!(same_text("abc", "abc"));
    assert!(!same_text("abc", "abd"));
    assert!(!same_text("abc", "ab"));
    assert!(same_text("", ""));
}

#[test]
fn keyword_lookup() {
    assert!(matches!(keyword("or"), TokenType::Or));
    assert!(matches!(keyword("orchid"), TokenType::Id));
    assert!(matches!(keyword(""), TokenType::Id));
}

#[test]
fn token_new_keeps_its_parts() {
    let t = Token::new(TokenType::Plus, "+", 7);
    assert!(matches!(t.t, TokenType::Plus));
    assert_eq!(t.lexeme, "+");
    assert_eq!(t.line, 7);
}

#[test]
fn kinds_compare_without_payload() {
    assert!(TokenType::Num("1").same_kind(&TokenType::Num("2")));
    assert!(!TokenType::Num("1").same_kind(&TokenType::Str("1")));
    assert!(TokenType::EOF.same_kind(&TokenType::EOF));
    assert_eq!(TokenType::LeftParen.ordinal(), 0);
    assert_eq!(TokenType::EOF.ordinal(), 38);
}

#[test]
fn reporter_records_in_order() {
    let mut r = ErrorReporter::new();
    assert!(!r.had_error());
    assert!(r.reports.is_empty());
    r.error(3, "first");
    r.report(5, "at end", "second");
    assert!(r.had_error());
    assert_eq!(r.reports.len(), 2);
    assert_eq!(r.reports[0].line, 3);
    assert_eq!(r.reports[0].location, "");
    assert_eq!(r.reports[0].message, "first");
    assert_eq!(r.reports[1].line, 5);
    assert_eq!(r.reports[1].location, "at end");
    assert_eq!(r.reports[1].message, "second");
}
