use radish::{is_alpha, is_digit, is_whitespace, Scanner, Source, TokenType};

fn new_test_scanner(test_string: &str) -> Scanner {
    let source = Source::source(test_string);
    Scanner::new(source)
}

#[test]
fn test_op_token_type() {
    let src = String::from("+-*/");
    let mut scanner = new_test_scanner(&src);
    let token = scanner.scan_token();
    assert_eq!(token.token_type, TokenType::Plus);
    assert_eq!(token.value, "+");
    let token = scanner.scan_token();
    assert_eq!(token.token_type, TokenType::Minus);
    assert_eq!(token.value, "-");
    let token = scanner.scan_token();
    assert_eq!(token.token_type, TokenType::Star);
    assert_eq!(token.value, "*");
    let token = scanner.scan_token();
    assert_eq!(token.token_type, TokenType::Slash);
    assert_eq!(token.value, "/");
    let token = scanner.scan_token();
    assert_eq!(token.token_type, TokenType::Eof);
    assert_eq!(token.value, "");
}

#[test]
fn test_number_token_type() {
    let src = String::from("123");
    let mut scanner = new_test_scanner(&src);
    let token = scanner.scan_token();
    assert_eq!(token.token_type, TokenType::Number);
    assert_eq!(token.value, "123");
    let token = scanner.scan_token();
    assert_eq!(token.token_type, TokenType::Eof);
    assert_eq!(token.value, "");
}

#[test]
fn test_true_token() {
    let mut scanner = new_test_scanner("true");
    let token = scanner.scan_token();
    assert_eq!(token.token_type, TokenType::True);
    assert_eq!(token.value, "true");
}

#[test]
fn test_false_token() {
    let mut scanner = new_test_scanner("false");
    let token = scanner.scan_token();
    assert_eq!(token.token_type, TokenType::False);
    assert_eq!(token.value, "false");
}

#[test]
fn test_identifier_token() {
    let mut scanner = new_test_scanner("radishes cats");
    let token = scanner.scan_token();
    assert_eq!(token.token_type, TokenType::Ident);
    assert_eq!(token.value, "radishes");
    let token = scanner.scan_token();
    assert_eq!(token.token_type, TokenType::Ident);
    assert_eq!(token.value, "cats");
}

#[test]
fn test_skip_whitespace() {
    let src = String::from("    ");
    let mut scanner = new_test_scanner(&src);
    assert_eq!(scanner.scan_token().token_type, TokenType::Eof);
    let src = String::from("\r\r\t");
    let mut scanner = new_test_scanner(&src);
    assert_eq!(scanner.scan_token().token_type, TokenType::Eof);
    let src = String::from("  123    + 45  ");
    let mut scanner = new_test_scanner(&src);
    assert_eq!(scanner.scan_token().token_type, TokenType::Number);
    assert_eq!(scanner.scan_token().token_type, TokenType::Plus);
    assert_eq!(scanner.scan_token().token_type, TokenType::Number);
    assert_eq!(scanner.scan_token().token_type, TokenType::Eof);
}

#[test]
fn test_unexpected_token_type() {
    let src = String::from("猫");
    let mut scanner = new_test_scanner(&src);
    let token = scanner.scan_token();
    assert_eq!(token.token_type, TokenType::Error);
    assert_eq!(token.value, "Unexpected character: '猫'");
    let token = scanner.scan_token();
    assert_eq!(token.token_type, TokenType::Eof);
    assert_eq!(token.value, "");
}

#[test]
fn test_multiple_tokens() {
    let src = String::from("1 + 23 + 456");
    let mut scanner = new_test_scanner(&src);
    assert_eq!(scanner.scan_token().token_type, TokenType::Number);
    assert_eq!(scanner.scan_token().token_type, TokenType::Plus);
    assert_eq!(scanner.scan_token().token_type, TokenType::Number);
    assert_eq!(scanner.scan_token().token_type, TokenType::Plus);
    assert_eq!(scanner.scan_token().token_type, TokenType::Number);
    assert_eq!(scanner.scan_token().token_type, TokenType::Eof);
}

#[test]
fn test_parentheses() {
    let mut scanner = new_test_scanner("123 (456 789)");
    assert_eq!(scanner.scan_token().token_type, TokenType::Number);
    let token = scanner.scan_token();
    assert_eq!(token.token_type, TokenType::LeftParen);
    assert_eq!(token.value, "(");
    assert_eq!(scanner.scan_token().token_type, TokenType::Number);
    assert_eq!(scanner.scan_token().token_type, TokenType::Number);
    let token = scanner.scan_token();
    assert_eq!(token.token_type, TokenType::RightParen);
    assert_eq!(token.value, ")");
    assert_eq!(scanner.scan_token().token_type, TokenType::Eof);
}

// Spans count grapheme clusters, so the one-cluster "猫" spans one position.
#[test]
fn test_token_span() {
    let src = String::from("789 102 猫");
    //                      012345678
    let mut scanner = new_test_scanner(&src);
    let token = scanner.scan_token(); //789
    println!("{:?}", token);
    assert_eq!(token.span.start, 0);
    assert_eq!(token.span.end, 3);
    let token = scanner.scan_token(); //102
    assert_eq!(token.span.start, 4);
    assert_eq!(token.span.end, 7);
    let token = scanner.scan_token(); //猫
    assert_eq!(token.span.start, 8);
    assert_eq!(token.span.end, 9);
    let token = scanner.scan_token(); //Eof
    assert_eq!(token.span.start, 9);
    assert_eq!(token.span.end, 9);
}

#[test]
fn test_empty_file() {
    let src = String::from("");
    let mut scanner = new_test_scanner(&src);
    let token = scanner.scan_token();
    assert_eq!(token.token_type, TokenType::Eof);
}

#[test]
fn test_is_alpha() {
    assert_eq!(is_alpha("l"), true);
    assert_eq!(is_alpha("L"), true);
    assert_eq!(is_alpha("_"), true);
    assert_eq!(is_alpha("1"), false);
    assert_eq!(is_alpha("?"), false);
    assert_eq!(is_alpha("猫"), false);
}

#[test]
fn empty_source_gives_eof_at_zero() {
    let mut scanner = new_test_scanner("");
    let token = scanner.scan_token();
    assert_eq!(token.token_type, TokenType::Eof);
    assert_eq!(token.value, "");
    assert_eq!(token.span.start, 0);
    assert_eq!(token.span.end, 0);
}

#[test]
fn keywords_match_verbatim() {
    let mut scanner = new_test_scanner("truee");
    let token = scanner.scan_token();
    assert_eq!(token.token_type, TokenType::Ident);
    assert_eq!(token.value, "truee");
    assert_eq!(scanner.scan_token().token_type, TokenType::Eof);
    let mut scanner = new_test_scanner("true false");
    assert_eq!(scanner.scan_token().token_type, TokenType::True);
    assert_eq!(scanner.scan_token().token_type, TokenType::False);
}

#[test]
fn error_token_then_normal_scanning() {
    let mut scanner = new_test_scanner("猫12");
    let token = scanner.scan_token();
    assert_eq!(token.token_type, TokenType::Error);
    assert!(token.value.contains("猫"));
    assert_eq!(token.span.start, 0);
    assert_eq!(token.span.end, 1);
    let token = scanner.scan_token();
    assert_eq!(token.token_type, TokenType::Number);
    assert_eq!(token.value, "12");
    assert_eq!(token.span.start, 1);
    assert_eq!(token.span.end, 3);
}

#[test]
fn combining_mark_is_one_position() {
    // "e" followed by a combining acute accent is a single cluster.
    let mut scanner = new_test_scanner("e\u{301} 7");
    let token = scanner.scan_token();
    assert_eq!(token.token_type, TokenType::Error);
    assert_eq!(token.value, "Unexpected character: 'e\u{301}'");
    assert_eq!(token.span.start, 0);
    assert_eq!(token.span.end, 1);
    let token = scanner.scan_token();
    assert_eq!(token.token_type, TokenType::Number);
    assert_eq!(token.span.start, 2);
    assert_eq!(token.span.end, 3);
}

#[test]
fn identifiers_take_letters_and_underscores() {
    let mut scanner = new_test_scanner("_ab9");
    let token = scanner.scan_token();
    assert_eq!(token.token_type, TokenType::Ident);
    assert_eq!(token.value, "_ab");
    let token = scanner.scan_token();
    assert_eq!(token.token_type, TokenType::Number);
    assert_eq!(token.value, "9");
}

#[test]
fn newline_is_not_whitespace() {
    let mut scanner = new_test_scanner("\n");
    let token = scanner.scan_token();
    assert_eq!(token.token_type, TokenType::Error);
    assert_eq!(scanner.scan_token().token_type, TokenType::Eof);
}

#[test]
fn classifiers() {
    assert!(is_whitespace(" "));
    assert!(is_whitespace("\u{2028}"));
    assert!(is_whitespace("\u{0085}"));
    assert!(!is_whitespace("\n"));
    assert!(!is_whitespace("  "));
    assert!(is_digit("7"));
    assert!(!is_digit("a"));
    assert!(!is_digit(""));
}

#[test]
fn source_splits_into_clusters() {
    let source = Source::new("a\u{310}e\u{301}o");
    assert_eq!(source.graphemes, vec!["a\u{310}".to_string(), "e\u{301}".to_string(), "o".to_string()]);
    assert_eq!(source.len(), 3);
}

#[test]
fn source_text_of_span() {
    let source = Source::new("ab猫c");
    assert_eq!(source.text(radish::Span::new(1, 3)), "b猫");
    assert_eq!(source.text(radish::Span::new(2, 2)), "");
}

#[test]
fn digit_with_combining_mark_is_an_error() {
    let mut scanner = new_test_scanner("1\u{301}");
    let token = scanner.scan_token();
    assert_eq!(token.token_type, TokenType::Error);
    assert_eq!(token.value, "Unexpected character: '1\u{301}'");
    assert_eq!(scanner.scan_token().token_type, TokenType::Eof);
    let mut scanner = new_test_scanner("12\u{301}");
    let token = scanner.scan_token();
    assert_eq!(token.token_type, TokenType::Number);
    assert_eq!(token.value, "1");
    assert_eq!(scanner.scan_token().token_type, TokenType::Error);
    assert!(!is_digit("1\u{301}"));
}
