use runic::lexer::{Lexer, Rule, SkipWhitespaceRule, matches_sequence};
use runic::source::Source;

#[test]
fn test_skip_whitespace_rule() {
    let source = Source::from_str("test_input.txt", "     let x = 10;");
    let rules: Vec<Rule<String>> = vec![Rule::skip_whitespace()];

    let mut lexer = Lexer::new(&source, rules);
    let token = lexer.get_token().unwrap();

    assert!(token.is_none());
    assert_eq!(lexer.cursor.position, 5);
    assert_eq!(lexer.cursor.current_char, Some('l'));
}

#[test]
fn test_rules_vec_macro() {
    let rules: Vec<Rule<String>> = vec![Rule::skip_whitespace()];
    assert_eq!(rules.len(), 1);
    assert!(rules[0].generates_token() == false);
}

#[test]
fn test_match_string_macro() {
    let source = Source::from_str("test_input.txt", "let x = 10;");
    let rules: Vec<Rule<String>> = vec![Rule::match_string("let", "let".to_string())];
    let mut lexer = Lexer::new(&source, rules);
    let token = lexer.get_token().unwrap();

    assert!(token.is_some());
    let token = token.unwrap();
    assert_eq!(token.kind, "let");

    let token = lexer.get_token().unwrap();
    assert!(token.is_none());
    assert_eq!(lexer.cursor.position, 3);
    assert_eq!(lexer.cursor.current_char, Some(' '));
}

#[test]
fn test_match_word_macro() {
    let source = Source::from_str("test_input.txt", "let x = 10;");
    let rules: Vec<Rule<String>> = vec![Rule::match_word("let", "let".to_string())];
    let mut lexer = Lexer::new(&source, rules);

    let token = lexer.get_token().unwrap();
    assert!(token.is_some());
    let token = token.unwrap();
    assert_eq!(token.kind, "let");

    let source = Source::from_str("test_input.txt", "letx = 10;");
    let rules: Vec<Rule<String>> = vec![Rule::match_word("let", "let".to_string())];
    let mut lexer = Lexer::new(&source, rules);
    let token = lexer.get_token().unwrap();
    assert!(token.is_none());
}

#[test]
fn test_matches_sequence_utility() {
    let source = Source::from_str("test_input.txt", "let x = 10;");
    let mut lexer = Lexer::<String>::new(&source, vec![]);

    assert!(matches_sequence(&mut lexer, "let"));
    assert_eq!(lexer.cursor.position, 3);
    assert_eq!(lexer.cursor.current_char, Some(' '));

    let source = Source::from_str("test_input.txt", "abc x = 10;");
    let mut lexer = Lexer::<String>::new(&source, vec![]);
    let original_pos = lexer.cursor.position;

    assert!(!matches_sequence(&mut lexer, "let"));
    assert_eq!(lexer.cursor.position, original_pos);
    assert_eq!(lexer.cursor.current_char, Some('a'));

    assert!(!matches_sequence(&mut lexer, ""));
    assert_eq!(lexer.cursor.position, original_pos);
}

#[test]
fn test_lexer_new() {
    let source = Source::from_str("test_input.txt", "let x = 10;");
    let rules: Vec<Rule<u8>> = vec![Rule::skip_whitespace()];
    let lexer = Lexer::new(&source, rules);

    assert_eq!(lexer.cursor.position, 0);
    assert_eq!(lexer.cursor.current_char, Some('l'));
}

#[test]
fn test_lexer_advance() {
    let source = Source::from_str("test_input.txt", "let x = 10;");
    let rules: Vec<Rule<u8>> = vec![Rule::skip_whitespace()];
    let mut lexer = Lexer::new(&source, rules);

    lexer.advance();
    assert_eq!(lexer.cursor.position, 1);
    assert_eq!(lexer.cursor.current_char, Some('e'));
}

#[test]
fn test_lexer_jump_to() {
    let source = Source::from_str("test_input.txt", "let x = 10;");
    let rules: Vec<Rule<u8>> = vec![Rule::skip_whitespace()];
    let mut lexer = Lexer::new(&source, rules);

    lexer.jump_to(4);
    assert_eq!(lexer.cursor.position, 4);
    assert_eq!(lexer.cursor.current_char, Some('x'));
}

#[test]
fn test_lexer_get_token() {
    let source = Source::from_str("test_input.txt", "let x = 10;");

    let rules: Vec<Rule<String>> = vec![
        Rule::skip_whitespace(),
        Rule::match_string("let", "let".to_string()),
    ];
    let mut lexer = Lexer::new(&source, rules);
    let token = lexer.get_token().unwrap();

    assert!(token.is_some());

    let token = token.unwrap();

    assert_eq!(token.kind, "let");
    assert_eq!(token.span.start, 0);
    assert_eq!(token.span.end, 3);
}

#[test]
fn test_skip_then_match() {
    let source = Source::from_str("input.txt", "   let x");
    let rules: Vec<Rule<String>> = vec![
        Rule::skip_whitespace(),
        Rule::match_string("let", "let".to_string()),
    ];
    let mut lexer = Lexer::new(&source, rules);

    let token = lexer.get_token().unwrap();
    assert!(token.is_some());
    let token = token.unwrap();
    assert_eq!(token.kind, "let");
    assert_eq!(token.span.start, 3);
    assert_eq!(token.span.end, 6);
    assert_eq!(lexer.cursor.position, 6);
    assert_eq!(lexer.cursor.current_char, Some(' '));
}

#[test]
fn test_order_decides_over_length() {
    let source = Source::from_str("input.txt", "let x");
    let rules: Vec<Rule<String>> = vec![
        Rule::match_string("le", "short".to_string()),
        Rule::match_string("let", "long".to_string()),
    ];
    let mut lexer = Lexer::new(&source, rules);
    let token = lexer.get_token().unwrap().unwrap();
    assert_eq!(token.kind, "short");
    assert_eq!(token.span.end, 2);

    let source = Source::from_str("input.txt", "let x");
    let rules: Vec<Rule<String>> = vec![
        Rule::match_string("let", "long".to_string()),
        Rule::match_string("le", "short".to_string()),
    ];
    let mut lexer = Lexer::new(&source, rules);
    let token = lexer.get_token().unwrap().unwrap();
    assert_eq!(token.kind, "long");
    assert_eq!(token.span.end, 3);
}

#[test]
fn test_failed_consuming_rule_restores_cursor() {
    let source = Source::from_str("input.txt", "bar");
    let rules: Vec<Rule<String>> = vec![Rule::match_string("foo", "foo".to_string())];
    let mut lexer = Lexer::new(&source, rules);

    let token = lexer.get_token().unwrap();
    assert!(token.is_none());
    assert_eq!(lexer.cursor.position, 0);
    assert_eq!(lexer.cursor.current_char, Some('b'));
}

#[test]
fn test_match_word_at_end_of_text() {
    let source = Source::from_str("input.txt", "let");
    let rules: Vec<Rule<String>> = vec![Rule::match_word("let", "let".to_string())];
    let mut lexer = Lexer::new(&source, rules);

    let token = lexer.get_token().unwrap();
    assert!(token.is_some());
    let token = token.unwrap();
    assert_eq!(token.span.start, 0);
    assert_eq!(token.span.end, 3);
    assert_eq!(lexer.cursor.current_char, None);
}

#[test]
fn test_skip_whitespace_to_end() {
    let source = Source::from_str("input.txt", "   ");
    let rules: Vec<Rule<String>> = vec![Rule::skip_whitespace()];
    let mut lexer = Lexer::new(&source, rules);

    let token = lexer.get_token().unwrap();
    assert!(token.is_none());
    assert_eq!(lexer.cursor.position, 3);
    assert_eq!(lexer.cursor.current_char, None);
}

#[test]
fn test_empty_source_cursor() {
    let source = Source::from_str("input.txt", "");
    let mut lexer = Lexer::<u8>::new(&source, vec![]);

    assert_eq!(lexer.cursor.position, 0);
    assert_eq!(lexer.cursor.current_char, None);

    lexer.advance();
    assert_eq!(lexer.cursor.position, 0);
    assert_eq!(lexer.cursor.current_char, None);
}

#[test]
fn test_advance_to_exhaustion() {
    let source = Source::from_str("input.txt", "ab");
    let mut lexer = Lexer::<u8>::new(&source, vec![]);

    lexer.advance();
    assert_eq!(lexer.cursor.position, 1);
    assert_eq!(lexer.cursor.current_char, Some('b'));

    lexer.advance();
    assert_eq!(lexer.cursor.position, 2);
    assert_eq!(lexer.cursor.current_char, None);

    lexer.advance();
    assert_eq!(lexer.cursor.position, 2);
    assert_eq!(lexer.cursor.current_char, None);
}

#[test]
fn test_jump_to_out_of_bounds() {
    let source = Source::from_str("input.txt", "ab");
    let mut lexer = Lexer::<u8>::new(&source, vec![]);

    lexer.jump_to(5);
    assert_eq!(lexer.cursor.position, 3);
    assert_eq!(lexer.cursor.current_char, None);
}

#[test]
fn test_skip_whitespace_rule_struct() {
    let source = Source::from_str("input.txt", "  x");
    let rules: Vec<Rule<u8>> = vec![];
    let mut lexer = Lexer::new(&source, rules);

    let rule = SkipWhitespaceRule;
    assert!(!rule.generates_token());
    let token = rule.get_token(&mut lexer).unwrap();
    assert!(token.is_none());
    assert_eq!(lexer.cursor.position, 2);
    assert_eq!(lexer.cursor.current_char, Some('x'));
}

#[test]
fn test_no_rule_matches_returns_none() {
    let source = Source::from_str("input.txt", "x");
    let rules: Vec<Rule<String>> = vec![
        Rule::match_string("a", "a".to_string()),
        Rule::match_word("b", "b".to_string()),
    ];
    let mut lexer = Lexer::new(&source, rules);
    let token = lexer.get_token().unwrap();
    assert!(token.is_none());
    assert_eq!(lexer.cursor.position, 0);
}
