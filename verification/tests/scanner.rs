use rlox::scanner::{Scanner, Token, TokenKind};
const SOURCE: &str = "print \"This is a test\"\nvar a = 1;";

#[test]
fn is_at_end_works() {
    let mut scanner = Scanner::new(SOURCE);

    assert_ne!(true, scanner.is_at_end());
    assert_ne!(None, scanner.peek());

    for _ in 0..SOURCE.len() {
        scanner.next();
    }

    assert_eq!(true, scanner.is_at_end());
    assert_eq!(None, scanner.peek());
}

#[test]
fn is_at_end_works_on_empty() {
    let mut scanner = Scanner::new("");

    assert_eq!(true, scanner.is_at_end());
}

#[test]
fn next_works() {
    let mut scanner = Scanner::new(SOURCE);

    assert_eq!(false, scanner.is_at_end());

    for c in SOURCE.chars() {
        assert_eq!(c, scanner.next().unwrap());
    }

    assert_eq!(true, scanner.is_at_end());
}

#[test]
fn next_works_on_empty() {
    let mut scanner = Scanner::new("");

    assert_eq!(None, scanner.next());
    assert_eq!(true, scanner.is_at_end());
}

#[test]
fn advance_works() {
    let mut scanner = Scanner::new(SOURCE);

    assert_eq!(false, scanner.is_at_end());

    for c in SOURCE.chars() {
        assert_eq!(c, scanner.advance().unwrap());
    }

    assert_eq!(true, scanner.is_at_end());
}

#[test]
fn advance_works_on_empty() {
    let mut scanner = Scanner::new("");

    assert_eq!(None, scanner.next());
    assert_eq!(true, scanner.is_at_end());
}

#[test]
fn peek_works() {
    let mut scanner = Scanner::new(SOURCE);

    scanner.next();
    assert_eq!(Some('r'), scanner.peek());
    assert_eq!(Some('r'), scanner.next());
}

#[test]
fn peek_works_at_beginning() {
    let mut scanner = Scanner::new(SOURCE);

    assert_eq!(false, scanner.is_at_end());
    assert_eq!(Some('p'), scanner.peek());
}

#[test]
fn peek_works_on_empty() {
    let mut scanner = Scanner::new("");

    assert_eq!(None, scanner.peek());
}

#[test]
fn peek_next_works() {
    let mut scanner = Scanner::new(SOURCE);

    scanner.next();
    assert_eq!(Some('i'), scanner.peek_next());
    assert_eq!(Some('r'), scanner.next());
}

#[test]
fn peek_next_works_at_beginning() {
    let mut scanner = Scanner::new(SOURCE);

    assert_eq!(false, scanner.is_at_end());
    assert_eq!(Some('r'), scanner.peek_next());
}

#[test]
fn peek_next_works_on_empty() {
    let mut scanner = Scanner::new("");

    assert_eq!(None, scanner.peek_next());
}

#[test]
fn matches_works() {
    let mut scanner = Scanner::new(SOURCE);

    scanner.next();
    // matches and advances
    assert_eq!(true, scanner.matches('r'));
    assert_eq!(Some('i'), scanner.peek());
    // does not match and does not advance
    assert_eq!(false, scanner.matches('z'));
    assert_eq!(Some('i'), scanner.next());
}

#[test]
fn matches_works_on_empty() {
    let mut scanner = Scanner::new("");

    assert_eq!(false, scanner.matches('p'));
}

#[test]
fn skip_whitespace_works_only_spaces() {
    let mut scanner = Scanner::new(" \t \t      \n  \t  \n   \t   ");

    let _ = scanner.scan_token();

    assert_eq!(true, scanner.is_at_end());
    assert_eq!(3, scanner.line());
}

#[test]
fn skip_whitespace_with_comments_only() {
    let mut scanner = Scanner::new("//this should all be ignored");

    let _ = scanner.scan_token();

    assert_eq!(true, scanner.is_at_end());
    assert_eq!(1, scanner.line());
}

#[test]
fn scan_token_comment_and_newlines() {
    let mut scanner = Scanner::new("//this should all be ignored\n//so should this\n\n\n");

    let token = scanner.scan_token().unwrap();
    assert_eq!("//this should all be ignored", token.lexeme().unwrap());
    assert_eq!(false, scanner.is_at_end());
    assert_eq!(1, scanner.line());
    let token = scanner.scan_token().unwrap();
    assert_eq!("//so should this", token.lexeme().unwrap());
    assert_eq!(false, scanner.is_at_end());
    assert_eq!(2, scanner.line());
    // still have whitespeces to consume
    let _ = scanner.scan_token();
    assert_eq!(true, scanner.is_at_end());
}

#[test]
fn skip_whitespace_works_spaces_and_valid_chars() {
    let mut scanner = Scanner::new(" \t \t      1\n  \t  \n   \t   ");

    let _ = scanner.scan_token();

    assert_eq!(false, scanner.is_at_end());
    assert_eq!(1, scanner.line());

    let _ = scanner.scan_token();

    assert_eq!(true, scanner.is_at_end());
    // not sure
    assert_eq!(3, scanner.line());
}

#[test]
fn scan_token_skip_whitespace_works_on_empty() {
    let mut scanner = Scanner::new("");

    let _ = scanner.scan_token();

    assert_eq!(true, scanner.is_at_end());
}

#[test]
fn scan_token_left_paren() {
    let mut scanner = Scanner::new("(");

    assert_eq!(TokenKind::LeftParen, *scanner.scan_token().unwrap().kind());
}

#[test]
fn scan_token_right_paren() {
    let mut scanner = Scanner::new(")");

    assert_eq!(TokenKind::RightParen, *scanner.scan_token().unwrap().kind());
}

#[test]
fn scan_token_left_brace() {
    let mut scanner = Scanner::new("{");

    assert_eq!(TokenKind::LeftBrace, *scanner.scan_token().unwrap().kind());
}

#[test]
fn scan_token_right_brace() {
    let mut scanner = Scanner::new("}");

    assert_eq!(TokenKind::RightBrace, *scanner.scan_token().unwrap().kind());
}

#[test]
fn scan_token_semicolon() {
    let mut scanner = Scanner::new(";");

    assert_eq!(TokenKind::Semicolon, *scanner.scan_token().unwrap().kind());
}

#[test]
fn scan_token_comma() {
    let mut scanner = Scanner::new(",");

    assert_eq!(TokenKind::Comma, *scanner.scan_token().unwrap().kind());
}

#[test]
fn scan_token_dot() {
    let mut scanner = Scanner::new(".");

    assert_eq!(TokenKind::Dot, *scanner.scan_token().unwrap().kind());
}

#[test]
fn scan_token_minus() {
    let mut scanner = Scanner::new("-");

    assert_eq!(TokenKind::Minus, *scanner.scan_token().unwrap().kind());
}

#[test]
fn scan_token_plus() {
    let mut scanner = Scanner::new("+");

    assert_eq!(TokenKind::Plus, *scanner.scan_token().unwrap().kind());
}

#[test]
fn scan_token_slash() {
    let mut scanner = Scanner::new("/");

    assert_eq!(TokenKind::Slash, *scanner.scan_token().unwrap().kind());
}

#[test]
fn scan_token_star() {
    let mut scanner = Scanner::new("*");

    assert_eq!(TokenKind::Star, *scanner.scan_token().unwrap().kind());
}

#[test]
fn scan_token_bang() {
    let mut scanner = Scanner::new("!");

    assert_eq!(TokenKind::Bang, *scanner.scan_token().unwrap().kind());
}

#[test]
fn scan_token_bang_equal() {
    let mut scanner = Scanner::new("!=");

    assert_eq!(TokenKind::BangEqual, *scanner.scan_token().unwrap().kind());
}

#[test]
fn scan_token_equal() {
    let mut scanner = Scanner::new("=");

    assert_eq!(TokenKind::Equal, *scanner.scan_token().unwrap().kind());
}

#[test]
fn scan_token_equal_equal() {
    let mut scanner = Scanner::new("==");

    assert_eq!(TokenKind::EqualEqual, *scanner.scan_token().unwrap().kind());
}

#[test]
fn scan_token_greater() {
    let mut scanner = Scanner::new(">");

    assert_eq!(TokenKind::Greater, *scanner.scan_token().unwrap().kind());
}

#[test]
fn scan_token_greater_equal() {
    let mut scanner = Scanner::new(">=");

    assert_eq!(
        TokenKind::GreaterEqual,
        *scanner.scan_token().unwrap().kind()
    );
}

#[test]
fn scan_token_less() {
    let mut scanner = Scanner::new("<");

    assert_eq!(TokenKind::Less, *scanner.scan_token().unwrap().kind());
}

#[test]
fn scan_token_less_equal() {
    let mut scanner = Scanner::new("<=");

    assert_eq!(TokenKind::LessEqual, *scanner.scan_token().unwrap().kind());
}

#[test]
fn scan_token_string() {
    let mut scanner = Scanner::new("\"this is a test string\"");

    let token = scanner.scan_token().unwrap();
    assert_eq!(TokenKind::String, *token.kind());
    assert_eq!("\"this is a test string\"", token.lexeme().unwrap());
    assert_eq!(1, scanner.line());
}

#[test]
fn scan_token_string_multiline() {
    let mut scanner = Scanner::new("\"this is a test string\n and this is the second line\"");

    let token = scanner.scan_token().unwrap();
    assert_eq!(TokenKind::String, *token.kind());
    assert_eq!(
        "\"this is a test string\n and this is the second line\"",
        token.lexeme().unwrap()
    );
    assert_eq!(2, scanner.line());
}

#[test]
#[should_panic(expected = "unterminated string literal")]
fn scan_token_string_unterminated() {
    let mut scanner = Scanner::new("\"this is a test string");

    let token = scanner.scan_token().unwrap();
    assert_eq!(
        "\"this is an unterminated test string",
        token.lexeme().unwrap()
    );
    assert_eq!(1, scanner.line());
}

#[test]
fn scan_token_number_integer() {
    let mut scanner = Scanner::new("42");

    let token = scanner.scan_token().unwrap();
    assert_eq!(TokenKind::Number, *token.kind());
    assert_eq!("42", token.lexeme().unwrap());
    assert_eq!(1, scanner.line());
}

#[test]
fn scan_token_number_float() {
    let mut scanner = Scanner::new("7.65");

    let token = scanner.scan_token().unwrap();
    assert_eq!(TokenKind::Number, *token.kind());
    assert_eq!("7.65", token.lexeme().unwrap());
    assert_eq!(1, scanner.line());
}

#[test]
fn scan_token_id() {
    let mut scanner = Scanner::new("valid_name");

    let token = scanner.scan_token().unwrap();
    assert_eq!(TokenKind::Identifier, *token.kind());
    assert_eq!("valid_name", token.lexeme().unwrap());
    assert_eq!(1, scanner.line());
}

#[test]
fn scan_token_id_underscore() {
    let mut scanner = Scanner::new("_also_valid_id");

    let token = scanner.scan_token().unwrap();
    assert_eq!(TokenKind::Identifier, *token.kind());
    assert_eq!("_also_valid_id", token.lexeme().unwrap());
    assert_eq!(1, scanner.line());
}

#[test]
fn scan_token_id_kw_and() {
    let mut scanner = Scanner::new("and");

    let token = scanner.scan_token().unwrap();
    assert_eq!(TokenKind::And, *token.kind());
    assert_eq!("and", token.lexeme().unwrap());
    assert_eq!(1, scanner.line());
}

#[test]
fn scan_token_id_kw_class() {
    let mut scanner = Scanner::new("class");

    let token = scanner.scan_token().unwrap();
    assert_eq!(TokenKind::Class, *token.kind());
    assert_eq!("class", token.lexeme().unwrap());
    assert_eq!(1, scanner.line());
}

#[test]
fn scan_token_id_kw_else() {
    let mut scanner = Scanner::new("else");

    let token = scanner.scan_token().unwrap();
    assert_eq!(TokenKind::Else, *token.kind());
    assert_eq!("else", token.lexeme().unwrap());
    assert_eq!(1, scanner.line());
}

#[test]
fn scan_token_id_kw_false() {
    let mut scanner = Scanner::new("false");

    let token = scanner.scan_token().unwrap();
    assert_eq!(TokenKind::False, *token.kind());
    assert_eq!("false", token.lexeme().unwrap());
    assert_eq!(1, scanner.line());
}

#[test]
fn scan_token_id_kw_for() {
    let mut scanner = Scanner::new("for");

    let token = scanner.scan_token().unwrap();
    assert_eq!(TokenKind::For, *token.kind());
    assert_eq!("for", token.lexeme().unwrap());
    assert_eq!(1, scanner.line());
}

#[test]
fn scan_token_id_kw_fun() {
    let mut scanner = Scanner::new("fun");

    let token = scanner.scan_token().unwrap();
    assert_eq!(TokenKind::Fun, *token.kind());
    assert_eq!("fun", token.lexeme().unwrap());
    assert_eq!(1, scanner.line());
}

#[test]
fn scan_token_id_kw_if() {
    let mut scanner = Scanner::new("if");

    let token = scanner.scan_token().unwrap();
    assert_eq!(TokenKind::If, *token.kind());
    assert_eq!("if", token.lexeme().unwrap());
    assert_eq!(1, scanner.line());
}

#[test]
fn scan_token_id_kw_nil() {
    let mut scanner = Scanner::new("nil");

    let token = scanner.scan_token().unwrap();
    assert_eq!(TokenKind::Nil, *token.kind());
    assert_eq!("nil", token.lexeme().unwrap());
    assert_eq!(1, scanner.line());
}

#[test]
fn scan_token_id_kw_or() {
    let mut scanner = Scanner::new("or");

    let token = scanner.scan_token().unwrap();
    assert_eq!(TokenKind::Or, *token.kind());
    assert_eq!("or", token.lexeme().unwrap());
    assert_eq!(1, scanner.line());
}

#[test]
fn scan_token_id_kw_print() {
    let mut scanner = Scanner::new("print");

    let token = scanner.scan_token().unwrap();
    assert_eq!(TokenKind::Print, *token.kind());
    assert_eq!("print", token.lexeme().unwrap());
    assert_eq!(1, scanner.line());
}

#[test]
fn scan_token_id_kw_return() {
    let mut scanner = Scanner::new("return");

    let token = scanner.scan_token().unwrap();
    assert_eq!(TokenKind::Return, *token.kind());
    assert_eq!("return", token.lexeme().unwrap());
    assert_eq!(1, scanner.line());
}

#[test]
fn scan_token_id_kw_super() {
    let mut scanner = Scanner::new("super");

    let token = scanner.scan_token().unwrap();
    assert_eq!(TokenKind::Super, *token.kind());
    assert_eq!("super", token.lexeme().unwrap());
    assert_eq!(1, scanner.line());
}

#[test]
fn scan_token_id_kw_this() {
    let mut scanner = Scanner::new("this");

    let token = scanner.scan_token().unwrap();
    assert_eq!(TokenKind::This, *token.kind());
    assert_eq!("this", token.lexeme().unwrap());
    assert_eq!(1, scanner.line());
}

#[test]
fn scan_token_id_kw_true() {
    let mut scanner = Scanner::new("true");

    let token = scanner.scan_token().unwrap();
    assert_eq!(TokenKind::True, *token.kind());
    assert_eq!("true", token.lexeme().unwrap());
    assert_eq!(1, scanner.line());
}

#[test]
fn scan_token_id_kw_var() {
    let mut scanner = Scanner::new("var");

    let token = scanner.scan_token().unwrap();
    assert_eq!(TokenKind::Var, *token.kind());
    assert_eq!("var", token.lexeme().unwrap());
    assert_eq!(1, scanner.line());
}

#[test]
fn scan_token_id_kw_while() {
    let mut scanner = Scanner::new("while");

    let token = scanner.scan_token().unwrap();
    assert_eq!(TokenKind::While, *token.kind());
    assert_eq!("while", token.lexeme().unwrap());
    assert_eq!(1, scanner.line());
}

#[test]
fn scan_token_id_contains_but_not_exact() {
    let mut scanner = Scanner::new("variable");

    let token = scanner.scan_token().unwrap();
    assert_eq!(TokenKind::Identifier, *token.kind());
    assert_eq!("variable", token.lexeme().unwrap());
    assert_eq!(1, scanner.line());
}

#[test]
fn iterator() {
    let mut scanner = Scanner::new(SOURCE);

    let expected_tokens = vec![
        Token::new(TokenKind::Print, 1, 0, Some("print")),
        Token::new(TokenKind::String, 1, 6, Some("\"This is a test\"")),
        Token::new(TokenKind::Var, 2, 23, Some("var")),
        Token::new(TokenKind::Identifier, 2, 27, Some("a")),
        Token::new(TokenKind::Equal, 2, 29, Some("=")),
        Token::new(TokenKind::Number, 2, 31, Some("1")),
        Token::new(TokenKind::Semicolon, 2, 32, Some(";")),
    ];

    let tokens: Vec<Token> = scanner.tokens().unwrap();

    assert_eq!(expected_tokens, tokens);
}

#[test]
fn token_starts_count_bytes() {
    let mut scanner = Scanner::new("\"é\" x // ü\ny");
    let string = scanner.scan_token().unwrap();
    assert_eq!(TokenKind::String, *string.kind());
    assert_eq!("\"é\"", string.lexeme().unwrap());
    assert_eq!(0, string.start);
    let x = scanner.scan_token().unwrap();
    assert_eq!("x", x.lexeme().unwrap());
    assert_eq!(5, x.start);
    let comment = scanner.scan_token().unwrap();
    assert_eq!(TokenKind::Comment, *comment.kind());
    assert_eq!("// ü", comment.lexeme().unwrap());
    assert_eq!(7, comment.start);
    let y = scanner.scan_token().unwrap();
    assert_eq!("y", y.lexeme().unwrap());
    assert_eq!(13, y.start);
    assert_eq!(2, y.line);
    let eof = scanner.scan_token().unwrap();
    assert!(eof.is_eof());
    assert_eq!(14, eof.start);
    assert_eq!(None, eof.lexeme());
}

#[test]
fn eof_is_returned_again_and_again() {
    let mut scanner = Scanner::new("1 ");
    assert_eq!(TokenKind::Number, *scanner.scan_token().unwrap().kind());
    for _ in 0..3 {
        let token = scanner.scan_token().unwrap();
        assert_eq!(TokenKind::Eof, *token.kind());
        assert_eq!(2, token.start);
    }
}

#[test]
fn unknown_characters_are_errors() {
    let mut scanner = Scanner::new("\n  @");
    let error = scanner.scan_token().unwrap_err();
    assert_eq!("unexpected character.", error.msg());
    assert_eq!(2, error.line());
    let mut scanner = Scanner::new("é");
    assert_eq!("unexpected character.", scanner.scan_token().unwrap_err().msg());
}

#[test]
fn unterminated_string_is_an_error_on_its_last_line() {
    let mut scanner = Scanner::new("\"one\ntwo\nthree");
    let error = scanner.scan_token().unwrap_err();
    assert_eq!("unterminated string literal", error.msg());
    assert_eq!(3, error.line());
    assert_eq!(true, scanner.is_at_end());
}

#[test]
fn identifiers_are_ascii_letters_digits_and_underscores() {
    let mut scanner = Scanner::new("a1_b2 _ Z9");
    assert_eq!("a1_b2", scanner.scan_token().unwrap().lexeme().unwrap());
    assert_eq!("_", scanner.scan_token().unwrap().lexeme().unwrap());
    assert_eq!("Z9", scanner.scan_token().unwrap().lexeme().unwrap());
}

#[test]
fn keywords_must_match_exactly() {
    for (text, kind) in [
        ("an", TokenKind::Identifier),
        ("andy", TokenKind::Identifier),
        ("f", TokenKind::Identifier),
        ("fa", TokenKind::Identifier),
        ("fals", TokenKind::Identifier),
        ("falsey", TokenKind::Identifier),
        ("t", TokenKind::Identifier),
        ("tr", TokenKind::Identifier),
        ("thi", TokenKind::Identifier),
        ("supers", TokenKind::Identifier),
        ("If", TokenKind::Identifier),
        ("or", TokenKind::Or),
        ("true", TokenKind::True),
    ] {
        let mut scanner = Scanner::new(text);
        let token = scanner.scan_token().unwrap();
        assert_eq!(kind, *token.kind(), "{}", text);
        assert_eq!(text, token.lexeme().unwrap());
    }
}

#[test]
fn numbers_take_a_dot_only_before_a_digit() {
    let mut scanner = Scanner::new("12.5.x 3. .4");
    let kinds_and_texts: Vec<(TokenKind, String)> = scanner
        .tokens()
        .unwrap()
        .iter()
        .map(|token| (*token.kind(), token.lexeme().unwrap().to_string()))
        .collect();
    let expected = vec![
        (TokenKind::Number, "12.5".to_string()),
        (TokenKind::Dot, ".".to_string()),
        (TokenKind::Identifier, "x".to_string()),
        (TokenKind::Number, "3".to_string()),
        (TokenKind::Dot, ".".to_string()),
        (TokenKind::Dot, ".".to_string()),
        (TokenKind::Number, "4".to_string()),
    ];
    assert_eq!(expected, kinds_and_texts);
}

#[test]
fn tokens_stop_at_the_first_error() {
    let mut scanner = Scanner::new("1 + \"open");
    let error = scanner.tokens().unwrap_err();
    assert_eq!("unterminated string literal", error.msg());
}

#[test]
fn number_literals_are_listed_in_order() {
    assert_eq!(
        vec!["1", "2.50", "3"],
        rlox::scanner::number_literals("var a = 1; // 9\nprint a + 2.50 * (3);")
    );
    assert_eq!(vec!["7"], rlox::scanner::number_literals("7 + \"open 8"));
    assert!(rlox::scanner::number_literals("print \"1\";").is_empty());
}

#[test]
fn dummy_token_has_no_lexeme() {
    let token = Token::dummy();
    assert_eq!(TokenKind::Dummy, *token.kind());
    assert_eq!(None, token.lexeme());
    assert_eq!(token, Token::default());
    assert_eq!(TokenKind::Dummy, TokenKind::default());
    assert!(TokenKind::Eof.is_eof());
    assert!(!token.is_eof());
}

#[test]
fn long_sources_are_scanned_quickly() {
    let mut source = String::new();
    for i in 0..50_000 {
        source.push_str("\"é\" name ");
        source.push_str(&i.to_string());
        source.push('\n');
    }
    let mut scanner = Scanner::new(&source);
    let tokens = scanner.tokens().unwrap();
    assert_eq!(150_000, tokens.len());
    assert_eq!(50_000, tokens[tokens.len() - 1].line);
}
