use rox::scanner::{Scanner, Token, TokenKind};

#[test]
fn identifiers_are_parsed() {
    let mut scanner = Scanner::new("railroad");
    assert_eq!(
        scanner.next(),
        Token::new(TokenKind::Identifier, "railroad", 1)
    );
}

#[test]
fn keywords_are_parsed() {
    let mut scanner = Scanner::new("this");
    assert_eq!(scanner.next(), Token::new(TokenKind::This, "this", 1));
}

#[test]
fn punctuation_is_parsed() {
    let mut scanner = Scanner::new("{");
    assert_eq!(scanner.next(), Token::new(TokenKind::LeftBrace, "{", 1));
}

#[test]
fn multicharacter_tokens_are_parsed() {
    let mut scanner = Scanner::new("!=");
    assert_eq!(scanner.next(), Token::new(TokenKind::BangEqual, "!=", 1));
}

#[test]
fn whitespace_is_skipped() {
    let mut scanner = Scanner::new(" love");
    assert_eq!(scanner.next(), Token::new(TokenKind::Identifier, "love", 1));
}

#[test]
fn comment_is_skipped() {
    let mut scanner = Scanner::new("// test a comment\ndifficult");
    assert_eq!(
        scanner.next(),
        Token::new(TokenKind::Identifier, "difficult", 2)
    );
}

#[test]
fn newlines_increment_line_number() {
    let mut scanner = Scanner::new("\n.");
    assert_eq!(scanner.next(), Token::new(TokenKind::Dot, ".", 2));
}

fn kinds(source: &str) -> Vec<TokenKind> {
    let mut scanner = Scanner::new(source);
    let mut kinds = Vec::new();
    loop {
        let token = scanner.next();
        kinds.push(token.kind);
        if token.kind == TokenKind::End {
            return kinds;
        }
    }
}

#[test]
fn unterminated_string_is_an_error() {
    let mut scanner = Scanner::new("\"abc");
    assert_eq!(
        scanner.next(),
        Token::new(TokenKind::Error, "Unterminated string.", 1)
    );
    assert_eq!(scanner.next(), Token::new(TokenKind::End, "", 1));
}

#[test]
fn unexpected_character_is_an_error() {
    let mut scanner = Scanner::new("@ 1");
    assert_eq!(
        scanner.next(),
        Token::new(TokenKind::Error, "Unexpected character", 1)
    );
    assert_eq!(scanner.next(), Token::new(TokenKind::Number, "1", 1));
}

#[test]
fn a_character_of_several_bytes_is_one_error() {
    let mut scanner = Scanner::new("\u{e9}\u{4e16}\u{1f600}x");
    for _ in 0..3 {
        assert_eq!(
            scanner.next(),
            Token::new(TokenKind::Error, "Unexpected character", 1)
        );
    }
    assert_eq!(scanner.next(), Token::new(TokenKind::Identifier, "x", 1));
    assert_eq!(scanner.next(), Token::new(TokenKind::End, "", 1));
}

#[test]
fn end_is_returned_again_and_again() {
    let mut scanner = Scanner::new("a\n");
    assert_eq!(scanner.next(), Token::new(TokenKind::Identifier, "a", 1));
    for _ in 0..5 {
        assert_eq!(scanner.next(), Token::new(TokenKind::End, "", 2));
    }
}

#[test]
fn empty_source_is_at_its_end() {
    let mut scanner = Scanner::new("");
    assert_eq!(scanner.next(), Token::new(TokenKind::End, "", 1));
}

#[test]
fn every_keyword_has_its_kind() {
    assert_eq!(
        kinds("and class else false for fun if nil or print return super this true var while"),
        vec![
            TokenKind::And,
            TokenKind::Class,
            TokenKind::Else,
            TokenKind::False,
            TokenKind::For,
            TokenKind::Fun,
            TokenKind::If,
            TokenKind::Nil,
            TokenKind::Or,
            TokenKind::Print,
            TokenKind::Return,
            TokenKind::Super,
            TokenKind::This,
            TokenKind::True,
            TokenKind::Var,
            TokenKind::While,
            TokenKind::End,
        ]
    );
}

#[test]
fn a_keyword_inside_a_word_is_an_identifier() {
    assert_eq!(
        kinds("fort android nil2 If"),
        vec![
            TokenKind::Identifier,
            TokenKind::Identifier,
            TokenKind::Identifier,
            TokenKind::Identifier,
            TokenKind::End,
        ]
    );
}

#[test]
fn an_underscore_is_no_letter() {
    assert_eq!(
        kinds("a_b"),
        vec![
            TokenKind::Identifier,
            TokenKind::Error,
            TokenKind::Identifier,
            TokenKind::End,
        ]
    );
}

#[test]
fn every_symbol_has_its_kind() {
    assert_eq!(
        kinds("( ) { } , . - + ; / * ! != = == > >= < <="),
        vec![
            TokenKind::LeftParen,
            TokenKind::RightParen,
            TokenKind::LeftBrace,
            TokenKind::RightBrace,
            TokenKind::Comma,
            TokenKind::Dot,
            TokenKind::Minus,
            TokenKind::Plus,
            TokenKind::Semicolon,
            TokenKind::Slash,
            TokenKind::Star,
            TokenKind::Bang,
            TokenKind::BangEqual,
            TokenKind::Equal,
            TokenKind::EqualEqual,
            TokenKind::Greater,
            TokenKind::GreaterEqual,
            TokenKind::Less,
            TokenKind::LessEqual,
            TokenKind::End,
        ]
    );
}

#[test]
fn symbols_need_no_blank_between_them() {
    assert_eq!(
        kinds("!===<=>"),
        vec![
            TokenKind::BangEqual,
            TokenKind::EqualEqual,
            TokenKind::LessEqual,
            TokenKind::Greater,
            TokenKind::End,
        ]
    );
}

#[test]
fn a_symbol_at_the_end_is_scanned() {
    let mut scanner = Scanner::new("1 !");
    assert_eq!(scanner.next(), Token::new(TokenKind::Number, "1", 1));
    assert_eq!(scanner.next(), Token::new(TokenKind::Bang, "!", 1));
    assert_eq!(scanner.next(), Token::new(TokenKind::End, "", 1));
}

#[test]
fn numbers_have_digits_on_both_sides_of_the_dot() {
    let mut scanner = Scanner::new("12.50 7. .5 3.x");
    assert_eq!(scanner.next(), Token::new(TokenKind::Number, "12.50", 1));
    assert_eq!(scanner.next(), Token::new(TokenKind::Number, "7", 1));
    assert_eq!(scanner.next(), Token::new(TokenKind::Dot, ".", 1));
    assert_eq!(scanner.next(), Token::new(TokenKind::Dot, ".", 1));
    assert_eq!(scanner.next(), Token::new(TokenKind::Number, "5", 1));
    assert_eq!(scanner.next(), Token::new(TokenKind::Number, "3", 1));
    assert_eq!(scanner.next(), Token::new(TokenKind::Dot, ".", 1));
    assert_eq!(scanner.next(), Token::new(TokenKind::Identifier, "x", 1));
    assert_eq!(scanner.next(), Token::new(TokenKind::End, "", 1));
}

#[test]
fn a_number_takes_one_dot_only() {
    let mut scanner = Scanner::new("1.2.3");
    assert_eq!(scanner.next(), Token::new(TokenKind::Number, "1.2", 1));
    assert_eq!(scanner.next(), Token::new(TokenKind::Dot, ".", 1));
    assert_eq!(scanner.next(), Token::new(TokenKind::Number, "3", 1));
}

#[test]
fn a_string_keeps_its_quotes() {
    let mut scanner = Scanner::new("\"hi there\" \"\"");
    assert_eq!(
        scanner.next(),
        Token::new(TokenKind::String, "\"hi there\"", 1)
    );
    assert_eq!(scanner.next(), Token::new(TokenKind::String, "\"\"", 1));
    assert_eq!(scanner.next(), Token::new(TokenKind::End, "", 1));
}

#[test]
fn a_string_may_hold_any_character() {
    let mut scanner = Scanner::new("\"gr\u{fc}\u{df} // @\" x");
    assert_eq!(
        scanner.next(),
        Token::new(TokenKind::String, "\"gr\u{fc}\u{df} // @\"", 1)
    );
    assert_eq!(scanner.next(), Token::new(TokenKind::Identifier, "x", 1));
}

#[test]
fn a_string_over_several_lines_is_on_its_first_line() {
    let mut scanner = Scanner::new("\n\"a\nb\n\" c");
    assert_eq!(scanner.next(), Token::new(TokenKind::String, "\"a\nb\n\"", 2));
    assert_eq!(scanner.next(), Token::new(TokenKind::Identifier, "c", 4));
}

#[test]
fn an_unterminated_string_counts_its_lines() {
    let mut scanner = Scanner::new("\"a\nb\n");
    assert_eq!(
        scanner.next(),
        Token::new(TokenKind::Error, "Unterminated string.", 1)
    );
    assert_eq!(scanner.next(), Token::new(TokenKind::End, "", 3));
}

#[test]
fn a_comment_runs_to_the_end_of_its_line() {
    assert_eq!(
        kinds("1 // two three\n// four\n5 // six"),
        vec![TokenKind::Number, TokenKind::Number, TokenKind::End]
    );
    assert_eq!(kinds("//"), vec![TokenKind::End]);
    assert_eq!(kinds("// \u{e9}"), vec![TokenKind::End]);
}

#[test]
fn a_single_slash_is_a_token() {
    assert_eq!(
        kinds("1 / 2 /"),
        vec![
            TokenKind::Number,
            TokenKind::Slash,
            TokenKind::Number,
            TokenKind::Slash,
            TokenKind::End,
        ]
    );
}

#[test]
fn blanks_of_every_kind_are_skipped() {
    let mut scanner = Scanner::new(" \t\r\n \r\n\tx");
    assert_eq!(scanner.next(), Token::new(TokenKind::Identifier, "x", 3));
}

#[test]
fn number_literals_come_in_order() {
    assert_eq!(
        rox::scanner::number_literals("1 + (2.5 * x) - \"3\" // 4\n 07"),
        vec!["1", "2.5", "07"]
    );
    assert!(rox::scanner::number_literals("true").is_empty());
}
