use lexer::lexer::{lex, parse_token, LexerError, Token};

#[test]
fn it_lex_it_properly() {
    let tokens = vec![
        (
            "let poggers: Int = 15;",
            vec![
                Token::Let,
                Token::Identifier(String::from("poggers")),
                Token::TypeIndicator,
                Token::Type(String::from("Int")),
                Token::Equal,
                Token::Identifier(String::from("15")),
                Token::SemiColon,
            ],
        ),
        ("fn fn", vec![Token::Fn, Token::Fn]),
    ];

    for (raw_token, tokens) in tokens {
        let lexed_tokens: Vec<Token> = lex(raw_token).unwrap();

        assert_eq!(lexed_tokens, tokens)
    }
}

#[test]
fn it_stops_when_starts_with_identifier() {
    let invalid_tokens = vec!["poggers omegalul pogchamp kekw", "123pogg"];

    for token in invalid_tokens {
        assert_eq!(Err(LexerError::InvalidToken), lex(token));
    }
}

#[test]
fn empty_and_blank_inputs_give_no_tokens() {
    assert_eq!(Ok(vec![]), lex(""));
    assert_eq!(Ok(vec![]), lex(" "));
    assert_eq!(Ok(vec![]), lex("    "));
}

#[test]
fn extra_spaces_between_tokens_change_nothing() {
    let expected = lex("let poggers: Int = 15;").unwrap();
    assert_eq!(expected, lex("let poggers : Int = 15 ;").unwrap());
    assert_eq!(expected, lex("let  poggers:  Int =  15; ").unwrap());
    assert_eq!(expected, lex(" let poggers: Int = 15;").unwrap());
    assert_eq!(vec![Token::Fn, Token::Fn], lex("fn  fn").unwrap());
}

#[test]
fn symbols_adjacent_to_words_flush_the_word() {
    assert_eq!(
        Ok(vec![
            Token::Let,
            Token::Identifier(String::from("x")),
            Token::TypeIndicator,
            Token::Type(String::from("Int")),
        ]),
        lex("let x:Int")
    );
    assert_eq!(
        Ok(vec![
            Token::LeftBrace,
            Token::Identifier(String::from("x")),
            Token::TypeIndicator,
            Token::Type(String::from("Int")),
            Token::RightBrace,
        ]),
        lex("{x:Int}")
    );
}

#[test]
fn leading_identifier_before_symbol_is_rejected() {
    assert_eq!(Err(LexerError::InvalidToken), lex("x;"));
    assert_eq!(Err(LexerError::InvalidToken), lex("x = 15;"));
    assert_eq!(Err(LexerError::InvalidToken), lex("  x = 15;"));
}

#[test]
fn symbols_alone_lex_to_their_fixed_tokens() {
    assert_eq!(
        Ok(vec![
            Token::Equal,
            Token::LeftBrace,
            Token::RightBrace,
            Token::TypeIndicator,
            Token::SemiColon,
        ]),
        lex("={}:;")
    );
}

#[test]
fn keywords_and_type_names_classify() {
    assert_eq!(Some(Token::Fn), parse_token(String::from("fn")));
    assert_eq!(Some(Token::Let), parse_token(String::from("let")));
    assert_eq!(
        Some(Token::Type(String::from("String"))),
        parse_token(String::from("String"))
    );
    assert_eq!(
        Some(Token::Type(String::from("Int"))),
        parse_token(String::from("Int"))
    );
    assert_eq!(
        Some(Token::Type(String::from("Bool"))),
        parse_token(String::from("Bool"))
    );
    assert_eq!(
        Some(Token::Type(String::from("Char"))),
        parse_token(String::from("Char"))
    );
}

#[test]
fn alphanumeric_words_always_classify() {
    assert_eq!(
        Some(Token::Identifier(String::from("abc123"))),
        parse_token(String::from("abc123"))
    );
    assert_eq!(
        Some(Token::Identifier(String::from("15"))),
        parse_token(String::from("15"))
    );
    assert_eq!(
        Some(Token::Identifier(String::from("Float"))),
        parse_token(String::from("Float"))
    );
    assert_eq!(
        Some(Token::Identifier(String::from("caf\u{e9}"))),
        parse_token(String::from("caf\u{e9}"))
    );
    assert_eq!(
        Some(Token::Identifier(String::from("\u{665}\u{664}"))),
        parse_token(String::from("\u{665}\u{664}"))
    );
}

#[test]
fn empty_and_malformed_words_are_dropped() {
    assert_eq!(None, parse_token(String::from("")));
    assert_eq!(None, parse_token(String::from("a!b")));
    assert_eq!(None, parse_token(String::from("my_var")));
    assert_eq!(None, parse_token(String::from("caf\u{e9}!")));
}

#[test]
fn unicode_words_lex_like_ascii_words() {
    assert_eq!(
        Ok(vec![Token::Fn, Token::Identifier(String::from("h\u{e9}llo"))]),
        lex("fn h\u{e9}llo")
    );
    assert_eq!(Err(LexerError::InvalidToken), lex("h\u{e9}llo ;x"));
    assert_eq!(
        Ok(vec![
            Token::Let,
            Token::Identifier(String::from("caf\u{e9}")),
            Token::TypeIndicator,
            Token::Type(String::from("Int")),
            Token::SemiColon,
        ]),
        lex("let caf\u{e9}: Int;")
    );
}

#[test]
fn dropped_words_act_as_separators() {
    assert_eq!(Ok(vec![Token::Fn]), lex("fn a!b"));
    assert_eq!(
        Ok(vec![Token::Fn, Token::Identifier(String::from("c"))]),
        lex("fn a!b c")
    );
    assert_eq!(Ok(vec![]), lex("!x"));
}

#[test]
fn lexing_twice_gives_identical_results() {
    let source = "let poggers: Int = 15;";
    assert_eq!(lex(source), lex(source));
    let bad = "123pogg";
    assert_eq!(lex(bad), lex(bad));
}

#[test]
fn error_messages_are_fixed() {
    assert_eq!("invalid token", LexerError::InvalidToken.message());
    assert_eq!(
        "cannot start with an identifier",
        LexerError::StartedWithIdentifier.message()
    );
}
