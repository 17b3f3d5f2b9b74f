use list_lexer::ListTokenizer;
use list_lexer::Token;
use list_lexer::TokenizeError;

#[test]
fn list_tokenizer() {
    let input = String::from("[a, b]");
    let mut tokenizer = ListTokenizer::new(&input);
    let tokens = tokenizer.tokenize();
    let _ = tokens;
}

#[test]
fn empty_input_is_end_of_input_only() {
    let tokens = list_lexer::list_tokenizer("").unwrap();
    assert_eq!(tokens, vec![Token::EndOfInput]);
}

#[test]
fn whitespace_only_is_end_of_input_only() {
    for input in [" ", "\t", "\n", "\r", " \t\r\n ", "    "] {
        let tokens = list_lexer::list_tokenizer(input).unwrap();
        assert_eq!(tokens, vec![Token::EndOfInput]);
    }
}

#[test]
fn single_invalid_character_fails_with_that_character() {
    for (input, expected) in [(";", ';'), ("@", '@'), ("1", '1'), ("_", '_'), ("#", '#')] {
        let result = list_lexer::list_tokenizer(input);
        assert_eq!(result, Err(TokenizeError::InvalidCharacter(expected)));
    }
}

#[test]
fn bracket_pair() {
    let tokens = list_lexer::list_tokenizer("[]").unwrap();
    assert_eq!(tokens, vec![Token::BracketOpen, Token::BracketClose, Token::EndOfInput]);
}

#[test]
fn bare_identifier() {
    let tokens = list_lexer::list_tokenizer("foo").unwrap();
    assert_eq!(tokens, vec![Token::ListItem(String::from("foo")), Token::EndOfInput]);
}

#[test]
fn bracketed_identifier() {
    let tokens = list_lexer::list_tokenizer("[foo]").unwrap();
    assert_eq!(
        tokens,
        vec![
            Token::BracketOpen,
            Token::ListItem(String::from("foo")),
            Token::BracketClose,
            Token::EndOfInput,
        ]
    );
}

#[test]
fn two_items_with_comma() {
    let tokens = list_lexer::list_tokenizer("[foo, bar]").unwrap();
    assert_eq!(
        tokens,
        vec![
            Token::BracketOpen,
            Token::ListItem(String::from("foo")),
            Token::Comma,
            Token::ListItem(String::from("bar")),
            Token::BracketClose,
            Token::EndOfInput,
        ]
    );
}

#[test]
fn whitespace_between_tokens_changes_nothing() {
    let spaced = list_lexer::list_tokenizer("[ foo , bar ]").unwrap();
    let dense = list_lexer::list_tokenizer("[foo,bar]").unwrap();
    assert_eq!(spaced, dense);
    let wild = list_lexer::list_tokenizer("\t[\n foo ,\r\n bar ]\n").unwrap();
    assert_eq!(wild, dense);
}

#[test]
fn unbalanced_brackets_tokenize_successfully() {
    let tokens = list_lexer::list_tokenizer("[[[").unwrap();
    assert_eq!(
        tokens,
        vec![Token::BracketOpen, Token::BracketOpen, Token::BracketOpen, Token::EndOfInput]
    );
    let tokens = list_lexer::list_tokenizer("]").unwrap();
    assert_eq!(tokens, vec![Token::BracketClose, Token::EndOfInput]);
}

#[test]
fn end_of_input_is_last_and_unique() {
    for input in ["", "  ", "[]", "foo", "[foo]", "[foo, bar]", "[[[", "a b c"] {
        let tokens = list_lexer::list_tokenizer(input).unwrap();
        assert!(!tokens.is_empty());
        assert_eq!(tokens.last(), Some(&Token::EndOfInput));
        for token in &tokens[..tokens.len() - 1] {
            assert_ne!(token, &Token::EndOfInput);
        }
    }
}

#[test]
fn invalid_character_discards_earlier_tokens() {
    let result = list_lexer::list_tokenizer("[foo;");
    assert_eq!(result, Err(TokenizeError::InvalidCharacter(';')));
    let result = list_lexer::list_tokenizer(";foo");
    assert_eq!(result, Err(TokenizeError::InvalidCharacter(';')));
}

#[test]
fn identifier_run_stops_at_first_invalid_character() {
    let result = list_lexer::list_tokenizer("ab1");
    assert_eq!(result, Err(TokenizeError::InvalidCharacter('1')));
}

#[test]
fn non_ascii_alphabetic_is_invalid() {
    let result = list_lexer::list_tokenizer("caf\u{e9}");
    assert_eq!(result, Err(TokenizeError::InvalidCharacter('\u{e9}')));
}

#[test]
fn offending_char_reports_the_character() {
    let error = list_lexer::list_tokenizer("%").unwrap_err();
    assert_eq!(error.offending_char(), '%');
}

#[test]
fn next_token_walks_the_stream() {
    let mut tokenizer = ListTokenizer::new("[hi]");
    assert_eq!(tokenizer.next_token(), Ok(Token::BracketOpen));
    assert_eq!(tokenizer.next_token(), Ok(Token::ListItem(String::from("hi"))));
    assert_eq!(tokenizer.next_token(), Ok(Token::BracketClose));
    assert_eq!(tokenizer.next_token(), Ok(Token::EndOfInput));
    assert_eq!(tokenizer.next_token(), Ok(Token::EndOfInput));
}

#[test]
fn cursor_advances_and_peeks() {
    let mut cursor = list_lexer::Cursor::new("ab");
    assert_eq!(cursor.position(), 0);
    assert_eq!(cursor.peek(), Some('a'));
    assert_eq!(cursor.peek(), Some('a'));
    assert_eq!(cursor.advance(), Some('a'));
    assert_eq!(cursor.position(), 1);
    assert_eq!(cursor.peek(), Some('b'));
    assert_eq!(cursor.advance(), Some('b'));
    assert_eq!(cursor.peek(), None);
    assert_eq!(cursor.advance(), None);
    assert_eq!(cursor.position(), 2);
}
